//! Delimited text: splitting, joining and canonical numbers.
use vstd::prelude::*;
use vstd::string::*;

use crate::text::{decimal, digit, hex_digit, hex_digits};

verus! {

/// The pieces between the separators, at least one.
pub open spec fn split_on(s: Seq<char>, sep: char) -> Seq<Seq<char>>
    decreases s.len(),
{
    if s.len() == 0 {
        seq![Seq::<char>::empty()]
    } else {
        let before = split_on(s.drop_last(), sep);
        if s.last() == sep {
            before.push(Seq::empty())
        } else {
            before.drop_last().push(before.last().push(s.last()))
        }
    }
}

/// The parts with a separator between neighbours.
pub open spec fn joined(parts: Seq<Seq<char>>, sep: char) -> Seq<char>
    decreases parts.len(),
{
    if parts.len() == 0 {
        Seq::empty()
    } else if parts.len() == 1 {
        parts[0]
    } else {
        joined(parts.drop_last(), sep).push(sep) + parts.last()
    }
}

/// The lines, each closed by a newline.
pub open spec fn terminated(lines: Seq<Seq<char>>) -> Seq<char>
    decreases lines.len(),
{
    if lines.len() == 0 {
        Seq::empty()
    } else {
        (terminated(lines.drop_last()) + lines.last()).push('\n')
    }
}

/// The pieces of a text whose lines are closed by newlines: an empty last
/// piece does not count.
pub open spec fn text_lines(s: Seq<char>) -> Seq<Seq<char>> {
    let pieces = split_on(s, '\n');
    if pieces.last().len() == 0 {
        pieces.drop_last()
    } else {
        pieces
    }
}

/// No character equals `sep`.
pub open spec fn free_of(s: Seq<char>, sep: char) -> bool {
    forall|i: int| 0 <= i < s.len() ==> #[trigger] s[i] != sep
}

/// No part holds the separator.
pub open spec fn all_free_of(parts: Seq<Seq<char>>, sep: char) -> bool {
    forall|i: int| 0 <= i < parts.len() ==> free_of(#[trigger] parts[i], sep)
}

pub proof fn lemma_split_nonempty(s: Seq<char>, sep: char)
    ensures
        split_on(s, sep).len() >= 1,
    decreases s.len(),
{
    if s.len() > 0 {
        lemma_split_nonempty(s.drop_last(), sep);
    }
}

/// A text without separators is one piece.
pub proof fn lemma_split_single(s: Seq<char>, sep: char)
    requires
        free_of(s, sep),
    ensures
        split_on(s, sep) == seq![s],
    decreases s.len(),
{
    if s.len() == 0 {
        assert(s =~= Seq::<char>::empty());
    } else {
        lemma_split_single(s.drop_last(), sep);
        assert(s[s.len() - 1] != sep);
        assert(s.drop_last().push(s.last()) =~= s);
        assert(split_on(s, sep) =~= seq![s]);
    }
}

/// A separator parts the pieces of its two sides.
pub proof fn lemma_split_at(a: Seq<char>, b: Seq<char>, sep: char)
    ensures
        split_on(a.push(sep) + b, sep) == split_on(a, sep) + split_on(b, sep),
    decreases b.len(),
{
    let whole = a.push(sep) + b;
    if b.len() == 0 {
        assert(whole =~= a.push(sep));
        assert(whole.drop_last() =~= a);
        assert(split_on(whole, sep) =~= split_on(a, sep) + split_on(b, sep));
    } else {
        lemma_split_at(a, b.drop_last(), sep);
        lemma_split_nonempty(b.drop_last(), sep);
        assert(whole.drop_last() =~= a.push(sep) + b.drop_last());
        assert(whole.last() == b.last());
        assert(split_on(whole, sep) =~= split_on(a, sep) + split_on(b, sep));
    }
}

/// Splitting undoes joining when no part holds the separator.
pub proof fn law_split_joined(parts: Seq<Seq<char>>, sep: char)
    requires
        parts.len() >= 1,
        all_free_of(parts, sep),
    ensures
        split_on(joined(parts, sep), sep) == parts,
    decreases parts.len(),
{
    assert(free_of(parts[parts.len() - 1], sep));
    lemma_split_single(parts.last(), sep);
    if parts.len() == 1 {
        assert(seq![parts[0]] =~= parts);
    } else {
        assert(all_free_of(parts.drop_last(), sep)) by {
            assert forall|i: int| 0 <= i < parts.len() - 1 implies free_of(
                #[trigger] parts.drop_last()[i],
                sep,
            ) by {
                assert(free_of(parts[i], sep));
            }
        }
        law_split_joined(parts.drop_last(), sep);
        lemma_split_at(joined(parts.drop_last(), sep), parts.last(), sep);
        assert(parts.drop_last() + seq![parts.last()] =~= parts);
    }
}

/// Splitting into lines undoes closing them.
pub proof fn law_lines_of_terminated(lines: Seq<Seq<char>>)
    requires
        all_free_of(lines, '\n'),
    ensures
        text_lines(terminated(lines)) == lines,
        split_on(terminated(lines), '\n') == lines.push(Seq::empty()),
    decreases lines.len(),
{
    if lines.len() == 0 {
        assert(split_on(terminated(lines), '\n') =~= lines.push(Seq::empty()));
        assert(lines.push(Seq::empty()).drop_last() =~= lines);
    } else {
        let rest = lines.drop_last();
        assert(all_free_of(rest, '\n')) by {
            assert forall|i: int| 0 <= i < rest.len() implies free_of(#[trigger] rest[i], '\n') by {
                assert(free_of(lines[i], '\n'));
            }
        }
        law_lines_of_terminated(rest);
        assert(free_of(lines[lines.len() - 1], '\n'));
        lemma_split_single(lines.last(), '\n');
        let t = terminated(rest) + lines.last();
        assert(split_on(t, '\n') == rest.push(lines.last())) by {
            if rest.len() == 0 {
                assert(terminated(rest) + lines.last() =~= lines.last());
                assert(rest.push(lines.last()) =~= seq![lines.last()]);
            } else {
                let prefix = terminated(rest).drop_last();
                assert(terminated(rest) =~= prefix.push('\n'));
                lemma_split_at(prefix, Seq::empty(), '\n');
                assert(prefix.push('\n') + Seq::<char>::empty() =~= prefix.push('\n'));
                assert(split_on(Seq::<char>::empty(), '\n') =~= seq![Seq::<char>::empty()]);
                assert(split_on(prefix, '\n') =~= rest) by {
                    let whole = split_on(prefix, '\n') + seq![Seq::<char>::empty()];
                    assert(whole =~= rest.push(Seq::empty()));
                    assert(whole.drop_last() =~= split_on(prefix, '\n'));
                    assert(rest.push(Seq::<char>::empty()).drop_last() =~= rest);
                }
                lemma_split_at(prefix, lines.last(), '\n');
                assert(rest + seq![lines.last()] =~= rest.push(lines.last()));
            }
        }
        assert(rest.push(lines.last()) =~= lines);
        let closed = t.push('\n');
        assert(closed.drop_last() =~= t);
        assert(split_on(closed, '\n') =~= lines.push(Seq::empty()));
        assert(lines.push(Seq::<char>::empty()).drop_last() =~= lines);
    }
}

/// The texts of a list.
pub open spec fn texts(v: Seq<Vec<char>>) -> Seq<Seq<char>> {
    Seq::new(v.len(), |i: int| v[i]@)
}

/// The texts of a list of strings.
pub open spec fn string_texts(v: Seq<String>) -> Seq<Seq<char>> {
    Seq::new(v.len(), |i: int| v[i]@)
}

/// Collects the characters of a text.
pub fn chars_of(s: &str) -> (r: Vec<char>)
    ensures
        r@ == s@,
{
    broadcast use axiom_spec_iter;

    let mut r: Vec<char> = Vec::new();
    for c in it: s.chars()
        invariant
            it.seq() == s@,
            r@ == it.seq().subrange(0, it.index() as int),
    {
        r.push(c);
        assert(r@ =~= it.seq().subrange(0, it.index() as int + 1));
    }
    assert(s@.subrange(0, s@.len() as int) =~= s@);
    r
}

/// Builds a string from characters.
pub fn string_of(chars: &[char]) -> (r: String)
    ensures
        r@ == chars@,
{
    let mut r = String::new();
    let mut i: usize = 0;
    assert(r@ =~= chars@.subrange(0, 0));
    while i < chars.len()
        invariant
            i <= chars.len(),
            r@ == chars@.subrange(0, i as int),
        decreases chars.len() - i,
    {
        r.push(chars[i]);
        assert(r@ =~= chars@.subrange(0, i as int + 1));
        i = i + 1;
    }
    assert(r@ =~= chars@);
    r
}

/// Splits a text at every separator.
pub fn split_chars(s: &[char], sep: char) -> (r: Vec<Vec<char>>)
    ensures
        texts(r@) == split_on(s@, sep),
        r@.len() >= 1,
{
    let mut pieces: Vec<Vec<char>> = Vec::new();
    let mut current: Vec<char> = Vec::new();
    let mut i: usize = 0;
    proof {
        assert(s@.subrange(0, 0) =~= Seq::<char>::empty());
        assert(texts(pieces@).push(current@) =~= split_on(s@.subrange(0, 0), sep));
    }
    while i < s.len()
        invariant
            i <= s.len(),
            texts(pieces@).push(current@) == split_on(s@.subrange(0, i as int), sep),
        decreases s.len() - i,
    {
        let c = s[i];
        let ghost before = texts(pieces@).push(current@);
        proof {
            let next = s@.subrange(0, i as int + 1);
            assert(next.drop_last() =~= s@.subrange(0, i as int));
            assert(next.last() == c);
        }
        if c == sep {
            let ghost old_pieces = pieces@;
            let ghost piece = current@;
            pieces.push(current);
            current = Vec::new();
            proof {
                assert(texts(pieces@) =~= texts(old_pieces).push(piece));
                assert(texts(pieces@).push(current@) =~= before.push(Seq::empty()));
            }
        } else {
            current.push(c);
            proof {
                assert(texts(pieces@).push(current@) =~= before.drop_last().push(
                    before.last().push(c),
                ));
            }
        }
        i = i + 1;
    }
    let ghost old_pieces = pieces@;
    let ghost piece = current@;
    pieces.push(current);
    proof {
        assert(s@.subrange(0, i as int) =~= s@);
        assert(texts(pieces@) =~= texts(old_pieces).push(piece));
    }
    pieces
}

/// Splits a text into its newline-closed lines.
pub fn split_lines(s: &[char]) -> (r: Vec<Vec<char>>)
    ensures
        texts(r@) == text_lines(s@),
{
    let mut pieces = split_chars(s, '\n');
    let ghost all = texts(pieces@);
    let last: usize = pieces.len() - 1;
    if pieces[last].len() == 0 {
        pieces.pop();
        proof {
            assert(texts(pieces@) =~= all.drop_last());
        }
    }
    pieces
}

/// Joins texts with a separator between neighbours.
pub fn join_texts(parts: &Vec<String>, sep: char) -> (r: String)
    ensures
        r@ == joined(string_texts(parts@), sep),
{
    let mut out = String::new();
    let ghost all = string_texts(parts@);
    let mut i: usize = 0;
    proof {
        assert(out@ =~= joined(all.subrange(0, 0), sep));
    }
    while i < parts.len()
        invariant
            i <= parts.len(),
            all == string_texts(parts@),
            out@ == joined(all.subrange(0, i as int), sep),
        decreases parts.len() - i,
    {
        proof {
            let next = all.subrange(0, i as int + 1);
            assert(next.drop_last() =~= all.subrange(0, i as int));
            assert(next.last() == all[i as int]);
        }
        if i > 0 {
            out.push(sep);
        }
        out.append(parts[i].as_str());
        proof {
            assert(out@ =~= joined(all.subrange(0, i as int + 1), sep));
        }
        i = i + 1;
    }
    proof {
        assert(all.subrange(0, i as int) =~= all);
    }
    out
}

/// A decimal digit.
pub open spec fn is_digit(c: char) -> bool {
    '0' <= c <= '9'
}

/// The value of a decimal digit.
pub open spec fn digit_value(c: char) -> nat {
    (c as int - '0' as int) as nat
}

/// All characters are decimal digits.
pub open spec fn all_digits(s: Seq<char>) -> bool {
    forall|i: int| 0 <= i < s.len() ==> is_digit(#[trigger] s[i])
}

/// The decimal digits of a natural number without leading zeros.
pub open spec fn canonical_number(s: Seq<char>) -> bool {
    s.len() >= 1 && (s.len() > 1 ==> s[0] != '0') && all_digits(s)
}

/// The value of a row of decimal digits.
pub open spec fn number_value(s: Seq<char>) -> nat
    decreases s.len(),
{
    if s.len() == 0 {
        0
    } else {
        number_value(s.drop_last()) * 10 + digit_value(s.last())
    }
}

/// Decimal text is canonical and keeps its value.
pub proof fn law_decimal_round_trip(n: nat)
    ensures
        canonical_number(decimal(n)),
        number_value(decimal(n)) == n,
        n > 0 ==> decimal(n)[0] != '0',
    decreases n,
{
    let s = decimal(n);
    if n < 10 {
        assert(s.drop_last() =~= Seq::<char>::empty());
        assert(number_value(s.drop_last()) == 0);
        assert(s.last() == digit(n));
    } else {
        law_decimal_round_trip(n / 10);
        let head = decimal(n / 10);
        assert(s.drop_last() =~= head);
        assert(s.last() == digit(n % 10));
        assert(s[0] == head[0]);
        assert forall|i: int| 0 <= i < s.len() implies is_digit(#[trigger] s[i]) by {
            if i < s.len() - 1 {
                assert(s[i] == head[i]);
            }
        }
    }
}

/// A canonical number is the decimal text of its value.
pub proof fn law_canonical_number_is_decimal(s: Seq<char>)
    requires
        canonical_number(s),
    ensures
        decimal(number_value(s)) == s,
        s.len() > 1 ==> number_value(s) > 0,
        s[0] != '0' ==> number_value(s) > 0,
    decreases s.len(),
{
    let head = s.drop_last();
    assert(is_digit(s[s.len() - 1]));
    let d = digit_value(s.last());
    assert(digit(d) == s.last());
    if s.len() == 1 {
        assert(head =~= Seq::<char>::empty());
        assert(number_value(head) == 0);
        assert(number_value(s) == d);
        assert(decimal(d) =~= s);
    } else {
        assert(canonical_number(head)) by {
            assert(head[0] == s[0]);
            assert forall|i: int| 0 <= i < head.len() implies is_digit(#[trigger] head[i]) by {
                assert(head[i] == s[i]);
            }
        }
        law_canonical_number_is_decimal(head);
        assert(head[0] != '0');
        let n = number_value(s);
        assert(n / 10 == number_value(head) && n % 10 == d);
        assert(decimal(n) =~= head.push(digit(d)));
        assert(head.push(s.last()) =~= s);
    }
}

/// More digits never lower the value.
proof fn lemma_number_prefix(s: Seq<char>, k: int)
    requires
        0 <= k <= s.len(),
        all_digits(s),
    ensures
        number_value(s.subrange(0, k)) <= number_value(s),
    decreases s.len() - k,
{
    if k == s.len() {
        assert(s.subrange(0, k) =~= s);
    } else {
        lemma_number_prefix(s, k + 1);
        assert(s.subrange(0, k + 1).drop_last() =~= s.subrange(0, k));
    }
}

/// Whether a text is a canonical number.
pub fn is_canonical_number(s: &[char]) -> (r: bool)
    ensures
        r == canonical_number(s@),
{
    if s.len() == 0 || (s.len() > 1 && s[0] == '0') {
        return false;
    }
    let mut i: usize = 0;
    while i < s.len()
        invariant
            i <= s.len(),
            forall|k: int| 0 <= k < i ==> is_digit(#[trigger] s@[k]),
        decreases s.len() - i,
    {
        if s[i] < '0' || s[i] > '9' {
            return false;
        }
        i = i + 1;
    }
    true
}

/// The value of a row of digits, unless it exceeds `u64`.
pub fn number_of(s: &[char]) -> (r: Option<u64>)
    requires
        all_digits(s@),
    ensures
        r is Some <==> number_value(s@) <= u64::MAX,
        r matches Some(n) ==> n == number_value(s@),
{
    let mut n: u64 = 0;
    let mut i: usize = 0;
    assert(s@.subrange(0, 0) =~= Seq::<char>::empty());
    while i < s.len()
        invariant
            i <= s.len(),
            all_digits(s@),
            n == number_value(s@.subrange(0, i as int)),
        decreases s.len() - i,
    {
        proof {
            assert(is_digit(s@[i as int]));
            assert(s@.subrange(0, i as int + 1).drop_last() =~= s@.subrange(0, i as int));
            lemma_number_prefix(s@, i as int + 1);
        }
        let d: u64 = (s[i] as u32 - 48) as u64;
        let wide: u128 = n as u128 * 10 + d as u128;
        if wide > 0xFFFF_FFFF_FFFF_FFFF {
            return None;
        }
        n = wide as u64;
        i = i + 1;
    }
    assert(s@.subrange(0, i as int) =~= s@);
    Some(n)
}

/// A lower-case hexadecimal digit.
pub open spec fn is_hex_digit(c: char) -> bool {
    '0' <= c <= '9' || 'a' <= c <= 'f'
}

/// The value of a hexadecimal digit.
pub open spec fn hex_digit_value(c: char) -> nat {
    if '0' <= c <= '9' {
        (c as int - '0' as int) as nat
    } else {
        (c as int - 'a' as int + 10) as nat
    }
}

/// All characters are lower-case hexadecimal digits.
pub open spec fn all_hex(s: Seq<char>) -> bool {
    forall|i: int| 0 <= i < s.len() ==> is_hex_digit(#[trigger] s[i])
}

/// The value of a row of hexadecimal digits.
pub open spec fn hex_value(s: Seq<char>) -> nat
    decreases s.len(),
{
    if s.len() == 0 {
        0
    } else {
        hex_value(s.drop_last()) * 16 + hex_digit_value(s.last())
    }
}

/// `16^width`.
pub open spec fn hex_span(width: nat) -> nat
    decreases width,
{
    if width == 0 {
        1
    } else {
        16 * hex_span((width - 1) as nat)
    }
}

/// Fixed-width hexadecimal text keeps its value.
pub proof fn law_hex_round_trip(n: nat, width: nat)
    requires
        n < hex_span(width),
    ensures
        all_hex(hex_digits(n, width)),
        hex_digits(n, width).len() == width,
        hex_value(hex_digits(n, width)) == n,
    decreases width,
{
    let s = hex_digits(n, width);
    if width > 0 {
        law_hex_round_trip(n / 16, (width - 1) as nat);
        let head = hex_digits(n / 16, (width - 1) as nat);
        assert(s.drop_last() =~= head);
        assert(s.last() == hex_digit(n % 16));
        assert forall|i: int| 0 <= i < s.len() implies is_hex_digit(#[trigger] s[i]) by {
            if i < s.len() - 1 {
                assert(s[i] == head[i]);
            }
        }
    }
}

/// A row of `width` hexadecimal digits has a value below `16^width`.
pub proof fn lemma_hex_bound(s: Seq<char>)
    requires
        all_hex(s),
    ensures
        hex_value(s) < hex_span(s.len()),
    decreases s.len(),
{
    if s.len() > 0 {
        assert(is_hex_digit(s[s.len() - 1]));
        assert(all_hex(s.drop_last())) by {
            assert forall|i: int| 0 <= i < s.len() - 1 implies is_hex_digit(
                #[trigger] s.drop_last()[i],
            ) by {
                assert(is_hex_digit(s[i]));
            }
        }
        lemma_hex_bound(s.drop_last());
    }
}

pub proof fn lemma_hex_spans()
    ensures
        hex_span(8) == 0x1_0000_0000,
        hex_span(16) == 0x1_0000_0000_0000_0000,
{
    reveal_with_fuel(hex_span, 17);
}

/// Whether all characters are lower-case hexadecimal digits.
pub fn is_hex(s: &[char]) -> (r: bool)
    ensures
        r == all_hex(s@),
{
    let mut i: usize = 0;
    while i < s.len()
        invariant
            i <= s.len(),
            forall|k: int| 0 <= k < i ==> is_hex_digit(#[trigger] s@[k]),
        decreases s.len() - i,
    {
        let c = s[i];
        if !((c >= '0' && c <= '9') || (c >= 'a' && c <= 'f')) {
            return false;
        }
        i = i + 1;
    }
    true
}

/// The value of at most sixteen hexadecimal digits.
pub fn hex_number(s: &[char]) -> (r: u64)
    requires
        all_hex(s@),
        s@.len() <= 16,
    ensures
        r == hex_value(s@),
{
    let mut n: u64 = 0;
    let mut i: usize = 0;
    assert(s@.subrange(0, 0) =~= Seq::<char>::empty());
    while i < s.len()
        invariant
            i <= s.len() <= 16,
            all_hex(s@),
            n == hex_value(s@.subrange(0, i as int)),
        decreases s.len() - i,
    {
        proof {
            let next = s@.subrange(0, i as int + 1);
            assert(is_hex_digit(s@[i as int]));
            assert(next.drop_last() =~= s@.subrange(0, i as int));
            assert(all_hex(next)) by {
                assert forall|k: int| 0 <= k < next.len() implies is_hex_digit(#[trigger] next[k]) by {
                    assert(is_hex_digit(s@[k]));
                }
            }
            lemma_hex_bound(next);
            lemma_hex_spans();
            lemma_hex_span_monotone(i as nat + 1, 16);
        }
        let c = s[i];
        let d: u64 = if c <= '9' {
            (c as u32 - 48) as u64
        } else {
            (c as u32 - 87) as u64
        };
        n = n * 16 + d;
        i = i + 1;
    }
    assert(s@.subrange(0, i as int) =~= s@);
    n
}

proof fn lemma_hex_span_monotone(a: nat, b: nat)
    requires
        a <= b,
    ensures
        hex_span(a) <= hex_span(b),
        hex_span(a) >= 1,
    decreases b,
{
    if b > 0 {
        if a < b {
            lemma_hex_span_monotone(a, (b - 1) as nat);
        } else {
            lemma_hex_span_monotone((a - 1) as nat, (b - 1) as nat);
        }
    }
}

/// Bytes of one character in UTF-8.
pub open spec fn char_bytes(c: char) -> nat {
    if c as u32 <= 0x7F {
        1
    } else if c as u32 <= 0x7FF {
        2
    } else if c as u32 <= 0xFFFF {
        3
    } else {
        4
    }
}

/// Bytes of a text in UTF-8.
pub open spec fn byte_len(s: Seq<char>) -> nat
    decreases s.len(),
{
    if s.len() == 0 {
        0
    } else {
        byte_len(s.drop_last()) + char_bytes(s.last())
    }
}

/// Bytes of a text in UTF-8.
pub fn text_bytes(s: &[char]) -> (r: u128)
    ensures
        r == byte_len(s@),
{
    let mut n: u128 = 0;
    let mut i: usize = 0;
    assert(s@.subrange(0, 0) =~= Seq::<char>::empty());
    while i < s.len()
        invariant
            i <= s.len(),
            n == byte_len(s@.subrange(0, i as int)),
            n <= 4 * i,
        decreases s.len() - i,
    {
        assert(s@.subrange(0, i as int + 1).drop_last() =~= s@.subrange(0, i as int));
        let code: u32 = s[i] as u32;
        let width: u128 = if code <= 0x7F {
            1
        } else if code <= 0x7FF {
            2
        } else if code <= 0xFFFF {
            3
        } else {
            4
        };
        n = n + width;
        i = i + 1;
    }
    assert(s@.subrange(0, i as int) =~= s@);
    n
}

/// Hexadecimal text has one byte per digit.
pub proof fn lemma_hex_byte_len(s: Seq<char>)
    requires
        all_hex(s),
    ensures
        byte_len(s) == s.len(),
    decreases s.len(),
{
    if s.len() > 0 {
        assert(is_hex_digit(s[s.len() - 1]));
        assert(all_hex(s.drop_last())) by {
            assert forall|i: int| 0 <= i < s.len() - 1 implies is_hex_digit(
                #[trigger] s.drop_last()[i],
            ) by {
                assert(is_hex_digit(s[i]));
            }
        }
        lemma_hex_byte_len(s.drop_last());
    }
}

/// Whether two texts agree.
pub fn chars_equal(a: &[char], b: &[char]) -> (r: bool)
    ensures
        r == (a@ == b@),
{
    if a.len() != b.len() {
        return false;
    }
    let mut i: usize = 0;
    while i < a.len()
        invariant
            i <= a.len() == b.len(),
            forall|k: int| 0 <= k < i ==> a@[k] == b@[k],
        decreases a.len() - i,
    {
        if a[i] != b[i] {
            return false;
        }
        i = i + 1;
    }
    assert(a@ =~= b@);
    true
}

/// Whether a text equals a literal.
pub fn chars_are(a: &[char], b: &str) -> (r: bool)
    ensures
        r == (a@ == b@),
{
    let other = chars_of(b);
    chars_equal(a, other.as_slice())
}

/// The text between two positions.
pub fn piece(s: &[char], from: usize, to: usize) -> (r: Vec<char>)
    requires
        from <= to <= s@.len(),
    ensures
        r@ == s@.subrange(from as int, to as int),
{
    let mut r: Vec<char> = Vec::new();
    let mut i: usize = from;
    while i < to
        invariant
            from <= i <= to <= s@.len(),
            r@ == s@.subrange(from as int, i as int),
        decreases to - i,
    {
        r.push(s[i]);
        assert(r@ =~= s@.subrange(from as int, i as int + 1));
        i = i + 1;
    }
    r
}

} // verus!
