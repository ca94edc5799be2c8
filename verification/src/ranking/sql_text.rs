//! What the catalogue checks find in the text of a statement.
use vstd::prelude::*;
use vstd::utf8::*;

use crate::ranking::row_checks::bytes_agree;
use crate::text::{decimal, join2, join3, unsigned_text};

verus! {

/// A character in upper case, if it is an ASCII letter.
pub open spec fn upper_char(c: char) -> char {
    if 'a' <= c <= 'z' {
        ((c as u32 - 32) as u8) as char
    } else {
        c
    }
}

/// A text with its ASCII letters in upper case.
pub open spec fn upper_text(s: Seq<char>) -> Seq<char> {
    Seq::new(s.len(), |i: int| upper_char(s[i]))
}

/// Whether a text stands in another.
pub open spec fn contains_text(text: Seq<char>, part: Seq<char>) -> bool {
    exists|i: int| #[trigger] stands_at(text, part, i)
}

/// Whether a text stands in another at a position.
pub open spec fn stands_at(text: Seq<char>, part: Seq<char>, i: int) -> bool {
    0 <= i && i + part.len() <= text.len() && text.subrange(i, i + part.len()) == part
}

/// A text with its ASCII letters in upper case, character by character.
pub(crate) fn upper_chars(s: &Vec<char>) -> (r: Vec<char>)
    ensures
        r@ == upper_text(s@),
{
    let mut out: Vec<char> = Vec::new();
    let mut i: usize = 0;
    while i < s.len()
        invariant
            i <= s@.len(),
            out@ =~= upper_text(s@).subrange(0, i as int),
        decreases s@.len() - i,
    {
        let c: char = s[i];
        if 'a' <= c && c <= 'z' {
            out.push((c as u32 - 32) as u8 as char);
        } else {
            out.push(c);
        }
        i = i + 1;
    }
    assert(out@ =~= upper_text(s@));
    out
}

fn is_at(text: &Vec<char>, part: &Vec<char>, at: usize) -> (r: bool)
    requires
        at + part@.len() <= text@.len(),
    ensures
        r == stands_at(text@, part@, at as int),
{
    let ghost piece = text@.subrange(at as int, at + part@.len());
    let length: usize = text.len();
    let mut k: usize = 0;
    while k < part.len()
        invariant
            k <= part@.len(),
            length == text@.len(),
            at + part@.len() <= length,
            piece == text@.subrange(at as int, at + part@.len()),
            forall|j: int| 0 <= j < k ==> piece[j] == part@[j],
        decreases part@.len() - k,
    {
        if text[at + k] != part[k] {
            assert(piece[k as int] != part@[k as int]);
            return false;
        }
        k = k + 1;
    }
    assert(piece =~= part@);
    true
}

/// Whether a text stands in another.
pub(crate) fn contains_chars(text: &Vec<char>, part: &Vec<char>) -> (r: bool)
    ensures
        r == contains_text(text@, part@),
{
    if part.len() > text.len() {
        return false;
    }
    let last: usize = text.len() - part.len();
    let mut i: usize = 0;
    while i <= last
        invariant
            i <= last + 1,
            last + part@.len() == text@.len(),
            text@.len() <= usize::MAX,
            forall|k: int| 0 <= k < i ==> !stands_at(text@, part@, k),
        decreases last + 1 - i,
    {
        if is_at(text, part, i) {
            return true;
        }
        if i == last {
            assert forall|k: int| !stands_at(text@, part@, k) by {}
            return false;
        }
        i = i + 1;
    }
    false
}

/// Whether two texts are the same.
pub(crate) fn same_text(a: &str, b: &str) -> (r: bool)
    ensures
        r == (a@ == b@),
{
    proof {
        encode_utf8_decode_utf8(a@);
        encode_utf8_decode_utf8(b@);
    }
    bytes_agree(a.as_bytes(), b.as_bytes())
}

/// Where the decimal digits from `i` on end.
pub open spec fn digits_end(bytes: Seq<u8>, i: int) -> int
    decreases bytes.len() - i,
{
    if 0 <= i < bytes.len() && 48 <= bytes[i] <= 57 {
        digits_end(bytes, i + 1)
    } else {
        i
    }
}

/// The number that the decimal digits from `i` up to `end` stand for.
pub open spec fn digits_number(bytes: Seq<u8>, i: int, end: int) -> nat
    decreases end - i,
{
    if i >= end {
        0
    } else {
        10 * digits_number(bytes, i, end - 1) + (bytes[end - 1] - 48) as nat
    }
}

/// An ascending list with one more number.
pub open spec fn with_marker(list: Seq<usize>, n: usize) -> Seq<usize>
    decreases list.len(),
{
    if list.len() == 0 || list.last() < n {
        list.push(n)
    } else if list.last() == n {
        list
    } else {
        with_marker(list.drop_last(), n).push(list.last())
    }
}

pub proof fn lemma_digits_end(bytes: Seq<u8>, i: int)
    requires
        0 <= i <= bytes.len(),
    ensures
        i <= digits_end(bytes, i) <= bytes.len(),
    decreases bytes.len() - i,
{
    if i < bytes.len() && 48 <= bytes[i] <= 57 {
        lemma_digits_end(bytes, i + 1);
    }
}

/// Why the markers from a byte on are refused.
pub open spec fn markers_fault(bytes: Seq<u8>, i: int) -> Option<Seq<char>>
    decreases bytes.len() - i,
    via markers_fault_decreases
{
    if i < 0 || i >= bytes.len() {
        None
    } else if bytes[i] != 36 {
        markers_fault(bytes, i + 1)
    } else {
        let end = digits_end(bytes, i + 1);
        let n = digits_number(bytes, i + 1, end);
        if end == i + 1 {
            Some("invalid parameter marker at byte "@ + decimal(i as nat))
        } else if n > usize::MAX {
            Some("parameter marker at byte "@ + decimal(i as nat) + " overflows"@)
        } else if n == 0 {
            Some("$0 is not a valid parameter marker"@)
        } else {
            markers_fault(bytes, end)
        }
    }
}

#[via_fn]
proof fn markers_fault_decreases(bytes: Seq<u8>, i: int) {
    if 0 <= i < bytes.len() {
        lemma_digits_end(bytes, i + 1);
    }
}

/// The numbers of the markers from a byte on, added to a list.
pub open spec fn markers(bytes: Seq<u8>, i: int, list: Seq<usize>) -> Seq<usize>
    decreases bytes.len() - i,
    via markers_decreases
{
    if i < 0 || i >= bytes.len() {
        list
    } else if bytes[i] != 36 {
        markers(bytes, i + 1, list)
    } else {
        let end = digits_end(bytes, i + 1);
        let n = digits_number(bytes, i + 1, end);
        markers(bytes, end, with_marker(list, n as usize))
    }
}

#[via_fn]
proof fn markers_decreases(bytes: Seq<u8>, i: int, list: Seq<usize>) {
    if 0 <= i < bytes.len() {
        lemma_digits_end(bytes, i + 1);
    }
}

fn add_marker(list: &mut Vec<usize>, n: usize)
    ensures
        final(list)@ == with_marker(old(list)@, n),
{
    let ghost all = list@;
    let ghost len = all.len() as int;
    let mut at: usize = list.len();
    proof {
        assert(all.subrange(0, len) =~= all);
        assert(with_marker(all, n) =~= with_marker(all.subrange(0, len), n) + all.subrange(
            len,
            len,
        ));
    }
    while at > 0 && list[at - 1] > n
        invariant
            at <= all.len(),
            list@ == all,
            len == all.len(),
            with_marker(all, n) == with_marker(all.subrange(0, at as int), n) + all.subrange(
                at as int,
                len,
            ),
        decreases at,
    {
        proof {
            let part = all.subrange(0, at as int);
            assert(part.drop_last() =~= all.subrange(0, at - 1));
            assert(with_marker(part, n) + all.subrange(at as int, len) =~= with_marker(
                all.subrange(0, at - 1),
                n,
            ) + all.subrange(at - 1, len));
        }
        at = at - 1;
    }
    let ghost part = all.subrange(0, at as int);
    if at > 0 && list[at - 1] == n {
        assert(part.last() == n);
        assert(with_marker(part, n) + all.subrange(at as int, len) =~= all);
        return;
    }
    list.insert(at, n);
    proof {
        if at > 0 {
            assert(part.last() == all[at - 1]);
        }
        assert(with_marker(part, n) == part.push(n));
        assert(all.insert(at as int, n) =~= part.push(n) + all.subrange(at as int, len));
    }
}

/// One marker: where it ends and its number, if that fits.
struct Marker {
    end: usize,
    number: Option<usize>,
}

fn read_number(bytes: &[u8], start: usize) -> (r: Marker)
    requires
        start <= bytes@.len(),
    ensures
        r.end == digits_end(bytes@, start as int),
        start <= r.end <= bytes@.len(),
        r.number == if digits_number(bytes@, start as int, r.end as int) <= usize::MAX {
            Some(digits_number(bytes@, start as int, r.end as int) as usize)
        } else {
            None
        },
{
    let mut end: usize = start;
    let mut number: Option<usize> = Some(0);
    let ghost full = digits_end(bytes@, start as int);
    proof {
        lemma_digits_end(bytes@, start as int);
    }
    while end < bytes.len() && bytes[end] >= 48 && bytes[end] <= 57
        invariant
            start <= end <= bytes@.len(),
            full == digits_end(bytes@, start as int),
            digits_end(bytes@, end as int) == full,
            forall|k: int| start <= k < end ==> 48 <= #[trigger] bytes@[k] <= 57,
            number == if digits_number(bytes@, start as int, end as int) <= usize::MAX {
                Some(digits_number(bytes@, start as int, end as int) as usize)
            } else {
                None
            },
        decreases bytes@.len() - end,
    {
        let digit: usize = bytes[end] as usize - 48;
        number = match number {
            Some(n) => match n.checked_mul(10) {
                Some(tens) => tens.checked_add(digit),
                None => None,
            },
            None => None,
        };
        end = end + 1;
    }
    Marker { end, number }
}

/// The numbers of the parameter markers `$1`, `$2`, … of a text, ascending.
pub fn parameter_ordinals(sql: &str) -> (r: Result<Vec<usize>, CatalogError>)
    ensures
        catalog_refusal(r) == markers_fault(encode_utf8(sql@), 0),
        r matches Ok(list) ==> list@ == markers(encode_utf8(sql@), 0, Seq::empty()),
{
    let bytes = sql.as_bytes();
    let mut ordinals: Vec<usize> = Vec::new();
    let mut index: usize = 0;
    while index < bytes.len()
        invariant
            index <= bytes@.len(),
            bytes@ == encode_utf8(sql@),
            markers_fault(bytes@, 0) == markers_fault(bytes@, index as int),
            markers(bytes@, 0, Seq::empty()) == markers(bytes@, index as int, ordinals@),
        decreases bytes@.len() - index,
    {
        if bytes[index] != 36 {
            index = index + 1;
        } else {
            let marker = read_number(bytes, index + 1);
            if marker.end == index + 1 {
                return Err(
                    CatalogError::of(
                        join2(
                            "invalid parameter marker at byte ",
                            unsigned_text(index as u64).as_str(),
                        ),
                    ),
                );
            }
            match marker.number {
                None => {
                    return Err(
                        CatalogError::of(
                            join3(
                                "parameter marker at byte ",
                                unsigned_text(index as u64).as_str(),
                                " overflows",
                            ),
                        ),
                    );
                },
                Some(ordinal) => {
                    if ordinal == 0 {
                        return Err(CatalogError::new("$0 is not a valid parameter marker"));
                    }
                    add_marker(&mut ordinals, ordinal);
                },
            }
            index = marker.end;
        }
    }
    Ok(ordinals)
}

/// Why a catalogue is refused.
#[derive(Clone, Debug, PartialEq, Eq)]
pub struct CatalogError {
    pub detail: String,
}

/// The text of a refusal.
pub open spec fn catalog_refusal<T>(r: Result<T, CatalogError>) -> Option<Seq<char>> {
    match r {
        Ok(_) => None,
        Err(error) => Some(error.detail@),
    }
}

impl CatalogError {
    pub fn new(detail: &str) -> (r: Self)
        ensures
            r.detail@ == detail@,
    {
        CatalogError { detail: detail.to_owned() }
    }

    /// A refusal with a composed text.
    pub fn of(detail: String) -> (r: Self)
        ensures
            r.detail@ == detail@,
    {
        CatalogError { detail }
    }

    pub fn message(&self) -> (r: &str)
        ensures
            r@ == self.detail@,
    {
        self.detail.as_str()
    }
}

/// Whether numbers ascend strictly.
pub open spec fn numbers_ascend(list: Seq<usize>) -> bool {
    forall|i: int, j: int| 0 <= i < j < list.len() ==> list[i] < list[j]
}

proof fn lemma_with_marker(list: Seq<usize>, n: usize, top: usize)
    requires
        numbers_ascend(list),
        n < top,
        forall|i: int| 0 <= i < list.len() ==> list[i] < top,
    ensures
        numbers_ascend(with_marker(list, n)),
        forall|i: int| 0 <= i < with_marker(list, n).len() ==> with_marker(list, n)[i] < top,
    decreases list.len(),
{
    if list.len() > 0 && list.last() > n {
        lemma_with_marker(list.drop_last(), n, list.last());
    }
}

proof fn lemma_marker_added(list: Seq<usize>, n: usize)
    requires
        numbers_ascend(list),
    ensures
        numbers_ascend(with_marker(list, n)),
{
    if list.len() > 0 && list.last() > n {
        lemma_with_marker(list.drop_last(), n, list.last());
    }
}

proof fn lemma_markers_ascend(bytes: Seq<u8>, i: int, list: Seq<usize>)
    requires
        0 <= i,
        numbers_ascend(list),
    ensures
        numbers_ascend(markers(bytes, i, list)),
    decreases bytes.len() - i,
{
    if i < bytes.len() {
        if bytes[i] != 36 {
            lemma_markers_ascend(bytes, i + 1, list);
        } else {
            let end = digits_end(bytes, i + 1);
            let n = digits_number(bytes, i + 1, end) as usize;
            lemma_digits_end(bytes, i + 1);
            lemma_marker_added(list, n);
            lemma_markers_ascend(bytes, end, with_marker(list, n));
        }
    }
}

/// The numbers of the parameter markers are listed in order, each once.
pub proof fn law_markers_ascend(bytes: Seq<u8>)
    ensures
        numbers_ascend(markers(bytes, 0, Seq::empty())),
{
    lemma_markers_ascend(bytes, 0, Seq::empty());
}

} // verus!
