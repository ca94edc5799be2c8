//! Exact sums of non-negative binary32 amounts in fixed space.
use vstd::arithmetic::power2::{lemma_pow2_adds, lemma_pow2_pos, lemma_pow2_strictly_increases, pow2};
use vstd::prelude::*;

use crate::binary32::{
    SIGN_BIT, all_finite, double_sum_bits, double_sum_pattern, finite, is_finite, is_negative,
    lemma_unsigned_value_monotone, power_of_two, unpack, unsigned_value, value,
};

verus! {

/// Most terms of one sum: `2^53`.
pub const MAX_TERMS: u64 = 9_007_199_254_740_992;

/// `2^64`.
pub const WORD_RADIX: u128 = 0x1_0000_0000_0000_0000;

/// Why an amount or a sum is refused.
#[derive(Clone, Copy, Debug, PartialEq, Eq, Structural)]
pub enum FloatError {
    /// An infinity or a NaN.
    NonFinite { bits: u32 },
    /// A pattern with its sign bit set.
    Negative { bits: u32 },
    /// More than `2^53` terms.
    TermLimit,
    /// Words that are no sum of that many terms in shortest form.
    InvalidWords,
    /// A sum beyond the finite range.
    Overflow,
}

/// The exact sum of up to `2^53` non-negative binary32 values, in units of
/// `2^-149`, least significant word first.
#[derive(Clone, Copy, Debug, PartialEq, Eq)]
pub struct NonNegativeF32Accumulator {
    pub term_count: u64,
    pub words: [u64; 6],
}

/// Number of terms and exact total.
#[verifier::ext_equal]
pub struct SumModel {
    pub terms: nat,
    pub total: nat,
}

/// The value of the first `n` words.
pub open spec fn words_value(words: Seq<u64>, n: int) -> nat
    decreases n,
{
    if n <= 0 {
        0
    } else {
        words_value(words, n - 1) + words[n - 1] as nat * pow2((64 * (n - 1)) as nat)
    }
}

/// The largest finite magnitude.
pub open spec fn largest_value() -> nat {
    0xFF_FFFF * pow2(253)
}

/// Whether `terms` non-negative values can have this total.
pub open spec fn possible_sum(terms: nat, total: nat) -> bool {
    terms <= MAX_TERMS && total <= terms * largest_value()
}

impl View for NonNegativeF32Accumulator {
    type V = SumModel;

    open spec fn view(&self) -> SumModel {
        SumModel { terms: self.term_count as nat, total: words_value(self.words@, 6) }
    }
}

impl NonNegativeF32Accumulator {
    /// The sum is one of that many terms.
    pub open spec fn wf(&self) -> bool {
        possible_sum(self@.terms, self@.total)
    }
}

/// Why a single amount is refused.
pub open spec fn amount_fault(bits: u32) -> Option<FloatError> {
    if !is_finite(bits) {
        Some(FloatError::NonFinite { bits })
    } else if is_negative(bits) {
        Some(FloatError::Negative { bits })
    } else {
        None
    }
}

/// Why `count` further terms of `bits` are refused.
pub open spec fn term_fault(s: SumModel, bits: u32, count: nat) -> Option<FloatError> {
    if amount_fault(bits) is Some {
        amount_fault(bits)
    } else if s.terms + count > MAX_TERMS {
        Some(FloatError::TermLimit)
    } else {
        None
    }
}

/// A sum with `count` further terms of `bits`.
pub open spec fn with_terms(s: SumModel, bits: u32, count: nat) -> SumModel {
    SumModel { terms: s.terms + count, total: s.total + value(bits) as nat * count }
}

/// The first refusal among the amounts from `i` on.
pub open spec fn list_fault(s: SumModel, amounts: Seq<u32>, i: int) -> Option<FloatError>
    decreases amounts.len() - i,
{
    if i >= amounts.len() {
        None
    } else if term_fault(s, amounts[i], 1) is Some {
        term_fault(s, amounts[i], 1)
    } else {
        list_fault(with_terms(s, amounts[i], 1), amounts, i + 1)
    }
}

/// A sum with the amounts from `i` on.
pub open spec fn with_list(s: SumModel, amounts: Seq<u32>, i: int) -> SumModel
    decreases amounts.len() - i,
{
    if i >= amounts.len() {
        s
    } else {
        with_list(with_terms(s, amounts[i], 1), amounts, i + 1)
    }
}

/// The sum of two sums.
pub open spec fn joined_sum(a: SumModel, b: SumModel) -> SumModel {
    SumModel { terms: a.terms + b.terms, total: a.total + b.total }
}

/// The empty sum.
pub open spec fn empty_sum() -> SumModel {
    SumModel { terms: 0, total: 0 }
}

/// The words without trailing zeros.
pub open spec fn shortest(words: Seq<u64>) -> Seq<u64>
    decreases words.len(),
{
    if words.len() == 0 || words.last() != 0 {
        words
    } else {
        shortest(words.drop_last())
    }
}

proof fn lemma_words_bound(words: Seq<u64>, n: int)
    requires
        0 <= n,
    ensures
        words_value(words, n) < pow2((64 * n) as nat),
    decreases n,
{
    vstd::arithmetic::power2::lemma2_to64();
    if n > 0 {
        lemma_words_bound(words, n - 1);
        let low = (64 * (n - 1)) as nat;
        lemma_pow2_adds(low, 64);
        assert(low + 64 == (64 * n) as nat);
        let w = words[n - 1] as nat;
        let p = pow2(low);
        assert(w * p + p <= pow2(64) * p) by (nonlinear_arith)
            requires
                w + 1 <= pow2(64),
        ;
        assert(pow2(64) * p == p * pow2(64)) by (nonlinear_arith);
    }
}

proof fn lemma_words_agree(a: Seq<u64>, b: Seq<u64>, n: int)
    requires
        forall|i: int| 0 <= i < n ==> a[i] == b[i],
    ensures
        words_value(a, n) == words_value(b, n),
    decreases n,
{
    if n > 0 {
        lemma_words_agree(a, b, n - 1);
    }
}

/// A value has one representation.
pub proof fn law_words_are_determined(a: Seq<u64>, b: Seq<u64>, n: int)
    requires
        0 <= n,
        words_value(a, n) == words_value(b, n),
    ensures
        forall|i: int| 0 <= i < n ==> a[i] == b[i],
    decreases n,
{
    if n > 0 {
        let p = pow2((64 * (n - 1)) as nat) as int;
        lemma_pow2_pos((64 * (n - 1)) as nat);
        lemma_words_bound(a, n - 1);
        lemma_words_bound(b, n - 1);
        let x = words_value(a, n - 1) as int;
        let y = words_value(b, n - 1) as int;
        let u = a[n - 1] as int;
        let v = b[n - 1] as int;
        assert(u == v) by (nonlinear_arith)
            requires
                x + u * p == y + v * p,
                0 <= x < p,
                0 <= y < p,
        ;
        law_words_are_determined(a, b, n - 1);
    }
}

/// The total that the limit allows fits the words.
proof fn lemma_total_fits(terms: nat, total: nat)
    requires
        possible_sum(terms, total),
    ensures
        total < pow2(384),
{
    vstd::arithmetic::power2::lemma2_to64();
    lemma_pow2_adds(24, 253);
    lemma_pow2_adds(53, 277);
    lemma_pow2_strictly_increases(330, 384);
    lemma_pow2_pos(253);
    lemma_pow2_pos(277);
    vstd::arithmetic::power2::lemma2_to64_rest();
    assert(largest_value() < pow2(277)) by (nonlinear_arith)
        requires
            pow2(277) == pow2(24) * pow2(253),
            pow2(24) == 0x100_0000,
            largest_value() == 0xFF_FFFF * pow2(253),
            pow2(253) > 0,
    ;
    assert(terms * largest_value() <= MAX_TERMS * pow2(277)) by (nonlinear_arith)
        requires
            terms <= MAX_TERMS,
            largest_value() < pow2(277),
    ;
}

/// Two sums of possible terms give a possible sum.
proof fn lemma_possible_join(a: SumModel, b: SumModel)
    requires
        possible_sum(a.terms, a.total),
        possible_sum(b.terms, b.total),
        a.terms + b.terms <= MAX_TERMS,
    ensures
        possible_sum(a.terms + b.terms, a.total + b.total),
{
    let m = largest_value();
    assert((a.terms + b.terms) * m == a.terms * m + b.terms * m) by (nonlinear_arith);
}

/// Repeating one amount gives a possible sum.
proof fn lemma_possible_terms(bits: u32, count: nat)
    requires
        amount_fault(bits) is None,
        count <= MAX_TERMS,
    ensures
        possible_sum(count, value(bits) as nat * count),
{
    let v = value(bits) as nat;
    if bits < 0x7F7F_FFFF {
        lemma_unsigned_value_monotone(bits, 0x7F7F_FFFF);
    }
    vstd::arithmetic::power2::lemma2_to64();
    assert(unsigned_value(0x7F7F_FFFF) == largest_value());
    assert(v * count <= count * largest_value()) by (nonlinear_arith)
        requires
            v <= largest_value(),
    ;
}

/// Adds one number to another; both fit with their sum.
fn add_words(target: &mut [u64; 6], addend: &[u64; 6])
    requires
        words_value(old(target)@, 6) + words_value(addend@, 6) < pow2(384),
    ensures
        words_value(final(target)@, 6) == words_value(old(target)@, 6) + words_value(addend@, 6),
{
    let ghost before = target@;
    let mut carry: u128 = 0;
    let mut i: usize = 0;
    proof {
        lemma_pow2_pos(0);
        assert(0 * pow2(0) == 0);
    }
    while i < 6
        invariant
            i <= 6,
            before.len() == 6,
            before == old(target)@,
            target@.len() == 6,
            addend@.len() == 6,
            carry <= 1,
            forall|k: int| i <= k < 6 ==> target@[k] == before[k],
            words_value(target@, i as int) + carry as nat * pow2((64 * i) as nat) == words_value(
                before,
                i as int,
            ) + words_value(addend@, i as int),
        decreases 6 - i,
    {
        let sum: u128 = target[i] as u128 + addend[i] as u128 + carry;
        let low: u64 = (sum % WORD_RADIX) as u64;
        let ghost held = target@;
        let ghost old_carry = carry;
        target[i] = low;
        carry = sum / WORD_RADIX;
        proof {
            lemma_words_agree(held, target@, i as int);
            vstd::arithmetic::power2::lemma2_to64();
            lemma_pow2_adds((64 * i) as nat, 64);
            assert(64 * i + 64 == 64 * (i + 1));
            let p = pow2((64 * i) as nat);
            let a = before[i as int] as nat;
            let b = addend@[i as int] as nat;
            let c = old_carry as nat;
            let l = low as nat;
            let d = carry as nat;
            assert(l * p + d * (p * 0x1_0000_0000_0000_0000) == a * p + b * p + c * p)
                by (nonlinear_arith)
                requires
                    l + d * 0x1_0000_0000_0000_0000 == a + b + c,
            ;
        }
        i = i + 1;
    }
    proof {
        lemma_words_bound(target@, 6);
        if carry == 1 {
            assert(1 * pow2(384) == pow2(384));
            assert(false);
        }
        assert(0 * pow2(384) == 0);
    }
}

/// The value of six words of which only two neighbours are set.
proof fn lemma_two_words(words: Seq<u64>, at: int, low: nat, high: nat)
    requires
        words.len() == 6,
        0 <= at < 5,
        words[at] == low,
        words[at + 1] == high,
        forall|k: int| 0 <= k < 6 && k != at && k != at + 1 ==> words[k] == 0,
    ensures
        words_value(words, 6) == low * pow2((64 * at) as nat) + high * pow2((64 * (at + 1)) as nat),
{
    reveal_with_fuel(words_value, 7);
    assert(forall|x: nat| #[trigger] (0nat * x) == 0);
}

/// `w * 2^scale` in six words.
fn placed(w: u64, scale: u32) -> (r: [u64; 6])
    requires
        scale <= 317,
    ensures
        words_value(r@, 6) == w as nat * pow2(scale as nat),
{
    let at: usize = (scale / 64) as usize;
    let shift: u32 = scale % 64;
    let factor: u128 = power_of_two(shift);
    proof {
        vstd::arithmetic::power2::lemma2_to64();
        lemma_pow2_strictly_increases(shift as nat, 64);
        assert(w as u128 * factor <= 0xFFFF_FFFF_FFFF_FFFF * factor) by (nonlinear_arith)
            requires
                w <= 0xFFFF_FFFF_FFFF_FFFF,
        ;
    }
    let product: u128 = w as u128 * factor;
    let low: u64 = (product % WORD_RADIX) as u64;
    let high: u64 = (product / WORD_RADIX) as u64;
    let mut r: [u64; 6] = [0, 0, 0, 0, 0, 0];
    r[at] = low;
    r[at + 1] = high;
    proof {
        lemma_two_words(r@, at as int, low as nat, high as nat);
        let p = pow2((64 * at) as nat);
        lemma_pow2_adds((64 * at) as nat, 64);
        lemma_pow2_adds((64 * at) as nat, shift as nat);
        assert(64 * at + 64 == 64 * (at + 1));
        assert(64 * at + shift == scale);
        let l = low as nat;
        let h = high as nat;
        let x = w as nat;
        let f = factor as nat;
        assert(l * p + h * (p * 0x1_0000_0000_0000_0000) == x * (p * f)) by (nonlinear_arith)
            requires
                l + h * 0x1_0000_0000_0000_0000 == x * f,
        ;
    }
    r
}

/// The first amount from `i` on that is no finite value.
pub open spec fn first_non_finite(amounts: Seq<u32>, i: int) -> Option<FloatError>
    decreases amounts.len() - i,
{
    if i >= amounts.len() {
        None
    } else if !is_finite(amounts[i]) {
        Some(FloatError::NonFinite { bits: amounts[i] })
    } else {
        first_non_finite(amounts, i + 1)
    }
}

/// Adds binary32 values left to right in binary64 and rounds once.
pub fn sum_f32_as_f64_once(amounts: &[u32]) -> (r: Result<u32, FloatError>)
    ensures
        r == match first_non_finite(amounts@, 0) {
            Some(fault) => Err(fault),
            None => match double_sum_pattern(amounts@) {
                Some(bits) => Ok(bits),
                None => Err(FloatError::Overflow),
            },
        },
        all_finite(amounts@) == (first_non_finite(amounts@, 0) is None),
{
    let mut i: usize = 0;
    while i < amounts.len()
        invariant
            i <= amounts@.len(),
            first_non_finite(amounts@, 0) == first_non_finite(amounts@, i as int),
            forall|k: int| 0 <= k < i ==> is_finite(#[trigger] amounts@[k]),
        decreases amounts@.len() - i,
    {
        if !finite(amounts[i]) {
            assert(!is_finite(amounts@[i as int]));
            return Err(FloatError::NonFinite { bits: amounts[i] });
        }
        i = i + 1;
    }
    match double_sum_bits(amounts) {
        Some(bits) => Ok(bits),
        None => Err(FloatError::Overflow),
    }
}

impl NonNegativeF32Accumulator {
    /// The empty sum.
    pub fn new() -> (r: Self)
        ensures
            r@ == empty_sum(),
            r.wf(),
    {
        let words: [u64; 6] = [0, 0, 0, 0, 0, 0];
        proof {
            reveal_with_fuel(words_value, 7);
            assert(forall|x: nat| #[trigger] (0nat * x) == 0);
        }
        NonNegativeF32Accumulator { term_count: 0, words }
    }

    pub fn term_count(&self) -> (r: u64)
        ensures
            r == self@.terms,
    {
        self.term_count
    }

    /// Adds `count` terms of the same value.
    pub fn add_repeated_bits(&mut self, bits: u32, count: u64) -> (r: Result<(), FloatError>)
        requires
            old(self).wf(),
        ensures
            r matches Err(fault) ==> term_fault(old(self)@, bits, count as nat) == Some(fault)
                && *final(self) == *old(self),
            r is Ok ==> term_fault(old(self)@, bits, count as nat) is None && final(self)@
                == with_terms(old(self)@, bits, count as nat),
            final(self).wf(),
    {
        if !finite(bits) {
            return Err(FloatError::NonFinite { bits });
        }
        if bits >= SIGN_BIT {
            return Err(FloatError::Negative { bits });
        }
        if count > MAX_TERMS || self.term_count > MAX_TERMS - count {
            return Err(FloatError::TermLimit);
        }
        let part = unpack(bits);
        let ghost before = self@;
        proof {
            vstd::arithmetic::power2::lemma2_to64();
            lemma_possible_terms(bits, count as nat);
            lemma_possible_join(
                before,
                SumModel { terms: count as nat, total: value(bits) as nat * count as nat },
            );
            lemma_total_fits(
                before.terms + count as nat,
                before.total + value(bits) as nat * count as nat,
            );
            assert(part.mantissa * count <= 0x100_0000 * MAX_TERMS) by (nonlinear_arith)
                requires
                    part.mantissa <= 0x100_0000,
                    count <= MAX_TERMS,
            ;
        }
        let product: u128 = part.mantissa as u128 * count as u128;
        let low: u64 = (product % WORD_RADIX) as u64;
        let high: u64 = (product / WORD_RADIX) as u64;
        let low_words = placed(low, part.scale);
        let high_words = placed(high, part.scale + 64);
        proof {
            lemma_pow2_adds(part.scale as nat, 64);
            let m = part.mantissa as nat;
            let c = count as nat;
            let l = low as nat;
            let h = high as nat;
            let p = pow2(part.scale as nat);
            assert((m * p) * c == l * p + h * (p * 0x1_0000_0000_0000_0000)) by (nonlinear_arith)
                requires
                    m * c == l + h * 0x1_0000_0000_0000_0000,
            ;
        }
        add_words(&mut self.words, &low_words);
        add_words(&mut self.words, &high_words);
        self.term_count = self.term_count + count;
        Ok(())
    }

    /// Adds one term.
    pub fn add_bits(&mut self, bits: u32) -> (r: Result<(), FloatError>)
        requires
            old(self).wf(),
        ensures
            r matches Err(fault) ==> term_fault(old(self)@, bits, 1) == Some(fault) && *final(self)
                == *old(self),
            r is Ok ==> term_fault(old(self)@, bits, 1) is None && final(self)@ == with_terms(
                old(self)@,
                bits,
                1,
            ),
            final(self).wf(),
    {
        self.add_repeated_bits(bits, 1)
    }

    /// Adds the terms in order up to the first that is refused.
    pub fn extend_bits(&mut self, amounts: &[u32]) -> (r: Result<(), FloatError>)
        requires
            old(self).wf(),
        ensures
            r matches Err(fault) ==> list_fault(old(self)@, amounts@, 0) == Some(fault),
            r is Ok ==> list_fault(old(self)@, amounts@, 0) is None && final(self)@ == with_list(
                old(self)@,
                amounts@,
                0,
            ),
            final(self).wf(),
    {
        let ghost before = self@;
        let mut i: usize = 0;
        while i < amounts.len()
            invariant
                i <= amounts@.len(),
                before == old(self)@,
                self.wf(),
                list_fault(before, amounts@, 0) == list_fault(self@, amounts@, i as int),
                with_list(before, amounts@, 0) == with_list(self@, amounts@, i as int),
            decreases amounts@.len() - i,
        {
            self.add_bits(amounts[i])?;
            i = i + 1;
        }
        Ok(())
    }

    /// Adds another sum.
    pub fn merge(&mut self, other: &Self) -> (r: Result<(), FloatError>)
        requires
            old(self).wf(),
            other.wf(),
        ensures
            r is Ok <==> old(self)@.terms + other@.terms <= MAX_TERMS,
            r matches Err(fault) ==> fault == FloatError::TermLimit && *final(self) == *old(self),
            r is Ok ==> final(self)@ == joined_sum(old(self)@, other@),
            final(self).wf(),
    {
        if self.term_count > MAX_TERMS - other.term_count {
            return Err(FloatError::TermLimit);
        }
        proof {
            lemma_possible_join(self@, other@);
            lemma_total_fits(self@.terms + other@.terms, self@.total + other@.total);
        }
        add_words(&mut self.words, &other.words);
        self.term_count = self.term_count + other.term_count;
        Ok(())
    }

    /// The term count and the words without trailing zeros.
    pub fn to_words(&self) -> (r: (u64, Vec<u64>))
        ensures
            r.0 == self.term_count,
            r.1@ == shortest(self.words@),
            r.1@.len() <= 6,
    {
        let mut n: usize = 6;
        proof {
            assert(self.words@.subrange(0, 6) =~= self.words@);
        }
        while n > 0 && self.words[n - 1] == 0
            invariant
                n <= 6,
                shortest(self.words@) == shortest(self.words@.subrange(0, n as int)),
            decreases n,
        {
            proof {
                let held = self.words@.subrange(0, n as int);
                assert(held.drop_last() =~= self.words@.subrange(0, n - 1));
            }
            n = n - 1;
        }
        let mut out: Vec<u64> = Vec::new();
        let mut i: usize = 0;
        while i < n
            invariant
                i <= n <= 6,
                out@ =~= self.words@.subrange(0, i as int),
            decreases n - i,
        {
            out.push(self.words[i]);
            i = i + 1;
        }
        (self.term_count, out)
    }
}

/// Dropping trailing zeros keeps the value.
pub proof fn lemma_shortest(words: Seq<u64>)
    ensures
        shortest(words).len() <= words.len(),
        shortest(shortest(words)) == shortest(words),
        words_value(shortest(words), shortest(words).len() as int) == words_value(
            words,
            words.len() as int,
        ),
    decreases words.len(),
{
    if words.len() > 0 && words.last() == 0 {
        lemma_shortest(words.drop_last());
        lemma_words_agree(words.drop_last(), words, words.len() - 1);
        assert(0 * pow2((64 * (words.len() - 1)) as nat) == 0);
    }
}

/// The words that a sum is written as give the sum back.
pub proof fn law_words_round_trip(a: NonNegativeF32Accumulator)
    requires
        a.wf(),
    ensures
        words_fault(a.term_count, shortest(a.words@)) is None,
        words_value(shortest(a.words@), shortest(a.words@).len() as int) == a@.total,
{
    lemma_shortest(a.words@);
}

/// Why words are refused as a sum of `terms` terms.
pub open spec fn words_fault(terms: u64, words: Seq<u64>) -> Option<FloatError> {
    if terms > MAX_TERMS {
        Some(FloatError::TermLimit)
    } else if words.len() > 6 || shortest(words) != words || words_value(
        words,
        words.len() as int,
    ) > terms as nat * largest_value() {
        Some(FloatError::InvalidWords)
    } else {
        None
    }
}

proof fn lemma_words_order(a: Seq<u64>, b: Seq<u64>, n: int, at: int)
    requires
        0 <= at < n,
        a[at] < b[at],
        forall|k: int| at < k < n ==> a[k] == b[k],
    ensures
        words_value(a, n) < words_value(b, n),
    decreases n,
{
    if at < n - 1 {
        lemma_words_order(a, b, n - 1, at);
    } else {
        lemma_words_bound(a, n - 1);
        let p = pow2((64 * (n - 1)) as nat);
        let x = a[at] as nat;
        let y = b[at] as nat;
        assert(x * p + p <= y * p) by (nonlinear_arith)
            requires
                x + 1 <= y,
        ;
    }
}

/// Compares two numbers of six words.
fn words_at_most(a: &[u64; 6], b: &[u64; 6]) -> (r: bool)
    ensures
        r == (words_value(a@, 6) <= words_value(b@, 6)),
{
    let mut n: usize = 6;
    while n > 0
        invariant
            n <= 6,
            a@.len() == 6,
            b@.len() == 6,
            forall|k: int| n <= k < 6 ==> a@[k] == b@[k],
        decreases n,
    {
        if a[n - 1] < b[n - 1] {
            proof {
                lemma_words_order(a@, b@, 6, n - 1);
            }
            return true;
        }
        if a[n - 1] > b[n - 1] {
            proof {
                lemma_words_order(b@, a@, 6, n - 1);
            }
            return false;
        }
        n = n - 1;
    }
    proof {
        lemma_words_agree(a@, b@, 6);
    }
    true
}

/// Trailing zeros keep the value.
pub proof fn lemma_padded(words: Seq<u64>, padded: Seq<u64>, n: int)
    requires
        words.len() <= n <= padded.len(),
        forall|k: int| 0 <= k < words.len() ==> padded[k] == words[k],
        forall|k: int| words.len() <= k < n ==> padded[k] == 0,
    ensures
        words_value(padded, n) == words_value(words, words.len() as int),
    decreases n,
{
    if n > words.len() {
        lemma_padded(words, padded, n - 1);
        assert(0 * pow2((64 * (n - 1)) as nat) == 0);
    } else {
        lemma_words_agree(padded, words, n);
    }
}

impl NonNegativeF32Accumulator {
    /// The sum that was written as `words`.
    pub fn from_words(term_count: u64, words: &[u64]) -> (r: Result<Self, FloatError>)
        ensures
            r matches Err(fault) ==> words_fault(term_count, words@) == Some(fault),
            r matches Ok(sum) ==> words_fault(term_count, words@) is None && sum@ == (SumModel {
                terms: term_count as nat,
                total: words_value(words@, words@.len() as int),
            }) && sum.wf(),
    {
        if term_count > MAX_TERMS {
            return Err(FloatError::TermLimit);
        }
        let n: usize = words.len();
        if n > 6 || (n > 0 && words[n - 1] == 0) {
            proof {
                if n <= 6 {
                    lemma_shortest(words@.drop_last());
                }
            }
            return Err(FloatError::InvalidWords);
        }
        let mut padded: [u64; 6] = [0, 0, 0, 0, 0, 0];
        let mut i: usize = 0;
        while i < n
            invariant
                i <= n <= 6,
                n == words@.len(),
                padded@.len() == 6,
                forall|k: int| 0 <= k < i ==> padded@[k] == words@[k],
                forall|k: int| i <= k < 6 ==> padded@[k] == 0,
            decreases n - i,
        {
            padded[i] = words[i];
            i = i + 1;
        }
        let mut most = NonNegativeF32Accumulator::new();
        let limit = most.add_repeated_bits(0x7F7F_FFFF, term_count);
        proof {
            lemma_padded(words@, padded@, 6);
            vstd::arithmetic::power2::lemma2_to64();
            assert(unsigned_value(0x7F7F_FFFF) == largest_value());
            assert(limit is Ok);
            assert(most@.total == largest_value() * term_count as nat);
            assert(largest_value() * term_count as nat == term_count as nat * largest_value())
                by (nonlinear_arith);
        }
        if !words_at_most(&padded, &most.words) {
            return Err(FloatError::InvalidWords);
        }
        Ok(NonNegativeF32Accumulator { term_count, words: padded })
    }
}

/// Sums merge in any order and grouping.
pub proof fn law_sums_join_in_any_order(a: SumModel, b: SumModel, c: SumModel)
    ensures
        joined_sum(a, b) == joined_sum(b, a),
        joined_sum(joined_sum(a, b), c) == joined_sum(a, joined_sum(b, c)),
        joined_sum(empty_sum(), a) == a,
{
}

/// Two sums with the same terms and total are the same in memory.
pub proof fn law_sum_is_canonical(a: NonNegativeF32Accumulator, b: NonNegativeF32Accumulator)
    requires
        a@ == b@,
    ensures
        a == b,
{
    law_words_are_determined(a.words@, b.words@, 6);
    assert(a.words =~= b.words);
}

} // verus!
