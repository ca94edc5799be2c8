//! Binary32 arithmetic gives the nearest value.
use vstd::arithmetic::div_mod::*;
use vstd::arithmetic::power2::{lemma_pow2_adds, lemma_pow2_pos, lemma_pow2_strictly_increases, pow2};
use vstd::prelude::*;

use crate::binary32::{
    HIDDEN_BIT, abs, difference, excess, integer_pattern, integer_product, is_finite, is_negative,
    lemma_excess_width, lemma_full_width, lemma_overflow_scale, lemma_pow2_double,
    lemma_precisions, lemma_round_exact, nearest, negated, overflow_bound, pattern,
    round_quotient, round_to, sum, sum_sign, unsigned_bits, unsigned_value, value,
};

verus! {

/// A magnitude of at most 24 bits and a scale is the value of its pattern.
proof fn lemma_pattern(negative: bool, m: nat, s: nat)
    requires
        m < pow2(24),
        s == 0 || m >= pow2(23),
        m * pow2(s) < overflow_bound(),
    ensures
        ({
            let bits = pattern(negative, m * pow2(s));
            &&& is_finite(bits)
            &&& is_negative(bits) == negative
            &&& unsigned_value(unsigned_bits(bits)) == m * pow2(s)
            &&& bits % 2 == m % 2
        }),
{
    lemma_precisions();
    lemma_full_width(m, s);
    lemma_overflow_scale(m, s, 24, 277);
    assert(s <= 253);
    let low = (s * 0x80_0000 + m) as u32;
    if low >= HIDDEN_BIT {
        if s == 0 {
            assert(m * pow2(0) == m);
        }
        assert(low as nat % HIDDEN_BIT as nat == m - HIDDEN_BIT);
        assert(low as nat / HIDDEN_BIT as nat == s + 1);
    } else {
        assert(s == 0);
        assert(m * pow2(0) == m);
    }
}

/// A finite pattern is a magnitude of at most 24 bits and a scale.
proof fn lemma_parts(bits: u32) -> (r: (nat, nat))
    requires
        is_finite(bits),
    ensures
        r.0 < pow2(24),
        r.1 == 0 || r.0 >= pow2(23),
        abs(value(bits)) == r.0 * pow2(r.1),
{
    lemma_precisions();
    let low = unsigned_bits(bits);
    if low < HIDDEN_BIT {
        assert(low as nat * pow2(0) == low as nat);
        (low as nat, 0nat)
    } else {
        (
            HIDDEN_BIT as nat + low as nat % HIDDEN_BIT as nat,
            (low as nat / HIDDEN_BIT as nat - 1) as nat,
        )
    }
}

/// What rounding keeps, and how: the nearest multiple of its unit, the even one of two.
proof fn lemma_rounded(n: nat) -> (r: (nat, nat))
    ensures
        r.1 == excess(n, 24),
        round_to(n, 24) == r.0 * pow2(r.1),
        r.0 <= pow2(24),
        r.1 > 0 ==> r.0 >= pow2(23) && n >= pow2(23) * pow2(r.1),
        2 * round_to(n, 24) - 2 * n <= pow2(r.1),
        2 * n - 2 * round_to(n, 24) <= pow2(r.1),
        r.1 == 0 ==> round_to(n, 24) == n,
        (2 * round_to(n, 24) - 2 * n == pow2(r.1) || 2 * n - 2 * round_to(n, 24) == pow2(r.1))
            ==> r.0 % 2 == 0,
{
    let k = excess(n, 24);
    let unit = pow2(k);
    lemma_precisions();
    lemma_excess_width(n, 24);
    lemma_pow2_pos(k);
    assert(1 * unit == unit);
    let q = n / unit;
    let rest = n % unit;
    lemma_fundamental_div_mod(n as int, unit as int);
    lemma_mod_bound(n as int, unit as int);
    let kept = round_quotient(n, 1, k);
    assert(unit as int * q == q * unit) by (nonlinear_arith);
    assert((q + 1) * unit == q * unit + unit) by (nonlinear_arith);
    if k > 0 {
        assert(n >= pow2(23) * unit) by (nonlinear_arith)
            requires
                n == q * unit + rest,
                q >= pow2(23),
                rest >= 0,
        ;
    } else {
        assert(unit == 1);
        lemma_div_basics(n as int);
        assert(n as int % 1 == 0);
        assert(q * 1 == q);
    }
    (kept, k)
}

/// No multiple of the unit is nearer than the one that rounding keeps.
proof fn lemma_no_multiple_nearer(n: int, kept: int, unit: int, t: int)
    requires
        unit > 0,
        2 * (kept * unit) - 2 * n <= unit,
        2 * n - 2 * (kept * unit) <= unit,
    ensures
        abs(kept * unit - n) <= abs(t * unit - n),
        abs(kept * unit - n) == abs(t * unit - n) && t != kept ==> 2 * (kept * unit) - 2 * n
            == unit || 2 * n - 2 * (kept * unit) == unit,
{
    if t >= kept + 1 {
        assert(t * unit >= kept * unit + unit) by (nonlinear_arith)
            requires
                t >= kept + 1,
                unit > 0,
        ;
    } else if t <= kept - 1 {
        assert(t * unit <= kept * unit - unit) by (nonlinear_arith)
            requires
                t <= kept - 1,
                unit > 0,
        ;
    }
}

/// No magnitude that binary32 can hold is nearer than the rounded one.
proof fn lemma_round_is_nearest(n: nat, m: nat, s: nat)
    requires
        m < pow2(24),
        s == 0 || m >= pow2(23),
    ensures
        abs(round_to(n, 24) - n) <= abs(m * pow2(s) - n),
        abs(round_to(n, 24) - n) <= n,
        abs(round_to(n, 24) - n) == abs(m * pow2(s) - n) && round_to(n, 24) != m * pow2(s)
            ==> 2 * abs(round_to(n, 24) - n) == pow2(excess(n, 24)) && excess(n, 24) > 0,
{
    let (kept, k) = lemma_rounded(n);
    let unit = pow2(k) as int;
    let y = m * pow2(s);
    lemma_precisions();
    lemma_pow2_pos(k);
    lemma_pow2_pos(s);
    lemma_no_multiple_nearer(n as int, kept as int, unit, 0);
    assert(0 * unit == 0);
    if k == 0 {
    } else if s >= k {
        let j = (s - k) as nat;
        lemma_pow2_adds(k, j);
        let t = m * pow2(j);
        assert(m * (unit * pow2(j)) == (m * pow2(j)) * unit) by (nonlinear_arith);
        lemma_no_multiple_nearer(n as int, kept as int, unit, t as int);
    } else {
        // The magnitude lies below 2^(23 + k), a multiple of the unit that is at most n.
        let j = (k - s) as nat;
        lemma_pow2_adds(s, j);
        lemma_pow2_double((j - 1) as nat);
        lemma_pow2_pos((j - 1) as nat);
        let edge = pow2(23) as int;
        assert(y < edge * unit) by (nonlinear_arith)
            requires
                y == m * pow2(s),
                m < pow2(24),
                pow2(24) == 2 * pow2(23),
                unit == pow2(s) * pow2(j),
                pow2(j) >= 2,
                pow2(s) > 0,
                edge == pow2(23),
        ;
        lemma_no_multiple_nearer(n as int, kept as int, unit, edge);
    }
}

/// What the nearest pattern of a magnitude is worth.
pub proof fn lemma_nearest(negative: bool, n: nat)
    ensures
        nearest(negative, n) matches Some(bits) ==> {
            &&& is_finite(bits)
            &&& is_negative(bits) == negative
            &&& abs(value(bits)) == round_to(n, 24)
            &&& 2 * abs(round_to(n, 24) - n) == pow2(excess(n, 24)) && excess(n, 24) > 0 ==> bits % 2
                == 0
        },
{
    let (kept, k) = lemma_rounded(n);
    lemma_precisions();
    if round_to(n, 24) < overflow_bound() {
        if kept < pow2(24) {
            lemma_pattern(negative, kept, k);
        } else {
            lemma_pow2_double(k);
            assert(pow2(24) * pow2(k) == pow2(23) * pow2(k + 1)) by (nonlinear_arith)
                requires
                    pow2(24) == 2 * pow2(23),
                    pow2(k + 1) == 2 * pow2(k),
            ;
            lemma_pattern(negative, pow2(23), k + 1);
        }
    }
}

/// Whether a pattern is the binary32 value of an exact number: no other finite pattern is
/// nearer to it, and of two that are equally near it is the even one.
pub open spec fn is_nearest_to(bits: u32, exact: int) -> bool {
    &&& is_finite(bits)
    &&& forall|other: u32|
        is_finite(other) ==> abs(value(bits) - exact) <= abs(#[trigger] value(other) - exact)
    &&& forall|other: u32|
        is_finite(other) && abs(value(bits) - exact) == abs(#[trigger] value(other) - exact)
            && value(other) != value(bits) ==> bits % 2 == 0
}

proof fn lemma_signed_nearest(negative: bool, exact: int, bits: u32)
    requires
        negative ==> exact <= 0,
        !negative ==> exact >= 0,
        nearest(negative, abs(exact)) == Some(bits),
    ensures
        is_nearest_to(bits, exact),
        is_negative(bits) == negative,
{
    let n = abs(exact);
    lemma_nearest(negative, n);
    assert forall|other: u32| is_finite(other) implies abs(value(bits) - exact) <= abs(
        #[trigger] value(other) - exact,
    ) by {
        let (m, s) = lemma_parts(other);
        lemma_round_is_nearest(n, m, s);
    }
    assert forall|other: u32|
        is_finite(other) && abs(value(bits) - exact) == abs(#[trigger] value(other) - exact)
            && value(other) != value(bits) implies bits % 2 == 0 by {
        let (m, s) = lemma_parts(other);
        lemma_round_is_nearest(n, m, s);
        if value(other) == -value(bits) {
            // Both signs are equally near to zero alone, which is held exactly.
            assert(exact == 0);
            lemma_round_exact(0, 24);
        }
    }
}

/// Law: a sum is the pattern nearest to the exact sum, the even one of two, and a
/// difference the one nearest to the exact difference.
pub proof fn law_sums_are_nearest(a: u32, b: u32)
    requires
        is_finite(a),
        is_finite(b),
    ensures
        sum(a, b) matches Some(bits) ==> is_nearest_to(bits, value(a) + value(b)),
        difference(a, b) matches Some(bits) ==> is_nearest_to(bits, value(a) - value(b)),
{
    if let Some(bits) = sum(a, b) {
        lemma_signed_nearest(sum_sign(a, b), value(a) + value(b), bits);
    }
    assert(value(negated(b)) == -value(b));
    if let Some(bits) = difference(a, b) {
        lemma_signed_nearest(sum_sign(a, negated(b)), value(a) - value(b), bits);
    }
}

/// Law: the product of a pattern and a small integer is the pattern nearest to the exact
/// product, and a small integer has the pattern of its own value.
pub proof fn law_products_are_nearest(a: u32, k: int)
    requires
        is_finite(a),
        0 <= k < 0x100_0000,
        !is_negative(a),
    ensures
        integer_product(a, k) matches Some(bits) ==> is_nearest_to(bits, value(a) * k),
        is_finite(integer_pattern(k)),
        value(integer_pattern(k)) == k * pow2(149),
{
    lemma_precisions();
    lemma_round_exact(k as nat, 24);
    assert(value(a) >= 0);
    assert(value(a) * k >= 0) by (nonlinear_arith)
        requires
            value(a) >= 0,
            k >= 0,
    ;
    if let Some(bits) = integer_product(a, k) {
        lemma_signed_nearest(false, value(a) * k, bits);
    }
    lemma_integer_fits(k as nat);
}

/// An integer of at most 24 bits has a pattern of its own.
proof fn lemma_integer_fits(k: nat)
    requires
        k < pow2(24),
    ensures
        is_finite(integer_pattern(k as int)),
        value(integer_pattern(k as int)) == k * pow2(149),
{
    let n = k * pow2(149);
    lemma_precisions();
    lemma_pow2_pos(149);
    lemma_nearest(false, n);
    lemma_overflow_bits(k);
    let (kept, drop) = lemma_rounded(n);
    if drop > 0 {
        if drop <= 149 {
            let j = (149 - drop) as nat;
            lemma_pow2_adds(drop, j);
            assert(k * (pow2(drop) * pow2(j)) == (k * pow2(j)) * pow2(drop)) by (nonlinear_arith);
            lemma_pow2_pos(drop);
            lemma_no_multiple_nearer(
                n as int,
                kept as int,
                pow2(drop) as int,
                (k * pow2(j)) as int,
            );
        } else {
            lemma_pow2_strictly_increases(149, drop);
            lemma_pow2_adds(24, 149);
            lemma_pow2_adds(23, drop);
            assert(k * pow2(149) < pow2(24) * pow2(149)) by (nonlinear_arith)
                requires
                    k < pow2(24),
                    pow2(149) > 0,
            ;
            if drop > 150 {
                lemma_pow2_strictly_increases(173, 23 + drop);
            }
        }
    }
}

/// Such an integer is far from the largest pattern.
proof fn lemma_overflow_bits(k: nat)
    requires
        k < pow2(24),
    ensures
        round_to(k * pow2(149), 24) < overflow_bound(),
{
    let n = k * pow2(149);
    let (kept, drop) = lemma_rounded(n);
    lemma_precisions();
    lemma_pow2_pos(149);
    lemma_pow2_adds(24, 149);
    assert(n < pow2(173)) by (nonlinear_arith)
        requires
            n == k * pow2(149),
            k < pow2(24),
            pow2(149) > 0,
            pow2(173) == pow2(24) * pow2(149),
    ;
    lemma_round_is_nearest(n, 0, 0);
    lemma_pow2_double(173);
    lemma_pow2_strictly_increases(174, 277);
}

} // verus!
