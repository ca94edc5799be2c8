//! Exact binary32 arithmetic on raw bit patterns.
//!
//! Every finite binary32 value is an integer multiple of 2^-149, so a finite
//! bit pattern is modelled by that integer. Arithmetic is stated as exact
//! integer arithmetic followed by one rounding to nearest, ties to even.
use vstd::arithmetic::div_mod::*;
use vstd::arithmetic::mul::*;
use vstd::arithmetic::power2::*;
use vstd::prelude::*;

verus! {

/// Bit pattern of positive infinity.
pub const INFINITY_BITS: u32 = 0x7F80_0000;

/// Weight of the lowest exponent bit; also the hidden mantissa bit.
pub const HIDDEN_BIT: u32 = 0x0080_0000;

/// The sign bit.
pub const SIGN_BIT: u32 = 0x8000_0000;

/// Significand width of binary32.
pub const SINGLE_PRECISION: u32 = 24;

/// Significand width of binary64.
pub const DOUBLE_PRECISION: u32 = 53;

/// Whether the sign bit is set.
pub open spec fn is_negative(bits: u32) -> bool {
    bits >= SIGN_BIT
}

/// The pattern without its sign bit.
pub open spec fn unsigned_bits(bits: u32) -> u32 {
    if bits >= SIGN_BIT {
        (bits - SIGN_BIT) as u32
    } else {
        bits
    }
}

/// Neither infinite nor NaN.
pub open spec fn is_finite(bits: u32) -> bool {
    unsigned_bits(bits) < INFINITY_BITS
}

/// Absolute value of a finite sign-free pattern, in units of 2^-149.
pub open spec fn unsigned_value(bits: u32) -> nat {
    if bits < HIDDEN_BIT {
        bits as nat
    } else {
        (HIDDEN_BIT as nat + bits as nat % HIDDEN_BIT as nat) * pow2(
            (bits as nat / HIDDEN_BIT as nat - 1) as nat,
        )
    }
}

/// Exact value of a finite pattern, in units of 2^-149.
pub open spec fn value(bits: u32) -> int {
    if is_negative(bits) {
        -(unsigned_value(unsigned_bits(bits)) as int)
    } else {
        unsigned_value(unsigned_bits(bits)) as int
    }
}

/// How many low bits of `n` are dropped to leave at most `precision` bits.
pub open spec fn excess(n: nat, precision: nat) -> nat
    decreases n,
{
    if n < pow2(precision) {
        0
    } else {
        proof {
            lemma_pow2_pos(precision);
        }
        1 + excess(n / 2, precision)
    }
}

/// `n / d` rounded to the nearest multiple of `2^drop`, ties to even; the
/// result counts those multiples.
pub open spec fn round_quotient(n: nat, d: nat, drop: nat) -> nat {
    let unit = d * pow2(drop);
    let q = n / unit;
    let r = n % unit;
    if 2 * r > unit || (2 * r == unit && q % 2 == 1) {
        q + 1
    } else {
        q
    }
}

/// `n` rounded to `precision` significant bits, nearest, ties to even.
pub open spec fn round_to(n: nat, precision: nat) -> nat {
    round_quotient(n, 1, excess(n, precision)) * pow2(excess(n, precision))
}

/// [`round_to`] on the absolute value, keeping the sign.
pub open spec fn round_signed(n: int, precision: nat) -> int {
    if n < 0 {
        -(round_to((-n) as nat, precision) as int)
    } else {
        round_to(n as nat, precision) as int
    }
}

/// Exclusive bound of the finite magnitudes: 2^128 in units of 2^-149.
pub open spec fn overflow_bound() -> nat {
    pow2(277)
}

/// Absolute value.
pub open spec fn abs(n: int) -> nat {
    if n < 0 {
        (-n) as nat
    } else {
        n as nat
    }
}

/// The finite pattern of a representable magnitude below [`overflow_bound`].
pub open spec fn pattern(negative: bool, magnitude: nat) -> u32 {
    let drop = excess(magnitude, 24);
    ((if negative {
        0x8000_0000int
    } else {
        0
    }) + drop * 0x80_0000 + magnitude / pow2(drop)) as u32
}

/// The binary32 pattern nearest to an exact magnitude, unless it overflows.
pub open spec fn nearest(negative: bool, exact: nat) -> Option<u32> {
    let m = round_to(exact, 24);
    if m < overflow_bound() {
        Some(pattern(negative, m))
    } else {
        None
    }
}

/// Sign of an exact sum; a zero sum is negative only if both operands are.
pub open spec fn sum_sign(a: u32, b: u32) -> bool {
    if value(a) + value(b) == 0 {
        is_negative(a) && is_negative(b)
    } else {
        value(a) + value(b) < 0
    }
}

/// Binary32 addition of finite patterns; `None` on overflow.
pub open spec fn sum(a: u32, b: u32) -> Option<u32> {
    nearest(sum_sign(a, b), abs(value(a) + value(b)))
}

/// The pattern with its sign flipped.
pub open spec fn negated(bits: u32) -> u32 {
    if bits >= SIGN_BIT {
        (bits - SIGN_BIT) as u32
    } else {
        (bits + SIGN_BIT) as u32
    }
}

/// Binary32 subtraction of finite patterns; `None` on overflow.
pub open spec fn difference(a: u32, b: u32) -> Option<u32> {
    sum(a, negated(b))
}

/// The binary32 pattern of an integer.
pub open spec fn integer_pattern(k: int) -> u32 {
    nearest(k < 0, abs(k) * pow2(149))->0
}

/// Binary32 product of a finite pattern and an integer converted to binary32.
pub open spec fn integer_product(a: u32, k: int) -> Option<u32> {
    nearest(
        is_negative(a) != (k < 0),
        abs(value(a)) * round_to(abs(k), 24),
    )
}

/// `n / d`, correctly rounded, as a binary32 pattern.
pub open spec fn quotient_pattern(n: nat, d: nat) -> u32 {
    let exact = n * pow2(149);
    let drop = excess(exact / d, 24);
    pattern(false, round_quotient(exact, d, drop) * pow2(drop))
}

/// Exclusive bound of the finite binary64 magnitudes: 2^1024 in units of 2^-149.
pub open spec fn double_overflow_bound() -> nat {
    pow2(1173)
}

/// Left-to-right binary64 sum of finite patterns, starting from zero; `None`
/// once a partial sum overflows.
pub open spec fn double_sum(s: Seq<u32>) -> Option<int>
    decreases s.len(),
{
    if s.len() == 0 {
        Some(0)
    } else {
        match double_sum(s.drop_last()) {
            None => None,
            Some(before) => {
                let after = round_signed(before + value(s.last()), 53);
                if abs(after) < double_overflow_bound() {
                    Some(after)
                } else {
                    None
                }
            },
        }
    }
}

/// A binary64 sum rounded once to binary32.
pub open spec fn double_sum_pattern(s: Seq<u32>) -> Option<u32> {
    match double_sum(s) {
        None => None,
        Some(n) => nearest(n < 0, abs(n)),
    }
}

/// Whether every pattern is finite.
pub open spec fn all_finite(s: Seq<u32>) -> bool {
    forall|i: int| 0 <= i < s.len() ==> is_finite(#[trigger] s[i])
}


pub proof fn lemma_pow2_double(e: nat)
    ensures
        pow2(e + 1) == 2 * pow2(e),
        pow2(e) >= 1,
{
    lemma_pow2_unfold(e + 1);
    lemma_pow2_pos(e);
}

pub proof fn lemma_precisions()
    ensures
        pow2(0) == 1,
        pow2(1) == 2,
        pow2(23) == 0x80_0000,
        pow2(24) == 0x100_0000,
        pow2(52) == 0x10_0000_0000_0000,
        pow2(53) == 0x20_0000_0000_0000,
{
    lemma2_to64();
    lemma2_to64_rest();
}

/// `(m * 2^s) / 2^(s + k) == m / 2^k`, with the remainder scaled alike.
proof fn lemma_scaled_division(m: nat, s: nat, k: nat)
    ensures
        (m * pow2(s)) / pow2(s + k) == m / pow2(k),
        (m * pow2(s)) % pow2(s + k) == (m % pow2(k)) * pow2(s),
        pow2(s + k) == pow2(k) * pow2(s),
        pow2(s + k) > 0,
        pow2(k) > 0,
        pow2(s) > 0,
{
    lemma_pow2_adds(s, k);
    lemma_pow2_pos(s);
    lemma_pow2_pos(k);
    lemma_pow2_pos(s + k);
    let a = pow2(s) as int;
    let b = pow2(k) as int;
    let q = m as int / b;
    let r = m as int % b;
    lemma_fundamental_div_mod(m as int, b);
    assert(m as int * a == q * (b * a) + r * a) by (nonlinear_arith)
        requires
            m as int == b * q + r,
    ;
    assert(0 <= r * a < b * a) by (nonlinear_arith)
        requires
            0 <= r < b,
            a > 0,
    ;
    assert(a * b == b * a) by (nonlinear_arith);
    lemma_fundamental_div_mod_converse(m as int * a, b * a, q, r * a);
}

/// The number of dropped bits is determined by the width of what is left.
proof fn lemma_excess(n: nat, precision: nat, k: nat)
    requires
        precision >= 1,
        pow2((precision - 1) as nat) <= n / pow2(k) < pow2(precision),
    ensures
        excess(n, precision) == k,
    decreases k,
{
    lemma_pow2_pos(k);
    if k == 0 {
        lemma_precisions();
    } else {
        let h = (k - 1) as nat;
        lemma_pow2_double(h);
        lemma_pow2_double((precision - 1) as nat);
        lemma_pow2_pos(h);
        lemma_div_denominator(n as int, 2, pow2(h) as int);
        assert(n / pow2(k) == (n / 2) / pow2(h));
        lemma_excess(n / 2, precision, h);
        // n is at least 2^(precision - 1) * 2^k, hence at least 2^precision.
        let q = n as int / pow2(k) as int;
        lemma_fundamental_div_mod(n as int, pow2(k) as int);
        assert(n as int >= pow2(precision) as int) by (nonlinear_arith)
            requires
                n as int == pow2(k) as int * q + n as int % pow2(k) as int,
                n as int % pow2(k) as int >= 0,
                pow2(k) as int >= 2,
                q >= pow2((precision - 1) as nat) as int,
                pow2(precision) as int == 2 * pow2((precision - 1) as nat) as int,
        ;
    }
}

/// Rounding `m * 2^s` drops `s + k` bits when `m / 2^k` has full width.
proof fn lemma_round_scaled(m: nat, s: nat, k: nat, precision: nat)
    requires
        precision >= 1,
        pow2((precision - 1) as nat) <= m / pow2(k) < pow2(precision),
    ensures
        excess(m * pow2(s), precision) == s + k,
        round_to(m * pow2(s), precision) == round_quotient(m, 1, k) * pow2(s + k),
{
    lemma_scaled_division(m, s, k);
    lemma_excess(m * pow2(s), precision, s + k);
    let a = pow2(s) as int;
    let b = pow2(k) as int;
    let r = m as int % b;
    assert((2 * (r * a) > b * a) == (2 * r > b)) by (nonlinear_arith)
        requires
            a > 0,
    ;
    assert((2 * (r * a) == b * a) == (2 * r == b)) by (nonlinear_arith)
        requires
            a > 0,
    ;
}

/// What already fits is left unchanged.
pub proof fn lemma_round_exact(n: nat, precision: nat)
    requires
        n < pow2(precision),
    ensures
        round_to(n, precision) == n,
{
    lemma_precisions();
    lemma_div_basics(n as int);
    assert(excess(n, precision) == 0);
    assert(1 * pow2(0) == 1);
    assert(n / 1 == n && n % 1 == 0);
    assert(round_quotient(n, 1, 0) == n);
    assert(n * 1 == n);
}

/// A value split into sign, significand and power of two.
#[derive(Clone, Copy, Debug, PartialEq, Eq, Structural)]
pub struct Scaled {
    pub negative: bool,
    pub mantissa: u64,
    pub scale: u32,
}

impl Scaled {
    /// Absolute value, in units of 2^-149.
    pub open spec fn magnitude(self) -> nat {
        self.mantissa as nat * pow2(self.scale as nat)
    }

    /// Signed value, in units of 2^-149.
    pub open spec fn signed(self) -> int {
        if self.negative {
            -(self.magnitude() as int)
        } else {
            self.magnitude() as int
        }
    }

    /// The significand fits in `precision` bits and uses them all unless the
    /// scale is already the smallest.
    pub open spec fn normalized(self, precision: nat) -> bool {
        &&& self.mantissa < pow2(precision)
        &&& self.scale == 0 || self.mantissa >= pow2((precision - 1) as nat)
    }
}

/// Rounds `n * 2^scale` to `precision` significant bits.
fn round_scaled(negative: bool, n: u128, scale: u32, precision: u32) -> (r: Scaled)
    requires
        precision == SINGLE_PRECISION || precision == DOUBLE_PRECISION,
        scale <= 4096,
        n < 0x1_0000_0000_0000_0000_0000_0000_0000,
    ensures
        r.negative == negative,
        r.normalized(precision as nat),
        r.magnitude() == round_to(n as nat * pow2(scale as nat), precision as nat),
        r.scale <= scale + 128,
{
    proof {
        lemma_precisions();
    }
    let limit: u128 = if precision == SINGLE_PRECISION {
        0x100_0000
    } else {
        0x20_0000_0000_0000
    };
    let half_limit: u128 = limit / 2;
    if n == 0 {
        proof {
            lemma_pow2_pos(precision as nat);
            lemma_round_exact(0, precision as nat);
            assert(0 * pow2(scale as nat) == 0) by (nonlinear_arith);
        }
        return Scaled { negative, mantissa: 0, scale: 0 };
    }
    let mut m: u128 = n;
    let mut s: u32 = scale;
    while m < half_limit && s > 0
        invariant
            m as nat * pow2(s as nat) == n as nat * pow2(scale as nat),
            s <= scale,
            m < 0x1_0000_0000_0000_0000_0000_0000_0000,
            half_limit <= 0x10_0000_0000_0000,
        decreases s,
    {
        proof {
            lemma_pow2_double((s - 1) as nat);
            assert((2 * m) * pow2((s - 1) as nat) == m * (2 * pow2((s - 1) as nat)))
                by (nonlinear_arith);
        }
        m = m * 2;
        s = s - 1;
    }
    let mut q: u128 = m;
    let mut unit: u128 = 1;
    let mut drop: u32 = 0;
    proof {
        lemma_div_basics(m as int);
    }
    while q >= limit
        invariant
            q as nat == m as nat / pow2(drop as nat),
            unit as nat == pow2(drop as nat),
            drop == 0 || q >= half_limit,
            drop <= 120,
            limit == 0x100_0000 || limit == 0x20_0000_0000_0000,
            half_limit * 2 == limit,
            m < 0x1_0000_0000_0000_0000_0000_0000_0000,
            q as nat * unit as nat <= m as nat,
        decreases q,
    {
        proof {
            lemma_pow2_double(drop as nat);
            lemma_pow2_pos(drop as nat);
            lemma_div_denominator(m as int, pow2(drop as nat) as int, 2);
            assert(pow2(drop as nat) * 2 == 2 * pow2(drop as nat));
            let u = unit as int;
            let w = q as int;
            assert(u <= 0x100_0000_0000_0000_0000_0000) by (nonlinear_arith)
                requires
                    u * w < 0x1_0000_0000_0000_0000_0000_0000_0000,
                    w >= 0x100_0000,
                    u >= 0,
            ;
            assert((w / 2) * (2 * u) <= w * u) by (nonlinear_arith)
                requires
                    u >= 0,
                    w >= 0,
            ;
            lemma2_to64();
            if drop >= 96 {
                lemma_pow2_adds(64, 32);
                assert(0x1_0000_0000_0000_0000 * 0x1_0000_0000 == 0x1_0000_0000_0000_0000_0000_0000)
                    by (nonlinear_arith);
                if drop > 96 {
                    lemma_pow2_strictly_increases(96, drop as nat);
                }
            }
        }
        q = q / 2;
        unit = unit * 2;
        drop = drop + 1;
    }
    let rest: u128 = m - q * unit;
    proof {
        lemma_pow2_pos(drop as nat);
        lemma_fundamental_div_mod(m as int, unit as int);
        assert(unit as int * q as int == q as int * unit as int) by (nonlinear_arith);
        assert(rest as nat == m as nat % pow2(drop as nat));
        assert(1 * pow2(drop as nat) == pow2(drop as nat));
    }
    let up: bool = rest > unit - rest || (rest == unit - rest && q % 2 == 1);
    let rounded: u128 = if up {
        q + 1
    } else {
        q
    };
    assert(rounded as nat == round_quotient(m as nat, 1, drop as nat));
    proof {
        if drop == 0 && s == 0 {
            lemma_round_exact(m as nat, precision as nat);
            assert(m as nat * 1 == m as nat);
        } else {
            lemma_round_scaled(m as nat, s as nat, drop as nat, precision as nat);
        }
        lemma_pow2_double((s + drop) as nat);
    }
    if rounded == limit {
        proof {
            assert(half_limit as nat * (2 * pow2((s + drop) as nat)) == limit as nat * pow2(
                (s + drop) as nat,
            )) by (nonlinear_arith)
                requires
                    half_limit * 2 == limit,
            ;
        }
        Scaled { negative, mantissa: half_limit as u64, scale: s + drop + 1 }
    } else {
        Scaled { negative, mantissa: rounded as u64, scale: s + drop }
    }
}


/// Rounding never leaves the power of two that the operand is close to.
proof fn lemma_round_absorbs(m: nat, s: nat, low: nat, precision: nat, subtract: bool)
    requires
        precision >= 2,
        s >= 3,
        pow2((precision - 1) as nat) <= m < pow2(precision),
        low < pow2((s - 2) as nat),
    ensures
        round_to(m * pow2(s), precision) == m * pow2(s),
        !subtract ==> round_to(m * pow2(s) + low, precision) == m * pow2(s),
        subtract ==> m * pow2(s) >= low && round_to((m * pow2(s) - low) as nat, precision) == m
            * pow2(s),
{
    let a = pow2(s);
    let h = pow2((s - 1) as nat);
    lemma_pow2_double((s - 1) as nat);
    lemma_pow2_double((s - 2) as nat);
    lemma_pow2_double((precision - 1) as nat);
    lemma_pow2_double((precision - 2) as nat);
    lemma_precisions();
    lemma_div_basics(m as int);
    lemma_round_scaled(m, s, 0, precision);
    assert(round_quotient(m, 1, 0) == m) by {
        assert(1 * pow2(0) == 1);
        assert(m / 1 == m && m % 1 == 0);
    }
    assert(1 * a == a && 1 * h == h);
    if !subtract {
        let n = m * a + low;
        assert(n as int == m as int * a as int + low as int);
        lemma_fundamental_div_mod_converse(n as int, a as int, m as int, low as int);
        lemma_excess(n, precision, s);
        assert(round_quotient(n, 1, s) == m);
    } else {
        assert(m * a >= a) by (nonlinear_arith)
            requires
                m >= 1,
        ;
        let n = (m * a - low) as nat;
        if low == 0 {
        } else if m > pow2((precision - 1) as nat) {
            assert(n as int == (m as int - 1) * a as int + (a as int - low as int))
                by (nonlinear_arith)
                requires
                    n as int == m as int * a as int - low as int,
            ;
            lemma_fundamental_div_mod_converse(
                n as int,
                a as int,
                m as int - 1,
                a as int - low as int,
            );
            lemma_excess(n, precision, s);
            assert(round_quotient(n, 1, s) == m);
        } else {
            assert(n as int == (2 * m as int - 1) * h as int + (h as int - low as int))
                by (nonlinear_arith)
                requires
                    n as int == m as int * (2 * h as int) - low as int,
            ;
            lemma_fundamental_div_mod_converse(
                n as int,
                h as int,
                2 * m as int - 1,
                h as int - low as int,
            );
            lemma_excess(n, precision, (s - 1) as nat);
            assert(round_quotient(n, 1, (s - 1) as nat) == 2 * m);
            assert((2 * m) * h == m * (2 * h)) by (nonlinear_arith);
        }
    }
}

/// `2^k` for a shift that fits.
pub(crate) fn power_of_two(k: u32) -> (r: u128)
    requires
        k <= 64,
    ensures
        r as nat == pow2(k as nat),
        r <= 0x1_0000_0000_0000_0000,
{
    proof {
        lemma2_to64();
    }
    let mut r: u128 = 1;
    let mut i: u32 = 0;
    while i < k
        invariant
            i <= k <= 64,
            r as nat == pow2(i as nat),
            r <= 0x1_0000_0000_0000_0000,
        decreases k - i,
    {
        proof {
            lemma_pow2_double(i as nat);
            lemma2_to64();
            if i + 1 < 64 {
                lemma_pow2_strictly_increases((i + 1) as nat, 64);
            }
        }
        r = r * 2;
        i = i + 1;
    }
    r
}

/// Adds two normalized values and rounds once. Only an exact zero sum takes
/// its sign from the operands: it is negative when both are.
pub fn add_scaled(x: Scaled, y: Scaled, precision: u32) -> (r: Scaled)
    requires
        precision == SINGLE_PRECISION || precision == DOUBLE_PRECISION,
        x.normalized(precision as nat),
        y.normalized(precision as nat),
        x.scale <= 2048,
        y.scale <= 2048,
    ensures
        r.normalized(precision as nat),
        r.signed() == round_signed(x.signed() + y.signed(), precision as nat),
        x.signed() + y.signed() != 0 ==> r.negative == (x.signed() + y.signed() < 0),
        x.signed() + y.signed() == 0 ==> r.mantissa == 0 && r.negative == (x.negative
            && y.negative),
        r.scale <= 2048 + 192,
{
    let (hi, lo) = if x.scale >= y.scale {
        (x, y)
    } else {
        (y, x)
    };
    assert(x.signed() + y.signed() == hi.signed() + lo.signed());
    let gap: u32 = hi.scale - lo.scale;
    proof {
        lemma_precisions();
        lemma_pow2_pos(hi.scale as nat);
        lemma_pow2_pos(lo.scale as nat);
        lemma_pow2_pos(gap as nat);
        lemma_pow2_adds(lo.scale as nat, gap as nat);
    }
    if gap > 56 {
        proof {
            let p = precision as nat;
            let low = lo.magnitude();
            let s = hi.scale as nat;
            assert(low < pow2((s - 2) as nat)) by {
                lemma_pow2_adds(p, lo.scale as nat);
                assert(lo.mantissa as nat * pow2(lo.scale as nat) < pow2(p) * pow2(lo.scale as nat))
                    by (nonlinear_arith)
                    requires
                        lo.mantissa < pow2(p),
                        pow2(lo.scale as nat) > 0,
                ;
                if p + lo.scale < s - 2 {
                    lemma_pow2_strictly_increases(p + lo.scale as nat, (s - 2) as nat);
                }
            }
            lemma_round_absorbs(hi.mantissa as nat, s, low, p, hi.negative != lo.negative);
            assert(hi.magnitude() >= pow2(s)) by (nonlinear_arith)
                requires
                    hi.magnitude() == hi.mantissa as nat * pow2(s),
                    hi.mantissa >= 1,
            ;
            lemma_pow2_strictly_increases((s - 2) as nat, s);
            if hi.negative {
                if lo.negative {
                    assert(-(hi.signed() + lo.signed()) == hi.magnitude() + low);
                } else {
                    assert(-(hi.signed() + lo.signed()) == hi.magnitude() - low);
                }
            } else {
                if lo.negative {
                    assert(hi.signed() + lo.signed() == hi.magnitude() - low);
                } else {
                    assert(hi.signed() + lo.signed() == hi.magnitude() + low);
                }
            }
        }
        return hi;
    }
    let factor: u128 = power_of_two(gap);
    proof {
        assert(factor <= 0x100_0000_0000_0000) by {
            lemma_pow2_adds(0, gap as nat);
            if gap < 56 {
                lemma_pow2_strictly_increases(gap as nat, 56);
            }
            lemma2_to64_rest();
        }
        assert(hi.mantissa as nat * factor as nat <= 0x20_0000_0000_0000 * 0x100_0000_0000_0000)
            by (nonlinear_arith)
            requires
                hi.mantissa <= 0x20_0000_0000_0000,
                factor <= 0x100_0000_0000_0000,
        ;
        assert(0x20_0000_0000_0000 * 0x100_0000_0000_0000 == 0x2000_0000_0000_0000_0000_0000_0000)
            by (nonlinear_arith);
    }
    let big: u128 = hi.mantissa as u128 * factor;
    let small: u128 = lo.mantissa as u128;
    let ghost unit = pow2(lo.scale as nat) as int;
    proof {
        assert(hi.magnitude() as int == big as int * unit) by (nonlinear_arith)
            requires
                hi.magnitude() as int == hi.mantissa as int * pow2(hi.scale as nat) as int,
                big as int == hi.mantissa as int * factor as int,
                pow2(hi.scale as nat) as int == unit * factor as int,
        ;
        assert(lo.magnitude() as int == small as int * unit);
        assert((big + small) * unit == big * unit + small * unit) by (nonlinear_arith);
        assert((big - small) * unit == big * unit - small * unit) by (nonlinear_arith);
        assert((small - big) * unit == small * unit - big * unit) by (nonlinear_arith);
    }
    if hi.negative == lo.negative {
        let r = round_scaled(hi.negative, big + small, lo.scale, precision);
        proof {
            let total = (big + small) as nat * pow2(lo.scale as nat);
            assert(total == (big + small) * unit);
            if big + small == 0 {
                lemma_round_zero(r, precision as nat);
                assert(0 * unit == 0);
            } else {
                assert((big + small) * unit > 0) by (nonlinear_arith)
                    requires
                        big + small > 0,
                        unit > 0,
                ;
            }
        }
        r
    } else if big > small {
        let r = round_scaled(hi.negative, big - small, lo.scale, precision);
        proof {
            assert((big - small) * unit > 0) by (nonlinear_arith)
                requires
                    big > small,
                    unit > 0,
            ;
        }
        r
    } else if small > big {
        let r = round_scaled(lo.negative, small - big, lo.scale, precision);
        proof {
            assert((small - big) * unit > 0) by (nonlinear_arith)
                requires
                    small > big,
                    unit > 0,
            ;
        }
        r
    } else {
        proof {
            lemma_round_exact(0, precision as nat);
            assert(0 * pow2(0) == 0);
        }
        Scaled { negative: false, mantissa: 0, scale: 0 }
    }
}

proof fn lemma_round_zero(r: Scaled, precision: nat)
    requires
        r.normalized(precision),
        precision == 24 || precision == 53,
        r.magnitude() == round_to(0, precision),
    ensures
        r.mantissa == 0,
        round_to(0, precision) == 0,
{
    lemma_precisions();
    lemma_round_exact(0, precision);
    lemma_pow2_pos(r.scale as nat);
    assert(r.mantissa == 0) by (nonlinear_arith)
        requires
            r.mantissa as nat * pow2(r.scale as nat) == 0,
            pow2(r.scale as nat) > 0,
    ;
}


/// Splits a finite pattern.
pub fn unpack(bits: u32) -> (r: Scaled)
    requires
        is_finite(bits),
    ensures
        r.normalized(24),
        r.negative == is_negative(bits),
        r.signed() == value(bits),
        r.magnitude() == unsigned_value(unsigned_bits(bits)),
        r.scale <= 253,
{
    let negative: bool = bits >= SIGN_BIT;
    let low: u32 = if negative {
        bits - SIGN_BIT
    } else {
        bits
    };
    proof {
        lemma_precisions();
    }
    if low < HIDDEN_BIT {
        proof {
            assert(low as nat * 1 == low as nat);
        }
        Scaled { negative, mantissa: low as u64, scale: 0 }
    } else {
        Scaled {
            negative,
            mantissa: (HIDDEN_BIT + low % HIDDEN_BIT) as u64,
            scale: low / HIDDEN_BIT - 1,
        }
    }
}

pub proof fn lemma_full_width(m: nat, s: nat)
    requires
        m < pow2(24),
        s == 0 || m >= pow2(23),
    ensures
        excess(m * pow2(s), 24) == s,
        (m * pow2(s)) / pow2(s) == m,
{
    lemma_precisions();
    lemma_pow2_pos(s);
    lemma_div_basics(m as int);
    lemma_scaled_division(m, s, 0);
    assert(m / 1 == m);
    if s == 0 {
        assert(m * 1 == m);
    } else {
        lemma_excess(m * pow2(s), 24, s);
    }
}

pub proof fn lemma_overflow_scale(m: nat, s: nat, precision: nat, top: nat)
    requires
        precision >= 1,
        top >= precision,
        m < pow2(precision),
        s == 0 || m >= pow2((precision - 1) as nat),
    ensures
        (m * pow2(s) < pow2(top)) <==> s <= top - precision,
{
    lemma_pow2_pos(s);
    let room = (top - precision) as nat;
    if s <= top - precision {
        lemma_pow2_adds(precision, s);
        assert(m * pow2(s) < pow2(precision) * pow2(s)) by (nonlinear_arith)
            requires
                m < pow2(precision),
                pow2(s) > 0,
        ;
        if precision + s < top {
            lemma_pow2_strictly_increases(precision + s, top);
        }
    } else {
        let h = (precision - 1) as nat;
        lemma_pow2_adds(h, s);
        assert(m * pow2(s) >= pow2(h) * pow2(s)) by (nonlinear_arith)
            requires
                m >= pow2(h),
        ;
        if h + s > top {
            lemma_pow2_strictly_increases(top, h + s);
        }
    }
}

/// Joins a rounded value; `None` when it is too large for binary32.
pub fn pack(x: Scaled) -> (r: Option<u32>)
    requires
        x.normalized(24),
    ensures
        r is Some <==> x.magnitude() < overflow_bound(),
        r matches Some(bits) ==> {
            &&& bits == pattern(x.negative, x.magnitude())
            &&& is_finite(bits)
            &&& is_negative(bits) == x.negative
            &&& value(bits) == x.signed()
        },
{
    proof {
        lemma_precisions();
        lemma_full_width(x.mantissa as nat, x.scale as nat);
        lemma_overflow_scale(x.mantissa as nat, x.scale as nat, 24, 277);
    }
    if x.scale > 253 {
        return None;
    }
    let low: u32 = x.scale * HIDDEN_BIT + x.mantissa as u32;
    proof {
        if low >= HIDDEN_BIT {
            assert(low as nat % HIDDEN_BIT as nat == x.mantissa - HIDDEN_BIT);
            assert(low as nat / HIDDEN_BIT as nat == x.scale + 1);
        } else {
            assert(x.mantissa as nat * 1 == x.mantissa as nat);
        }
    }
    if x.negative {
        Some(low + SIGN_BIT)
    } else {
        Some(low)
    }
}

/// A pattern is determined by its sign and value.
pub proof fn lemma_pattern_of_value(bits: u32)
    requires
        is_finite(bits),
    ensures
        pattern(is_negative(bits), abs(value(bits))) == bits,
        abs(value(bits)) < overflow_bound(),
        round_to(abs(value(bits)), 24) == abs(value(bits)),
{
    lemma_precisions();
    let low = unsigned_bits(bits);
    let (m, s) = if low < HIDDEN_BIT {
        (low as nat, 0nat)
    } else {
        (
            (HIDDEN_BIT as nat + low as nat % HIDDEN_BIT as nat),
            (low as nat / HIDDEN_BIT as nat - 1) as nat,
        )
    };
    assert(low as nat * 1 == low as nat);
    assert(unsigned_value(low) == m * pow2(s));
    lemma_full_width(m, s);
    lemma_overflow_scale(m, s, 24, 277);
    assert(s <= 253);
    if s == 0 {
        assert(m * 1 == m);
        lemma_round_exact(m, 24);
    } else {
        lemma_div_basics(m as int);
        assert(m / pow2(0) == m);
        lemma_round_scaled(m, s, 0, 24);
        assert(1 * pow2(0) == 1);
        assert(m / 1 == m && m % 1 == 0);
        assert(round_quotient(m, 1, 0) == m);
    }
}

/// Whether a pattern is finite.
pub fn finite(bits: u32) -> (r: bool)
    ensures
        r == is_finite(bits),
{
    let low: u32 = if bits >= SIGN_BIT {
        bits - SIGN_BIT
    } else {
        bits
    };
    low < INFINITY_BITS
}

/// Binary32 addition.
pub fn sum_bits(a: u32, b: u32) -> (r: Option<u32>)
    requires
        is_finite(a),
        is_finite(b),
    ensures
        r == sum(a, b),
        r matches Some(bits) ==> is_finite(bits),
{
    let x = add_scaled(unpack(a), unpack(b), SINGLE_PRECISION);
    proof {
        assert(x.magnitude() == round_to(abs(value(a) + value(b)), 24)) by {
            if value(a) + value(b) == 0 {
                lemma_precisions();
                lemma_round_exact(0, 24);
                assert(0 * pow2(x.scale as nat) == 0);
            }
        }
    }
    pack(x)
}

/// Flips the sign bit.
pub fn negate_bits(bits: u32) -> (r: u32)
    ensures
        r == negated(bits),
        is_finite(r) == is_finite(bits),
        value(r) == -value(bits),
{
    if bits >= SIGN_BIT {
        bits - SIGN_BIT
    } else {
        bits + SIGN_BIT
    }
}

/// Binary32 subtraction.
pub fn difference_bits(a: u32, b: u32) -> (r: Option<u32>)
    requires
        is_finite(a),
        is_finite(b),
    ensures
        r == difference(a, b),
        r matches Some(bits) ==> is_finite(bits),
{
    sum_bits(a, negate_bits(b))
}

/// Converts an integer to binary32.
pub fn integer_bits(k: i32) -> (r: u32)
    ensures
        r == integer_pattern(k as int),
        is_finite(r),
{
    let magnitude: u128 = if k < 0 {
        (-(k as i64)) as u128
    } else {
        k as u128
    };
    assert(magnitude as nat == abs(k as int));
    let x = round_scaled(k < 0, magnitude, 149, SINGLE_PRECISION);
    proof {
        lemma_precisions();
        lemma_overflow_scale(x.mantissa as nat, x.scale as nat, 24, 277);
        lemma_pow2_adds(31, 149);
        lemma2_to64();
        assert(magnitude as nat * pow2(149) <= pow2(31) * pow2(149)) by (nonlinear_arith)
            requires
                magnitude as nat <= pow2(31),
        ;
        lemma_round_to_bound(magnitude as nat * pow2(149), 24, 180);
        lemma_pow2_strictly_increases(180, 277);
    }
    match pack(x) {
        Some(bits) => bits,
        None => 0,
    }
}

/// Rounding does not pass a power of two.
proof fn lemma_round_to_bound(n: nat, precision: nat, top: nat)
    requires
        precision >= 1,
        n <= pow2(top),
    ensures
        round_to(n, precision) <= pow2(top),
{
    let k = excess(n, precision);
    lemma_excess_width(n, precision);
    lemma_pow2_pos(k);
    lemma_fundamental_div_mod(n as int, pow2(k) as int);
    let q = n / pow2(k);
    let r = n % pow2(k);
    assert(1 * pow2(k) == pow2(k));
    if k == 0 {
        lemma_round_exact(n, precision);
    } else if q + 1 <= pow2(precision) {
        // 2^top is a multiple of 2^k, so n rounds to at most 2^top.
        if k <= top {
            let j = (top - k) as nat;
            lemma_pow2_adds(k, j);
            if q < pow2(j) {
                assert((q + 1) * pow2(k) <= pow2(k) * pow2(j)) by (nonlinear_arith)
                    requires
                        q + 1 <= pow2(j),
                ;
                assert(q * pow2(k) <= (q + 1) * pow2(k)) by (nonlinear_arith);
            } else {
                assert(r == 0 && q * pow2(k) == pow2(top)) by (nonlinear_arith)
                    requires
                        n == pow2(k) * q + r,
                        q >= pow2(j),
                        n <= pow2(k) * pow2(j),
                        pow2(k) > 0,
                        pow2(top) == pow2(k) * pow2(j),
                ;
                assert(round_quotient(n, 1, k) == q);
            }
        } else {
            lemma_pow2_strictly_increases(top, k);
            assert(q >= 1) by {
                lemma_pow2_pos((precision - 1) as nat);
            }
            assert(n >= pow2(k)) by (nonlinear_arith)
                requires
                    n == pow2(k) * q + r,
                    q >= 1,
            ;
        }
    }
}

pub proof fn lemma_excess_width(n: nat, precision: nat)
    requires
        precision >= 1,
    ensures
        n / pow2(excess(n, precision)) < pow2(precision),
        excess(n, precision) > 0 ==> n / pow2(excess(n, precision)) >= pow2((precision - 1) as nat),
    decreases n,
{
    lemma_precisions();
    if n < pow2(precision) {
        lemma_div_basics(n as int);
        assert(n / 1 == n);
    } else {
        lemma_pow2_pos(precision);
        lemma_excess_width(n / 2, precision);
        let k = excess(n / 2, precision);
        lemma_pow2_double(k);
        lemma_pow2_pos(k);
        lemma_div_denominator(n as int, 2, pow2(k) as int);
        lemma_pow2_double((precision - 1) as nat);
        if k == 0 {
            lemma_div_basics((n / 2) as int);
            assert(n / 2 / 1 == n / 2);
        }
    }
}

/// Binary32 product of a finite pattern and an integer.
pub fn integer_product_bits(a: u32, k: i32) -> (r: Option<u32>)
    requires
        is_finite(a),
    ensures
        r == integer_product(a, k as int),
        r matches Some(bits) ==> is_finite(bits),
{
    let x = unpack(a);
    let magnitude: u128 = if k < 0 {
        (-(k as i64)) as u128
    } else {
        k as u128
    };
    assert(magnitude as nat == abs(k as int));
    let y = round_scaled(k < 0, magnitude, 0, SINGLE_PRECISION);
    proof {
        lemma_precisions();
        assert(magnitude as nat * 1 == magnitude as nat);
        assert(x.mantissa as nat * y.mantissa as nat <= 0x100_0000 * 0x100_0000)
            by (nonlinear_arith)
            requires
                x.mantissa <= 0x100_0000,
                y.mantissa <= 0x100_0000,
        ;
        lemma_pow2_adds(x.scale as nat, y.scale as nat);
        assert((x.mantissa as nat * y.mantissa as nat) * (pow2(x.scale as nat) * pow2(
            y.scale as nat,
        )) == (x.mantissa as nat * pow2(x.scale as nat)) * (y.mantissa as nat * pow2(
            y.scale as nat,
        ))) by (nonlinear_arith);
    }
    let product: u128 = x.mantissa as u128 * y.mantissa as u128;
    pack(round_scaled(x.negative != (k < 0), product, x.scale + y.scale, SINGLE_PRECISION))
}


/// Magnitudes grow with their sign-free patterns.
pub proof fn lemma_unsigned_value_monotone(a: u32, b: u32)
    requires
        a < b < INFINITY_BITS,
    ensures
        unsigned_value(a) < unsigned_value(b),
{
    lemma_precisions();
    if b < HIDDEN_BIT {
    } else {
        let mb = HIDDEN_BIT as nat + b as nat % HIDDEN_BIT as nat;
        let sb = (b as nat / HIDDEN_BIT as nat - 1) as nat;
        lemma_pow2_pos(sb);
        if a < HIDDEN_BIT {
            assert(mb * pow2(sb) >= mb) by (nonlinear_arith)
                requires
                    pow2(sb) >= 1,
            ;
        } else {
            let ma = HIDDEN_BIT as nat + a as nat % HIDDEN_BIT as nat;
            let sa = (a as nat / HIDDEN_BIT as nat - 1) as nat;
            if sa == sb {
                assert(ma * pow2(sa) < mb * pow2(sb)) by (nonlinear_arith)
                    requires
                        ma < mb,
                        sa == sb,
                        pow2(sb) > 0,
                ;
            } else {
                let d = (sb - sa) as nat;
                lemma_pow2_adds(sa, d);
                lemma_pow2_pos(sa);
                lemma_pow2_double((d - 1) as nat);
                assert(ma * pow2(sa) < mb * pow2(sb)) by (nonlinear_arith)
                    requires
                        ma < 0x100_0000,
                        mb >= 0x80_0000,
                        pow2(sb) == pow2(sa) * pow2(d),
                        pow2(d) >= 2,
                        pow2(sa) > 0,
                ;
            }
        }
    }
}

/// Whether one finite value is at most another; both zeros are equal.
pub fn at_most(a: u32, b: u32) -> (r: bool)
    requires
        is_finite(a),
        is_finite(b),
    ensures
        r == (value(a) <= value(b)),
{
    let a_low: u32 = if a >= SIGN_BIT {
        a - SIGN_BIT
    } else {
        a
    };
    let b_low: u32 = if b >= SIGN_BIT {
        b - SIGN_BIT
    } else {
        b
    };
    proof {
        if a_low < b_low {
            lemma_unsigned_value_monotone(a_low, b_low);
        }
        if b_low < a_low {
            lemma_unsigned_value_monotone(b_low, a_low);
        }
        if a_low > 0 {
            lemma_unsigned_value_monotone(0, a_low);
        }
        if b_low > 0 {
            lemma_unsigned_value_monotone(0, b_low);
        }
    }
    if a >= SIGN_BIT {
        if b >= SIGN_BIT {
            b_low <= a_low
        } else {
            true
        }
    } else if b >= SIGN_BIT {
        a_low == 0 && b_low == 0
    } else {
        a_low <= b_low
    }
}

/// Position of a pattern in the total order of binary32 patterns.
pub open spec fn total_order_key(bits: u32) -> int {
    if bits >= SIGN_BIT {
        SIGN_BIT - bits - 1
    } else {
        bits as int
    }
}

/// Position of a pattern in the total order of binary32 patterns.
pub fn order_key(bits: u32) -> (r: i64)
    ensures
        r == total_order_key(bits),
{
    if bits >= SIGN_BIT {
        0x8000_0000i64 - bits as i64 - 1
    } else {
        bits as i64
    }
}

/// `cents / 100`, correctly rounded.
pub fn hundredths_bits(cents: u32) -> (r: u32)
    requires
        1 <= cents <= 0x100_0000,
    ensures
        r == quotient_pattern(cents as nat, 100),
        is_finite(r),
{
    let exact: u128 = cents as u128 * 0x100_0000_0000;
    let mut unit: u128 = 100;
    let mut q: u128 = exact / 100;
    let mut drop: u32 = 0;
    proof {
        lemma_precisions();
        lemma2_to64_rest();
    }
    while q >= 0x100_0000
        invariant
            q as nat == exact as nat / unit as nat,
            unit as nat == 100 * pow2(drop as nat),
            unit > 0,
            drop <= 40,
            q >= 0x80_0000,
            exact <= 0x1_0000_0000_0000_0000,
            q as nat * unit as nat <= exact as nat,
        decreases q,
    {
        proof {
            lemma_pow2_double(drop as nat);
            lemma_div_denominator(exact as int, unit as int, 2);
            let u = unit as int;
            let w = q as int;
            assert(u <= 0x100_0000_0000) by (nonlinear_arith)
                requires
                    u * w <= 0x1_0000_0000_0000_0000,
                    w >= 0x100_0000,
                    u >= 0,
            ;
            assert((w / 2) * (2 * u) <= w * u) by (nonlinear_arith)
                requires
                    u >= 0,
                    w >= 0,
            ;
            lemma2_to64_rest();
            if drop >= 40 {
                assert(pow2(40) == 0x100_0000_0000);
            }
        }
        q = q / 2;
        unit = unit * 2;
        drop = drop + 1;
    }
    let rest: u128 = exact - q * unit;
    proof {
        lemma_fundamental_div_mod(exact as int, unit as int);
        assert(unit as int * q as int == q as int * unit as int) by (nonlinear_arith);
    }
    let up: bool = rest > unit - rest || (rest == unit - rest && q % 2 == 1);
    let rounded: u128 = if up {
        q + 1
    } else {
        q
    };
    proof {
        lemma_hundredths(cents as nat, exact as nat, unit as nat, drop as nat);
    }
    let scale: u32 = 109 + drop;
    let x = if rounded == 0x100_0000 {
        Scaled { negative: false, mantissa: 0x80_0000, scale: scale + 1 }
    } else {
        Scaled { negative: false, mantissa: rounded as u64, scale }
    };
    proof {
        lemma_pow2_double(scale as nat);
        assert(x.magnitude() == rounded as nat * pow2(scale as nat)) by {
            if rounded == 0x100_0000 {
                assert(0x80_0000 * (2 * pow2(scale as nat)) == 0x100_0000 * pow2(scale as nat))
                    by (nonlinear_arith);
            }
        }
        lemma_overflow_scale(x.mantissa as nat, x.scale as nat, 24, 277);
    }
    match pack(x) {
        Some(bits) => bits,
        None => 0,
    }
}

proof fn lemma_hundredths(cents: nat, exact: nat, unit: nat, drop: nat)
    requires
        exact == cents * 0x100_0000_0000,
        unit == 100 * pow2(drop),
        0x80_0000 <= exact / unit < 0x100_0000,
    ensures
        excess((cents * pow2(149)) / 100, 24) == 109 + drop,
        round_quotient(cents * pow2(149), 100, 109 + drop) == round_quotient(exact, 100, drop),
{
    lemma_precisions();
    lemma2_to64_rest();
    lemma_pow2_adds(40, 109);
    lemma_pow2_adds(109, drop);
    let a = pow2(109);
    let n = cents * pow2(149);
    assert(n == exact * a) by (nonlinear_arith)
        requires
            n == cents * (0x100_0000_0000 * a),
            exact == cents * 0x100_0000_0000,
    ;
    lemma_pow2_pos(109);
    lemma_pow2_pos(drop);
    lemma_pow2_pos(109 + drop);
    let q = exact as int / unit as int;
    let r = exact as int % unit as int;
    lemma_fundamental_div_mod(exact as int, unit as int);
    let big = unit as int * a as int;
    assert(n as int == big * q + r * a as int) by (nonlinear_arith)
        requires
            n as int == exact as int * a as int,
            exact as int == unit as int * q + r,
            big == unit as int * a as int,
    ;
    assert(0 <= r * a < big) by (nonlinear_arith)
        requires
            0 <= r < unit as int,
            a > 0,
            big == unit as int * a as int,
    ;
    lemma_fundamental_div_mod_converse(n as int, big, q, r * a as int);
    assert(100 * pow2(109 + drop) == big) by (nonlinear_arith)
        requires
            pow2(109 + drop) == a * pow2(drop),
            big == (100 * pow2(drop)) * a,
    ;
    lemma_div_denominator(n as int, 100, pow2(109 + drop) as int);
    lemma_excess(n / 100, 24, 109 + drop);
    assert((2 * (r * a) > unit * a) == (2 * r > unit)) by (nonlinear_arith)
        requires
            a > 0,
    ;
    assert((2 * (r * a) == unit * a) == (2 * r == unit)) by (nonlinear_arith)
        requires
            a > 0,
    ;
}

/// A running binary64 total in range, zero without a sign.
pub open spec fn is_double_total(x: Scaled) -> bool {
    &&& x.normalized(53)
    &&& x.scale <= 1120
    &&& x.signed() == 0 ==> !x.negative
}

/// The total of no terms.
pub fn double_zero() -> (r: Scaled)
    ensures
        is_double_total(r),
        r.signed() == 0,
{
    proof {
        lemma_precisions();
        assert(0 * pow2(0) == 0);
    }
    Scaled { negative: false, mantissa: 0, scale: 0 }
}

/// Adds a term to a binary64 total; `None` when it leaves the finite range.
pub fn double_add(total: Scaled, bits: u32) -> (r: Option<Scaled>)
    requires
        is_double_total(total),
        is_finite(bits),
    ensures
        r is Some <==> abs(round_signed(total.signed() + value(bits), 53))
            < double_overflow_bound(),
        r matches Some(x) ==> is_double_total(x) && x.signed() == round_signed(
            total.signed() + value(bits),
            53,
        ),
{
    let term = widen(unpack(bits));
    let next = add_scaled(total, term, DOUBLE_PRECISION);
    proof {
        lemma_precisions();
        lemma_overflow_scale(next.mantissa as nat, next.scale as nat, 53, 1173);
        lemma_round_sign(total.signed() + term.signed(), 53);
    }
    if next.scale > 1120 {
        None
    } else {
        Some(next)
    }
}

/// Rounds a binary64 total to binary32; `None` when it leaves the finite range.
pub fn double_to_single(total: Scaled) -> (r: Option<u32>)
    requires
        is_double_total(total),
    ensures
        r == nearest(total.signed() < 0, abs(total.signed())),
        r matches Some(bits) ==> is_finite(bits),
{
    proof {
        lemma_precisions();
    }
    pack(round_scaled(total.negative, total.mantissa as u128, total.scale, SINGLE_PRECISION))
}

/// Left-to-right binary64 sum, rounded once to binary32. `None` when a
/// partial sum leaves binary64 or the total leaves binary32.
pub fn double_sum_bits(values: &[u32]) -> (r: Option<u32>)
    requires
        all_finite(values@),
    ensures
        r == double_sum_pattern(values@),
        r matches Some(bits) ==> is_finite(bits),
{
    let mut total = double_zero();
    let mut i: usize = 0;
    assert(values@.subrange(0, 0) =~= Seq::<u32>::empty());
    while i < values.len()
        invariant
            i <= values.len(),
            all_finite(values@),
            is_double_total(total),
            double_sum(values@.subrange(0, i as int)) == Some(total.signed()),
        decreases values.len() - i,
    {
        proof {
            let s = values@.subrange(0, i as int + 1);
            assert(s.drop_last() =~= values@.subrange(0, i as int));
            assert(s.last() == values@[i as int]);
        }
        match double_add(total, values[i]) {
            Some(next) => {
                total = next;
            },
            None => {
                proof {
                    lemma_double_sum_stays_none(values@, i as int + 1);
                }
                return None;
            },
        }
        i = i + 1;
    }
    proof {
        assert(values@.subrange(0, i as int) =~= values@);
    }
    double_to_single(total)
}

proof fn lemma_double_sum_stays_none(s: Seq<u32>, k: int)
    requires
        0 <= k <= s.len(),
        double_sum(s.subrange(0, k)) is None,
    ensures
        double_sum(s) is None,
    decreases s.len() - k,
{
    if k == s.len() {
        assert(s.subrange(0, k) =~= s);
    } else {
        assert(s.subrange(0, k + 1).drop_last() =~= s.subrange(0, k));
        lemma_double_sum_stays_none(s, k + 1);
    }
}

/// Rounding keeps zero, and only zero, at zero.
proof fn lemma_round_sign(n: int, precision: nat)
    requires
        precision == 24 || precision == 53,
    ensures
        round_signed(n, precision) == 0 <==> n == 0,
        round_signed(n, precision) < 0 <==> n < 0,
{
    lemma_precisions();
    let m = abs(n);
    lemma_excess_width(m, precision);
    let k = excess(m, precision);
    if k == 0 {
        lemma_round_exact(m, precision);
    } else {
        lemma_pow2_pos(k);
        assert(1 * pow2(k) == pow2(k));
        let q = round_quotient(m, 1, k);
        assert(q * pow2(k) > 0) by (nonlinear_arith)
            requires
                q >= 1,
                pow2(k) > 0,
        ;
    }
}

/// Fills the wider significand of binary64 with a binary32 value.
fn widen(x: Scaled) -> (r: Scaled)
    requires
        x.normalized(24),
        x.scale <= 253,
    ensures
        r.normalized(53),
        r.signed() == x.signed(),
        r.negative == x.negative,
        r.scale <= 253,
{
    proof {
        lemma_precisions();
    }
    let mut m: u64 = x.mantissa;
    let mut s: u32 = x.scale;
    while s > 0 && m < 0x10_0000_0000_0000
        invariant
            m as nat * pow2(s as nat) == x.magnitude(),
            m < 0x20_0000_0000_0000,
            s <= 253,
        decreases s,
    {
        proof {
            lemma_pow2_double((s - 1) as nat);
            assert((2 * m) * pow2((s - 1) as nat) == m * (2 * pow2((s - 1) as nat)))
                by (nonlinear_arith);
        }
        m = m * 2;
        s = s - 1;
    }
    Scaled { negative: x.negative, mantissa: m, scale: s }
}

proof fn lemma_excess_monotone(m: nat, n: nat, precision: nat)
    requires
        m <= n,
    ensures
        excess(m, precision) <= excess(n, precision),
    decreases n,
{
    lemma_pow2_pos(precision);
    if m >= pow2(precision) {
        lemma_excess_monotone(m / 2, n / 2, precision);
    }
}

/// A number that rounding keeps is a multiple of its last place.
proof fn lemma_kept_is_multiple(m: nat)
    requires
        round_to(m, 24) == m,
    ensures
        m == (m / pow2(excess(m, 24))) * pow2(excess(m, 24)),
{
    let k = excess(m, 24);
    let a = pow2(k);
    lemma_pow2_pos(k);
    assert(1 * a == a);
    let c = round_quotient(m, 1, k);
    lemma_fundamental_div_mod_converse(m as int, a as int, c as int, 0);
}

/// Rounding never goes below a representable number.
proof fn lemma_round_at_least(m: nat, n: nat)
    requires
        m <= n,
        round_to(m, 24) == m,
    ensures
        m <= round_to(n, 24),
{
    lemma_precisions();
    let k = excess(m, 24);
    let big = excess(n, 24);
    lemma_excess_monotone(m, n, 24);
    lemma_excess_width(m, 24);
    lemma_excess_width(n, 24);
    if big == 0 {
        lemma_round_exact(n, 24);
    } else {
        let a = pow2(big);
        lemma_pow2_pos(big);
        lemma_pow2_pos(k);
        assert(1 * a == a);
        let q = n / a;
        let rounded = round_quotient(n, 1, big);
        assert(rounded * a >= q * a) by (nonlinear_arith)
            requires
                rounded >= q,
                a > 0,
        ;
        lemma_kept_is_multiple(m);
        let low = m / pow2(k);
        if k == big {
            lemma_div_is_ordered(m as int, n as int, a as int);
            assert(q * a >= low * a) by (nonlinear_arith)
                requires
                    q >= low,
                    a > 0,
            ;
        } else {
            lemma_pow2_adds(k + 1, (big - k - 1) as nat);
            lemma_pow2_double(k);
            lemma_pow2_pos((big - k - 1) as nat);
            let half = pow2(k);
            let rest = pow2((big - k - 1) as nat);
            assert(q * a >= low * half) by (nonlinear_arith)
                requires
                    q >= 0x80_0000,
                    low < 0x100_0000,
                    a == (2 * half) * rest,
                    rest >= 1,
                    half > 0,
            ;
        }
    }
}

/// Patterns of larger magnitudes are larger, and finite below the bound.
proof fn lemma_pattern_monotone(m: nat, n: nat)
    requires
        m <= n < overflow_bound(),
    ensures
        pattern(false, m) <= pattern(false, n) < INFINITY_BITS,
{
    lemma_precisions();
    let k = excess(m, 24);
    let big = excess(n, 24);
    lemma_excess_monotone(m, n, 24);
    lemma_excess_width(m, 24);
    lemma_excess_width(n, 24);
    lemma_pow2_pos(k);
    lemma_pow2_pos(big);
    if big > 253 {
        let q = n / pow2(big);
        lemma_pow2_adds(254, (big - 254) as nat);
        lemma_pow2_pos((big - 254) as nat);
        lemma_pow2_adds(23, 254);
        lemma_fundamental_div_mod(n as int, pow2(big) as int);
        let rest = pow2((big - 254) as nat);
        assert(n >= pow2(23) * pow2(254)) by (nonlinear_arith)
            requires
                n >= pow2(big) * q,
                q >= pow2(23),
                pow2(big) == pow2(254) * rest,
                rest >= 1,
                pow2(254) >= 0,
                pow2(23) >= 0,
        ;
        assert(false);
    }
    if k == big {
        lemma_div_is_ordered(m as int, n as int, pow2(k) as int);
    } else {
        assert(big * 0x80_0000 >= k * 0x80_0000 + 0x80_0000);
    }
}

/// Adding a positive amount to a value that is not negative never goes back.
pub proof fn lemma_sum_moves_forward(a: u32, amount: u32, after: u32)
    requires
        is_finite(a),
        is_finite(amount),
        !is_negative(a),
        value(amount) > 0,
        sum(a, amount) == Some(after),
    ensures
        is_finite(after),
        !is_negative(after),
        a <= after,
{
    let m = abs(value(a));
    let n = abs(value(a) + value(amount));
    lemma_pattern_of_value(a);
    lemma_round_at_least(m, n);
    lemma_pattern_monotone(m, round_to(n, 24));
}

} // verus!
