//! Spans of monotonic time, counted in nanoseconds.
use vstd::prelude::*;

use crate::text::{decimal, digit, digit_char, join2, join3, unsigned_text, wide_text};

verus! {

/// Nanoseconds in one second.
pub const NANOS_PER_SECOND: u128 = 1_000_000_000;

/// Nanoseconds in one millisecond.
pub const NANOS_PER_MILLISECOND: u128 = 1_000_000;

/// Longest representable span: `2^64` seconds less one nanosecond.
pub const MAX_NANOS: u128 = 18_446_744_073_709_551_615_999_999_999;

/// A non-negative span of time.
#[derive(Clone, Copy, Debug, PartialEq, Eq, Hash, PartialOrd, Ord, Structural)]
pub struct Duration {
    pub nanos: u128,
}

impl Duration {
    /// Whether the span is within the representable range.
    pub open spec fn in_range(self) -> bool {
        self.nanos <= MAX_NANOS
    }

    /// The empty span.
    pub fn zero() -> (r: Duration)
        ensures
            r.nanos == 0,
    {
        Duration { nanos: 0 }
    }

    /// Whole seconds.
    pub fn from_secs(seconds: u64) -> (r: Duration)
        ensures
            r.nanos == seconds * NANOS_PER_SECOND,
            r.in_range(),
    {
        Duration { nanos: seconds as u128 * NANOS_PER_SECOND }
    }

    /// Whole milliseconds.
    pub fn from_millis(milliseconds: u64) -> (r: Duration)
        ensures
            r.nanos == milliseconds * NANOS_PER_MILLISECOND,
            r.in_range(),
    {
        Duration { nanos: milliseconds as u128 * NANOS_PER_MILLISECOND }
    }

    /// Whether the span is empty.
    pub fn is_zero(&self) -> (r: bool)
        ensures
            r == (self.nanos == 0),
    {
        self.nanos == 0
    }

    /// The sum, unless it leaves the representable range.
    pub fn checked_add(self, other: Duration) -> (r: Option<Duration>)
        ensures
            r is Some <==> self.nanos + other.nanos <= MAX_NANOS,
            r matches Some(total) ==> total.nanos == self.nanos + other.nanos,
    {
        match self.nanos.checked_add(other.nanos) {
            Some(total) => if total <= MAX_NANOS {
                Some(Duration { nanos: total })
            } else {
                None
            },
            None => None,
        }
    }

    /// The product, unless it leaves the representable range.
    pub fn checked_mul(self, factor: u32) -> (r: Option<Duration>)
        ensures
            r is Some <==> self.nanos * factor <= MAX_NANOS,
            r matches Some(total) ==> total.nanos == self.nanos * factor,
    {
        match self.nanos.checked_mul(factor as u128) {
            Some(total) => if total <= MAX_NANOS {
                Some(Duration { nanos: total })
            } else {
                None
            },
            None => None,
        }
    }

    /// The difference, unless `other` is longer.
    pub fn checked_sub(self, other: Duration) -> (r: Option<Duration>)
        ensures
            r is Some <==> self.nanos >= other.nanos,
            r matches Some(rest) ==> rest.nanos == self.nanos - other.nanos,
    {
        if self.nanos >= other.nanos {
            Some(Duration { nanos: self.nanos - other.nanos })
        } else {
            None
        }
    }

    /// The difference, or the empty span when `other` is longer.
    pub fn saturating_sub(self, other: Duration) -> (r: Duration)
        ensures
            r.nanos == if self.nanos >= other.nanos {
                self.nanos - other.nanos
            } else {
                0
            },
    {
        if self.nanos >= other.nanos {
            Duration { nanos: self.nanos - other.nanos }
        } else {
            Duration { nanos: 0 }
        }
    }
}

/// The last `width` decimal digits of `n`.
pub open spec fn fixed_digits(n: nat, width: nat) -> Seq<char>
    decreases width,
{
    if width == 0 {
        Seq::empty()
    } else {
        fixed_digits(n / 10, (width - 1) as nat).push(digit(n % 10))
    }
}

/// The digits of `n` in `width` places without the trailing zeros.
pub open spec fn trimmed_digits(n: nat, width: nat) -> Seq<char>
    decreases width,
{
    if width == 0 {
        Seq::empty()
    } else if n % 10 == 0 {
        trimmed_digits(n / 10, (width - 1) as nat)
    } else {
        fixed_digits(n, width)
    }
}

/// A decimal fraction with its point, or nothing.
pub open spec fn fraction_text(n: nat, width: nat) -> Seq<char> {
    if n == 0 {
        Seq::empty()
    } else {
        seq!['.'] + trimmed_digits(n, width)
    }
}

/// A span in the largest unit of which it holds at least one.
pub open spec fn duration_text(d: Duration) -> Seq<char> {
    let n = d.nanos as nat;
    if n >= 1_000_000_000 {
        decimal(n / 1_000_000_000) + fraction_text(n % 1_000_000_000, 9) + "s"@
    } else if n >= 1_000_000 {
        decimal(n / 1_000_000) + fraction_text(n % 1_000_000, 6) + "ms"@
    } else if n >= 1_000 {
        decimal(n / 1_000) + fraction_text(n % 1_000, 3) + "µs"@
    } else {
        decimal(n) + "ns"@
    }
}

pub(crate) fn push_fixed(out: &mut String, n: u64, width: u32)
    ensures
        final(out)@ == old(out)@ + fixed_digits(n as nat, width as nat),
    decreases width,
{
    if width > 0 {
        push_fixed(out, n / 10, width - 1);
        out.push(digit_char(n % 10));
    }
    assert(out@ =~= old(out)@ + fixed_digits(n as nat, width as nat));
}

fn push_trimmed(out: &mut String, n: u64, width: u32)
    ensures
        final(out)@ == old(out)@ + trimmed_digits(n as nat, width as nat),
    decreases width,
{
    if width == 0 {
        assert(out@ =~= old(out)@ + trimmed_digits(n as nat, width as nat));
    } else if n % 10 == 0 {
        push_trimmed(out, n / 10, width - 1);
    } else {
        push_fixed(out, n, width);
    }
}

fn fraction(n: u64, width: u32) -> (r: String)
    ensures
        r@ == fraction_text(n as nat, width as nat),
{
    let mut out = String::new();
    if n != 0 {
        out.push('.');
        push_trimmed(&mut out, n, width);
        assert(out@ =~= fraction_text(n as nat, width as nat));
    }
    out
}

impl Duration {
    /// The span as text, such as `1.5s` or `20ms`.
    pub fn text(&self) -> (r: String)
        ensures
            r@ == duration_text(*self),
    {
        if self.nanos >= NANOS_PER_SECOND {
            let rest: u64 = (self.nanos % NANOS_PER_SECOND) as u64;
            join3(wide_text(self.nanos / NANOS_PER_SECOND).as_str(), fraction(rest, 9).as_str(), "s")
        } else {
            let n: u64 = self.nanos as u64;
            if n >= 1_000_000 {
                join3(
                    unsigned_text(n / 1_000_000).as_str(),
                    fraction(n % 1_000_000, 6).as_str(),
                    "ms",
                )
            } else if n >= 1_000 {
                join3(
                    unsigned_text(n / 1_000).as_str(),
                    fraction(n % 1_000, 3).as_str(),
                    "µs",
                )
            } else {
                join2(unsigned_text(n).as_str(), "ns")
            }
        }
    }
}

} // verus!
