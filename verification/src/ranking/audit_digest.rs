//! Order-independent digests of updates.
use vstd::prelude::*;

verus! {

/// Four lanes of a digest.
#[derive(Clone, Copy, Debug, PartialEq, Eq, Structural)]
pub struct Digest {
    pub a: u64,
    pub b: u64,
    pub c: u64,
    pub d: u64,
}

/// The lanes in order.
pub open spec fn digest_lanes(digest: Digest) -> Seq<u64> {
    seq![digest.a, digest.b, digest.c, digest.d]
}

impl Digest {
    /// The digest of nothing.
    pub open spec fn none() -> Digest {
        Digest { a: 0, b: 0, c: 0, d: 0 }
    }

    pub fn empty() -> (r: Digest)
        ensures
            r == Digest::none(),
    {
        Digest { a: 0, b: 0, c: 0, d: 0 }
    }

    /// The lanes in order.
    pub fn lanes(&self) -> (r: [u64; 4])
        ensures
            r@ == digest_lanes(*self),
    {
        [self.a, self.b, self.c, self.d]
    }
}

/// One round of bit mixing.
pub open spec fn mixed(value: u64) -> u64 {
    let a = value ^ (value >> 30);
    let b = a.wrapping_mul(0xbf58_476d_1ce4_e5b9);
    let c = b ^ (b >> 27);
    let d = c.wrapping_mul(0x94d0_49bb_1331_11eb);
    d ^ (d >> 31)
}

/// The state after the first `n` values.
pub open spec fn absorbed_values(state: u64, values: Seq<u64>, n: int) -> u64
    decreases n,
{
    if n <= 0 {
        state
    } else {
        mixed(absorbed_values(state, values, n - 1) ^ mixed(values[n - 1]))
    }
}

/// One lane of a digest.
pub open spec fn digest_lane(seed: u64, domain: u64, lane: u64, values: Seq<u64>) -> u64 {
    absorbed_values(
        mixed(seed ^ domain ^ lane.wrapping_mul(0x9e37_79b9_7f4a_7c15)),
        values,
        values.len() as int,
    )
}

/// Four lanes under one seed and domain.
pub open spec fn digest_of(seed: u64, domain: u64, values: Seq<u64>) -> Digest {
    Digest {
        a: digest_lane(seed, domain, 0, values),
        b: digest_lane(seed, domain, 1, values),
        c: digest_lane(seed, domain, 2, values),
        d: digest_lane(seed, domain, 3, values),
    }
}

/// The lane-wise wrapping sum of two digests.
pub open spec fn digest_sum(x: Digest, y: Digest) -> Digest {
    Digest {
        a: x.a.wrapping_add(y.a),
        b: x.b.wrapping_add(y.b),
        c: x.c.wrapping_add(y.c),
        d: x.d.wrapping_add(y.d),
    }
}

/// Digests add in any order and grouping.
pub proof fn law_digests_add_in_any_order(x: Digest, y: Digest, z: Digest)
    ensures
        digest_sum(x, y) == digest_sum(y, x),
        digest_sum(digest_sum(x, y), z) == digest_sum(x, digest_sum(y, z)),
{
}

pub fn mix64(value: u64) -> (r: u64)
    ensures
        r == mixed(value),
{
    let a: u64 = value ^ (value >> 30);
    let b: u64 = a.wrapping_mul(0xbf58_476d_1ce4_e5b9);
    let c: u64 = b ^ (b >> 27);
    let d: u64 = c.wrapping_mul(0x94d0_49bb_1331_11eb);
    d ^ (d >> 31)
}

fn lane_of(seed: u64, domain: u64, lane: u64, values: &[u64]) -> (r: u64)
    ensures
        r == digest_lane(seed, domain, lane, values@),
{
    let start: u64 = mix64(seed ^ domain ^ lane.wrapping_mul(0x9e37_79b9_7f4a_7c15));
    let mut state: u64 = start;
    let mut i: usize = 0;
    while i < values.len()
        invariant
            i <= values@.len(),
            state == absorbed_values(start, values@, i as int),
        decreases values@.len() - i,
    {
        state = mix64(state ^ mix64(values[i]));
        i = i + 1;
    }
    state
}

pub fn audit_digest(seed: u64, domain: u64, values: &[u64]) -> (r: Digest)
    ensures
        r == digest_of(seed, domain, values@),
{
    Digest {
        a: lane_of(seed, domain, 0, values),
        b: lane_of(seed, domain, 1, values),
        c: lane_of(seed, domain, 2, values),
        d: lane_of(seed, domain, 3, values),
    }
}

pub fn add_digest(left: Digest, right: Digest) -> (r: Digest)
    ensures
        r == digest_sum(left, right),
{
    Digest {
        a: left.a.wrapping_add(right.a),
        b: left.b.wrapping_add(right.b),
        c: left.c.wrapping_add(right.c),
        d: left.d.wrapping_add(right.d),
    }
}

} // verus!
