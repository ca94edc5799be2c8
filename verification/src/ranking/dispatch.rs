//! One immutable ranked transaction, whatever its family.
use vstd::arithmetic::div_mod::*;
use vstd::prelude::*;
use vstd::utf8::encode_utf8;

use crate::profile::TransactionKind;
use crate::ranking::row_checks::{is_timestamp, timestamp_fits};
use crate::transaction::TransactionType;
use crate::workload::{TransactionParameters, TransactionTicket};

verus! {

/// A selected transaction with the timestamp that all its attempts use.
#[derive(Clone, Debug)]
pub struct FrozenTransaction {
    pub ticket: TransactionTicket,
    pub timestamp: String,
    pub fingerprint: u64,
}

/// The refusal of a timestamp.
pub open spec fn bad_timestamp_text() -> Seq<char> {
    "ranked timestamp must be a nonempty, NUL-free CHAR(30) value"@
}

/// A fingerprint with one more byte.
pub open spec fn stirred(hash: u64, byte: u8) -> u64 {
    (hash ^ byte as u64).wrapping_mul(0x0000_0100_0000_01b3)
}

/// A fingerprint with the first `n` bytes of a list.
pub open spec fn stirred_bytes(hash: u64, bytes: Seq<u8>, n: int) -> u64
    decreases n,
{
    if n <= 0 {
        hash
    } else {
        stirred(stirred_bytes(hash, bytes, n - 1), bytes[n - 1])
    }
}

/// The identity of a selection and its timestamp.
pub open spec fn frozen_fingerprint(seed: u64, timestamp: Seq<u8>) -> u64 {
    stirred_bytes(seed ^ 0xcbf2_9ce4_8422_2325, timestamp, timestamp.len() as int)
}

/// The family of a kind.
pub open spec fn family_of(kind: TransactionKind) -> TransactionType {
    match kind {
        TransactionKind::NewOrder => TransactionType::NewOrder,
        TransactionKind::Payment => TransactionType::Payment,
        TransactionKind::OrderStatus => TransactionType::OrderStatus,
        TransactionKind::Delivery => TransactionType::Delivery,
        TransactionKind::StockLevel => TransactionType::StockLevel,
    }
}

impl FrozenTransaction {
    /// The fingerprint is that of the ticket and the timestamp.
    pub open spec fn frozen(self) -> bool {
        &&& timestamp_fits(encode_utf8(self.timestamp@))
        &&& self.fingerprint == frozen_fingerprint(
            self.ticket.parameter_fingerprint,
            encode_utf8(self.timestamp@),
        )
    }

    /// Freezes a selection at a timestamp.
    pub fn new(ticket: TransactionTicket, timestamp: String) -> (r: Result<Self, &'static str>)
        ensures
            r is Ok <==> timestamp_fits(encode_utf8(timestamp@)),
            r matches Ok(frozen) ==> frozen.frozen() && frozen.ticket == ticket
                && frozen.timestamp@ == timestamp@,
            r matches Err(text) ==> text@ == bad_timestamp_text(),
    {
        if !is_timestamp(timestamp.as_str().as_bytes()) {
            return Err("ranked timestamp must be a nonempty, NUL-free CHAR(30) value");
        }
        let fingerprint: u64 = fingerprint_with_timestamp(
            ticket.parameter_fingerprint(),
            timestamp.as_str(),
        );
        Ok(FrozenTransaction { ticket, timestamp, fingerprint })
    }

    pub fn ticket(&self) -> (r: &TransactionTicket)
        ensures
            *r == self.ticket,
    {
        &self.ticket
    }

    pub fn timestamp(&self) -> (r: &str)
        ensures
            r@ == self.timestamp@,
    {
        self.timestamp.as_str()
    }

    pub fn fingerprint(&self) -> (r: u64)
        ensures
            r == self.fingerprint,
    {
        self.fingerprint
    }

    pub fn transaction_type(&self) -> (r: TransactionType)
        ensures
            r == family_of(self.ticket.route.kind),
    {
        transaction_type(self.ticket.kind())
    }

    /// Whether the transaction is meant to roll back.
    pub fn expects_business_rollback(&self) -> (r: bool)
        ensures
            r == (self.ticket.parameters matches TransactionParameters::NewOrder(input)
                && input.expected_rollback),
    {
        match self.ticket.parameters() {
            TransactionParameters::NewOrder(input) => input.expected_rollback,
            _ => false,
        }
    }
}

pub fn transaction_type(kind: TransactionKind) -> (r: TransactionType)
    ensures
        r == family_of(kind),
{
    match kind {
        TransactionKind::NewOrder => TransactionType::NewOrder,
        TransactionKind::Payment => TransactionType::Payment,
        TransactionKind::OrderStatus => TransactionType::OrderStatus,
        TransactionKind::Delivery => TransactionType::Delivery,
        TransactionKind::StockLevel => TransactionType::StockLevel,
    }
}

fn fingerprint_with_timestamp(seed: u64, timestamp: &str) -> (r: u64)
    ensures
        r == frozen_fingerprint(seed, encode_utf8(timestamp@)),
{
    let bytes = timestamp.as_bytes();
    let ghost start = seed ^ 0xcbf2_9ce4_8422_2325;
    let mut hash: u64 = seed ^ 0xcbf2_9ce4_8422_2325;
    let mut i: usize = 0;
    while i < bytes.len()
        invariant
            i <= bytes@.len(),
            hash == stirred_bytes(start, bytes@, i as int),
        decreases bytes@.len() - i,
    {
        hash = (hash ^ bytes[i] as u64).wrapping_mul(0x0000_0100_0000_01b3);
        i = i + 1;
    }
    hash
}

/// Multiplying by the odd factor keeps different hashes apart.
proof fn lemma_stirring_is_injective(a: u64, b: u64)
    requires
        a.wrapping_mul(0x0000_0100_0000_01b3) == b.wrapping_mul(0x0000_0100_0000_01b3),
    ensures
        a == b,
{
    let m = 0x1_0000_0000_0000_0000int;
    let p = 0x0000_0100_0000_01b3int;
    let inverse = 0xce965057aff6957bint;
    let x = a * p;
    let y = b * p;
    assert(x % m == y % m);
    lemma_fundamental_div_mod(x, m);
    lemma_fundamental_div_mod(y, m);
    let q = x / m - y / m;
    assert(x - y == q * m) by (nonlinear_arith)
        requires
            x == m * (x / m) + x % m,
            y == m * (y / m) + y % m,
            x % m == y % m,
            q == x / m - y / m,
    ;
    // p * inverse is one more than a multiple of m
    assert(p * inverse == 1 + 0xce9650590fint * m);
    let k = q * inverse - (a - b) * 0xce9650590fint;
    assert(a - b == k * m) by (nonlinear_arith)
        requires
            a * p - b * p == q * m,
            p * inverse == 1 + 0xce9650590fint * m,
            k == q * inverse - (a - b) * 0xce9650590fint,
    ;
    assert(k == 0) by (nonlinear_arith)
        requires
            a - b == k * m,
            -m < a - b < m,
            m > 0,
    ;
}

proof fn lemma_stirred_apart(a: u64, b: u64, x: u8, y: u8)
    requires
        (a == b) != (x == y),
    ensures
        stirred(a, x) != stirred(b, y),
{
    if stirred(a, x) == stirred(b, y) {
        lemma_stirring_is_injective(a ^ x as u64, b ^ y as u64);
        let u = x as u64;
        let v = y as u64;
        if a == b {
            assert(a ^ u == a ^ v ==> u == v) by (bit_vector);
        } else {
            assert(a ^ u == b ^ u ==> a == b) by (bit_vector);
        }
    }
}

proof fn lemma_stirred_suffix(a: u64, b: u64, s: Seq<u8>, t: Seq<u8>, from: int, n: int)
    requires
        0 <= from <= n,
        stirred_bytes(a, s, from) != stirred_bytes(b, t, from),
        forall|i: int| from <= i < n ==> s[i] == t[i],
    ensures
        stirred_bytes(a, s, n) != stirred_bytes(b, t, n),
    decreases n,
{
    if from < n {
        lemma_stirred_suffix(a, b, s, t, from, n - 1);
        lemma_stirred_apart(
            stirred_bytes(a, s, n - 1),
            stirred_bytes(b, t, n - 1),
            s[n - 1],
            t[n - 1],
        );
    }
}

proof fn lemma_stirred_prefix(a: u64, s: Seq<u8>, t: Seq<u8>, n: int)
    requires
        forall|i: int| 0 <= i < n ==> s[i] == t[i],
    ensures
        stirred_bytes(a, s, n) == stirred_bytes(a, t, n),
    decreases n,
{
    if n > 0 {
        lemma_stirred_prefix(a, s, t, n - 1);
    }
}

/// The timestamp is part of the identity: where one byte of it changes, the
/// fingerprint changes.
pub proof fn law_timestamp_is_part_of_the_identity(seed: u64, timestamp: Seq<u8>, at: int, byte: u8)
    requires
        0 <= at < timestamp.len(),
        timestamp[at] != byte,
    ensures
        frozen_fingerprint(seed, timestamp) != frozen_fingerprint(
            seed,
            timestamp.update(at, byte),
        ),
{
    let other = timestamp.update(at, byte);
    let start = seed ^ 0xcbf2_9ce4_8422_2325;
    lemma_stirred_prefix(start, timestamp, other, at);
    lemma_stirred_apart(
        stirred_bytes(start, timestamp, at),
        stirred_bytes(start, other, at),
        timestamp[at],
        byte,
    );
    lemma_stirred_suffix(start, start, timestamp, other, at + 1, timestamp.len() as int);
}

/// The selection is part of the identity: at one timestamp, different
/// selections have different fingerprints.
pub proof fn law_selection_is_part_of_the_identity(a: u64, b: u64, timestamp: Seq<u8>)
    requires
        a != b,
    ensures
        frozen_fingerprint(a, timestamp) != frozen_fingerprint(b, timestamp),
{
    assert(a != b ==> a ^ 0xcbf2_9ce4_8422_2325u64 != b ^ 0xcbf2_9ce4_8422_2325u64)
        by (bit_vector);
    lemma_stirred_suffix(
        a ^ 0xcbf2_9ce4_8422_2325,
        b ^ 0xcbf2_9ce4_8422_2325,
        timestamp,
        timestamp,
        0,
        timestamp.len() as int,
    );
}

} // verus!
