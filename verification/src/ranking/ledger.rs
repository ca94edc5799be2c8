//! Durable, lossless evidence collected from ranked transaction commits.
//!
//! FLOAT32 values are kept as raw binary32 bits from the ranked phase to the
//! consistency phases; no decimal form is ever produced.
use vstd::prelude::*;

use crate::binary32::{
    at_most, difference, difference_bits, finite, is_finite, sum, sum_bits, value,
};
use crate::profile::{ITEM_COUNT, OFFICIAL_CLIENTS};
use crate::text::{
    bits_text, decimal, hex_digits, join2, join4, join5, quote, quoted, signed_decimal,
    signed_text, unsigned_text,
};
use crate::workload::{
    MAX_CARRIER_ID, MAX_ITEM_QUANTITY, MAX_ORDER_LINES, MIN_CARRIER_ID, MIN_ITEM_QUANTITY,
    MIN_ORDER_LINES, StageId, TransactionTicket,
};

verus! {

pub const FINAL_WAREHOUSES: i32 = 50;

pub const DISTRICTS_PER_WAREHOUSE: i32 = 10;

pub const CUSTOMERS_PER_DISTRICT: i64 = 3_000;

pub const NEW_ORDERS_PER_DISTRICT: i64 = 900;

pub const PARTITION_COUNT: usize = 500;

/// Bits of 1 000.0, the largest NewOrder line amount.
pub const MAX_LINE_AMOUNT_BITS: u32 = 0x447A_0000;

/// Bits of 5 000.0, the largest Payment amount.
pub const MAX_PAYMENT_AMOUNT_BITS: u32 = 0x459C_4000;

/// Bits of 15 000.0, the largest Delivery amount of one order.
pub const MAX_DELIVERY_AMOUNT_BITS: u32 = 0x466A_6000;

/// A `(warehouse, district)` pair.
#[derive(Clone, Copy, Debug, PartialEq, Eq, Structural)]
pub struct PartitionKey {
    pub warehouse_id: i32,
    pub district_id: i32,
}

/// Committed counts handed to the consistency phases.
#[derive(Clone, Copy, Debug, PartialEq, Eq, Structural)]
pub struct CommittedLedger {
    pub new_orders: i64,
    pub new_order_lines: i64,
    pub remote_new_order_lines: i64,
    pub payments: i64,
    pub delivered_orders: i64,
    pub delivered_order_lines: i64,
}

#[derive(Clone, Debug, Eq, PartialEq)]
pub enum LedgerError {
    InvalidEvidence(&'static str),
    InvalidPartitionKey { warehouse_id: i32, district_id: i32 },
    Overflow(&'static str),
    Capacity(&'static str),
    UnsupportedVersion(String),
    Malformed(String),
    DuplicateField(String),
    UnknownField(String),
    MissingField(String),
    InvalidFloatBits { field: String, bits: String },
    Inconsistent(String),
}

/// The content of a [`LedgerError`].
pub enum LedgerFault {
    InvalidEvidence(Seq<char>),
    InvalidPartitionKey { warehouse_id: i32, district_id: i32 },
    Overflow(Seq<char>),
    Capacity(Seq<char>),
    UnsupportedVersion(Seq<char>),
    Malformed(Seq<char>),
    DuplicateField(Seq<char>),
    UnknownField(Seq<char>),
    MissingField(Seq<char>),
    InvalidFloatBits { field: Seq<char>, bits: Seq<char> },
    Inconsistent(Seq<char>),
}

impl View for LedgerError {
    type V = LedgerFault;

    open spec fn view(&self) -> LedgerFault {
        match *self {
            LedgerError::InvalidEvidence(s) => LedgerFault::InvalidEvidence(s@),
            LedgerError::InvalidPartitionKey { warehouse_id, district_id } =>
                LedgerFault::InvalidPartitionKey { warehouse_id, district_id },
            LedgerError::Overflow(s) => LedgerFault::Overflow(s@),
            LedgerError::Capacity(s) => LedgerFault::Capacity(s@),
            LedgerError::UnsupportedVersion(s) => LedgerFault::UnsupportedVersion(s@),
            LedgerError::Malformed(s) => LedgerFault::Malformed(s@),
            LedgerError::DuplicateField(s) => LedgerFault::DuplicateField(s@),
            LedgerError::UnknownField(s) => LedgerFault::UnknownField(s@),
            LedgerError::MissingField(s) => LedgerFault::MissingField(s@),
            LedgerError::InvalidFloatBits { field, bits } => LedgerFault::InvalidFloatBits {
                field: field@,
                bits: bits@,
            },
            LedgerError::Inconsistent(s) => LedgerFault::Inconsistent(s@),
        }
    }
}

impl LedgerError {
    /// Text of the error.
    pub open spec fn text(&self) -> Seq<char> {
        match self@ {
            LedgerFault::InvalidEvidence(s) => "invalid ledger evidence: "@ + s,
            LedgerFault::InvalidPartitionKey { warehouse_id, district_id } =>
                "partition key is outside the final 50x10 domain: ("@ + signed_decimal(
                    warehouse_id as int,
                ) + ", "@ + signed_decimal(district_id as int) + ")"@,
            LedgerFault::Overflow(s) => "ledger counter overflow: "@ + s,
            LedgerFault::Capacity(s) => "ledger vector capacity failed: "@ + s,
            LedgerFault::UnsupportedVersion(s) => "unsupported ledger version/header: "@
                + quoted(s),
            LedgerFault::Malformed(s) => "malformed ledger: "@ + s,
            LedgerFault::DuplicateField(s) => "duplicate ledger field: "@ + s,
            LedgerFault::UnknownField(s) => "unknown ledger field: "@ + s,
            LedgerFault::MissingField(s) => "missing ledger field: "@ + s,
            LedgerFault::InvalidFloatBits { field, bits } => "bad FLOAT32 bits in "@ + field
                + ": "@ + quoted(bits),
            LedgerFault::Inconsistent(s) => "inconsistent ledger: "@ + s,
        }
    }

    /// Renders the error.
    pub fn message(&self) -> (r: String)
        ensures
            r@ == self.text(),
    {
        match self {
            LedgerError::InvalidEvidence(s) => join2("invalid ledger evidence: ", s),
            LedgerError::InvalidPartitionKey { warehouse_id, district_id } => join5(
                "partition key is outside the final 50x10 domain: (",
                signed_text(*warehouse_id as i64).as_str(),
                ", ",
                signed_text(*district_id as i64).as_str(),
                ")",
            ),
            LedgerError::Overflow(s) => join2("ledger counter overflow: ", s),
            LedgerError::Capacity(s) => join2("ledger vector capacity failed: ", s),
            LedgerError::UnsupportedVersion(s) => join2(
                "unsupported ledger version/header: ",
                quote(s.as_str()).as_str(),
            ),
            LedgerError::Malformed(s) => join2("malformed ledger: ", s.as_str()),
            LedgerError::DuplicateField(s) => join2("duplicate ledger field: ", s.as_str()),
            LedgerError::UnknownField(s) => join2("unknown ledger field: ", s.as_str()),
            LedgerError::MissingField(s) => join2("missing ledger field: ", s.as_str()),
            LedgerError::InvalidFloatBits { field, bits } => join4(
                "bad FLOAT32 bits in ",
                field.as_str(),
                ": ",
                quote(bits.as_str()).as_str(),
            ),
            LedgerError::Inconsistent(s) => join2("inconsistent ledger: ", s.as_str()),
        }
    }
}

/// The fault of a result, if it is one.
pub open spec fn fault<T>(r: Result<T, LedgerError>) -> Option<LedgerFault> {
    match r {
        Ok(_) => None,
        Err(e) => Some(e@),
    }
}

/// The first of two checks that fails.
pub open spec fn either(a: Option<LedgerFault>, b: Option<LedgerFault>) -> Option<LedgerFault> {
    if a is Some {
        a
    } else {
        b
    }
}

/// Fails with `f` when `bad` holds.
pub open spec fn fails(bad: bool, f: LedgerFault) -> Option<LedgerFault> {
    if bad {
        Some(f)
    } else {
        None
    }
}

/// Whether a pair lies in the 50x10 domain.
pub open spec fn in_domain(warehouse_id: int, district_id: int) -> bool {
    1 <= warehouse_id <= 50 && 1 <= district_id <= 10
}

/// Position of a pair among the 500 partitions, in key order.
pub open spec fn partition_position(warehouse_id: int, district_id: int) -> int {
    (warehouse_id - 1) * 10 + district_id - 1
}

pub open spec fn partition_fault(warehouse_id: i32, district_id: i32) -> Option<LedgerFault> {
    fails(
        !in_domain(warehouse_id as int, district_id as int),
        LedgerFault::InvalidPartitionKey { warehouse_id, district_id },
    )
}

pub fn partition_index(warehouse_id: i32, district_id: i32) -> (r: Result<usize, LedgerError>)
    ensures
        fault(r) == partition_fault(warehouse_id, district_id),
        r matches Ok(i) ==> i == partition_position(warehouse_id as int, district_id as int) && i
            < 500,
{
    if warehouse_id < 1 || warehouse_id > FINAL_WAREHOUSES || district_id < 1 || district_id
        > DISTRICTS_PER_WAREHOUSE {
        return Err(LedgerError::InvalidPartitionKey { warehouse_id, district_id });
    }
    Ok(((warehouse_id - 1) * DISTRICTS_PER_WAREHOUSE + district_id - 1) as usize)
}

pub open spec fn add_fault(left: int, right: int, name: Seq<char>) -> Option<LedgerFault> {
    fails(left + right < i64::MIN || left + right > i64::MAX, LedgerFault::Overflow(name))
}

pub fn checked_add(left: i64, right: i64, name: &'static str) -> (r: Result<i64, LedgerError>)
    ensures
        fault(r) == add_fault(left as int, right as int, name@),
        r matches Ok(v) ==> v == left + right,
{
    match left.checked_add(right) {
        Some(v) => Ok(v),
        None => Err(LedgerError::Overflow(name)),
    }
}

pub open spec fn mul_fault(left: int, right: int, name: Seq<char>) -> Option<LedgerFault> {
    fails(left * right < i64::MIN || left * right > i64::MAX, LedgerFault::Overflow(name))
}

pub fn checked_mul(left: i64, right: i64, name: &'static str) -> (r: Result<i64, LedgerError>)
    ensures
        fault(r) == mul_fault(left as int, right as int, name@),
        r matches Ok(v) ==> v == left * right,
{
    match left.checked_mul(right) {
        Some(v) => Ok(v),
        None => Err(LedgerError::Overflow(name)),
    }
}

/// Line totals must lie in `5..=15` per order.
pub open spec fn line_range_fault(orders: int, lines: int, name: Seq<char>) -> Option<
    LedgerFault,
> {
    either(
        mul_fault(orders, 5, "minimum order-line count"@),
        either(
            mul_fault(orders, 15, "maximum order-line count"@),
            fails(
                !(orders * 5 <= lines <= orders * 15),
                LedgerFault::Inconsistent(name + " lines must be 5..=15 per order"@),
            ),
        ),
    )
}

pub fn validate_line_range(order_count: i64, line_count: i64, name: &str) -> (r: Result<
    (),
    LedgerError,
>)
    ensures
        fault(r) == line_range_fault(order_count as int, line_count as int, name@),
{
    let minimum: i64 = checked_mul(order_count, 5, "minimum order-line count")?;
    let maximum: i64 = checked_mul(order_count, 15, "maximum order-line count")?;
    if line_count < minimum || line_count > maximum {
        return Err(LedgerError::Inconsistent(join2(name, " lines must be 5..=15 per order")));
    }
    Ok(())
}

pub open spec fn bits_fault(name: Seq<char>, bits: u32) -> LedgerFault {
    LedgerFault::InvalidFloatBits { field: name, bits: hex_digits(bits as nat, 8) }
}

fn invalid_bits(field: &str, bits: u32) -> (r: LedgerError)
    ensures
        r@ == bits_fault(field@, bits),
{
    LedgerError::InvalidFloatBits { field: field.to_owned(), bits: bits_text(bits) }
}

/// Finite and not negative; a negative zero passes.
pub open spec fn amount_ok(bits: u32) -> bool {
    is_finite(bits) && value(bits) >= 0
}

/// The first amount from position `i` on that is not finite and non-negative.
pub open spec fn amounts_fault(name: Seq<char>, bits: Seq<u32>, i: int) -> Option<LedgerFault>
    decreases bits.len() - i,
{
    if i < 0 || i >= bits.len() {
        None
    } else if !amount_ok(bits[i]) {
        Some(bits_fault(name, bits[i]))
    } else {
        amounts_fault(name, bits, i + 1)
    }
}

fn amount_is_ok(bits: u32) -> (r: bool)
    ensures
        r == amount_ok(bits),
{
    finite(bits) && at_most(0, bits)
}

pub fn validate_amount_bits(name: &str, bits: &[u32]) -> (r: Result<(), LedgerError>)
    ensures
        fault(r) == amounts_fault(name@, bits@, 0),
{
    let mut i: usize = 0;
    while i < bits.len()
        invariant
            i <= bits.len(),
            amounts_fault(name@, bits@, 0) == amounts_fault(name@, bits@, i as int),
        decreases bits.len() - i,
    {
        if !amount_is_ok(bits[i]) {
            return Err(invalid_bits(name, bits[i]));
        }
        i = i + 1;
    }
    Ok(())
}

/// Finite, positive and at most `maximum`.
pub open spec fn positive_amount(bits: u32, maximum: u32) -> bool {
    is_finite(bits) && 0 < value(bits) <= value(maximum)
}

pub open spec fn positive_amount_fault(field: Seq<char>, bits: u32, maximum: u32) -> Option<
    LedgerFault,
> {
    fails(!positive_amount(bits, maximum), bits_fault(field, bits))
}

/// Whether a pattern is finite, positive and at most `maximum`.
pub fn is_positive_amount(bits: u32, maximum: u32) -> (r: bool)
    requires
        is_finite(maximum),
    ensures
        r == positive_amount(bits, maximum),
{
    finite(bits) && !at_most(bits, 0) && at_most(bits, maximum)
}

fn validate_positive_amount_bits(field: &str, bits: u32, maximum: u32) -> (r: Result<
    (),
    LedgerError,
>)
    requires
        is_finite(maximum),
    ensures
        fault(r) == positive_amount_fault(field@, bits, maximum),
{
    if !is_positive_amount(bits, maximum) {
        return Err(invalid_bits(field, bits));
    }
    Ok(())
}

pub open spec fn finite_fault(field: Seq<char>, bits: u32) -> Option<LedgerFault> {
    fails(!is_finite(bits), bits_fault(field, bits))
}

fn validate_finite_bits(field: &str, bits: u32) -> (r: Result<(), LedgerError>)
    ensures
        fault(r) == finite_fault(field@, bits),
{
    if !finite(bits) {
        return Err(invalid_bits(field, bits));
    }
    Ok(())
}

/// `after` must be the binary32 sum of `before` and `delta`.
pub open spec fn relative_add_fault(
    field: Seq<char>,
    before: u32,
    delta: u32,
    after: u32,
) -> Option<LedgerFault> {
    either(
        finite_fault(field, before),
        either(
            finite_fault(field, delta),
            either(
                finite_fault(field, after),
                fails(
                    sum(before, delta) != Some(after),
                    LedgerFault::Inconsistent(
                        field + " is not exact binary32_RNE(before + delta)"@,
                    ),
                ),
            ),
        ),
    )
}

fn validate_relative_add(
    field: &'static str,
    before_bits: u32,
    delta_bits: u32,
    after_bits: u32,
) -> (r: Result<(), LedgerError>)
    ensures
        fault(r) == relative_add_fault(field@, before_bits, delta_bits, after_bits),
{
    validate_finite_bits(field, before_bits)?;
    validate_finite_bits(field, delta_bits)?;
    validate_finite_bits(field, after_bits)?;
    match sum_bits(before_bits, delta_bits) {
        Some(bits) if bits == after_bits => Ok(()),
        _ => Err(
            LedgerError::Inconsistent(join2(field, " is not exact binary32_RNE(before + delta)")),
        ),
    }
}

/// `after` must be the binary32 difference of `before` and `delta`.
pub open spec fn relative_subtract_fault(
    field: Seq<char>,
    before: u32,
    delta: u32,
    after: u32,
) -> Option<LedgerFault> {
    either(
        finite_fault(field, before),
        either(
            finite_fault(field, delta),
            either(
                finite_fault(field, after),
                fails(
                    difference(before, delta) != Some(after),
                    LedgerFault::Inconsistent(
                        field + " is not exact binary32_RNE(before - delta)"@,
                    ),
                ),
            ),
        ),
    )
}

fn validate_relative_subtract(
    field: &'static str,
    before_bits: u32,
    delta_bits: u32,
    after_bits: u32,
) -> (r: Result<(), LedgerError>)
    ensures
        fault(r) == relative_subtract_fault(field@, before_bits, delta_bits, after_bits),
{
    validate_finite_bits(field, before_bits)?;
    validate_finite_bits(field, delta_bits)?;
    validate_finite_bits(field, after_bits)?;
    match difference_bits(before_bits, delta_bits) {
        Some(bits) if bits == after_bits => Ok(()),
        _ => Err(
            LedgerError::Inconsistent(join2(field, " is not exact binary32_RNE(before - delta)")),
        ),
    }
}

pub open spec fn increment_fault(field: Seq<char>, before: i32, after: i32) -> Option<
    LedgerFault,
> {
    either(
        fails(
            before < 0,
            LedgerFault::InvalidEvidence("customer transaction count must be non-negative"@),
        ),
        either(
            fails(before == i32::MAX, LedgerFault::Overflow("customer transaction count"@)),
            fails(
                after != before + 1,
                LedgerFault::Inconsistent(field + " is not exactly before + 1"@),
            ),
        ),
    )
}

fn validate_increment(field: &'static str, before: i32, after: i32) -> (r: Result<
    (),
    LedgerError,
>)
    ensures
        fault(r) == increment_fault(field@, before, after),
{
    if before < 0 {
        return Err(
            LedgerError::InvalidEvidence("customer transaction count must be non-negative"),
        );
    }
    match before.checked_add(1) {
        None => Err(LedgerError::Overflow("customer transaction count")),
        Some(expected) => {
            if after != expected {
                return Err(LedgerError::Inconsistent(join2(field, " is not exactly before + 1")));
            }
            Ok(())
        },
    }
}

pub open spec fn unchanged_fault(field: Seq<char>, before: i32, after: i32) -> Option<
    LedgerFault,
> {
    either(
        fails(
            before < 0 || after < 0,
            LedgerFault::InvalidEvidence("customer transaction count must be non-negative"@),
        ),
        fails(
            before != after,
            LedgerFault::Inconsistent(field + " changed during the other transaction family"@),
        ),
    )
}

fn validate_unchanged(field: &'static str, before: i32, after: i32) -> (r: Result<
    (),
    LedgerError,
>)
    ensures
        fault(r) == unchanged_fault(field@, before, after),
{
    if before < 0 || after < 0 {
        return Err(
            LedgerError::InvalidEvidence("customer transaction count must be non-negative"),
        );
    }
    if before != after {
        return Err(
            LedgerError::Inconsistent(
                join2(field, " changed during the other transaction family"),
            ),
        );
    }
    Ok(())
}

pub open spec fn vector_len_fault(name: Seq<char>, expected: i64, actual: nat) -> Option<
    LedgerFault,
> {
    either(
        fails(actual > i64::MAX, LedgerFault::Overflow("vector length"@)),
        fails(
            actual != expected,
            LedgerFault::Inconsistent(
                name + " length "@ + decimal(actual) + " differs from expected "@ + signed_decimal(
                    expected as int,
                ),
            ),
        ),
    )
}

pub fn validate_vector_len(name: &str, expected: i64, actual: usize) -> (r: Result<(), LedgerError>)
    ensures
        fault(r) == vector_len_fault(name@, expected, actual as nat),
{
    if actual as u64 > 0x7FFF_FFFF_FFFF_FFFF {
        return Err(LedgerError::Overflow("vector length"));
    }
    if actual as i64 != expected {
        return Err(
            LedgerError::Inconsistent(
                join5(
                    name,
                    " length ",
                    unsigned_text(actual as u64).as_str(),
                    " differs from expected ",
                    signed_text(expected).as_str(),
                ),
            ),
        );
    }
    Ok(())
}

/// A vector of `len` items can take `additional` more.
pub open spec fn extend_fault(len: nat, additional: nat, name: Seq<char>) -> Option<LedgerFault> {
    fails(len + additional > usize::MAX, LedgerFault::Overflow(name))
}

pub fn ensure_extend_capacity(len: usize, additional: usize, name: &'static str) -> (r: Result<
    (),
    LedgerError,
>)
    ensures
        fault(r) == extend_fault(len as nat, additional as nat, name@),
{
    match len.checked_add(additional) {
        Some(_) => Ok(()),
        None => Err(LedgerError::Overflow(name)),
    }
}


#[derive(Clone, Copy, Debug, Eq, PartialEq, Structural)]
pub struct PartitionDelta {
    pub new_orders: i64,
    pub new_order_lines: i64,
    pub delivered_orders: i64,
    pub delivered_order_lines: i64,
}

/// No change.
pub open spec fn no_delta() -> PartitionDelta {
    PartitionDelta { new_orders: 0, new_order_lines: 0, delivered_orders: 0, delivered_order_lines: 0 }
}

/// The change left by one committed NewOrder.
pub open spec fn new_order_partition_delta(lines: i64) -> PartitionDelta {
    PartitionDelta {
        new_orders: 1,
        new_order_lines: lines,
        delivered_orders: 0,
        delivered_order_lines: 0,
    }
}

/// The change left by one delivered order.
pub open spec fn delivery_partition_delta(lines: i64) -> PartitionDelta {
    PartitionDelta {
        new_orders: 0,
        new_order_lines: 0,
        delivered_orders: 1,
        delivered_order_lines: lines,
    }
}

pub open spec fn delta_add_fault(a: PartitionDelta, b: PartitionDelta) -> Option<LedgerFault> {
    either(
        add_fault(a.new_orders as int, b.new_orders as int, "partition new_orders"@),
        either(
            add_fault(
                a.new_order_lines as int,
                b.new_order_lines as int,
                "partition new_order_lines"@,
            ),
            either(
                add_fault(
                    a.delivered_orders as int,
                    b.delivered_orders as int,
                    "partition delivered_orders"@,
                ),
                add_fault(
                    a.delivered_order_lines as int,
                    b.delivered_order_lines as int,
                    "partition delivered_order_lines"@,
                ),
            ),
        ),
    )
}

pub open spec fn delta_sum(a: PartitionDelta, b: PartitionDelta) -> PartitionDelta {
    PartitionDelta {
        new_orders: (a.new_orders + b.new_orders) as i64,
        new_order_lines: (a.new_order_lines + b.new_order_lines) as i64,
        delivered_orders: (a.delivered_orders + b.delivered_orders) as i64,
        delivered_order_lines: (a.delivered_order_lines + b.delivered_order_lines) as i64,
    }
}

pub open spec fn negative_fault(v: i64, name: Seq<char>) -> Option<LedgerFault> {
    fails(v < 0, LedgerFault::Inconsistent(name + " must be non-negative"@))
}

pub fn validate_non_negative(v: i64, name: &str) -> (r: Result<(), LedgerError>)
    ensures
        fault(r) == negative_fault(v, name@),
{
    if v < 0 {
        return Err(LedgerError::Inconsistent(join2(name, " must be non-negative")));
    }
    Ok(())
}

pub open spec fn delta_fault(d: PartitionDelta) -> Option<LedgerFault> {
    either(
        negative_fault(d.new_orders, "partition new_orders"@),
        either(
            negative_fault(d.new_order_lines, "partition new_order_lines"@),
            either(
                negative_fault(d.delivered_orders, "partition delivered_orders"@),
                either(
                    negative_fault(d.delivered_order_lines, "partition delivered_order_lines"@),
                    either(
                        line_range_fault(
                            d.new_orders as int,
                            d.new_order_lines as int,
                            "partition committed NewOrder"@,
                        ),
                        line_range_fault(
                            d.delivered_orders as int,
                            d.delivered_order_lines as int,
                            "partition delivered order"@,
                        ),
                    ),
                ),
            ),
        ),
    )
}

impl Default for PartitionDelta {
    fn default() -> (r: Self)
        ensures
            r == no_delta(),
    {
        PartitionDelta {
            new_orders: 0,
            new_order_lines: 0,
            delivered_orders: 0,
            delivered_order_lines: 0,
        }
    }
}

impl PartitionDelta {
    pub fn checked_add(self, other: Self) -> (r: Result<Self, LedgerError>)
        ensures
            fault(r) == delta_add_fault(self, other),
            r matches Ok(total) ==> total == delta_sum(self, other),
    {
        Ok(
            Self {
                new_orders: checked_add(self.new_orders, other.new_orders, "partition new_orders")?,
                new_order_lines: checked_add(
                    self.new_order_lines,
                    other.new_order_lines,
                    "partition new_order_lines",
                )?,
                delivered_orders: checked_add(
                    self.delivered_orders,
                    other.delivered_orders,
                    "partition delivered_orders",
                )?,
                delivered_order_lines: checked_add(
                    self.delivered_order_lines,
                    other.delivered_order_lines,
                    "partition delivered_order_lines",
                )?,
            },
        )
    }

    pub fn validate(self) -> (r: Result<(), LedgerError>)
        ensures
            fault(r) == delta_fault(self),
    {
        validate_non_negative(self.new_orders, "partition new_orders")?;
        validate_non_negative(self.new_order_lines, "partition new_order_lines")?;
        validate_non_negative(self.delivered_orders, "partition delivered_orders")?;
        validate_non_negative(self.delivered_order_lines, "partition delivered_order_lines")?;
        validate_line_range(self.new_orders, self.new_order_lines, "partition committed NewOrder")?;
        validate_line_range(
            self.delivered_orders,
            self.delivered_order_lines,
            "partition delivered order",
        )
    }
}

/// Accounting class of a confirmed terminal result.
///
/// Every committed class mutates the database and therefore contributes to
/// physical consistency expectations. Only `RankedWindow` contributes to the
/// ranked measurement ledger.
#[derive(Clone, Copy, Debug, Eq, PartialEq, Structural)]
pub enum LedgerClass {
    Warmup,
    RankedWindow(u8),
    WarmupTail,
    RankedTail(u8),
    NonRanked,
}

/// The class of an in-deadline terminal of a stage.
pub open spec fn normal_class(stage: u64) -> LedgerClass {
    if stage == 0 {
        LedgerClass::Warmup
    } else if stage <= 3 {
        LedgerClass::RankedWindow((stage - 1) as u8)
    } else {
        LedgerClass::NonRanked
    }
}

/// The class of a late terminal of a stage.
pub open spec fn tail_class(stage: u64) -> LedgerClass {
    if stage == 0 {
        LedgerClass::WarmupTail
    } else if stage <= 3 {
        LedgerClass::RankedTail((stage - 1) as u8)
    } else {
        LedgerClass::NonRanked
    }
}

/// Whether a class can belong to a stage.
pub open spec fn class_matches(class: LedgerClass, stage: u64) -> bool {
    match class {
        LedgerClass::Warmup | LedgerClass::WarmupTail => stage == 0,
        LedgerClass::RankedWindow(index) | LedgerClass::RankedTail(index) => index < 3 && stage
            == index + 1,
        LedgerClass::NonRanked => stage > 3,
    }
}

/// A class fits a stage exactly when it is one of the two derived from it.
pub proof fn law_stage_classes(class: LedgerClass, stage: u64)
    ensures
        class_matches(class, stage) <==> class == normal_class(stage) || class == tail_class(stage),
{
}

pub open spec fn class_fault(class: LedgerClass, stage: u64) -> Option<LedgerFault> {
    fails(
        !class_matches(class, stage),
        LedgerFault::InvalidEvidence("ledger class does not match the frozen ticket stage"@),
    )
}

impl LedgerClass {
    pub open spec fn ranked(self) -> bool {
        self is RankedWindow
    }

    pub fn is_ranked(self) -> (r: bool)
        ensures
            r == self.ranked(),
    {
        matches!(self, LedgerClass::RankedWindow(_))
    }

    pub fn normal_for_stage(stage: StageId) -> (r: Self)
        ensures
            r == normal_class(stage.number),
    {
        let number: u64 = stage.value();
        if number == 0 {
            LedgerClass::Warmup
        } else if number <= 3 {
            LedgerClass::RankedWindow((number - 1) as u8)
        } else {
            LedgerClass::NonRanked
        }
    }

    pub fn tail_for_stage(stage: StageId) -> (r: Self)
        ensures
            r == tail_class(stage.number),
    {
        let number: u64 = stage.value();
        if number == 0 {
            LedgerClass::WarmupTail
        } else if number <= 3 {
            LedgerClass::RankedTail((number - 1) as u8)
        } else {
            LedgerClass::NonRanked
        }
    }

    pub fn validate_stage(self, stage: u64) -> (r: Result<(), LedgerError>)
        ensures
            fault(r) == class_fault(self, stage),
    {
        let valid: bool = match self {
            LedgerClass::Warmup | LedgerClass::WarmupTail => stage == 0,
            LedgerClass::RankedWindow(index) | LedgerClass::RankedTail(index) => index < 3 && stage
                == StageId::measurement(index).value(),
            LedgerClass::NonRanked => stage > StageId::measurement(2).value(),
        };
        if valid {
            Ok(())
        } else {
            Err(LedgerError::InvalidEvidence("ledger class does not match the frozen ticket stage"))
        }
    }
}

#[derive(Clone, Copy, Debug, Eq, PartialEq, Structural)]
pub struct LedgerEventMeta {
    pub class: LedgerClass,
    pub stage: u64,
    pub client_id: u16,
    pub txn_no: u64,
    pub parameter_fingerprint: u64,
}

/// What makes a terminal unique: stage, client and sequence number.
pub open spec fn identity(meta: LedgerEventMeta) -> (u64, u16, u64) {
    (meta.stage, meta.client_id, meta.txn_no)
}

pub open spec fn meta_fault(meta: LedgerEventMeta) -> Option<LedgerFault> {
    either(
        class_fault(meta.class, meta.stage),
        fails(
            meta.client_id >= OFFICIAL_CLIENTS,
            LedgerFault::InvalidEvidence(
                "ledger event client_id is outside the final client domain"@,
            ),
        ),
    )
}

pub open spec fn ticket_meta_fault(class: LedgerClass, ticket: TransactionTicket) -> Option<
    LedgerFault,
> {
    either(
        class_fault(class, ticket.route.stage.number),
        fails(
            ticket.route.client_id >= OFFICIAL_CLIENTS,
            LedgerFault::InvalidEvidence("ticket client_id is outside the final client domain"@),
        ),
    )
}

/// The metadata of a ticket's terminal.
pub open spec fn ticket_meta(class: LedgerClass, ticket: TransactionTicket) -> LedgerEventMeta {
    LedgerEventMeta {
        class,
        stage: ticket.route.stage.number,
        client_id: ticket.route.client_id,
        txn_no: ticket.route.txn_no,
        parameter_fingerprint: ticket.parameter_fingerprint,
    }
}

impl LedgerEventMeta {
    pub fn from_ticket(class: LedgerClass, ticket: &TransactionTicket) -> (r: Result<
        Self,
        LedgerError,
    >)
        ensures
            fault(r) == ticket_meta_fault(class, *ticket),
            r matches Ok(meta) ==> meta == ticket_meta(class, *ticket),
    {
        let route = ticket.route();
        class.validate_stage(route.stage.value())?;
        if route.client_id >= OFFICIAL_CLIENTS {
            return Err(
                LedgerError::InvalidEvidence("ticket client_id is outside the final client domain"),
            );
        }
        Ok(
            Self {
                class,
                stage: route.stage.value(),
                client_id: route.client_id,
                txn_no: route.txn_no,
                parameter_fingerprint: ticket.parameter_fingerprint(),
            },
        )
    }

    pub fn validate(self) -> (r: Result<(), LedgerError>)
        ensures
            fault(r) == meta_fault(self),
    {
        self.class.validate_stage(self.stage)?;
        if self.client_id >= OFFICIAL_CLIENTS {
            return Err(
                LedgerError::InvalidEvidence(
                    "ledger event client_id is outside the final client domain",
                ),
            );
        }
        Ok(())
    }
}

#[derive(Clone, Copy, Debug, Eq, PartialEq, Structural)]
pub struct NewOrderLineDelta {
    pub number: u8,
    pub item_id: u32,
    pub supply_warehouse: u16,
    pub quantity: u8,
    pub amount_bits: u32,
}

#[derive(Clone, Debug, Eq, PartialEq)]
pub struct NewOrderDelta {
    pub meta: LedgerEventMeta,
    pub warehouse_id: u16,
    pub district_id: u8,
    pub order_id: i32,
    pub customer_id: u16,
    pub lines: Vec<NewOrderLineDelta>,
}

#[derive(Clone, Copy, Debug, Eq, PartialEq, Structural)]
pub struct PaymentDelta {
    pub meta: LedgerEventMeta,
    pub warehouse_id: u16,
    pub district_id: u8,
    pub customer_warehouse_id: u16,
    pub customer_district_id: u8,
    pub customer_id: i32,
    pub amount_bits: u32,
    pub warehouse_before_bits: u32,
    pub warehouse_after_bits: u32,
    pub district_before_bits: u32,
    pub district_after_bits: u32,
    pub customer_balance_before_bits: u32,
    pub customer_balance_after_bits: u32,
    pub customer_ytd_before_bits: u32,
    pub customer_ytd_after_bits: u32,
    pub customer_payment_count_before: i32,
    pub customer_payment_count_after: i32,
    pub customer_delivery_count_before: i32,
    pub customer_delivery_count_after: i32,
}

#[derive(Clone, Copy, Debug, Eq, PartialEq, Structural)]
pub struct DeliveredOrderDelta {
    pub district_id: u8,
    pub order_id: i32,
    pub customer_id: i32,
    pub line_count: u8,
    pub customer_amount_bits: u32,
    pub customer_balance_before_bits: u32,
    pub customer_balance_after_bits: u32,
    pub customer_payment_count_before: i32,
    pub customer_payment_count_after: i32,
    pub customer_delivery_count_before: i32,
    pub customer_delivery_count_after: i32,
}

#[derive(Clone, Debug, Eq, PartialEq)]
pub struct DeliveryDelta {
    pub meta: LedgerEventMeta,
    pub warehouse_id: u16,
    pub carrier_id: u8,
    pub orders: Vec<DeliveredOrderDelta>,
}

#[derive(Clone, Debug, Eq, PartialEq)]
pub enum LedgerEvent {
    NewOrder(NewOrderDelta),
    Payment(PaymentDelta),
    Delivery(DeliveryDelta),
    OrderStatus { meta: LedgerEventMeta },
    StockLevel { meta: LedgerEventMeta, low_stock_count: i32 },
    ExpectedRollback { meta: LedgerEventMeta, warehouse_id: u16, district_id: u8 },
}

/// The content of a [`NewOrderDelta`].
#[verifier::ext_equal]
pub struct NewOrderModel {
    pub meta: LedgerEventMeta,
    pub warehouse_id: u16,
    pub district_id: u8,
    pub order_id: i32,
    pub customer_id: u16,
    pub lines: Seq<NewOrderLineDelta>,
}

/// The content of a [`DeliveryDelta`].
#[verifier::ext_equal]
pub struct DeliveryModel {
    pub meta: LedgerEventMeta,
    pub warehouse_id: u16,
    pub carrier_id: u8,
    pub orders: Seq<DeliveredOrderDelta>,
}

/// The content of a [`LedgerEvent`].
#[verifier::ext_equal]
pub enum EventModel {
    NewOrder(NewOrderModel),
    Payment(PaymentDelta),
    Delivery(DeliveryModel),
    OrderStatus { meta: LedgerEventMeta },
    StockLevel { meta: LedgerEventMeta, low_stock_count: i32 },
    ExpectedRollback { meta: LedgerEventMeta, warehouse_id: u16, district_id: u8 },
}

impl View for NewOrderDelta {
    type V = NewOrderModel;

    open spec fn view(&self) -> NewOrderModel {
        NewOrderModel {
            meta: self.meta,
            warehouse_id: self.warehouse_id,
            district_id: self.district_id,
            order_id: self.order_id,
            customer_id: self.customer_id,
            lines: self.lines@,
        }
    }
}

impl View for DeliveryDelta {
    type V = DeliveryModel;

    open spec fn view(&self) -> DeliveryModel {
        DeliveryModel {
            meta: self.meta,
            warehouse_id: self.warehouse_id,
            carrier_id: self.carrier_id,
            orders: self.orders@,
        }
    }
}

impl View for LedgerEvent {
    type V = EventModel;

    open spec fn view(&self) -> EventModel {
        match *self {
            LedgerEvent::NewOrder(delta) => EventModel::NewOrder(delta@),
            LedgerEvent::Payment(delta) => EventModel::Payment(delta),
            LedgerEvent::Delivery(delta) => EventModel::Delivery(delta@),
            LedgerEvent::OrderStatus { meta } => EventModel::OrderStatus { meta },
            LedgerEvent::StockLevel { meta, low_stock_count } => EventModel::StockLevel {
                meta,
                low_stock_count,
            },
            LedgerEvent::ExpectedRollback { meta, warehouse_id, district_id } =>
                EventModel::ExpectedRollback { meta, warehouse_id, district_id },
        }
    }
}

impl EventModel {
    /// Metadata of the event.
    pub open spec fn meta(self) -> LedgerEventMeta {
        match self {
            EventModel::NewOrder(delta) => delta.meta,
            EventModel::Payment(delta) => delta.meta,
            EventModel::Delivery(delta) => delta.meta,
            EventModel::OrderStatus { meta } => meta,
            EventModel::StockLevel { meta, low_stock_count } => meta,
            EventModel::ExpectedRollback { meta, warehouse_id, district_id } => meta,
        }
    }
}

pub open spec fn line_fault(index: int, line: NewOrderLineDelta) -> Option<LedgerFault> {
    either(
        fails(
            line.number != index + 1,
            LedgerFault::InvalidEvidence("NewOrder line numbers must be dense from one"@),
        ),
        either(
            fails(
                !(1 <= line.item_id <= ITEM_COUNT),
                LedgerFault::InvalidEvidence("committed NewOrder item_id is outside 1..=100000"@),
            ),
            either(
                partition_fault(line.supply_warehouse as i32, 1),
                either(
                    fails(
                        !(MIN_ITEM_QUANTITY <= line.quantity <= MAX_ITEM_QUANTITY),
                        LedgerFault::InvalidEvidence("NewOrder quantity is outside 1..=10"@),
                    ),
                    positive_amount_fault(
                        "NewOrder line amount"@,
                        line.amount_bits,
                        MAX_LINE_AMOUNT_BITS,
                    ),
                ),
            ),
        ),
    )
}

/// The first faulty line from position `i` on.
pub open spec fn lines_fault(lines: Seq<NewOrderLineDelta>, i: int) -> Option<LedgerFault>
    decreases lines.len() - i,
{
    if i < 0 || i >= lines.len() {
        None
    } else {
        either(line_fault(i, lines[i]), lines_fault(lines, i + 1))
    }
}

pub open spec fn new_order_fault(delta: NewOrderModel) -> Option<LedgerFault> {
    either(
        partition_fault(delta.warehouse_id as i32, delta.district_id as i32),
        either(
            fails(
                delta.order_id <= 0,
                LedgerFault::InvalidEvidence("NewOrder order_id must be positive"@),
            ),
            either(
                fails(
                    !(1 <= delta.customer_id <= CUSTOMERS_PER_DISTRICT),
                    LedgerFault::InvalidEvidence("NewOrder customer_id is outside 1..=3000"@),
                ),
                either(
                    fails(
                        !(MIN_ORDER_LINES <= delta.lines.len() <= MAX_ORDER_LINES),
                        LedgerFault::InvalidEvidence("NewOrder line count must be 5..=15"@),
                    ),
                    lines_fault(delta.lines, 0),
                ),
            ),
        ),
    )
}

fn validate_new_order_delta(delta: &NewOrderDelta) -> (r: Result<(), LedgerError>)
    ensures
        fault(r) == new_order_fault(delta@),
{
    partition_index(delta.warehouse_id as i32, delta.district_id as i32)?;
    if delta.order_id <= 0 {
        return Err(LedgerError::InvalidEvidence("NewOrder order_id must be positive"));
    }
    if delta.customer_id < 1 || delta.customer_id as i64 > CUSTOMERS_PER_DISTRICT {
        return Err(LedgerError::InvalidEvidence("NewOrder customer_id is outside 1..=3000"));
    }
    if delta.lines.len() < MIN_ORDER_LINES as usize || delta.lines.len()
        > MAX_ORDER_LINES as usize {
        return Err(LedgerError::InvalidEvidence("NewOrder line count must be 5..=15"));
    }
    let mut index: usize = 0;
    while index < delta.lines.len()
        invariant
            index <= delta.lines.len() <= 15,
            new_order_fault(delta@) == lines_fault(delta.lines@, index as int),
        decreases delta.lines.len() - index,
    {
        let line = &delta.lines[index];
        if line.number as usize != index + 1 {
            return Err(LedgerError::InvalidEvidence("NewOrder line numbers must be dense from one"));
        }
        if line.item_id < 1 || line.item_id > ITEM_COUNT {
            return Err(
                LedgerError::InvalidEvidence("committed NewOrder item_id is outside 1..=100000"),
            );
        }
        partition_index(line.supply_warehouse as i32, 1)?;
        if line.quantity < MIN_ITEM_QUANTITY || line.quantity > MAX_ITEM_QUANTITY {
            return Err(LedgerError::InvalidEvidence("NewOrder quantity is outside 1..=10"));
        }
        validate_positive_amount_bits(
            "NewOrder line amount",
            line.amount_bits,
            MAX_LINE_AMOUNT_BITS,
        )?;
        index = index + 1;
    }
    Ok(())
}

pub open spec fn payment_fault(delta: PaymentDelta) -> Option<LedgerFault> {
    either(
        partition_fault(delta.warehouse_id as i32, delta.district_id as i32),
        either(
            partition_fault(
                delta.customer_warehouse_id as i32,
                delta.customer_district_id as i32,
            ),
            either(
                fails(
                    delta.customer_warehouse_id == delta.warehouse_id && delta.customer_district_id
                        != delta.district_id,
                    LedgerFault::InvalidEvidence(
                        "local Payment customer district differs from the home district"@,
                    ),
                ),
                either(
                    fails(
                        !(1 <= delta.customer_id <= CUSTOMERS_PER_DISTRICT),
                        LedgerFault::InvalidEvidence("Payment customer_id is outside 1..=3000"@),
                    ),
                    payment_edges_fault(delta),
                ),
            ),
        ),
    )
}

/// The amount and the four edges that it moves, then the two counters.
pub open spec fn payment_edges_fault(delta: PaymentDelta) -> Option<LedgerFault> {
    either(
        positive_amount_fault("Payment amount"@, delta.amount_bits, MAX_PAYMENT_AMOUNT_BITS),
        either(
            relative_add_fault(
                "Payment warehouse w_ytd"@,
                delta.warehouse_before_bits,
                delta.amount_bits,
                delta.warehouse_after_bits,
            ),
            either(
                relative_add_fault(
                    "Payment district d_ytd"@,
                    delta.district_before_bits,
                    delta.amount_bits,
                    delta.district_after_bits,
                ),
                either(
                    relative_subtract_fault(
                        "Payment customer c_balance"@,
                        delta.customer_balance_before_bits,
                        delta.amount_bits,
                        delta.customer_balance_after_bits,
                    ),
                    either(
                        relative_add_fault(
                            "Payment customer c_ytd_payment"@,
                            delta.customer_ytd_before_bits,
                            delta.amount_bits,
                            delta.customer_ytd_after_bits,
                        ),
                        either(
                            increment_fault(
                                "Payment customer c_payment_cnt"@,
                                delta.customer_payment_count_before,
                                delta.customer_payment_count_after,
                            ),
                            unchanged_fault(
                                "Payment customer c_delivery_cnt"@,
                                delta.customer_delivery_count_before,
                                delta.customer_delivery_count_after,
                            ),
                        ),
                    ),
                ),
            ),
        ),
    )
}

fn validate_payment_delta(delta: &PaymentDelta) -> (r: Result<(), LedgerError>)
    ensures
        fault(r) == payment_fault(*delta),
{
    partition_index(delta.warehouse_id as i32, delta.district_id as i32)?;
    partition_index(delta.customer_warehouse_id as i32, delta.customer_district_id as i32)?;
    if delta.customer_warehouse_id == delta.warehouse_id && delta.customer_district_id
        != delta.district_id {
        return Err(
            LedgerError::InvalidEvidence(
                "local Payment customer district differs from the home district",
            ),
        );
    }
    if delta.customer_id < 1 || delta.customer_id as i64 > CUSTOMERS_PER_DISTRICT {
        return Err(LedgerError::InvalidEvidence("Payment customer_id is outside 1..=3000"));
    }
    validate_positive_amount_bits("Payment amount", delta.amount_bits, MAX_PAYMENT_AMOUNT_BITS)?;
    validate_relative_add(
        "Payment warehouse w_ytd",
        delta.warehouse_before_bits,
        delta.amount_bits,
        delta.warehouse_after_bits,
    )?;
    validate_relative_add(
        "Payment district d_ytd",
        delta.district_before_bits,
        delta.amount_bits,
        delta.district_after_bits,
    )?;
    validate_relative_subtract(
        "Payment customer c_balance",
        delta.customer_balance_before_bits,
        delta.amount_bits,
        delta.customer_balance_after_bits,
    )?;
    validate_relative_add(
        "Payment customer c_ytd_payment",
        delta.customer_ytd_before_bits,
        delta.amount_bits,
        delta.customer_ytd_after_bits,
    )?;
    validate_increment(
        "Payment customer c_payment_cnt",
        delta.customer_payment_count_before,
        delta.customer_payment_count_after,
    )?;
    validate_unchanged(
        "Payment customer c_delivery_cnt",
        delta.customer_delivery_count_before,
        delta.customer_delivery_count_after,
    )
}

/// Whether a district occurs among the first `n` orders.
pub open spec fn district_seen(orders: Seq<DeliveredOrderDelta>, n: int, district: u8) -> bool {
    exists|j: int| 0 <= j < n && #[trigger] orders[j].district_id == district
}

pub open spec fn delivered_order_fault(
    warehouse_id: u16,
    orders: Seq<DeliveredOrderDelta>,
    i: int,
) -> Option<LedgerFault> {
    let order = orders[i];
    either(
        partition_fault(warehouse_id as i32, order.district_id as i32),
        either(
            fails(
                district_seen(orders, i, order.district_id),
                LedgerFault::InvalidEvidence("Delivery processed a district more than once"@),
            ),
            either(
                fails(
                    order.order_id <= 0,
                    LedgerFault::InvalidEvidence("Delivery order_id must be positive"@),
                ),
                either(
                    fails(
                        !(1 <= order.customer_id <= CUSTOMERS_PER_DISTRICT),
                        LedgerFault::InvalidEvidence("Delivery customer_id is outside 1..=3000"@),
                    ),
                    either(
                        fails(
                            !(MIN_ORDER_LINES <= order.line_count <= MAX_ORDER_LINES),
                            LedgerFault::InvalidEvidence("Delivery line_count must be 5..=15"@),
                        ),
                        delivered_edges_fault(order),
                    ),
                ),
            ),
        ),
    )
}

/// The amount, the balance edge that it moves, then the two counters.
pub open spec fn delivered_edges_fault(order: DeliveredOrderDelta) -> Option<LedgerFault> {
    either(
        positive_amount_fault(
            "Delivery customer amount"@,
            order.customer_amount_bits,
            MAX_DELIVERY_AMOUNT_BITS,
        ),
        either(
            relative_add_fault(
                "Delivery customer c_balance"@,
                order.customer_balance_before_bits,
                order.customer_amount_bits,
                order.customer_balance_after_bits,
            ),
            either(
                increment_fault(
                    "Delivery customer c_delivery_cnt"@,
                    order.customer_delivery_count_before,
                    order.customer_delivery_count_after,
                ),
                unchanged_fault(
                    "Delivery customer c_payment_cnt"@,
                    order.customer_payment_count_before,
                    order.customer_payment_count_after,
                ),
            ),
        ),
    )
}

/// The first faulty order from position `i` on.
pub open spec fn delivered_orders_fault(
    warehouse_id: u16,
    orders: Seq<DeliveredOrderDelta>,
    i: int,
) -> Option<LedgerFault>
    decreases orders.len() - i,
{
    if i < 0 || i >= orders.len() {
        None
    } else {
        either(
            delivered_order_fault(warehouse_id, orders, i),
            delivered_orders_fault(warehouse_id, orders, i + 1),
        )
    }
}

pub open spec fn delivery_fault(delta: DeliveryModel) -> Option<LedgerFault> {
    either(
        partition_fault(delta.warehouse_id as i32, 1),
        either(
            fails(
                !(MIN_CARRIER_ID <= delta.carrier_id <= MAX_CARRIER_ID),
                LedgerFault::InvalidEvidence("Delivery carrier_id is outside 1..=10"@),
            ),
            either(
                fails(
                    delta.orders.len() > 10,
                    LedgerFault::InvalidEvidence(
                        "Delivery processed more than one order per district"@,
                    ),
                ),
                delivered_orders_fault(delta.warehouse_id, delta.orders, 0),
            ),
        ),
    )
}

fn district_was_seen(orders: &Vec<DeliveredOrderDelta>, n: usize, district: u8) -> (r: bool)
    requires
        n <= orders.len(),
    ensures
        r == district_seen(orders@, n as int, district),
{
    let mut j: usize = 0;
    while j < n
        invariant
            j <= n <= orders.len(),
            forall|k: int| 0 <= k < j ==> #[trigger] orders@[k].district_id != district,
        decreases n - j,
    {
        if orders[j].district_id == district {
            assert(orders@[j as int].district_id == district);
            return true;
        }
        j = j + 1;
    }
    false
}

fn validate_delivery_delta(delta: &DeliveryDelta) -> (r: Result<(), LedgerError>)
    ensures
        fault(r) == delivery_fault(delta@),
{
    partition_index(delta.warehouse_id as i32, 1)?;
    if delta.carrier_id < MIN_CARRIER_ID || delta.carrier_id > MAX_CARRIER_ID {
        return Err(LedgerError::InvalidEvidence("Delivery carrier_id is outside 1..=10"));
    }
    if delta.orders.len() > 10 {
        return Err(
            LedgerError::InvalidEvidence("Delivery processed more than one order per district"),
        );
    }
    let mut index: usize = 0;
    while index < delta.orders.len()
        invariant
            index <= delta.orders.len() <= 10,
            delivery_fault(delta@) == delivered_orders_fault(
                delta.warehouse_id,
                delta.orders@,
                index as int,
            ),
        decreases delta.orders.len() - index,
    {
        let order = &delta.orders[index];
        partition_index(delta.warehouse_id as i32, order.district_id as i32)?;
        if district_was_seen(&delta.orders, index, order.district_id) {
            return Err(
                LedgerError::InvalidEvidence("Delivery processed a district more than once"),
            );
        }
        if order.order_id <= 0 {
            return Err(LedgerError::InvalidEvidence("Delivery order_id must be positive"));
        }
        if order.customer_id < 1 || order.customer_id as i64 > CUSTOMERS_PER_DISTRICT {
            return Err(LedgerError::InvalidEvidence("Delivery customer_id is outside 1..=3000"));
        }
        if order.line_count < MIN_ORDER_LINES || order.line_count > MAX_ORDER_LINES {
            return Err(LedgerError::InvalidEvidence("Delivery line_count must be 5..=15"));
        }
        validate_positive_amount_bits(
            "Delivery customer amount",
            order.customer_amount_bits,
            MAX_DELIVERY_AMOUNT_BITS,
        )?;
        validate_relative_add(
            "Delivery customer c_balance",
            order.customer_balance_before_bits,
            order.customer_amount_bits,
            order.customer_balance_after_bits,
        )?;
        validate_increment(
            "Delivery customer c_delivery_cnt",
            order.customer_delivery_count_before,
            order.customer_delivery_count_after,
        )?;
        validate_unchanged(
            "Delivery customer c_payment_cnt",
            order.customer_payment_count_before,
            order.customer_payment_count_after,
        )?;
        index = index + 1;
    }
    Ok(())
}

pub open spec fn event_fault(event: EventModel) -> Option<LedgerFault> {
    either(
        meta_fault(event.meta()),
        match event {
            EventModel::NewOrder(delta) => new_order_fault(delta),
            EventModel::Payment(delta) => payment_fault(delta),
            EventModel::Delivery(delta) => delivery_fault(delta),
            EventModel::OrderStatus { meta } => None,
            EventModel::StockLevel { meta, low_stock_count } => fails(
                !(0 <= low_stock_count <= 300),
                LedgerFault::InvalidEvidence("StockLevel low_stock_count must be in 0..=300"@),
            ),
            EventModel::ExpectedRollback { meta, warehouse_id, district_id } => partition_fault(
                warehouse_id as i32,
                district_id as i32,
            ),
        },
    )
}

impl LedgerEvent {
    pub fn meta(&self) -> (r: LedgerEventMeta)
        ensures
            r == self@.meta(),
    {
        match self {
            LedgerEvent::NewOrder(delta) => delta.meta,
            LedgerEvent::Payment(delta) => delta.meta,
            LedgerEvent::Delivery(delta) => delta.meta,
            LedgerEvent::OrderStatus { meta } => *meta,
            LedgerEvent::StockLevel { meta, low_stock_count: _ } => *meta,
            LedgerEvent::ExpectedRollback { meta, warehouse_id: _, district_id: _ } => *meta,
        }
    }

    pub fn validate(&self) -> (r: Result<(), LedgerError>)
        ensures
            fault(r) == event_fault(self@),
    {
        self.meta().validate()?;
        match self {
            LedgerEvent::NewOrder(delta) => validate_new_order_delta(delta),
            LedgerEvent::Payment(delta) => validate_payment_delta(delta),
            LedgerEvent::Delivery(delta) => validate_delivery_delta(delta),
            LedgerEvent::OrderStatus { meta: _ } => Ok(()),
            LedgerEvent::StockLevel { meta: _, low_stock_count } => {
                if *low_stock_count < 0 || *low_stock_count > 300 {
                    Err(LedgerError::InvalidEvidence("StockLevel low_stock_count must be in 0..=300"))
                } else {
                    Ok(())
                }
            },
            LedgerEvent::ExpectedRollback { meta: _, warehouse_id, district_id } => {
                partition_index(*warehouse_id as i32, *district_id as i32)?;
                Ok(())
            },
        }
    }
}

} // verus!
