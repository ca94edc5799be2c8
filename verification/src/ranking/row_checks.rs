//! Checks of result rows: widths, lengths and ranges.
use vstd::prelude::*;

use crate::binary32::{at_most, is_finite, value};
use crate::checks::refused_if;
use crate::profile::TransactionKind;
use crate::ranking::common::{
    SemanticResult, SemanticViolation, Violation, float_violation, violated, violates,
};
use crate::text::{decimal, join2, join5, join7, signed_decimal, signed_text, unsigned_text};
use crate::wire::{WireModel, WireValue, row_model};

verus! {

/// Why a row has another width.
pub open spec fn columns_fault(row: Seq<WireModel>, expected: nat, context: Seq<char>) -> Option<
    Violation,
> {
    violates(
        row.len() != expected,
        context + " returned "@ + decimal(row.len()) + " columns; expected "@ + decimal(expected),
    )
}

pub(crate) fn require_columns(row: &[WireValue], expected: usize, context: &str) -> (r:
    SemanticResult<()>)
    ensures
        violated(r) == columns_fault(row_model(row@), expected as nat, context@),
{
    if row.len() != expected {
        return Err(
            SemanticViolation::of(
                join5(
                    context,
                    " returned ",
                    unsigned_text(row.len() as u64).as_str(),
                    " columns; expected ",
                    unsigned_text(expected as u64).as_str(),
                ),
            ),
        );
    }
    Ok(())
}

/// Why a CHAR value has another length.
pub open spec fn char_range_fault(
    value: Seq<u8>,
    minimum: nat,
    maximum: nat,
    context: Seq<char>,
) -> Option<Violation> {
    violates(
        !(minimum <= value.len() <= maximum),
        context + " is "@ + decimal(value.len()) + " bytes; expected "@ + decimal(minimum) + "..="@
            + decimal(maximum),
    )
}

pub(crate) fn require_char_range(value: &[u8], minimum: usize, maximum: usize, context: &str) -> (r:
    SemanticResult<()>)
    ensures
        violated(r) == char_range_fault(value@, minimum as nat, maximum as nat, context@),
{
    if value.len() < minimum || value.len() > maximum {
        return Err(
            SemanticViolation::of(
                join7(
                    context,
                    " is ",
                    unsigned_text(value.len() as u64).as_str(),
                    " bytes; expected ",
                    unsigned_text(minimum as u64).as_str(),
                    "..=",
                    unsigned_text(maximum as u64).as_str(),
                ),
            ),
        );
    }
    Ok(())
}

/// A range of binary32 values with its text.
#[derive(Clone, Copy, Debug)]
pub struct FloatRange {
    pub minimum: u32,
    pub maximum: u32,
    pub text: &'static str,
}

/// Why a finite value lies outside a range; the message shows the value.
pub open spec fn f32_range_fault(bits: u32, range: FloatRange, context: Seq<char>) -> Option<
    Violation,
> {
    refused_if(
        !(value(range.minimum) <= value(bits) <= value(range.maximum)),
        float_violation(context + " "@, bits, " is outside "@ + range.text@),
    )
}

pub(crate) fn require_f32_range(bits: u32, range: FloatRange, context: &str) -> (r: SemanticResult<
    (),
>)
    requires
        is_finite(bits),
        is_finite(range.minimum),
        is_finite(range.maximum),
    ensures
        violated(r) == f32_range_fault(bits, range, context@),
{
    if !at_most(range.minimum, bits) || !at_most(bits, range.maximum) {
        return Err(
            SemanticViolation::of_float(
                join2(context, " "),
                bits,
                join2(" is outside ", range.text),
            ),
        );
    }
    Ok(())
}

/// The name of a transaction family.
pub open spec fn kind_name(kind: TransactionKind) -> Seq<char> {
    match kind {
        TransactionKind::NewOrder => "NewOrder"@,
        TransactionKind::Payment => "Payment"@,
        TransactionKind::OrderStatus => "OrderStatus"@,
        TransactionKind::Delivery => "Delivery"@,
        TransactionKind::StockLevel => "StockLevel"@,
    }
}

pub(crate) fn describe_kind(kind: TransactionKind) -> (r: &'static str)
    ensures
        r@ == kind_name(kind),
{
    match kind {
        TransactionKind::NewOrder => "NewOrder",
        TransactionKind::Payment => "Payment",
        TransactionKind::OrderStatus => "OrderStatus",
        TransactionKind::Delivery => "Delivery",
        TransactionKind::StockLevel => "StockLevel",
    }
}

/// A truth value in a message.
pub open spec fn flag_text(flag: bool) -> Seq<char> {
    if flag {
        "true"@
    } else {
        "false"@
    }
}

pub(crate) fn describe_flag(flag: bool) -> (r: &'static str)
    ensures
        r@ == flag_text(flag),
{
    if flag {
        "true"
    } else {
        "false"
    }
}

/// A number in a message.
pub(crate) fn int_text(n: i32) -> (r: String)
    ensures
        r@ == signed_decimal(n as int),
{
    signed_text(n as i64)
}

/// Whether a text holds one to thirty bytes, none of them zero.
pub open spec fn timestamp_fits(bytes: Seq<u8>) -> bool {
    0 < bytes.len() <= 30 && !bytes.contains(0u8)
}

pub(crate) fn is_timestamp(bytes: &[u8]) -> (r: bool)
    ensures
        r == timestamp_fits(bytes@),
{
    if bytes.len() == 0 || bytes.len() > 30 {
        return false;
    }
    let mut i: usize = 0;
    while i < bytes.len()
        invariant
            i <= bytes@.len(),
            0 < bytes@.len() <= 30,
            forall|k: int| 0 <= k < i ==> bytes@[k] != 0,
        decreases bytes@.len() - i,
    {
        if bytes[i] == 0 {
            assert(bytes@[i as int] == 0);
            return false;
        }
        i = i + 1;
    }
    true
}

/// A copy of some bytes.
pub(crate) fn copy_bytes(bytes: &[u8]) -> (r: Vec<u8>)
    ensures
        r@ == bytes@,
{
    let mut out: Vec<u8> = Vec::new();
    let mut i: usize = 0;
    while i < bytes.len()
        invariant
            i <= bytes@.len(),
            out@ =~= bytes@.subrange(0, i as int),
        decreases bytes@.len() - i,
    {
        out.push(bytes[i]);
        i = i + 1;
    }
    assert(out@ =~= bytes@);
    out
}

/// A copy of some bit patterns.
pub(crate) fn copy_patterns(patterns: &[u32]) -> (r: Vec<u32>)
    ensures
        r@ == patterns@,
{
    let mut r: Vec<u32> = Vec::new();
    let mut i: usize = 0;
    while i < patterns.len()
        invariant
            i <= patterns@.len(),
            r@ == patterns@.subrange(0, i as int),
        decreases patterns@.len() - i,
    {
        r.push(patterns[i]);
        i = i + 1;
        assert(r@ =~= patterns@.subrange(0, i as int));
    }
    assert(r@ =~= patterns@);
    r
}

/// Whether two lists of bytes agree.
pub(crate) fn bytes_agree(a: &[u8], b: &[u8]) -> (r: bool)
    ensures
        r == (a@ == b@),
{
    if a.len() != b.len() {
        return false;
    }
    let mut i: usize = 0;
    while i < a.len()
        invariant
            i <= a@.len(),
            a@.len() == b@.len(),
            forall|k: int| 0 <= k < i ==> a@[k] == b@[k],
        decreases a@.len() - i,
    {
        if a[i] != b[i] {
            return false;
        }
        i = i + 1;
    }
    assert(a@ =~= b@);
    true
}

} // verus!
