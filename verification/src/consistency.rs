//! Observed updates of customer rows.
use vstd::prelude::*;

verus! {

/// The monotonic counters of a customer row.
#[derive(Clone, Copy, Debug, PartialEq, Eq, Structural)]
pub struct CustomerLogicalVersion {
    pub payment_count: i32,
    pub delivery_count: i32,
}

#[derive(Clone, Copy, Debug, PartialEq, Eq, Structural)]
pub enum CustomerUpdateKind {
    Payment,
    Delivery,
}

/// One committed update of a customer row.
#[derive(Clone, Copy, Debug, PartialEq, Eq, Structural)]
pub struct CustomerUpdateEvidence {
    pub kind: CustomerUpdateKind,
    pub before_version: CustomerLogicalVersion,
    pub after_version: CustomerLogicalVersion,
    pub amount_bits: u32,
    pub balance_before_bits: u32,
    pub balance_after_bits: u32,
    pub ytd_payment_before_bits: Option<u32>,
    pub ytd_payment_after_bits: Option<u32>,
}

/// A customer row after its last known update.
#[derive(Clone, Copy, Debug, PartialEq, Eq, Structural)]
pub struct CustomerUpdateEndpoint {
    pub version: CustomerLogicalVersion,
    pub balance_bits: u32,
    pub ytd_payment_bits: u32,
}

} // verus!
