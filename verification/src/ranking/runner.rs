//! Evidence returned by completed ranked transactions.
use vstd::prelude::*;

verus! {

/// Payment and delivery counters of one customer row.
#[derive(Clone, Copy, Debug, PartialEq, Eq, Structural)]
pub struct CustomerVersion {
    pub payment_count: i32,
    pub delivery_count: i32,
}

/// The mutable columns of one stock row.
#[derive(Clone, Copy, Debug, PartialEq, Eq, Structural)]
pub struct StockVersion {
    pub quantity: i32,
    pub ytd_bits: u32,
    pub order_count: i32,
    pub remote_count: i32,
}

#[derive(Clone, Debug, PartialEq, Eq)]
pub struct RecoveryNewOrderLineEvidence {
    pub number: u8,
    pub item_id: u32,
    pub supply_warehouse: u16,
    pub quantity: u8,
    pub amount_bits: u32,
    pub district_info: Vec<u8>,
    pub stock_before: StockVersion,
    pub stock_after: StockVersion,
}

#[derive(Clone, Debug, PartialEq, Eq)]
pub struct NewOrderEvidence {
    pub warehouse_id: u16,
    pub district_id: u8,
    pub order_id: i32,
    pub line_count: u8,
    pub remote_line_count: u8,
    pub stock_ytd_delta: u32,
    pub line_amount_bits: Vec<u32>,
    pub entry_timestamp: Vec<u8>,
    pub recovery_lines: Vec<RecoveryNewOrderLineEvidence>,
}

#[derive(Clone, Debug, PartialEq, Eq)]
pub struct PaymentEvidence {
    pub warehouse_id: u16,
    pub district_id: u8,
    pub customer_warehouse_id: u16,
    pub customer_district_id: u8,
    pub customer_id: i32,
    pub amount_bits: u32,
    pub warehouse_before_bits: u32,
    pub warehouse_after_bits: u32,
    pub district_before_bits: u32,
    pub district_after_bits: u32,
    pub customer_balance_before_bits: u32,
    pub customer_balance_after_bits: u32,
    pub customer_ytd_before_bits: u32,
    pub customer_ytd_after_bits: u32,
    pub customer_version_before: CustomerVersion,
    pub customer_version_after: CustomerVersion,
    pub history_timestamp: Vec<u8>,
    pub history_data: Vec<u8>,
    pub customer_is_bad_credit: bool,
    pub customer_data_before: Vec<u8>,
    pub customer_data_after: Vec<u8>,
}

#[derive(Clone, Debug, PartialEq, Eq)]
pub struct DeliveredOrderEvidence {
    pub warehouse_id: u16,
    pub district_id: u8,
    pub order_id: i32,
    pub customer_id: i32,
    pub line_count: u8,
    pub amount_bits: u32,
    pub customer_balance_before_bits: u32,
    pub customer_balance_after_bits: u32,
    pub customer_version_before: CustomerVersion,
    pub customer_version_after: CustomerVersion,
    pub delivery_timestamp: Vec<u8>,
    pub line_amount_bits: Vec<u32>,
}

#[derive(Clone, Debug, PartialEq, Eq)]
pub enum RankedCommit {
    NewOrder(NewOrderEvidence),
    Payment(PaymentEvidence),
    OrderStatus,
    Delivery(Vec<DeliveredOrderEvidence>),
    StockLevel { low_stock_count: i32 },
}

#[derive(Clone, Debug, PartialEq, Eq)]
pub enum RankedTransactionOutcome {
    Committed(RankedCommit),
    ExpectedRollback,
}

} // verus!
