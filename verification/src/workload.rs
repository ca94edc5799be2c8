//! Frozen transaction inputs and the tickets that carry them.
use vstd::prelude::*;

use crate::profile::TransactionKind;

verus! {

pub const MIN_ORDER_LINES: u8 = 5;

pub const MAX_ORDER_LINES: u8 = 15;

pub const MIN_ITEM_QUANTITY: u8 = 1;

pub const MAX_ITEM_QUANTITY: u8 = 10;

pub const MIN_CARRIER_ID: u8 = 1;

pub const MAX_CARRIER_ID: u8 = 10;

pub const CUSTOMERS_PER_DISTRICT: u16 = 3_000;

pub const MIN_PAYMENT_CENTS: u32 = 100;

pub const MAX_PAYMENT_CENTS: u32 = 500_000;

/// The item id of a line that makes a NewOrder roll back.
pub const INVALID_ITEM_ID: u32 = 100_001;

/// A stage of the run: the warm-up, then the measurement windows.
#[derive(Clone, Copy, Debug, PartialEq, Eq, Structural)]
pub struct StageId {
    pub number: u64,
}

impl StageId {
    /// The warm-up stage.
    pub fn warmup() -> (r: StageId)
        ensures
            r.number == 0,
    {
        StageId { number: 0 }
    }

    /// The stage of the measurement window `index`.
    pub fn measurement(index: u8) -> (r: StageId)
        ensures
            r.number == index + 1,
    {
        StageId { number: index as u64 + 1 }
    }

    /// The stage with a number.
    pub fn custom(number: u64) -> (r: StageId)
        ensures
            r.number == number,
    {
        StageId { number }
    }

    pub fn value(self) -> (r: u64)
        ensures
            r == self.number,
    {
        self.number
    }
}

/// The route of one selected transaction.
#[derive(Clone, Copy, Debug, PartialEq, Eq, Structural)]
pub struct RoutedTransaction {
    pub kind: TransactionKind,
    pub stage: StageId,
    pub client_id: u16,
    pub txn_no: u64,
    pub home_warehouse: u16,
    pub home_district: u8,
    pub payment_customer_warehouse: u16,
}

/// One line of a NewOrder input.
#[derive(Clone, Copy, Debug, PartialEq, Eq, Structural)]
pub struct OrderLineInput {
    pub number: u8,
    pub item_id: u32,
    pub supply_warehouse: u16,
    pub quantity: u8,
}

impl OrderLineInput {
    pub open spec fn invalid(self) -> bool {
        self.item_id == INVALID_ITEM_ID
    }

    pub fn is_invalid_item(&self) -> (r: bool)
        ensures
            r == self.invalid(),
    {
        self.item_id == INVALID_ITEM_ID
    }
}

#[derive(Clone, Debug, PartialEq, Eq)]
pub struct NewOrderInput {
    pub customer_id: u16,
    pub lines: Vec<OrderLineInput>,
    pub expected_rollback: bool,
    pub all_local: bool,
}

/// A customer surname, as bytes.
#[derive(Clone, Debug, PartialEq, Eq)]
pub struct CustomerLastName {
    pub bytes: Vec<u8>,
}

/// How a customer is looked up.
#[derive(Clone, Debug, PartialEq, Eq)]
pub enum CustomerSelector {
    Id(u16),
    LastName(CustomerLastName),
}

#[derive(Clone, Debug, PartialEq, Eq)]
pub struct PaymentInput {
    pub customer_warehouse: u16,
    pub customer_district: u8,
    pub customer: CustomerSelector,
    pub amount_cents: u32,
    pub amount_bits: u32,
}

#[derive(Clone, Debug, PartialEq, Eq)]
pub struct OrderStatusInput {
    pub customer: CustomerSelector,
}

#[derive(Clone, Copy, Debug, PartialEq, Eq, Structural)]
pub struct DeliveryInput {
    pub carrier_id: u8,
}

#[derive(Clone, Copy, Debug, PartialEq, Eq, Structural)]
pub struct StockLevelInput {
    pub threshold: u8,
}

#[derive(Clone, Debug, PartialEq, Eq)]
pub enum TransactionParameters {
    NewOrder(NewOrderInput),
    Payment(PaymentInput),
    OrderStatus(OrderStatusInput),
    Delivery(DeliveryInput),
    StockLevel(StockLevelInput),
}

/// One immutable selection: its route, parameters and fingerprint.
#[derive(Clone, Debug, PartialEq, Eq)]
pub struct TransactionTicket {
    pub route: RoutedTransaction,
    pub parameters: TransactionParameters,
    pub parameter_fingerprint: u64,
}

impl TransactionTicket {
    pub fn route(&self) -> (r: &RoutedTransaction)
        ensures
            *r == self.route,
    {
        &self.route
    }

    pub fn parameters(&self) -> (r: &TransactionParameters)
        ensures
            *r == self.parameters,
    {
        &self.parameters
    }

    pub fn parameter_fingerprint(&self) -> (r: u64)
        ensures
            r == self.parameter_fingerprint,
    {
        self.parameter_fingerprint
    }

    pub fn kind(&self) -> (r: TransactionKind)
        ensures
            r == self.route.kind,
    {
        self.route.kind
    }
}

} // verus!
