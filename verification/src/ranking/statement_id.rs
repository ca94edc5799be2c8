//! Identities of the prepared statements.
use vstd::prelude::*;

verus! {

/// A logical statement.
#[derive(Clone, Copy, Debug, PartialEq, Eq, PartialOrd, Ord, Hash, Structural)]
pub enum StatementId {
    Begin,
    Commit,
    Abort,
    NewOrderHome,
    NewOrderLockStock,
    NewOrderItem,
    NewOrderStock,
    NewOrderAdvanceDistrict,
    NewOrderInsertOrder,
    NewOrderInsertQueue,
    NewOrderUpdateStockNormal,
    NewOrderUpdateStockWrapped,
    NewOrderInsertLine,
    PaymentWarehouse,
    PaymentUpdateWarehouse,
    PaymentDistrict,
    PaymentUpdateDistrict,
    PaymentCustomerById,
    PaymentCustomerByLast,
    PaymentUpdateGoodCustomer,
    PaymentUpdateBadCustomer,
    PaymentInsertHistory,
    PaymentCustomerAfter,
    OrderStatusCustomerById,
    OrderStatusCustomerByLast,
    OrderStatusLatestOrder,
    OrderStatusOrder,
    OrderStatusLines,
    DeliveryOldestOrder,
    DeliveryLockQueue,
    DeliveryConfirmQueue,
    DeliveryOrder,
    DeliveryCustomer,
    DeliveryLineRows,
    DeliveryLineSum,
    DeliveryDeleteQueue,
    DeliveryUpdateOrder,
    DeliveryUpdateLines,
    DeliveryUpdateCustomer,
    DeliveryCustomerAfter,
    StockLevelNextOrder,
    StockLevelCount,
    /// Reads the warehouse total back; not part of the catalogue.
    PaymentWarehouseAfter,
    /// Reads the district total back; not part of the catalogue.
    PaymentDistrictAfter,
    /// Counts older queue entries; not part of the catalogue.
    DeliveryEarlierQueueCount,
    /// Counts one queue entry; not part of the catalogue.
    DeliveryExactQueueCount,
}

/// The number of a statement on the wire.
pub open spec fn wire_number(id: StatementId) -> u16 {
    match id {
        StatementId::Begin => 1,
        StatementId::Commit => 2,
        StatementId::Abort => 3,
        StatementId::NewOrderHome => 10,
        StatementId::NewOrderLockStock => 11,
        StatementId::NewOrderItem => 12,
        StatementId::NewOrderStock => 13,
        StatementId::NewOrderAdvanceDistrict => 14,
        StatementId::NewOrderInsertOrder => 15,
        StatementId::NewOrderInsertQueue => 16,
        StatementId::NewOrderUpdateStockNormal => 17,
        StatementId::NewOrderUpdateStockWrapped => 18,
        StatementId::NewOrderInsertLine => 19,
        StatementId::PaymentWarehouse => 30,
        StatementId::PaymentUpdateWarehouse => 31,
        StatementId::PaymentDistrict => 32,
        StatementId::PaymentUpdateDistrict => 33,
        StatementId::PaymentCustomerById => 34,
        StatementId::PaymentCustomerByLast => 35,
        StatementId::PaymentUpdateGoodCustomer => 36,
        StatementId::PaymentUpdateBadCustomer => 37,
        StatementId::PaymentInsertHistory => 38,
        StatementId::PaymentCustomerAfter => 39,
        StatementId::OrderStatusCustomerById => 50,
        StatementId::OrderStatusCustomerByLast => 51,
        StatementId::OrderStatusLatestOrder => 52,
        StatementId::OrderStatusOrder => 53,
        StatementId::OrderStatusLines => 54,
        StatementId::DeliveryOldestOrder => 70,
        StatementId::DeliveryLockQueue => 71,
        StatementId::DeliveryConfirmQueue => 72,
        StatementId::DeliveryOrder => 73,
        StatementId::DeliveryCustomer => 74,
        StatementId::DeliveryLineRows => 75,
        StatementId::DeliveryLineSum => 76,
        StatementId::DeliveryDeleteQueue => 77,
        StatementId::DeliveryUpdateOrder => 78,
        StatementId::DeliveryUpdateLines => 79,
        StatementId::DeliveryUpdateCustomer => 80,
        StatementId::DeliveryCustomerAfter => 81,
        StatementId::StockLevelNextOrder => 89,
        StatementId::StockLevelCount => 90,
        StatementId::PaymentWarehouseAfter => 40,
        StatementId::PaymentDistrictAfter => 41,
        StatementId::DeliveryEarlierQueueCount => 82,
        StatementId::DeliveryExactQueueCount => 83,
    }
}

/// The name of a statement.
pub open spec fn statement_key(id: StatementId) -> Seq<char> {
    match id {
        StatementId::Begin => "begin"@,
        StatementId::Commit => "commit"@,
        StatementId::Abort => "abort"@,
        StatementId::NewOrderHome => "new_order.home"@,
        StatementId::NewOrderLockStock => "new_order.lock_stock"@,
        StatementId::NewOrderItem => "new_order.item"@,
        StatementId::NewOrderStock => "new_order.stock"@,
        StatementId::NewOrderAdvanceDistrict => "new_order.advance_district"@,
        StatementId::NewOrderInsertOrder => "new_order.insert_order"@,
        StatementId::NewOrderInsertQueue => "new_order.insert_queue"@,
        StatementId::NewOrderUpdateStockNormal => "new_order.update_stock_normal"@,
        StatementId::NewOrderUpdateStockWrapped => "new_order.update_stock_wrapped"@,
        StatementId::NewOrderInsertLine => "new_order.insert_line"@,
        StatementId::PaymentWarehouse => "payment.warehouse"@,
        StatementId::PaymentUpdateWarehouse => "payment.update_warehouse"@,
        StatementId::PaymentDistrict => "payment.district"@,
        StatementId::PaymentUpdateDistrict => "payment.update_district"@,
        StatementId::PaymentCustomerById => "payment.customer_by_id"@,
        StatementId::PaymentCustomerByLast => "payment.customer_by_last"@,
        StatementId::PaymentUpdateGoodCustomer => "payment.update_good_customer"@,
        StatementId::PaymentUpdateBadCustomer => "payment.update_bad_customer"@,
        StatementId::PaymentInsertHistory => "payment.insert_history"@,
        StatementId::PaymentCustomerAfter => "payment.customer_after"@,
        StatementId::OrderStatusCustomerById => "order_status.customer_by_id"@,
        StatementId::OrderStatusCustomerByLast => "order_status.customer_by_last"@,
        StatementId::OrderStatusLatestOrder => "order_status.latest_order"@,
        StatementId::OrderStatusOrder => "order_status.order"@,
        StatementId::OrderStatusLines => "order_status.lines"@,
        StatementId::DeliveryOldestOrder => "delivery.oldest_order"@,
        StatementId::DeliveryLockQueue => "delivery.lock_queue"@,
        StatementId::DeliveryConfirmQueue => "delivery.confirm_queue"@,
        StatementId::DeliveryOrder => "delivery.order"@,
        StatementId::DeliveryCustomer => "delivery.customer"@,
        StatementId::DeliveryLineRows => "delivery.line_rows"@,
        StatementId::DeliveryLineSum => "delivery.line_sum"@,
        StatementId::DeliveryDeleteQueue => "delivery.delete_queue"@,
        StatementId::DeliveryUpdateOrder => "delivery.update_order"@,
        StatementId::DeliveryUpdateLines => "delivery.update_lines"@,
        StatementId::DeliveryUpdateCustomer => "delivery.update_customer"@,
        StatementId::DeliveryCustomerAfter => "delivery.customer_after"@,
        StatementId::StockLevelNextOrder => "stock_level.next_order"@,
        StatementId::StockLevelCount => "stock_level.count"@,
        StatementId::PaymentWarehouseAfter => "payment.warehouse_after"@,
        StatementId::PaymentDistrictAfter => "payment.district_after"@,
        StatementId::DeliveryEarlierQueueCount => "delivery.earlier_queue_count"@,
        StatementId::DeliveryExactQueueCount => "delivery.exact_queue_count"@,
    }
}

/// The statements of the catalogue, in order.
pub open spec fn catalogue_ids() -> Seq<StatementId> {
    seq![
        StatementId::Begin,
        StatementId::Commit,
        StatementId::Abort,
        StatementId::NewOrderHome,
        StatementId::NewOrderLockStock,
        StatementId::NewOrderItem,
        StatementId::NewOrderStock,
        StatementId::NewOrderAdvanceDistrict,
        StatementId::NewOrderInsertOrder,
        StatementId::NewOrderInsertQueue,
        StatementId::NewOrderUpdateStockNormal,
        StatementId::NewOrderUpdateStockWrapped,
        StatementId::NewOrderInsertLine,
        StatementId::PaymentWarehouse,
        StatementId::PaymentUpdateWarehouse,
        StatementId::PaymentDistrict,
        StatementId::PaymentUpdateDistrict,
        StatementId::PaymentCustomerById,
        StatementId::PaymentCustomerByLast,
        StatementId::PaymentUpdateGoodCustomer,
        StatementId::PaymentUpdateBadCustomer,
        StatementId::PaymentInsertHistory,
        StatementId::PaymentCustomerAfter,
        StatementId::OrderStatusCustomerById,
        StatementId::OrderStatusCustomerByLast,
        StatementId::OrderStatusLatestOrder,
        StatementId::OrderStatusOrder,
        StatementId::OrderStatusLines,
        StatementId::DeliveryOldestOrder,
        StatementId::DeliveryLockQueue,
        StatementId::DeliveryConfirmQueue,
        StatementId::DeliveryOrder,
        StatementId::DeliveryCustomer,
        StatementId::DeliveryLineRows,
        StatementId::DeliveryLineSum,
        StatementId::DeliveryDeleteQueue,
        StatementId::DeliveryUpdateOrder,
        StatementId::DeliveryUpdateLines,
        StatementId::DeliveryUpdateCustomer,
        StatementId::DeliveryCustomerAfter,
        StatementId::StockLevelNextOrder,
        StatementId::StockLevelCount,
    ]
}

/// No two statements share a number, and none has number zero.
pub proof fn law_wire_numbers_are_distinct(a: StatementId, b: StatementId)
    ensures
        wire_number(a) == wire_number(b) ==> a == b,
        wire_number(a) != 0,
{
}

impl StatementId {
    /// The statements of the catalogue, in order.
    pub fn all() -> (r: Vec<StatementId>)
        ensures
            r@ == catalogue_ids(),
    {
        vec![
            StatementId::Begin,
            StatementId::Commit,
            StatementId::Abort,
            StatementId::NewOrderHome,
            StatementId::NewOrderLockStock,
            StatementId::NewOrderItem,
            StatementId::NewOrderStock,
            StatementId::NewOrderAdvanceDistrict,
            StatementId::NewOrderInsertOrder,
            StatementId::NewOrderInsertQueue,
            StatementId::NewOrderUpdateStockNormal,
            StatementId::NewOrderUpdateStockWrapped,
            StatementId::NewOrderInsertLine,
            StatementId::PaymentWarehouse,
            StatementId::PaymentUpdateWarehouse,
            StatementId::PaymentDistrict,
            StatementId::PaymentUpdateDistrict,
            StatementId::PaymentCustomerById,
            StatementId::PaymentCustomerByLast,
            StatementId::PaymentUpdateGoodCustomer,
            StatementId::PaymentUpdateBadCustomer,
            StatementId::PaymentInsertHistory,
            StatementId::PaymentCustomerAfter,
            StatementId::OrderStatusCustomerById,
            StatementId::OrderStatusCustomerByLast,
            StatementId::OrderStatusLatestOrder,
            StatementId::OrderStatusOrder,
            StatementId::OrderStatusLines,
            StatementId::DeliveryOldestOrder,
            StatementId::DeliveryLockQueue,
            StatementId::DeliveryConfirmQueue,
            StatementId::DeliveryOrder,
            StatementId::DeliveryCustomer,
            StatementId::DeliveryLineRows,
            StatementId::DeliveryLineSum,
            StatementId::DeliveryDeleteQueue,
            StatementId::DeliveryUpdateOrder,
            StatementId::DeliveryUpdateLines,
            StatementId::DeliveryUpdateCustomer,
            StatementId::DeliveryCustomerAfter,
            StatementId::StockLevelNextOrder,
            StatementId::StockLevelCount,
        ]
    }

    pub fn wire_id(self) -> (r: u16)
        ensures
            r == wire_number(self),
    {
        match self {
            StatementId::Begin => 1,
            StatementId::Commit => 2,
            StatementId::Abort => 3,
            StatementId::NewOrderHome => 10,
            StatementId::NewOrderLockStock => 11,
            StatementId::NewOrderItem => 12,
            StatementId::NewOrderStock => 13,
            StatementId::NewOrderAdvanceDistrict => 14,
            StatementId::NewOrderInsertOrder => 15,
            StatementId::NewOrderInsertQueue => 16,
            StatementId::NewOrderUpdateStockNormal => 17,
            StatementId::NewOrderUpdateStockWrapped => 18,
            StatementId::NewOrderInsertLine => 19,
            StatementId::PaymentWarehouse => 30,
            StatementId::PaymentUpdateWarehouse => 31,
            StatementId::PaymentDistrict => 32,
            StatementId::PaymentUpdateDistrict => 33,
            StatementId::PaymentCustomerById => 34,
            StatementId::PaymentCustomerByLast => 35,
            StatementId::PaymentUpdateGoodCustomer => 36,
            StatementId::PaymentUpdateBadCustomer => 37,
            StatementId::PaymentInsertHistory => 38,
            StatementId::PaymentCustomerAfter => 39,
            StatementId::OrderStatusCustomerById => 50,
            StatementId::OrderStatusCustomerByLast => 51,
            StatementId::OrderStatusLatestOrder => 52,
            StatementId::OrderStatusOrder => 53,
            StatementId::OrderStatusLines => 54,
            StatementId::DeliveryOldestOrder => 70,
            StatementId::DeliveryLockQueue => 71,
            StatementId::DeliveryConfirmQueue => 72,
            StatementId::DeliveryOrder => 73,
            StatementId::DeliveryCustomer => 74,
            StatementId::DeliveryLineRows => 75,
            StatementId::DeliveryLineSum => 76,
            StatementId::DeliveryDeleteQueue => 77,
            StatementId::DeliveryUpdateOrder => 78,
            StatementId::DeliveryUpdateLines => 79,
            StatementId::DeliveryUpdateCustomer => 80,
            StatementId::DeliveryCustomerAfter => 81,
            StatementId::StockLevelNextOrder => 89,
            StatementId::StockLevelCount => 90,
            StatementId::PaymentWarehouseAfter => 40,
            StatementId::PaymentDistrictAfter => 41,
            StatementId::DeliveryEarlierQueueCount => 82,
            StatementId::DeliveryExactQueueCount => 83,
        }
    }

    pub fn key(self) -> (r: &'static str)
        ensures
            r@ == statement_key(self),
    {
        match self {
            StatementId::Begin => "begin",
            StatementId::Commit => "commit",
            StatementId::Abort => "abort",
            StatementId::NewOrderHome => "new_order.home",
            StatementId::NewOrderLockStock => "new_order.lock_stock",
            StatementId::NewOrderItem => "new_order.item",
            StatementId::NewOrderStock => "new_order.stock",
            StatementId::NewOrderAdvanceDistrict => "new_order.advance_district",
            StatementId::NewOrderInsertOrder => "new_order.insert_order",
            StatementId::NewOrderInsertQueue => "new_order.insert_queue",
            StatementId::NewOrderUpdateStockNormal => "new_order.update_stock_normal",
            StatementId::NewOrderUpdateStockWrapped => "new_order.update_stock_wrapped",
            StatementId::NewOrderInsertLine => "new_order.insert_line",
            StatementId::PaymentWarehouse => "payment.warehouse",
            StatementId::PaymentUpdateWarehouse => "payment.update_warehouse",
            StatementId::PaymentDistrict => "payment.district",
            StatementId::PaymentUpdateDistrict => "payment.update_district",
            StatementId::PaymentCustomerById => "payment.customer_by_id",
            StatementId::PaymentCustomerByLast => "payment.customer_by_last",
            StatementId::PaymentUpdateGoodCustomer => "payment.update_good_customer",
            StatementId::PaymentUpdateBadCustomer => "payment.update_bad_customer",
            StatementId::PaymentInsertHistory => "payment.insert_history",
            StatementId::PaymentCustomerAfter => "payment.customer_after",
            StatementId::OrderStatusCustomerById => "order_status.customer_by_id",
            StatementId::OrderStatusCustomerByLast => "order_status.customer_by_last",
            StatementId::OrderStatusLatestOrder => "order_status.latest_order",
            StatementId::OrderStatusOrder => "order_status.order",
            StatementId::OrderStatusLines => "order_status.lines",
            StatementId::DeliveryOldestOrder => "delivery.oldest_order",
            StatementId::DeliveryLockQueue => "delivery.lock_queue",
            StatementId::DeliveryConfirmQueue => "delivery.confirm_queue",
            StatementId::DeliveryOrder => "delivery.order",
            StatementId::DeliveryCustomer => "delivery.customer",
            StatementId::DeliveryLineRows => "delivery.line_rows",
            StatementId::DeliveryLineSum => "delivery.line_sum",
            StatementId::DeliveryDeleteQueue => "delivery.delete_queue",
            StatementId::DeliveryUpdateOrder => "delivery.update_order",
            StatementId::DeliveryUpdateLines => "delivery.update_lines",
            StatementId::DeliveryUpdateCustomer => "delivery.update_customer",
            StatementId::DeliveryCustomerAfter => "delivery.customer_after",
            StatementId::StockLevelNextOrder => "stock_level.next_order",
            StatementId::StockLevelCount => "stock_level.count",
            StatementId::PaymentWarehouseAfter => "payment.warehouse_after",
            StatementId::PaymentDistrictAfter => "payment.district_after",
            StatementId::DeliveryEarlierQueueCount => "delivery.earlier_queue_count",
            StatementId::DeliveryExactQueueCount => "delivery.exact_queue_count",
        }
    }
}

} // verus!
