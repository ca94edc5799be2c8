//! The prepared statements of the workload and the plan of each transaction.
//!
//! The catalogue describes relational operations. A plan expands a stage of a
//! transaction from one immutable input and sends it as one batch.
use vstd::prelude::*;

use crate::ranking::statement_id::{StatementId, catalogue_ids, wire_number};
use crate::wire::{Column, SqlType, Statement, StatementKind};

verus! {

pub const BEGIN_SQL: &'static str =
    "BEGIN;";

pub const COMMIT_SQL: &'static str =
    "COMMIT;";

pub const ABORT_SQL: &'static str =
    "ABORT;";

pub const NEW_ORDER_HOME_SQL: &'static str =
    "SELECT customer.c_discount AS c_discount, customer.c_last AS c_last, customer.c_credit \
    AS c_credit, warehouse.w_tax AS w_tax FROM customer, warehouse WHERE warehouse.w_id = $1 \
    AND customer.c_w_id = warehouse.w_id AND customer.c_d_id = $2 AND customer.c_id = $3;";

pub const NEW_ORDER_LOCK_STOCK_SQL: &'static str =
    "UPDATE stock SET s_quantity = s_quantity WHERE s_w_id = $1 AND s_i_id = $2;";

pub const NEW_ORDER_ITEM_SQL: &'static str =
    "SELECT i_id AS i_id, i_price AS i_price, i_name AS i_name, i_data AS i_data FROM item \
    WHERE i_id = $1;";

pub const NEW_ORDER_STOCK_SQL: &'static str =
    "SELECT s_quantity AS s_quantity, s_ytd AS s_ytd, s_order_cnt AS s_order_cnt, \
    s_remote_cnt AS s_remote_cnt, s_data AS s_data, s_dist_01 AS s_dist_01, s_dist_02 AS \
    s_dist_02, s_dist_03 AS s_dist_03, s_dist_04 AS s_dist_04, s_dist_05 AS s_dist_05, \
    s_dist_06 AS s_dist_06, s_dist_07 AS s_dist_07, s_dist_08 AS s_dist_08, s_dist_09 AS \
    s_dist_09, s_dist_10 AS s_dist_10 FROM stock WHERE s_w_id = $1 AND s_i_id = $2;";

pub const NEW_ORDER_ADVANCE_DISTRICT_SQL: &'static str =
    "UPDATE district SET d_next_o_id = d_next_o_id + 1 WHERE d_w_id = $1 AND d_id = $2;";

pub const NEW_ORDER_INSERT_ORDER_SQL: &'static str =
    "INSERT INTO orders VALUES ($1, $2, $3, $4, $5, $6, $7, $8);";

pub const NEW_ORDER_INSERT_QUEUE_SQL: &'static str =
    "INSERT INTO new_orders VALUES ($1, $2, $3);";

pub const NEW_ORDER_UPDATE_STOCK_NORMAL_SQL: &'static str =
    "UPDATE stock SET s_quantity = s_quantity - $1, s_ytd = s_ytd + $2, s_order_cnt = \
    s_order_cnt + 1, s_remote_cnt = s_remote_cnt + $3 WHERE s_w_id = $4 AND s_i_id = $5 AND \
    s_quantity >= $6;";

pub const NEW_ORDER_UPDATE_STOCK_WRAPPED_SQL: &'static str =
    "UPDATE stock SET s_quantity = s_quantity - $1 + 91, s_ytd = s_ytd + $2, s_order_cnt = \
    s_order_cnt + 1, s_remote_cnt = s_remote_cnt + $3 WHERE s_w_id = $4 AND s_i_id = $5 AND \
    s_quantity < $6;";

pub const NEW_ORDER_INSERT_LINE_SQL: &'static str =
    "INSERT INTO order_line VALUES ($1, $2, $3, $4, $5, $6, $7, $8, $9, $10);";

pub const PAYMENT_WAREHOUSE_SQL: &'static str =
    "SELECT w_ytd AS w_ytd, w_name AS w_name, w_street_1 AS w_street_1, w_street_2 AS \
    w_street_2, w_city AS w_city, w_state AS w_state, w_zip AS w_zip FROM warehouse WHERE \
    w_id = $1;";

pub const PAYMENT_UPDATE_WAREHOUSE_SQL: &'static str =
    "UPDATE warehouse SET w_ytd = w_ytd + $1 WHERE w_id = $2;";

pub const PAYMENT_DISTRICT_SQL: &'static str =
    "SELECT d_ytd AS d_ytd, d_name AS d_name, d_street_1 AS d_street_1, d_street_2 AS \
    d_street_2, d_city AS d_city, d_state AS d_state, d_zip AS d_zip FROM district WHERE \
    d_w_id = $1 AND d_id = $2;";

pub const PAYMENT_UPDATE_DISTRICT_SQL: &'static str =
    "UPDATE district SET d_ytd = d_ytd + $1 WHERE d_w_id = $2 AND d_id = $3;";

pub const PAYMENT_CUSTOMER_BY_ID_SQL: &'static str =
    "SELECT c_id AS c_id, c_first AS c_first, c_middle AS c_middle, c_last AS c_last, \
    c_street_1 AS c_street_1, c_street_2 AS c_street_2, c_city AS c_city, c_state AS \
    c_state, c_zip AS c_zip, c_phone AS c_phone, c_since AS c_since, c_credit AS c_credit, \
    c_credit_lim AS c_credit_lim, c_discount AS c_discount, c_balance AS c_balance, \
    c_ytd_payment AS c_ytd_payment, c_payment_cnt AS c_payment_cnt, c_delivery_cnt AS \
    c_delivery_cnt, c_data AS c_data FROM customer WHERE customer.c_w_id = $1 AND \
    customer.c_d_id = $2 AND customer.c_id = $3;";

pub const PAYMENT_CUSTOMER_BY_LAST_SQL: &'static str =
    "SELECT c_id AS c_id, c_first AS c_first, c_middle AS c_middle, c_last AS c_last, \
    c_street_1 AS c_street_1, c_street_2 AS c_street_2, c_city AS c_city, c_state AS \
    c_state, c_zip AS c_zip, c_phone AS c_phone, c_since AS c_since, c_credit AS c_credit, \
    c_credit_lim AS c_credit_lim, c_discount AS c_discount, c_balance AS c_balance, \
    c_ytd_payment AS c_ytd_payment, c_payment_cnt AS c_payment_cnt, c_delivery_cnt AS \
    c_delivery_cnt, c_data AS c_data FROM customer WHERE customer.c_w_id = $1 AND \
    customer.c_d_id = $2 AND customer.c_last = $3 ORDER BY customer.c_first ASC, \
    customer.c_id ASC;";

pub const PAYMENT_UPDATE_GOOD_CUSTOMER_SQL: &'static str =
    "UPDATE customer SET c_balance = c_balance - $1, c_ytd_payment = c_ytd_payment + $1, \
    c_payment_cnt = c_payment_cnt + 1 WHERE c_w_id = $2 AND c_d_id = $3 AND c_id = $4;";

pub const PAYMENT_UPDATE_BAD_CUSTOMER_SQL: &'static str =
    "UPDATE customer SET c_balance = c_balance - $1, c_ytd_payment = c_ytd_payment + $1, \
    c_payment_cnt = c_payment_cnt + 1, c_data = $2 WHERE c_w_id = $3 AND c_d_id = $4 AND \
    c_id = $5;";

pub const PAYMENT_INSERT_HISTORY_SQL: &'static str =
    "INSERT INTO history VALUES ($1, $2, $3, $4, $5, $6, $7, $8);";

pub const PAYMENT_CUSTOMER_AFTER_SQL: &'static str =
    "SELECT c_balance AS c_balance, c_ytd_payment AS c_ytd_payment, c_payment_cnt AS \
    c_payment_cnt, c_delivery_cnt AS c_delivery_cnt, c_data AS c_data FROM customer WHERE \
    c_w_id = $1 AND c_d_id = $2 AND c_id = $3;";

pub const ORDER_STATUS_CUSTOMER_BY_ID_SQL: &'static str =
    "SELECT c_id AS c_id, c_balance AS c_balance, c_first AS c_first, c_middle AS c_middle, \
    c_last AS c_last FROM customer WHERE c_w_id = $1 AND c_d_id = $2 AND c_id = $3;";

pub const ORDER_STATUS_CUSTOMER_BY_LAST_SQL: &'static str =
    "SELECT c_id AS c_id, c_balance AS c_balance, c_first AS c_first, c_middle AS c_middle, \
    c_last AS c_last FROM customer WHERE c_w_id = $1 AND c_d_id = $2 AND c_last = $3 ORDER \
    BY c_first ASC, c_id ASC;";

pub const ORDER_STATUS_LATEST_ORDER_SQL: &'static str =
    "SELECT o_id AS o_id FROM orders WHERE o_w_id = $1 AND o_d_id = $2 AND o_c_id = $3 ORDER \
    BY o_id DESC LIMIT 1;";

pub const ORDER_STATUS_ORDER_SQL: &'static str =
    "SELECT o_id AS o_id, o_entry_d AS o_entry_d, o_carrier_id AS o_carrier_id FROM orders \
    WHERE o_w_id = $1 AND o_d_id = $2 AND o_id = $3;";

pub const ORDER_STATUS_LINES_SQL: &'static str =
    "SELECT ol_number AS ol_number, ol_i_id AS ol_i_id, ol_supply_w_id AS ol_supply_w_id, \
    ol_quantity AS ol_quantity, ol_amount AS ol_amount, ol_delivery_d AS ol_delivery_d FROM \
    order_line WHERE ol_w_id = $1 AND ol_d_id = $2 AND ol_o_id = $3 ORDER BY ol_number ASC;";

pub const DELIVERY_OLDEST_ORDER_SQL: &'static str =
    "SELECT MIN(no_o_id) AS no_o_id FROM new_orders WHERE no_w_id = $1 AND no_d_id = $2;";

pub const DELIVERY_LOCK_QUEUE_SQL: &'static str =
    "UPDATE new_orders SET no_o_id = no_o_id WHERE no_w_id = $1 AND no_d_id = $2 AND no_o_id \
    = $3;";

pub const DELIVERY_CONFIRM_QUEUE_SQL: &'static str =
    "SELECT no_o_id AS no_o_id FROM new_orders WHERE no_w_id = $1 AND no_d_id = $2 AND \
    no_o_id = $3;";

pub const DELIVERY_ORDER_SQL: &'static str =
    "SELECT o_c_id AS o_c_id FROM orders WHERE o_w_id = $1 AND o_d_id = $2 AND o_id = $3;";

pub const DELIVERY_CUSTOMER_SQL: &'static str =
    "SELECT customer.c_id AS c_id, customer.c_balance AS c_balance, customer.c_payment_cnt AS \
    c_payment_cnt, customer.c_delivery_cnt AS c_delivery_cnt FROM customer, orders WHERE \
    orders.o_w_id = $1 AND orders.o_d_id = $2 AND orders.o_id = $3 AND customer.c_w_id = \
    orders.o_w_id AND customer.c_d_id = orders.o_d_id AND customer.c_id = orders.o_c_id;";

pub const DELIVERY_LINE_ROWS_SQL: &'static str =
    "SELECT ol_number AS ol_number, ol_amount AS ol_amount FROM order_line WHERE ol_w_id = $1 \
    AND ol_d_id = $2 AND ol_o_id = $3 ORDER BY ol_number ASC;";

pub const DELIVERY_LINE_SUM_SQL: &'static str =
    "SELECT SUM(ol_amount) AS ol_amount_sum FROM order_line WHERE ol_w_id = $1 AND ol_d_id = \
    $2 AND ol_o_id = $3;";

pub const DELIVERY_DELETE_QUEUE_SQL: &'static str =
    "DELETE FROM new_orders WHERE no_w_id = $1 AND no_d_id = $2 AND no_o_id = $3;";

pub const DELIVERY_UPDATE_ORDER_SQL: &'static str =
    "UPDATE orders SET o_carrier_id = $1 WHERE o_w_id = $2 AND o_d_id = $3 AND o_id = $4;";

pub const DELIVERY_UPDATE_LINES_SQL: &'static str =
    "UPDATE order_line SET ol_delivery_d = $1 WHERE ol_w_id = $2 AND ol_d_id = $3 AND ol_o_id \
    = $4;";

pub const DELIVERY_UPDATE_CUSTOMER_SQL: &'static str =
    "UPDATE customer SET c_balance = c_balance + $1, c_delivery_cnt = c_delivery_cnt + 1 \
    WHERE c_w_id = $2 AND c_d_id = $3 AND c_id = $4;";

pub const DELIVERY_CUSTOMER_AFTER_SQL: &'static str =
    "SELECT c_balance AS c_balance, c_payment_cnt AS c_payment_cnt, c_delivery_cnt AS \
    c_delivery_cnt FROM customer WHERE c_w_id = $1 AND c_d_id = $2 AND c_id = $3;";

pub const STOCK_LEVEL_NEXT_ORDER_SQL: &'static str =
    "SELECT d_next_o_id AS d_next_o_id, d_tax AS d_tax FROM district WHERE d_w_id = $1 AND \
    d_id = $2;";

pub const STOCK_LEVEL_COUNT_SQL: &'static str =
    "SELECT COUNT(DISTINCT order_line.ol_i_id) AS low_stock_count FROM order_line, stock \
    WHERE order_line.ol_w_id = $1 AND order_line.ol_d_id = $2 AND order_line.ol_o_id >= $3 \
    AND order_line.ol_o_id < $4 AND stock.s_w_id = $1 AND stock.s_i_id = order_line.ol_i_id \
    AND stock.s_quantity < $5;";

/// The content of a [`Statement`]: a command, or a query with its columns.
#[verifier::ext_equal]
pub struct StatementModel {
    pub id: u16,
    pub columns: Option<Seq<ColumnModel>>,
    pub param_types: Seq<SqlType>,
    pub sql: Seq<char>,
}

/// The content of a [`Column`].
#[verifier::ext_equal]
pub struct ColumnModel {
    pub name: Seq<char>,
    pub sql_type: SqlType,
}

impl View for Column {
    type V = ColumnModel;

    open spec fn view(&self) -> ColumnModel {
        ColumnModel { name: self.name@, sql_type: self.sql_type }
    }
}

/// The contents of a list of columns.
pub open spec fn column_models(columns: Seq<Column>) -> Seq<ColumnModel> {
    Seq::new(columns.len(), |i: int| columns[i]@)
}

impl View for Statement {
    type V = StatementModel;

    open spec fn view(&self) -> StatementModel {
        StatementModel {
            id: self.id,
            columns: match self.kind {
                StatementKind::Command => None,
                StatementKind::Query { columns } => Some(column_models(columns@)),
            },
            param_types: self.param_types@,
            sql: self.sql@,
        }
    }
}

/// The contents of a list of statements.
pub open spec fn statement_models(statements: Seq<Statement>) -> Seq<StatementModel> {
    Seq::new(statements.len(), |i: int| statements[i]@)
}

/// The text of a statement of the catalogue.
pub open spec fn sql_text(id: StatementId) -> &'static str {
    match id {
        StatementId::Begin => BEGIN_SQL,
        StatementId::Commit => COMMIT_SQL,
        StatementId::Abort => ABORT_SQL,
        StatementId::NewOrderHome => NEW_ORDER_HOME_SQL,
        StatementId::NewOrderLockStock => NEW_ORDER_LOCK_STOCK_SQL,
        StatementId::NewOrderItem => NEW_ORDER_ITEM_SQL,
        StatementId::NewOrderStock => NEW_ORDER_STOCK_SQL,
        StatementId::NewOrderAdvanceDistrict => NEW_ORDER_ADVANCE_DISTRICT_SQL,
        StatementId::NewOrderInsertOrder => NEW_ORDER_INSERT_ORDER_SQL,
        StatementId::NewOrderInsertQueue => NEW_ORDER_INSERT_QUEUE_SQL,
        StatementId::NewOrderUpdateStockNormal => NEW_ORDER_UPDATE_STOCK_NORMAL_SQL,
        StatementId::NewOrderUpdateStockWrapped => NEW_ORDER_UPDATE_STOCK_WRAPPED_SQL,
        StatementId::NewOrderInsertLine => NEW_ORDER_INSERT_LINE_SQL,
        StatementId::PaymentWarehouse => PAYMENT_WAREHOUSE_SQL,
        StatementId::PaymentUpdateWarehouse => PAYMENT_UPDATE_WAREHOUSE_SQL,
        StatementId::PaymentDistrict => PAYMENT_DISTRICT_SQL,
        StatementId::PaymentUpdateDistrict => PAYMENT_UPDATE_DISTRICT_SQL,
        StatementId::PaymentCustomerById => PAYMENT_CUSTOMER_BY_ID_SQL,
        StatementId::PaymentCustomerByLast => PAYMENT_CUSTOMER_BY_LAST_SQL,
        StatementId::PaymentUpdateGoodCustomer => PAYMENT_UPDATE_GOOD_CUSTOMER_SQL,
        StatementId::PaymentUpdateBadCustomer => PAYMENT_UPDATE_BAD_CUSTOMER_SQL,
        StatementId::PaymentInsertHistory => PAYMENT_INSERT_HISTORY_SQL,
        StatementId::PaymentCustomerAfter => PAYMENT_CUSTOMER_AFTER_SQL,
        StatementId::OrderStatusCustomerById => ORDER_STATUS_CUSTOMER_BY_ID_SQL,
        StatementId::OrderStatusCustomerByLast => ORDER_STATUS_CUSTOMER_BY_LAST_SQL,
        StatementId::OrderStatusLatestOrder => ORDER_STATUS_LATEST_ORDER_SQL,
        StatementId::OrderStatusOrder => ORDER_STATUS_ORDER_SQL,
        StatementId::OrderStatusLines => ORDER_STATUS_LINES_SQL,
        StatementId::DeliveryOldestOrder => DELIVERY_OLDEST_ORDER_SQL,
        StatementId::DeliveryLockQueue => DELIVERY_LOCK_QUEUE_SQL,
        StatementId::DeliveryConfirmQueue => DELIVERY_CONFIRM_QUEUE_SQL,
        StatementId::DeliveryOrder => DELIVERY_ORDER_SQL,
        StatementId::DeliveryCustomer => DELIVERY_CUSTOMER_SQL,
        StatementId::DeliveryLineRows => DELIVERY_LINE_ROWS_SQL,
        StatementId::DeliveryLineSum => DELIVERY_LINE_SUM_SQL,
        StatementId::DeliveryDeleteQueue => DELIVERY_DELETE_QUEUE_SQL,
        StatementId::DeliveryUpdateOrder => DELIVERY_UPDATE_ORDER_SQL,
        StatementId::DeliveryUpdateLines => DELIVERY_UPDATE_LINES_SQL,
        StatementId::DeliveryUpdateCustomer => DELIVERY_UPDATE_CUSTOMER_SQL,
        StatementId::DeliveryCustomerAfter => DELIVERY_CUSTOMER_AFTER_SQL,
        StatementId::StockLevelNextOrder => STOCK_LEVEL_NEXT_ORDER_SQL,
        StatementId::StockLevelCount => STOCK_LEVEL_COUNT_SQL,
        _ => "",
    }
}

fn sql_of(id: StatementId) -> (r: &'static str)
    ensures
        r == sql_text(id),
{
    match id {
        StatementId::Begin => BEGIN_SQL,
        StatementId::Commit => COMMIT_SQL,
        StatementId::Abort => ABORT_SQL,
        StatementId::NewOrderHome => NEW_ORDER_HOME_SQL,
        StatementId::NewOrderLockStock => NEW_ORDER_LOCK_STOCK_SQL,
        StatementId::NewOrderItem => NEW_ORDER_ITEM_SQL,
        StatementId::NewOrderStock => NEW_ORDER_STOCK_SQL,
        StatementId::NewOrderAdvanceDistrict => NEW_ORDER_ADVANCE_DISTRICT_SQL,
        StatementId::NewOrderInsertOrder => NEW_ORDER_INSERT_ORDER_SQL,
        StatementId::NewOrderInsertQueue => NEW_ORDER_INSERT_QUEUE_SQL,
        StatementId::NewOrderUpdateStockNormal => NEW_ORDER_UPDATE_STOCK_NORMAL_SQL,
        StatementId::NewOrderUpdateStockWrapped => NEW_ORDER_UPDATE_STOCK_WRAPPED_SQL,
        StatementId::NewOrderInsertLine => NEW_ORDER_INSERT_LINE_SQL,
        StatementId::PaymentWarehouse => PAYMENT_WAREHOUSE_SQL,
        StatementId::PaymentUpdateWarehouse => PAYMENT_UPDATE_WAREHOUSE_SQL,
        StatementId::PaymentDistrict => PAYMENT_DISTRICT_SQL,
        StatementId::PaymentUpdateDistrict => PAYMENT_UPDATE_DISTRICT_SQL,
        StatementId::PaymentCustomerById => PAYMENT_CUSTOMER_BY_ID_SQL,
        StatementId::PaymentCustomerByLast => PAYMENT_CUSTOMER_BY_LAST_SQL,
        StatementId::PaymentUpdateGoodCustomer => PAYMENT_UPDATE_GOOD_CUSTOMER_SQL,
        StatementId::PaymentUpdateBadCustomer => PAYMENT_UPDATE_BAD_CUSTOMER_SQL,
        StatementId::PaymentInsertHistory => PAYMENT_INSERT_HISTORY_SQL,
        StatementId::PaymentCustomerAfter => PAYMENT_CUSTOMER_AFTER_SQL,
        StatementId::OrderStatusCustomerById => ORDER_STATUS_CUSTOMER_BY_ID_SQL,
        StatementId::OrderStatusCustomerByLast => ORDER_STATUS_CUSTOMER_BY_LAST_SQL,
        StatementId::OrderStatusLatestOrder => ORDER_STATUS_LATEST_ORDER_SQL,
        StatementId::OrderStatusOrder => ORDER_STATUS_ORDER_SQL,
        StatementId::OrderStatusLines => ORDER_STATUS_LINES_SQL,
        StatementId::DeliveryOldestOrder => DELIVERY_OLDEST_ORDER_SQL,
        StatementId::DeliveryLockQueue => DELIVERY_LOCK_QUEUE_SQL,
        StatementId::DeliveryConfirmQueue => DELIVERY_CONFIRM_QUEUE_SQL,
        StatementId::DeliveryOrder => DELIVERY_ORDER_SQL,
        StatementId::DeliveryCustomer => DELIVERY_CUSTOMER_SQL,
        StatementId::DeliveryLineRows => DELIVERY_LINE_ROWS_SQL,
        StatementId::DeliveryLineSum => DELIVERY_LINE_SUM_SQL,
        StatementId::DeliveryDeleteQueue => DELIVERY_DELETE_QUEUE_SQL,
        StatementId::DeliveryUpdateOrder => DELIVERY_UPDATE_ORDER_SQL,
        StatementId::DeliveryUpdateLines => DELIVERY_UPDATE_LINES_SQL,
        StatementId::DeliveryUpdateCustomer => DELIVERY_UPDATE_CUSTOMER_SQL,
        StatementId::DeliveryCustomerAfter => DELIVERY_CUSTOMER_AFTER_SQL,
        StatementId::StockLevelNextOrder => STOCK_LEVEL_NEXT_ORDER_SQL,
        StatementId::StockLevelCount => STOCK_LEVEL_COUNT_SQL,
        _ => "",
    }
}

/// The types of a statement's parameters.
pub open spec fn parameter_types(id: StatementId) -> Seq<SqlType> {
    match id {
        StatementId::NewOrderHome
        | StatementId::NewOrderInsertQueue
        | StatementId::PaymentCustomerById
        | StatementId::PaymentCustomerAfter
        | StatementId::OrderStatusCustomerById
        | StatementId::OrderStatusLatestOrder
        | StatementId::OrderStatusOrder
        | StatementId::OrderStatusLines
        | StatementId::DeliveryLockQueue
        | StatementId::DeliveryConfirmQueue
        | StatementId::DeliveryOrder
        | StatementId::DeliveryCustomer
        | StatementId::DeliveryLineRows
        | StatementId::DeliveryLineSum
        | StatementId::DeliveryDeleteQueue
        | StatementId::DeliveryCustomerAfter => seq![
            SqlType::Int32,
            SqlType::Int32,
            SqlType::Int32,
        ],
        StatementId::NewOrderLockStock
        | StatementId::NewOrderStock
        | StatementId::NewOrderAdvanceDistrict
        | StatementId::PaymentDistrict
        | StatementId::DeliveryOldestOrder
        | StatementId::StockLevelNextOrder => seq![SqlType::Int32, SqlType::Int32],
        StatementId::NewOrderItem | StatementId::PaymentWarehouse => seq![SqlType::Int32],
        StatementId::NewOrderInsertOrder => seq![
            SqlType::Int32,
            SqlType::Int32,
            SqlType::Int32,
            SqlType::Int32,
            SqlType::Char,
            SqlType::Int32,
            SqlType::Int32,
            SqlType::Int32,
        ],
        StatementId::NewOrderUpdateStockNormal | StatementId::NewOrderUpdateStockWrapped => seq![
            SqlType::Int32,
            SqlType::Float32,
            SqlType::Int32,
            SqlType::Int32,
            SqlType::Int32,
            SqlType::Int32,
        ],
        StatementId::NewOrderInsertLine => seq![
            SqlType::Int32,
            SqlType::Int32,
            SqlType::Int32,
            SqlType::Int32,
            SqlType::Int32,
            SqlType::Int32,
            SqlType::Char,
            SqlType::Int32,
            SqlType::Float32,
            SqlType::Char,
        ],
        StatementId::PaymentUpdateWarehouse => seq![SqlType::Float32, SqlType::Int32],
        StatementId::PaymentUpdateDistrict => seq![
            SqlType::Float32,
            SqlType::Int32,
            SqlType::Int32,
        ],
        StatementId::PaymentCustomerByLast | StatementId::OrderStatusCustomerByLast => seq![
            SqlType::Int32,
            SqlType::Int32,
            SqlType::Char,
        ],
        StatementId::PaymentUpdateGoodCustomer | StatementId::DeliveryUpdateCustomer => seq![
            SqlType::Float32,
            SqlType::Int32,
            SqlType::Int32,
            SqlType::Int32,
        ],
        StatementId::PaymentUpdateBadCustomer => seq![
            SqlType::Float32,
            SqlType::Char,
            SqlType::Int32,
            SqlType::Int32,
            SqlType::Int32,
        ],
        StatementId::PaymentInsertHistory => seq![
            SqlType::Int32,
            SqlType::Int32,
            SqlType::Int32,
            SqlType::Int32,
            SqlType::Int32,
            SqlType::Char,
            SqlType::Float32,
            SqlType::Char,
        ],
        StatementId::DeliveryUpdateOrder => seq![
            SqlType::Int32,
            SqlType::Int32,
            SqlType::Int32,
            SqlType::Int32,
        ],
        StatementId::DeliveryUpdateLines => seq![
            SqlType::Char,
            SqlType::Int32,
            SqlType::Int32,
            SqlType::Int32,
        ],
        StatementId::StockLevelCount => seq![
            SqlType::Int32,
            SqlType::Int32,
            SqlType::Int32,
            SqlType::Int32,
            SqlType::Int32,
        ],
        _ => Seq::empty(),
    }
}

fn parameters_of(id: StatementId) -> (r: Vec<SqlType>)
    ensures
        r@ == parameter_types(id),
{
    let r: Vec<SqlType> = match id {
        StatementId::NewOrderHome
        | StatementId::NewOrderInsertQueue
        | StatementId::PaymentCustomerById
        | StatementId::PaymentCustomerAfter
        | StatementId::OrderStatusCustomerById
        | StatementId::OrderStatusLatestOrder
        | StatementId::OrderStatusOrder
        | StatementId::OrderStatusLines
        | StatementId::DeliveryLockQueue
        | StatementId::DeliveryConfirmQueue
        | StatementId::DeliveryOrder
        | StatementId::DeliveryCustomer
        | StatementId::DeliveryLineRows
        | StatementId::DeliveryLineSum
        | StatementId::DeliveryDeleteQueue
        | StatementId::DeliveryCustomerAfter => vec![
            SqlType::Int32,
            SqlType::Int32,
            SqlType::Int32,
        ],
        StatementId::NewOrderLockStock
        | StatementId::NewOrderStock
        | StatementId::NewOrderAdvanceDistrict
        | StatementId::PaymentDistrict
        | StatementId::DeliveryOldestOrder
        | StatementId::StockLevelNextOrder => vec![SqlType::Int32, SqlType::Int32],
        StatementId::NewOrderItem | StatementId::PaymentWarehouse => vec![SqlType::Int32],
        StatementId::NewOrderInsertOrder => vec![
            SqlType::Int32,
            SqlType::Int32,
            SqlType::Int32,
            SqlType::Int32,
            SqlType::Char,
            SqlType::Int32,
            SqlType::Int32,
            SqlType::Int32,
        ],
        StatementId::NewOrderUpdateStockNormal | StatementId::NewOrderUpdateStockWrapped => vec![
            SqlType::Int32,
            SqlType::Float32,
            SqlType::Int32,
            SqlType::Int32,
            SqlType::Int32,
            SqlType::Int32,
        ],
        StatementId::NewOrderInsertLine => vec![
            SqlType::Int32,
            SqlType::Int32,
            SqlType::Int32,
            SqlType::Int32,
            SqlType::Int32,
            SqlType::Int32,
            SqlType::Char,
            SqlType::Int32,
            SqlType::Float32,
            SqlType::Char,
        ],
        StatementId::PaymentUpdateWarehouse => vec![SqlType::Float32, SqlType::Int32],
        StatementId::PaymentUpdateDistrict => vec![
            SqlType::Float32,
            SqlType::Int32,
            SqlType::Int32,
        ],
        StatementId::PaymentCustomerByLast | StatementId::OrderStatusCustomerByLast => vec![
            SqlType::Int32,
            SqlType::Int32,
            SqlType::Char,
        ],
        StatementId::PaymentUpdateGoodCustomer | StatementId::DeliveryUpdateCustomer => vec![
            SqlType::Float32,
            SqlType::Int32,
            SqlType::Int32,
            SqlType::Int32,
        ],
        StatementId::PaymentUpdateBadCustomer => vec![
            SqlType::Float32,
            SqlType::Char,
            SqlType::Int32,
            SqlType::Int32,
            SqlType::Int32,
        ],
        StatementId::PaymentInsertHistory => vec![
            SqlType::Int32,
            SqlType::Int32,
            SqlType::Int32,
            SqlType::Int32,
            SqlType::Int32,
            SqlType::Char,
            SqlType::Float32,
            SqlType::Char,
        ],
        StatementId::DeliveryUpdateOrder => vec![
            SqlType::Int32,
            SqlType::Int32,
            SqlType::Int32,
            SqlType::Int32,
        ],
        StatementId::DeliveryUpdateLines => vec![
            SqlType::Char,
            SqlType::Int32,
            SqlType::Int32,
            SqlType::Int32,
        ],
        StatementId::StockLevelCount => vec![
            SqlType::Int32,
            SqlType::Int32,
            SqlType::Int32,
            SqlType::Int32,
            SqlType::Int32,
        ],
        _ => Vec::new(),
    };
    assert(r@ =~= parameter_types(id));
    r
}

/// The names and types of the columns that a query declares; none for a
/// command.
pub open spec fn column_list(id: StatementId) -> Seq<(&'static str, SqlType)> {
    match id {
        StatementId::NewOrderHome => seq![
            ("c_discount", SqlType::Float32),
            ("c_last", SqlType::Char),
            ("c_credit", SqlType::Char),
            ("w_tax", SqlType::Float32),
        ],
        StatementId::NewOrderItem => seq![
            ("i_id", SqlType::Int32),
            ("i_price", SqlType::Float32),
            ("i_name", SqlType::Char),
            ("i_data", SqlType::Char),
        ],
        StatementId::NewOrderStock => seq![
            ("s_quantity", SqlType::Int32),
            ("s_ytd", SqlType::Float32),
            ("s_order_cnt", SqlType::Int32),
            ("s_remote_cnt", SqlType::Int32),
            ("s_data", SqlType::Char),
            ("s_dist_01", SqlType::Char),
            ("s_dist_02", SqlType::Char),
            ("s_dist_03", SqlType::Char),
            ("s_dist_04", SqlType::Char),
            ("s_dist_05", SqlType::Char),
            ("s_dist_06", SqlType::Char),
            ("s_dist_07", SqlType::Char),
            ("s_dist_08", SqlType::Char),
            ("s_dist_09", SqlType::Char),
            ("s_dist_10", SqlType::Char),
        ],
        StatementId::PaymentWarehouse => seq![
            ("w_ytd", SqlType::Float32),
            ("w_name", SqlType::Char),
            ("w_street_1", SqlType::Char),
            ("w_street_2", SqlType::Char),
            ("w_city", SqlType::Char),
            ("w_state", SqlType::Char),
            ("w_zip", SqlType::Char),
        ],
        StatementId::PaymentDistrict => seq![
            ("d_ytd", SqlType::Float32),
            ("d_name", SqlType::Char),
            ("d_street_1", SqlType::Char),
            ("d_street_2", SqlType::Char),
            ("d_city", SqlType::Char),
            ("d_state", SqlType::Char),
            ("d_zip", SqlType::Char),
        ],
        StatementId::PaymentCustomerById | StatementId::PaymentCustomerByLast => seq![
            ("c_id", SqlType::Int32),
            ("c_first", SqlType::Char),
            ("c_middle", SqlType::Char),
            ("c_last", SqlType::Char),
            ("c_street_1", SqlType::Char),
            ("c_street_2", SqlType::Char),
            ("c_city", SqlType::Char),
            ("c_state", SqlType::Char),
            ("c_zip", SqlType::Char),
            ("c_phone", SqlType::Char),
            ("c_since", SqlType::Char),
            ("c_credit", SqlType::Char),
            ("c_credit_lim", SqlType::Int32),
            ("c_discount", SqlType::Float32),
            ("c_balance", SqlType::Float32),
            ("c_ytd_payment", SqlType::Float32),
            ("c_payment_cnt", SqlType::Int32),
            ("c_delivery_cnt", SqlType::Int32),
            ("c_data", SqlType::Char),
        ],
        StatementId::PaymentCustomerAfter => seq![
            ("c_balance", SqlType::Float32),
            ("c_ytd_payment", SqlType::Float32),
            ("c_payment_cnt", SqlType::Int32),
            ("c_delivery_cnt", SqlType::Int32),
            ("c_data", SqlType::Char),
        ],
        StatementId::OrderStatusCustomerById | StatementId::OrderStatusCustomerByLast => seq![
            ("c_id", SqlType::Int32),
            ("c_balance", SqlType::Float32),
            ("c_first", SqlType::Char),
            ("c_middle", SqlType::Char),
            ("c_last", SqlType::Char),
        ],
        StatementId::OrderStatusLatestOrder => seq![("o_id", SqlType::Int32)],
        StatementId::OrderStatusOrder => seq![
            ("o_id", SqlType::Int32),
            ("o_entry_d", SqlType::Char),
            ("o_carrier_id", SqlType::Int32),
        ],
        StatementId::OrderStatusLines => seq![
            ("ol_number", SqlType::Int32),
            ("ol_i_id", SqlType::Int32),
            ("ol_supply_w_id", SqlType::Int32),
            ("ol_quantity", SqlType::Int32),
            ("ol_amount", SqlType::Float32),
            ("ol_delivery_d", SqlType::Char),
        ],
        StatementId::DeliveryOldestOrder | StatementId::DeliveryConfirmQueue => seq![
            ("no_o_id", SqlType::Int32),
        ],
        StatementId::DeliveryOrder => seq![("o_c_id", SqlType::Int32)],
        StatementId::DeliveryCustomer => seq![
            ("c_id", SqlType::Int32),
            ("c_balance", SqlType::Float32),
            ("c_payment_cnt", SqlType::Int32),
            ("c_delivery_cnt", SqlType::Int32),
        ],
        StatementId::DeliveryLineRows => seq![
            ("ol_number", SqlType::Int32),
            ("ol_amount", SqlType::Float32),
        ],
        StatementId::DeliveryLineSum => seq![("ol_amount_sum", SqlType::Float32)],
        StatementId::DeliveryCustomerAfter => seq![
            ("c_balance", SqlType::Float32),
            ("c_payment_cnt", SqlType::Int32),
            ("c_delivery_cnt", SqlType::Int32),
        ],
        StatementId::StockLevelNextOrder => seq![
            ("d_next_o_id", SqlType::Int32),
            ("d_tax", SqlType::Float32),
        ],
        StatementId::StockLevelCount => seq![("low_stock_count", SqlType::Int32)],
        _ => Seq::empty(),
    }
}

fn columns_of(id: StatementId) -> (r: Vec<(&'static str, SqlType)>)
    ensures
        r@ == column_list(id),
{
    let r: Vec<(&'static str, SqlType)> = match id {
        StatementId::NewOrderHome => vec![
            ("c_discount", SqlType::Float32),
            ("c_last", SqlType::Char),
            ("c_credit", SqlType::Char),
            ("w_tax", SqlType::Float32),
        ],
        StatementId::NewOrderItem => vec![
            ("i_id", SqlType::Int32),
            ("i_price", SqlType::Float32),
            ("i_name", SqlType::Char),
            ("i_data", SqlType::Char),
        ],
        StatementId::NewOrderStock => vec![
            ("s_quantity", SqlType::Int32),
            ("s_ytd", SqlType::Float32),
            ("s_order_cnt", SqlType::Int32),
            ("s_remote_cnt", SqlType::Int32),
            ("s_data", SqlType::Char),
            ("s_dist_01", SqlType::Char),
            ("s_dist_02", SqlType::Char),
            ("s_dist_03", SqlType::Char),
            ("s_dist_04", SqlType::Char),
            ("s_dist_05", SqlType::Char),
            ("s_dist_06", SqlType::Char),
            ("s_dist_07", SqlType::Char),
            ("s_dist_08", SqlType::Char),
            ("s_dist_09", SqlType::Char),
            ("s_dist_10", SqlType::Char),
        ],
        StatementId::PaymentWarehouse => vec![
            ("w_ytd", SqlType::Float32),
            ("w_name", SqlType::Char),
            ("w_street_1", SqlType::Char),
            ("w_street_2", SqlType::Char),
            ("w_city", SqlType::Char),
            ("w_state", SqlType::Char),
            ("w_zip", SqlType::Char),
        ],
        StatementId::PaymentDistrict => vec![
            ("d_ytd", SqlType::Float32),
            ("d_name", SqlType::Char),
            ("d_street_1", SqlType::Char),
            ("d_street_2", SqlType::Char),
            ("d_city", SqlType::Char),
            ("d_state", SqlType::Char),
            ("d_zip", SqlType::Char),
        ],
        StatementId::PaymentCustomerById | StatementId::PaymentCustomerByLast => vec![
            ("c_id", SqlType::Int32),
            ("c_first", SqlType::Char),
            ("c_middle", SqlType::Char),
            ("c_last", SqlType::Char),
            ("c_street_1", SqlType::Char),
            ("c_street_2", SqlType::Char),
            ("c_city", SqlType::Char),
            ("c_state", SqlType::Char),
            ("c_zip", SqlType::Char),
            ("c_phone", SqlType::Char),
            ("c_since", SqlType::Char),
            ("c_credit", SqlType::Char),
            ("c_credit_lim", SqlType::Int32),
            ("c_discount", SqlType::Float32),
            ("c_balance", SqlType::Float32),
            ("c_ytd_payment", SqlType::Float32),
            ("c_payment_cnt", SqlType::Int32),
            ("c_delivery_cnt", SqlType::Int32),
            ("c_data", SqlType::Char),
        ],
        StatementId::PaymentCustomerAfter => vec![
            ("c_balance", SqlType::Float32),
            ("c_ytd_payment", SqlType::Float32),
            ("c_payment_cnt", SqlType::Int32),
            ("c_delivery_cnt", SqlType::Int32),
            ("c_data", SqlType::Char),
        ],
        StatementId::OrderStatusCustomerById | StatementId::OrderStatusCustomerByLast => vec![
            ("c_id", SqlType::Int32),
            ("c_balance", SqlType::Float32),
            ("c_first", SqlType::Char),
            ("c_middle", SqlType::Char),
            ("c_last", SqlType::Char),
        ],
        StatementId::OrderStatusLatestOrder => vec![("o_id", SqlType::Int32)],
        StatementId::OrderStatusOrder => vec![
            ("o_id", SqlType::Int32),
            ("o_entry_d", SqlType::Char),
            ("o_carrier_id", SqlType::Int32),
        ],
        StatementId::OrderStatusLines => vec![
            ("ol_number", SqlType::Int32),
            ("ol_i_id", SqlType::Int32),
            ("ol_supply_w_id", SqlType::Int32),
            ("ol_quantity", SqlType::Int32),
            ("ol_amount", SqlType::Float32),
            ("ol_delivery_d", SqlType::Char),
        ],
        StatementId::DeliveryOldestOrder | StatementId::DeliveryConfirmQueue => vec![
            ("no_o_id", SqlType::Int32),
        ],
        StatementId::DeliveryOrder => vec![("o_c_id", SqlType::Int32)],
        StatementId::DeliveryCustomer => vec![
            ("c_id", SqlType::Int32),
            ("c_balance", SqlType::Float32),
            ("c_payment_cnt", SqlType::Int32),
            ("c_delivery_cnt", SqlType::Int32),
        ],
        StatementId::DeliveryLineRows => vec![
            ("ol_number", SqlType::Int32),
            ("ol_amount", SqlType::Float32),
        ],
        StatementId::DeliveryLineSum => vec![("ol_amount_sum", SqlType::Float32)],
        StatementId::DeliveryCustomerAfter => vec![
            ("c_balance", SqlType::Float32),
            ("c_payment_cnt", SqlType::Int32),
            ("c_delivery_cnt", SqlType::Int32),
        ],
        StatementId::StockLevelNextOrder => vec![
            ("d_next_o_id", SqlType::Int32),
            ("d_tax", SqlType::Float32),
        ],
        StatementId::StockLevelCount => vec![("low_stock_count", SqlType::Int32)],
        _ => Vec::new(),
    };
    assert(r@ =~= column_list(id));
    r
}

/// Columns of a list of names and types.
pub open spec fn declared(list: Seq<(&'static str, SqlType)>) -> Seq<ColumnModel> {
    Seq::new(list.len(), |i: int| ColumnModel { name: list[i].0@, sql_type: list[i].1 })
}

/// A statement of the catalogue.
pub open spec fn statement_of(id: StatementId) -> StatementModel {
    StatementModel {
        id: wire_number(id),
        columns: if column_list(id).len() == 0 {
            None
        } else {
            Some(declared(column_list(id)))
        },
        param_types: parameter_types(id),
        sql: sql_text(id)@,
    }
}

fn declare(list: &Vec<(&'static str, SqlType)>) -> (r: Vec<Column>)
    ensures
        column_models(r@) == declared(list@),
{
    let mut columns: Vec<Column> = Vec::new();
    let mut i: usize = 0;
    while i < list.len()
        invariant
            i <= list@.len(),
            column_models(columns@) =~= declared(list@).subrange(0, i as int),
        decreases list@.len() - i,
    {
        let ghost before = columns@;
        let column = Column { name: list[i].0.to_owned(), sql_type: list[i].1 };
        let ghost model = column@;
        columns.push(column);
        assert(model =~= declared(list@)[i as int]);
        assert(column_models(columns@) =~= column_models(before).push(model));
        i = i + 1;
    }
    assert(declared(list@).subrange(0, i as int) =~= declared(list@));
    columns
}

fn build_statement(id: StatementId) -> (r: Statement)
    ensures
        r@ == statement_of(id),
{
    let list = columns_of(id);
    let kind = if list.len() == 0 {
        StatementKind::Command
    } else {
        StatementKind::Query { columns: declare(&list) }
    };
    Statement { id: id.wire_id(), kind, param_types: parameters_of(id), sql: sql_of(id).to_owned() }
}

/// The contents of the statements of a list of ids.
pub open spec fn statements_of(ids: Seq<StatementId>) -> Seq<StatementModel> {
    Seq::new(ids.len(), |i: int| statement_of(ids[i]))
}

/// The whole catalogue, in the order of the statements.
pub fn final2026_catalog() -> (r: Vec<Statement>)
    ensures
        statement_models(r@) == statements_of(catalogue_ids()),
{
    let ids = StatementId::all();
    let ghost goal = statements_of(ids@);
    let mut catalog: Vec<Statement> = Vec::new();
    let mut i: usize = 0;
    while i < ids.len()
        invariant
            i <= ids@.len() == goal.len(),
            forall|k: int| 0 <= k < ids@.len() ==> #[trigger] goal[k] == statement_of(ids@[k]),
            statement_models(catalog@) =~= goal.subrange(0, i as int),
        decreases ids@.len() - i,
    {
        let ghost before = catalog@;
        let statement = build_statement(ids[i]);
        let ghost model = statement@;
        catalog.push(statement);
        assert(goal[i as int] == model);
        assert(statement_models(catalog@) =~= statement_models(before).push(model));
        i = i + 1;
    }
    assert(goal.subrange(0, i as int) =~= goal);
    catalog
}

} // verus!
