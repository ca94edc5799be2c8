//! What the statements do to the tables, and what they read of them.
//!
//! The tables are keyed as the workload keys them. A statement changes the rows
//! that its text names and no others, and a batch runs its statements in order. The
//! laws of the transactions say what their batches leave in the tables.
use vstd::prelude::*;

use crate::binary32::{INFINITY_BITS, difference, sum};
use crate::ranking::statement_id::{StatementId, wire_number};
use crate::wire::OperationModel;

verus! {

/// A warehouse row.
pub struct WarehouseRow {
    pub w_name: Seq<u8>,
    pub w_tax: u32,
    pub w_ytd: u32,
}

/// A district row.
pub struct DistrictRow {
    pub d_name: Seq<u8>,
    pub d_tax: u32,
    pub d_ytd: u32,
    pub d_next_o_id: int,
}

/// A customer row.
pub struct CustomerRow {
    pub c_first: Seq<u8>,
    pub c_middle: Seq<u8>,
    pub c_last: Seq<u8>,
    pub c_credit: Seq<u8>,
    pub c_discount: u32,
    pub c_balance: u32,
    pub c_ytd_payment: u32,
    pub c_payment_cnt: int,
    pub c_delivery_cnt: int,
    pub c_data: Seq<u8>,
}

/// A history row.
pub struct HistoryRow {
    pub h_c_id: int,
    pub h_c_d_id: int,
    pub h_c_w_id: int,
    pub h_d_id: int,
    pub h_w_id: int,
    pub h_date: Seq<u8>,
    pub h_amount: u32,
    pub h_data: Seq<u8>,
}

/// An item row.
pub struct ItemRow {
    pub i_price: u32,
    pub i_name: Seq<u8>,
    pub i_data: Seq<u8>,
}

/// A stock row.
pub struct StockRow {
    pub s_quantity: int,
    pub s_ytd: u32,
    pub s_order_cnt: int,
    pub s_remote_cnt: int,
    pub s_data: Seq<u8>,
    /// The information of each district, from the first on.
    pub s_dist: Seq<Seq<u8>>,
}

/// An order row.
pub struct OrderRow {
    pub o_c_id: int,
    pub o_entry_d: Seq<u8>,
    pub o_carrier_id: int,
    pub o_ol_cnt: int,
    pub o_all_local: int,
}

/// An order line row.
pub struct LineRow {
    pub ol_i_id: int,
    pub ol_supply_w_id: int,
    pub ol_delivery_d: Seq<u8>,
    pub ol_quantity: int,
    pub ol_amount: u32,
    pub ol_dist_info: Seq<u8>,
}

/// The tables. A key starts with the warehouse.
#[verifier::ext_equal]
pub struct Store {
    pub warehouses: Map<int, WarehouseRow>,
    pub districts: Map<(int, int), DistrictRow>,
    pub customers: Map<(int, int, int), CustomerRow>,
    pub history: Seq<HistoryRow>,
    pub items: Map<int, ItemRow>,
    /// By warehouse and item.
    pub stock: Map<(int, int), StockRow>,
    /// By warehouse, district and order.
    pub orders: Map<(int, int, int), OrderRow>,
    /// The undelivered orders, by warehouse, district and order.
    pub new_orders: Set<(int, int, int)>,
    /// By warehouse, district, order and line.
    pub order_lines: Map<(int, int, int, int), LineRow>,
}

/// An INT32 parameter.
pub open spec fn number(op: OperationModel, i: int) -> int {
    op.parameters[i]->Int32_0 as int
}

/// A FLOAT32 parameter.
pub open spec fn float(op: OperationModel, i: int) -> u32 {
    op.parameters[i]->Float32_0
}

/// A CHAR parameter.
pub open spec fn chars(op: OperationModel, i: int) -> Seq<u8> {
    op.parameters[i]->Char_0
}

/// The binary32 sum, infinite where it overflows.
pub open spec fn float_sum(a: u32, b: u32) -> u32 {
    match sum(a, b) {
        Some(total) => total,
        None => INFINITY_BITS,
    }
}

/// The binary32 difference, infinite where it overflows.
pub open spec fn float_difference(a: u32, b: u32) -> u32 {
    match difference(a, b) {
        Some(total) => total,
        None => INFINITY_BITS,
    }
}

/// Whether an operation runs a statement.
pub open spec fn runs(op: OperationModel, id: StatementId) -> bool {
    op.statement_id == wire_number(id)
}

/// A map in which the row at `key`, if there is one, is another.
pub open spec fn changed<K, V>(rows: Map<K, V>, key: K, row: V) -> Map<K, V> {
    if rows.contains_key(key) {
        rows.insert(key, row)
    } else {
        rows
    }
}

/// A stock row after a sale of `sold` pieces.
pub open spec fn row_after_sale(
    row: StockRow,
    quantity: int,
    ytd: u32,
    remote: int,
) -> StockRow {
    StockRow {
        s_quantity: quantity,
        s_ytd: float_sum(row.s_ytd, ytd),
        s_order_cnt: row.s_order_cnt + 1,
        s_remote_cnt: row.s_remote_cnt + remote,
        ..row
    }
}

/// What the stock updates do: both take the pieces, the second adds ninety-one, each
/// for its own range of quantities.
pub open spec fn stock_effect(s: Store, op: OperationModel) -> Store {
    let key = (number(op, 3), number(op, 4));
    let row = s.stock[key];
    let left = row.s_quantity - number(op, 0);
    if runs(op, StatementId::NewOrderUpdateStockNormal) {
        if row.s_quantity >= number(op, 5) {
            Store {
                stock: changed(
                    s.stock,
                    key,
                    row_after_sale(row, left, float(op, 1), number(op, 2)),
                ),
                ..s
            }
        } else {
            s
        }
    } else if row.s_quantity < number(op, 5) {
        Store {
            stock: changed(
                s.stock,
                key,
                row_after_sale(row, left + 91, float(op, 1), number(op, 2)),
            ),
            ..s
        }
    } else {
        s
    }
}

/// What the statements of a NewOrder do.
pub open spec fn order_effect(s: Store, op: OperationModel) -> Store {
    if runs(op, StatementId::NewOrderAdvanceDistrict) {
        let key = (number(op, 0), number(op, 1));
        let row = s.districts[key];
        Store {
            districts: changed(
                s.districts,
                key,
                DistrictRow { d_next_o_id: row.d_next_o_id + 1, ..row },
            ),
            ..s
        }
    } else if runs(op, StatementId::NewOrderInsertOrder) {
        Store {
            orders: s.orders.insert(
                (number(op, 2), number(op, 1), number(op, 0)),
                OrderRow {
                    o_c_id: number(op, 3),
                    o_entry_d: chars(op, 4),
                    o_carrier_id: number(op, 5),
                    o_ol_cnt: number(op, 6),
                    o_all_local: number(op, 7),
                },
            ),
            ..s
        }
    } else if runs(op, StatementId::NewOrderInsertQueue) {
        Store {
            new_orders: s.new_orders.insert((number(op, 2), number(op, 1), number(op, 0))),
            ..s
        }
    } else if runs(op, StatementId::NewOrderInsertLine) {
        Store {
            order_lines: s.order_lines.insert(
                (number(op, 2), number(op, 1), number(op, 0), number(op, 3)),
                LineRow {
                    ol_i_id: number(op, 4),
                    ol_supply_w_id: number(op, 5),
                    ol_delivery_d: chars(op, 6),
                    ol_quantity: number(op, 7),
                    ol_amount: float(op, 8),
                    ol_dist_info: chars(op, 9),
                },
            ),
            ..s
        }
    } else if runs(op, StatementId::NewOrderUpdateStockNormal) || runs(
        op,
        StatementId::NewOrderUpdateStockWrapped,
    ) {
        stock_effect(s, op)
    } else {
        s
    }
}

/// A customer row after a Payment.
pub open spec fn row_after_payment(row: CustomerRow, amount: u32, data: Seq<u8>) -> CustomerRow {
    CustomerRow {
        c_balance: float_difference(row.c_balance, amount),
        c_ytd_payment: float_sum(row.c_ytd_payment, amount),
        c_payment_cnt: row.c_payment_cnt + 1,
        c_data: data,
        ..row
    }
}

/// What the statements of a Payment do.
pub open spec fn payment_effect(s: Store, op: OperationModel) -> Store {
    if runs(op, StatementId::PaymentUpdateWarehouse) {
        let key = number(op, 1);
        let row = s.warehouses[key];
        Store {
            warehouses: changed(
                s.warehouses,
                key,
                WarehouseRow { w_ytd: float_sum(row.w_ytd, float(op, 0)), ..row },
            ),
            ..s
        }
    } else if runs(op, StatementId::PaymentUpdateDistrict) {
        let key = (number(op, 1), number(op, 2));
        let row = s.districts[key];
        Store {
            districts: changed(
                s.districts,
                key,
                DistrictRow { d_ytd: float_sum(row.d_ytd, float(op, 0)), ..row },
            ),
            ..s
        }
    } else if runs(op, StatementId::PaymentUpdateGoodCustomer) {
        let key = (number(op, 1), number(op, 2), number(op, 3));
        let row = s.customers[key];
        Store {
            customers: changed(
                s.customers,
                key,
                row_after_payment(row, float(op, 0), row.c_data),
            ),
            ..s
        }
    } else if runs(op, StatementId::PaymentUpdateBadCustomer) {
        let key = (number(op, 2), number(op, 3), number(op, 4));
        Store {
            customers: changed(
                s.customers,
                key,
                row_after_payment(s.customers[key], float(op, 0), chars(op, 1)),
            ),
            ..s
        }
    } else if runs(op, StatementId::PaymentInsertHistory) {
        Store {
            history: s.history.push(
                HistoryRow {
                    h_c_id: number(op, 0),
                    h_c_d_id: number(op, 1),
                    h_c_w_id: number(op, 2),
                    h_d_id: number(op, 3),
                    h_w_id: number(op, 4),
                    h_date: chars(op, 5),
                    h_amount: float(op, 6),
                    h_data: chars(op, 7),
                },
            ),
            ..s
        }
    } else {
        s
    }
}

/// The lines of which those of one order have another delivery date.
pub open spec fn dated_lines(
    lines: Map<(int, int, int, int), LineRow>,
    key: (int, int, int),
    date: Seq<u8>,
) -> Map<(int, int, int, int), LineRow> {
    lines.map_entries(
        |k: (int, int, int, int), row: LineRow|
            if (k.0, k.1, k.2) == key {
                LineRow { ol_delivery_d: date, ..row }
            } else {
                row
            },
    )
}

/// What the statements of a Delivery do.
pub open spec fn delivery_effect(s: Store, op: OperationModel) -> Store {
    if runs(op, StatementId::DeliveryDeleteQueue) {
        Store {
            new_orders: s.new_orders.remove((number(op, 0), number(op, 1), number(op, 2))),
            ..s
        }
    } else if runs(op, StatementId::DeliveryUpdateOrder) {
        let key = (number(op, 1), number(op, 2), number(op, 3));
        Store {
            orders: changed(
                s.orders,
                key,
                OrderRow { o_carrier_id: number(op, 0), ..s.orders[key] },
            ),
            ..s
        }
    } else if runs(op, StatementId::DeliveryUpdateLines) {
        Store {
            order_lines: dated_lines(
                s.order_lines,
                (number(op, 1), number(op, 2), number(op, 3)),
                chars(op, 0),
            ),
            ..s
        }
    } else if runs(op, StatementId::DeliveryUpdateCustomer) {
        let key = (number(op, 1), number(op, 2), number(op, 3));
        let row = s.customers[key];
        Store {
            customers: changed(
                s.customers,
                key,
                CustomerRow {
                    c_balance: float_sum(row.c_balance, float(op, 0)),
                    c_delivery_cnt: row.c_delivery_cnt + 1,
                    ..row
                },
            ),
            ..s
        }
    } else {
        s
    }
}

/// What a statement does to the tables, by the range of its number: a query, a lock, a
/// begin, a commit or an abort does nothing to them.
#[verifier::opaque]
pub open spec fn effect(s: Store, op: OperationModel) -> Store {
    if 10 <= op.statement_id < 30 {
        order_effect(s, op)
    } else if 30 <= op.statement_id < 50 {
        payment_effect(s, op)
    } else if 70 <= op.statement_id < 89 {
        delivery_effect(s, op)
    } else {
        s
    }
}

/// The tables after the first `n` operations.
pub open spec fn effects(s: Store, ops: Seq<OperationModel>, n: int) -> Store
    decreases n,
{
    if n <= 0 {
        s
    } else {
        effect(effects(s, ops, n - 1), ops[n - 1])
    }
}

/// A connection: what was committed, and what its transaction has made of it.
#[verifier::ext_equal]
pub struct Connection {
    pub kept: Store,
    pub open: Store,
}

/// A connection after an operation: a commit keeps what the transaction has made,
/// an abort gives it up, and a begin starts from what is kept.
pub open spec fn executed(c: Connection, op: OperationModel) -> Connection {
    if runs(op, StatementId::Commit) {
        Connection { kept: c.open, open: c.open }
    } else if runs(op, StatementId::Abort) || runs(op, StatementId::Begin) {
        Connection { kept: c.kept, open: c.kept }
    } else {
        Connection { kept: c.kept, open: effect(c.open, op) }
    }
}

/// A connection after the first `n` operations of a batch.
pub open spec fn executed_all(c: Connection, ops: Seq<OperationModel>, n: int) -> Connection
    decreases n,
{
    if n <= 0 {
        c
    } else {
        executed(executed_all(c, ops, n - 1), ops[n - 1])
    }
}

/// The effects of a batch depend on its operations alone.
pub proof fn lemma_effects_prefix(
    s: Store,
    a: Seq<OperationModel>,
    b: Seq<OperationModel>,
    n: int,
)
    requires
        forall|i: int| 0 <= i < n ==> a[i] == b[i],
    ensures
        effects(s, a, n) == effects(s, b, n),
    decreases n,
{
    if n > 0 {
        lemma_effects_prefix(s, a, b, n - 1);
    }
}

/// Two parts of a batch run one after the other.
pub proof fn lemma_effects_joined(
    s: Store,
    a: Seq<OperationModel>,
    b: Seq<OperationModel>,
    n: int,
)
    requires
        0 <= n <= b.len(),
    ensures
        effects(s, a + b, a.len() + n) == effects(effects(s, a, a.len() as int), b, n),
    decreases n,
{
    if n > 0 {
        lemma_effects_joined(s, a, b, n - 1);
        assert((a + b)[a.len() + n - 1] == b[n - 1]);
    } else {
        lemma_effects_prefix(s, a + b, a, a.len() as int);
    }
}

/// Whether no operation of a batch ends its transaction or begins one.
pub open spec fn stays_open(ops: Seq<OperationModel>) -> bool {
    forall|i: int|
        0 <= i < ops.len() ==> !runs(#[trigger] ops[i], StatementId::Commit) && !runs(
            ops[i],
            StatementId::Abort,
        ) && !runs(ops[i], StatementId::Begin)
}

/// A batch that stays in its transaction changes only what is open.
pub proof fn lemma_open_batch(c: Connection, ops: Seq<OperationModel>, n: int)
    requires
        0 <= n <= ops.len(),
        stays_open(ops),
    ensures
        executed_all(c, ops, n) == (Connection { kept: c.kept, open: effects(c.open, ops, n) }),
    decreases n,
{
    if n > 0 {
        lemma_open_batch(c, ops, n - 1);
        assert(!runs(ops[n - 1], StatementId::Commit));
    }
}

/// A batch depends on its operations alone.
pub proof fn lemma_executed_prefix(
    c: Connection,
    a: Seq<OperationModel>,
    b: Seq<OperationModel>,
    n: int,
)
    requires
        forall|i: int| 0 <= i < n ==> a[i] == b[i],
    ensures
        executed_all(c, a, n) == executed_all(c, b, n),
    decreases n,
{
    if n > 0 {
        lemma_executed_prefix(c, a, b, n - 1);
    }
}

/// A batch that ends in a commit keeps its effects; one that ends in an abort keeps
/// none.
pub proof fn lemma_ended_batch(c: Connection, ops: Seq<OperationModel>, last: OperationModel)
    requires
        stays_open(ops),
    ensures
        runs(last, StatementId::Commit) ==> executed_all(c, ops.push(last), ops.len() as int + 1).kept
            == effects(c.open, ops, ops.len() as int),
        runs(last, StatementId::Abort) ==> executed_all(c, ops.push(last), ops.len() as int + 1) == (
        Connection { kept: c.kept, open: c.kept }),
{
    let n = ops.len() as int;
    lemma_executed_prefix(c, ops.push(last), ops, n);
    lemma_open_batch(c, ops, n);
}

/// A statement of a NewOrder does what it does, and nothing more.
pub proof fn lemma_order_effect(s: Store, op: OperationModel)
    requires
        10 <= op.statement_id < 30,
    ensures
        effect(s, op) == order_effect(s, op),
{
    reveal(effect);
}

/// A statement of a Payment does what it does, and nothing more.
pub proof fn lemma_payment_effect(s: Store, op: OperationModel)
    requires
        30 <= op.statement_id < 50,
    ensures
        effect(s, op) == payment_effect(s, op),
{
    reveal(effect);
}

/// A statement of a Delivery does what it does, and nothing more.
pub proof fn lemma_delivery_effect(s: Store, op: OperationModel)
    requires
        70 <= op.statement_id < 89,
    ensures
        effect(s, op) == delivery_effect(s, op),
{
    reveal(effect);
}

/// A begin, a commit, an abort and the statements of an OrderStatus do nothing to the
/// tables.
pub proof fn lemma_no_effect(s: Store, op: OperationModel)
    requires
        op.statement_id < 10 || 50 <= op.statement_id < 70,
    ensures
        effect(s, op) == s,
{
    reveal(effect);
}

/// A query of a Payment changes nothing.
pub proof fn lemma_payment_reads(s: Store, op: OperationModel)
    requires
        ({
            ||| runs(op, StatementId::PaymentWarehouse)
            ||| runs(op, StatementId::PaymentWarehouseAfter)
            ||| runs(op, StatementId::PaymentDistrict)
            ||| runs(op, StatementId::PaymentDistrictAfter)
            ||| runs(op, StatementId::PaymentCustomerById)
            ||| runs(op, StatementId::PaymentCustomerByLast)
            ||| runs(op, StatementId::PaymentCustomerAfter)
        }),
    ensures
        effect(s, op) == s,
{
    reveal(effect);
}

/// The update of a warehouse adds to its total.
pub proof fn lemma_pays_warehouse(s: Store, op: OperationModel)
    requires
        runs(op, StatementId::PaymentUpdateWarehouse),
    ensures
        ({
            let key = number(op, 1);
            let row = s.warehouses[key];
            effect(s, op) == (Store {
                warehouses: changed(
                    s.warehouses,
                    key,
                    WarehouseRow { w_ytd: float_sum(row.w_ytd, float(op, 0)), ..row },
                ),
                ..s
            })
        }),
{
    reveal(effect);
}

/// The update of a district adds to its total.
pub proof fn lemma_pays_district(s: Store, op: OperationModel)
    requires
        runs(op, StatementId::PaymentUpdateDistrict),
    ensures
        ({
            let key = (number(op, 1), number(op, 2));
            let row = s.districts[key];
            effect(s, op) == (Store {
                districts: changed(
                    s.districts,
                    key,
                    DistrictRow { d_ytd: float_sum(row.d_ytd, float(op, 0)), ..row },
                ),
                ..s
            })
        }),
{
    reveal(effect);
}

/// A query or a lock of a Delivery changes nothing.
pub proof fn lemma_delivery_reads(s: Store, op: OperationModel)
    requires
        ({
            ||| runs(op, StatementId::DeliveryOldestOrder)
            ||| runs(op, StatementId::DeliveryLockQueue)
            ||| runs(op, StatementId::DeliveryEarlierQueueCount)
            ||| runs(op, StatementId::DeliveryExactQueueCount)
            ||| runs(op, StatementId::DeliveryOrder)
            ||| runs(op, StatementId::DeliveryLineRows)
            ||| runs(op, StatementId::DeliveryLineSum)
            ||| runs(op, StatementId::DeliveryCustomer)
            ||| runs(op, StatementId::DeliveryCustomerAfter)
        }),
    ensures
        effect(s, op) == s,
{
    reveal(effect);
}

/// A query or a lock of a NewOrder changes nothing.
pub proof fn lemma_order_reads(s: Store, op: OperationModel)
    requires
        ({
            ||| runs(op, StatementId::NewOrderHome)
            ||| runs(op, StatementId::NewOrderLockStock)
            ||| runs(op, StatementId::NewOrderItem)
            ||| runs(op, StatementId::NewOrderStock)
        }),
    ensures
        effect(s, op) == s,
{
    reveal(effect);
}

/// A batch that begins a transaction works on what is kept.
pub proof fn lemma_begun_batch(c: Connection, ops: Seq<OperationModel>, n: int)
    requires
        1 <= n <= ops.len(),
        runs(ops[0], StatementId::Begin),
        stays_open(ops.drop_first()),
    ensures
        executed_all(c, ops, n) == (Connection { kept: c.kept, open: effects(c.kept, ops, n) }),
    decreases n,
{
    if n > 1 {
        lemma_begun_batch(c, ops, n - 1);
        assert(ops[n - 1] == ops.drop_first()[n - 2]);
    } else {
        assert(executed_all(c, ops, 0) == c);
        assert(effects(c.kept, ops, 0) == c.kept);
        lemma_no_effect(c.kept, ops[0]);
    }
}

/// The delete of a queue row removes that row.
pub proof fn lemma_leaves_queue(s: Store, op: OperationModel)
    requires
        runs(op, StatementId::DeliveryDeleteQueue),
    ensures
        effect(s, op) == (Store {
            new_orders: s.new_orders.remove((number(op, 0), number(op, 1), number(op, 2))),
            ..s
        }),
{
    reveal(effect);
}

/// The update of an order sets its carrier.
pub proof fn lemma_stamps_order(s: Store, op: OperationModel)
    requires
        runs(op, StatementId::DeliveryUpdateOrder),
    ensures
        ({
            let key = (number(op, 1), number(op, 2), number(op, 3));
            effect(s, op) == (Store {
                orders: changed(
                    s.orders,
                    key,
                    OrderRow { o_carrier_id: number(op, 0), ..s.orders[key] },
                ),
                ..s
            })
        }),
{
    reveal(effect);
}

/// The update of the lines of an order sets their date.
pub proof fn lemma_dates_lines(s: Store, op: OperationModel)
    requires
        runs(op, StatementId::DeliveryUpdateLines),
    ensures
        effect(s, op) == (Store {
            order_lines: dated_lines(
                s.order_lines,
                (number(op, 1), number(op, 2), number(op, 3)),
                chars(op, 0),
            ),
            ..s
        }),
{
    reveal(effect);
}

/// The update of a customer adds to the balance and counts a delivery.
pub proof fn lemma_credits_customer(s: Store, op: OperationModel)
    requires
        runs(op, StatementId::DeliveryUpdateCustomer),
    ensures
        ({
            let key = (number(op, 1), number(op, 2), number(op, 3));
            let row = s.customers[key];
            effect(s, op) == (Store {
                customers: changed(
                    s.customers,
                    key,
                    CustomerRow {
                        c_balance: float_sum(row.c_balance, float(op, 0)),
                        c_delivery_cnt: row.c_delivery_cnt + 1,
                        ..row
                    },
                ),
                ..s
            })
        }),
{
    reveal(effect);
}

} // verus!
