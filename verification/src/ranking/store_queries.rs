//! What the queries find in the tables.
use vstd::prelude::*;

use crate::binary32::double_sum_pattern;
use crate::ranking::statement_id::StatementId;
use crate::ranking::store_model::{CustomerRow, Store, chars, effects, number, runs};
use crate::wire::{OperationModel, WireModel};

verus! {

/// An INT32 cell.
pub open spec fn int_cell(n: int) -> WireModel {
    WireModel::Int32(n as i32)
}

/// The only row, if its key is there.
pub open spec fn only_row<K, V>(
    rows: Map<K, V>,
    key: K,
    cells: Seq<WireModel>,
) -> Seq<Seq<WireModel>> {
    if rows.contains_key(key) {
        seq![cells]
    } else {
        Seq::empty()
    }
}

/// What the queries of a NewOrder find.
pub open spec fn order_query(s: Store, op: OperationModel) -> Seq<Seq<WireModel>> {
    if runs(op, StatementId::NewOrderHome) {
        let w = s.warehouses[number(op, 0)];
        let d = s.districts[(number(op, 0), number(op, 1))];
        let key = (number(op, 0), number(op, 1), number(op, 2));
        let c = s.customers[key];
        only_row(
            s.customers,
            key,
            seq![
                WireModel::Float32(c.c_discount),
                WireModel::Char(c.c_last),
                WireModel::Char(c.c_credit),
                WireModel::Float32(w.w_tax),
                int_cell(d.d_next_o_id),
                WireModel::Float32(d.d_tax),
            ],
        )
    } else if runs(op, StatementId::NewOrderItem) {
        let row = s.items[number(op, 0)];
        only_row(
            s.items,
            number(op, 0),
            seq![
                WireModel::Float32(row.i_price),
                WireModel::Char(row.i_name),
                WireModel::Char(row.i_data),
            ],
        )
    } else {
        let key = (number(op, 0), number(op, 1));
        let row = s.stock[key];
        only_row(
            s.stock,
            key,
            seq![
                int_cell(row.s_quantity),
                WireModel::Float32(row.s_ytd),
                int_cell(row.s_order_cnt),
                int_cell(row.s_remote_cnt),
                WireModel::Char(row.s_data),
            ] + Seq::new(10, |i: int| WireModel::Char(row.s_dist[i])),
        )
    }
}

/// A customer row as a Payment reads it.
pub open spec fn payer_cells(id: int, row: CustomerRow) -> Seq<WireModel> {
    seq![
        int_cell(id),
        WireModel::Char(row.c_first),
        WireModel::Char(row.c_last),
        WireModel::Char(row.c_credit),
        WireModel::Float32(row.c_balance),
        WireModel::Float32(row.c_ytd_payment),
        int_cell(row.c_payment_cnt),
        int_cell(row.c_delivery_cnt),
        WireModel::Char(row.c_data),
    ]
}

/// What the queries of a Payment find, but for the lookup by surname.
pub open spec fn payment_query(s: Store, op: OperationModel) -> Seq<Seq<WireModel>> {
    let customer = (number(op, 0), number(op, 1), number(op, 2));
    let district = (number(op, 0), number(op, 1));
    let c = s.customers[customer];
    if runs(op, StatementId::PaymentWarehouse) {
        let row = s.warehouses[number(op, 0)];
        only_row(
            s.warehouses,
            number(op, 0),
            seq![WireModel::Float32(row.w_ytd), WireModel::Char(row.w_name)],
        )
    } else if runs(op, StatementId::PaymentWarehouseAfter) {
        only_row(
            s.warehouses,
            number(op, 0),
            seq![WireModel::Float32(s.warehouses[number(op, 0)].w_ytd)],
        )
    } else if runs(op, StatementId::PaymentDistrict) {
        let row = s.districts[district];
        only_row(
            s.districts,
            district,
            seq![WireModel::Float32(row.d_ytd), WireModel::Char(row.d_name)],
        )
    } else if runs(op, StatementId::PaymentDistrictAfter) {
        only_row(
            s.districts,
            district,
            seq![WireModel::Float32(s.districts[district].d_ytd)],
        )
    } else if runs(op, StatementId::PaymentCustomerById) {
        only_row(s.customers, customer, payer_cells(number(op, 2), c))
    } else {
        only_row(
            s.customers,
            customer,
            seq![
                WireModel::Float32(c.c_balance),
                WireModel::Float32(c.c_ytd_payment),
                int_cell(c.c_payment_cnt),
                int_cell(c.c_delivery_cnt),
                WireModel::Char(c.c_data),
            ],
        )
    }
}

/// Whether a row is that of a customer with the surname that a lookup asks for.
pub open spec fn is_payer_named(
    s: Store,
    op: OperationModel,
    row: Seq<WireModel>,
    id: int,
) -> bool {
    let key = (number(op, 0), number(op, 1), id);
    &&& s.customers.contains_key(key)
    &&& s.customers[key].c_last == chars(op, 2)
    &&& i32::MIN <= id <= i32::MAX
    &&& row == payer_cells(id, s.customers[key])
}

/// Whether rows are customers of a district with the surname that a lookup asks for,
/// as a Payment reads them.
pub open spec fn payers_named(
    s: Store,
    op: OperationModel,
    rows: Seq<Seq<WireModel>>,
) -> bool {
    forall|i: int|
        0 <= i < rows.len() ==> exists|id: int| #[trigger]
            is_payer_named(s, op, #[trigger] rows[i], id)
}

/// Whether an order is the latest of a customer.
pub open spec fn is_latest(s: Store, customer: (int, int, int), o: int) -> bool {
    &&& s.orders.contains_key((customer.0, customer.1, o))
    &&& s.orders[(customer.0, customer.1, o)].o_c_id == customer.2
    &&& forall|later: int|
        #[trigger] s.orders.contains_key((customer.0, customer.1, later)) && s.orders[(
            customer.0,
            customer.1,
            later,
        )].o_c_id == customer.2 ==> later <= o
}

/// A customer row as an OrderStatus reads it.
pub open spec fn status_cells(id: int, row: CustomerRow) -> Seq<WireModel> {
    seq![
        int_cell(id),
        WireModel::Float32(row.c_balance),
        WireModel::Char(row.c_first),
        WireModel::Char(row.c_middle),
        WireModel::Char(row.c_last),
    ]
}

/// The lines of an order as an OrderStatus reads them, in the order of their numbers.
pub open spec fn status_lines(s: Store, key: (int, int, int)) -> Seq<Seq<WireModel>> {
    Seq::new(
        s.orders[key].o_ol_cnt as nat,
        |k: int|
            {
                let row = s.order_lines[(key.0, key.1, key.2, k + 1)];
                seq![
                    int_cell(k + 1),
                    int_cell(row.ol_i_id),
                    int_cell(row.ol_supply_w_id),
                    int_cell(row.ol_quantity),
                    WireModel::Float32(row.ol_amount),
                    WireModel::Char(row.ol_delivery_d),
                ]
            },
    )
}

/// What the queries of an OrderStatus find, but for the lookup by surname.
pub open spec fn status_query(s: Store, op: OperationModel) -> Seq<Seq<WireModel>> {
    let key = (number(op, 0), number(op, 1), number(op, 2));
    if runs(op, StatementId::OrderStatusCustomerById) {
        only_row(s.customers, key, status_cells(number(op, 2), s.customers[key]))
    } else if runs(op, StatementId::OrderStatusLatestOrder) {
        if exists|o: int| is_latest(s, key, o) {
            seq![seq![int_cell(choose|o: int| is_latest(s, key, o))]]
        } else {
            Seq::empty()
        }
    } else if runs(op, StatementId::OrderStatusOrder) {
        let row = s.orders[key];
        only_row(
            s.orders,
            key,
            seq![
                int_cell(number(op, 2)),
                WireModel::Char(row.o_entry_d),
                int_cell(row.o_carrier_id),
            ],
        )
    } else {
        status_lines(s, key)
    }
}

/// Whether an order is the oldest of a district that is not delivered.
pub open spec fn is_oldest(s: Store, w: int, d: int, o: int) -> bool {
    &&& s.new_orders.contains((w, d, o))
    &&& forall|other: int| #[trigger] s.new_orders.contains((w, d, other)) ==> o <= other
}

/// The amounts of the lines of an order, in the order of their numbers.
pub open spec fn stored_amounts(s: Store, key: (int, int, int)) -> Seq<u32> {
    Seq::new(
        s.orders[key].o_ol_cnt as nat,
        |k: int| s.order_lines[(key.0, key.1, key.2, k + 1)].ol_amount,
    )
}

/// The lines of an order as a Delivery reads them, in the order of their numbers.
pub open spec fn delivery_lines(s: Store, key: (int, int, int)) -> Seq<Seq<WireModel>> {
    Seq::new(
        s.orders[key].o_ol_cnt as nat,
        |k: int|
            seq![
                int_cell(k + 1),
                WireModel::Float32(stored_amounts(s, key)[k]),
                int_cell(key.2),
            ],
    )
}

/// What the queries of a Delivery find.
pub open spec fn delivery_query(s: Store, op: OperationModel) -> Seq<Seq<WireModel>> {
    let w = number(op, 0);
    let d = number(op, 1);
    let key = (w, d, number(op, 2));
    if runs(op, StatementId::DeliveryOldestOrder) {
        if exists|o: int| is_oldest(s, w, d, o) {
            seq![seq![int_cell(choose|o: int| is_oldest(s, w, d, o))]]
        } else {
            seq![seq![WireModel::Null]]
        }
    } else if runs(op, StatementId::DeliveryEarlierQueueCount) {
        let earlier = s.new_orders.filter(
            |k: (int, int, int)| k.0 == w && k.1 == d && k.2 < key.2,
        );
        seq![seq![int_cell(earlier.len() as int)]]
    } else if runs(op, StatementId::DeliveryExactQueueCount) {
        seq![
            seq![
                int_cell(
                    if s.new_orders.contains(key) {
                        1
                    } else {
                        0
                    },
                ),
            ],
        ]
    } else if runs(op, StatementId::DeliveryOrder) {
        let row = s.orders[key];
        only_row(
            s.orders,
            key,
            seq![int_cell(row.o_c_id), int_cell(row.o_carrier_id), int_cell(row.o_ol_cnt)],
        )
    } else if runs(op, StatementId::DeliveryLineRows) {
        delivery_lines(s, key)
    } else if runs(op, StatementId::DeliveryLineSum) {
        seq![seq![WireModel::Float32(double_sum_pattern(stored_amounts(s, key))->0)]]
    } else {
        let row = s.customers[key];
        only_row(
            s.customers,
            key,
            seq![
                WireModel::Float32(row.c_balance),
                int_cell(row.c_payment_cnt),
                int_cell(row.c_delivery_cnt),
            ],
        )
    }
}

/// What a query finds, by the range of its number.
#[verifier::opaque]
pub open spec fn queried(s: Store, op: OperationModel) -> Seq<Seq<WireModel>> {
    if op.statement_id < 30 {
        order_query(s, op)
    } else if op.statement_id < 50 {
        payment_query(s, op)
    } else if op.statement_id < 70 {
        status_query(s, op)
    } else {
        delivery_query(s, op)
    }
}

/// Whether the result at an index is what its query finds, when it is its turn.
pub open spec fn answers_at(
    s: Store,
    ops: Seq<OperationModel>,
    results: Seq<Option<Seq<Seq<WireModel>>>>,
    i: int,
) -> bool {
    results[i] == Some(queried(effects(s, ops, i), ops[i]))
}

/// A query of a NewOrder finds what it finds.
pub proof fn lemma_order_query(s: Store, op: OperationModel)
    requires
        op.statement_id < 30,
    ensures
        queried(s, op) == order_query(s, op),
{
    reveal(queried);
}

/// A query of a Payment finds what it finds.
pub proof fn lemma_payment_query(s: Store, op: OperationModel)
    requires
        30 <= op.statement_id < 50,
    ensures
        queried(s, op) == payment_query(s, op),
{
    reveal(queried);
}

/// A query of an OrderStatus finds what it finds.
pub proof fn lemma_status_query(s: Store, op: OperationModel)
    requires
        50 <= op.statement_id < 70,
    ensures
        queried(s, op) == status_query(s, op),
{
    reveal(queried);
}

/// A query of a Delivery finds what it finds.
pub proof fn lemma_delivery_query(s: Store, op: OperationModel)
    requires
        70 <= op.statement_id,
    ensures
        queried(s, op) == delivery_query(s, op),
{
    reveal(queried);
}

} // verus!
