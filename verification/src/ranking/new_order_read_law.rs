//! What a NewOrder asks for and what it reads.
use vstd::prelude::*;

use crate::binary32::integer_product;
use crate::profile::TransactionKind;
use crate::ranking::common::operation_of;
use crate::ranking::new_order::{
    LinePlan, OrderPlan, first_batch, frozen_lines_fault, invalid_positions,
    law_locks_are_sorted_and_unique, line_reads, lines_local, lock_operation, order_input_fault,
    order_line_fault, planned_order, sorted_keys, stock_key_of, with_key,
};
use crate::ranking::new_order_rows::{
    MaterializedModel, first_results_fault, first_results_order, item_rows, line_read_fault,
    line_reads_fault, read_line, read_lines, stock_rows,
};
use crate::ranking::new_order_store_law::{row_is, row_of};
use crate::ranking::statement_id::StatementId;
use crate::ranking::store_model::{
    Connection, Store, effects, executed_all, lemma_begun_batch, lemma_no_effect,
    lemma_order_reads, number, runs,
};
use crate::ranking::store_queries::{answers_at, int_cell, lemma_order_query, order_query};
use crate::wire::{OperationModel, WireModel};
use crate::workload::{NewOrderInput, OrderLineInput, RoutedTransaction};

verus! {

/// Law: a plan is its input. An accepted order goes to the route's warehouse and district
/// and to the input's customer; line by line it has the input's number, item, supply
/// warehouse and quantity; it is local exactly if every line is supplied from home; and
/// only the last line of an expected rollback has an invalid item.
pub proof fn law_plan_is_the_input(
    route: RoutedTransaction,
    input: NewOrderInput,
    timestamp: Seq<u8>,
)
    requires
        order_input_fault(route, input, timestamp) is None,
    ensures
        ({
            let p = planned_order(route, input, timestamp);
            let n = input.lines@.len();
            &&& route.kind == TransactionKind::NewOrder
            &&& p.warehouse_id == route.home_warehouse
            &&& p.district_id == route.home_district
            &&& p.customer_id == input.customer_id
            &&& p.timestamp == timestamp
            &&& p.expected_rollback == input.expected_rollback
            &&& 1 <= p.warehouse_id <= 50
            &&& 1 <= p.district_id <= 10
            &&& 1 <= p.customer_id <= 3_000
            &&& 5 <= n <= 15
            &&& p.lines.len() == n
            &&& p.all_local == 0 || p.all_local == 1
            &&& p.all_local == 1 <==> forall|i: int|
                0 <= i < n ==> (#[trigger] p.lines[i]).supply_warehouse == p.warehouse_id
            &&& forall|i: int|
                0 <= i < n ==> {
                    let line = #[trigger] p.lines[i];
                    &&& line.number == i + 1
                    &&& line.item_id as u32 == input.lines@[i].item_id
                    &&& line.supply_warehouse == input.lines@[i].supply_warehouse
                    &&& line.quantity == input.lines@[i].quantity
                    &&& line.invalid_item <==> input.expected_rollback && i == n - 1
                    &&& !line.invalid_item ==> 1 <= line.item_id <= 100_000
                    &&& 1 <= line.supply_warehouse <= 50
                    &&& 1 <= line.quantity <= 10
                }
        }),
{
    let p = planned_order(route, input, timestamp);
    let lines = input.lines@;
    let n = lines.len() as int;
    assert forall|i: int| 0 <= i < n implies {
        let line = #[trigger] p.lines[i];
        &&& line.number == i + 1
        &&& line.item_id as u32 == input.lines@[i].item_id
        &&& line.supply_warehouse == input.lines@[i].supply_warehouse
        &&& line.quantity == input.lines@[i].quantity
        &&& line.invalid_item <==> input.expected_rollback && i == n - 1
        &&& !line.invalid_item ==> 1 <= line.item_id <= 100_000
        &&& 1 <= line.supply_warehouse <= 50
        &&& 1 <= line.quantity <= 10
    } by {
        lemma_line_accepted(lines, 0, i);
        lemma_invalid_positions(lines, n, i);
        let bits = lines[i].item_id;
        assert(bits as i32 as u32 == bits) by (bit_vector);
    }
    if lines_local(lines, route.home_warehouse) {
        assert forall|i: int| 0 <= i < n implies (#[trigger] p.lines[i]).supply_warehouse
            == p.warehouse_id by {
            assert(lines[i].supply_warehouse == route.home_warehouse);
        }
    } else {
        let i = choose|i: int|
            0 <= i < lines.len() && (#[trigger] lines[i]).supply_warehouse
                != route.home_warehouse;
        assert(p.lines[i].supply_warehouse != p.warehouse_id);
    }
}

proof fn lemma_line_accepted(lines: Seq<OrderLineInput>, from: int, i: int)
    requires
        0 <= from <= i < lines.len(),
        frozen_lines_fault(lines, from) is None,
    ensures
        order_line_fault(lines, i) is None,
    decreases i - from,
{
    if from < i {
        lemma_line_accepted(lines, from + 1, i);
    }
}

proof fn lemma_invalid_positions(lines: Seq<OrderLineInput>, n: int, i: int)
    requires
        0 <= i < n <= lines.len(),
    ensures
        lines[i].invalid() <==> exists|p: int|
            0 <= p < invalid_positions(lines, n).len() && #[trigger] invalid_positions(lines, n)[p]
                == i,
    decreases n,
{
    let now = invalid_positions(lines, n);
    let before = invalid_positions(lines, n - 1);
    lemma_positions_below(lines, n - 1);
    if i < n - 1 {
        lemma_invalid_positions(lines, n - 1, i);
        if lines[i].invalid() {
            let p = choose|p: int| 0 <= p < before.len() && #[trigger] before[p] == i;
            assert(now[p] == i);
        } else if exists|p: int| 0 <= p < now.len() && #[trigger] now[p] == i {
            let p = choose|p: int| 0 <= p < now.len() && #[trigger] now[p] == i;
            assert(p < before.len() && before[p] == i);
        }
    } else if lines[i].invalid() {
        assert(now[now.len() - 1] == i);
    } else if exists|p: int| 0 <= p < now.len() && #[trigger] now[p] == i {
        let p = choose|p: int| 0 <= p < now.len() && #[trigger] now[p] == i;
        assert(before[p] < n - 1);
    }
}

proof fn lemma_positions_below(lines: Seq<OrderLineInput>, n: int)
    requires
        0 <= n <= lines.len(),
    ensures
        forall|p: int|
            0 <= p < invalid_positions(lines, n).len() ==> (#[trigger] invalid_positions(
                lines,
                n,
            )[p]) < n,
    decreases n,
{
    if n > 0 {
        lemma_positions_below(lines, n - 1);
        let before = invalid_positions(lines, n - 1);
        let now = invalid_positions(lines, n);
        assert forall|p: int| 0 <= p < now.len() implies (#[trigger] now[p]) < n by {
            assert(p < before.len() ==> now[p] == before[p]);
        }
    }
}

/// How many stock rows an order locks.
pub open spec fn lock_count(order: OrderPlan) -> int {
    sorted_keys(order.lines, order.lines.len() as int).len() as int
}

proof fn lemma_reads(lines: Seq<LinePlan>, n: int, i: int)
    requires
        0 <= n <= lines.len(),
    ensures
        line_reads(lines, n).len() == 2 * n,
        0 <= i < n ==> line_reads(lines, n)[2 * i] == operation_of(
            StatementId::NewOrderItem,
            seq![WireModel::Int32(lines[i].item_id)],
        ),
        0 <= i < n ==> line_reads(lines, n)[2 * i + 1] == operation_of(
            StatementId::NewOrderStock,
            seq![
                WireModel::Int32(lines[i].supply_warehouse),
                WireModel::Int32(lines[i].item_id),
            ],
        ),
    decreases n,
{
    if n > 0 {
        lemma_reads(lines, n - 1, i);
    }
}

/// What stands where in the first batch.
proof fn lemma_first_ops(order: OrderPlan, i: int)
    ensures
        ({
            let ops = first_batch(order).operations;
            let n = order.lines.len() as int;
            let k = lock_count(order);
            &&& ops.len() == 2 + k + 2 * n
            &&& ops[0] == operation_of(StatementId::Begin, Seq::empty())
            &&& ops[1] == operation_of(
                StatementId::NewOrderHome,
                seq![
                    WireModel::Int32(order.warehouse_id),
                    WireModel::Int32(order.district_id),
                    WireModel::Int32(order.customer_id),
                ],
            )
            &&& 0 <= i < k ==> ops[2 + i] == lock_operation(sorted_keys(order.lines, n)[i])
            &&& 0 <= i < n ==> ops[2 + k + 2 * i] == operation_of(
                StatementId::NewOrderItem,
                seq![WireModel::Int32(order.lines[i].item_id)],
            )
            &&& 0 <= i < n ==> ops[3 + k + 2 * i] == operation_of(
                StatementId::NewOrderStock,
                seq![
                    WireModel::Int32(order.lines[i].supply_warehouse),
                    WireModel::Int32(order.lines[i].item_id),
                ],
            )
        }),
{
    lemma_reads(order.lines, order.lines.len() as int, i);
}

/// Every operation of the first batch but the first reads.
proof fn lemma_first_reads(order: OrderPlan, i: int)
    requires
        1 <= i < first_batch(order).operations.len(),
    ensures
        ({
            let op = first_batch(order).operations[i];
            ||| runs(op, StatementId::NewOrderHome)
            ||| runs(op, StatementId::NewOrderLockStock)
            ||| runs(op, StatementId::NewOrderItem)
            ||| runs(op, StatementId::NewOrderStock)
        }),
{
    let k = lock_count(order);
    lemma_first_ops(order, i - 2);
    if i >= 2 + k {
        lemma_first_ops(order, (i - 2 - k) / 2);
    }
}

proof fn lemma_first_keeps(s: Store, order: OrderPlan, n: int)
    requires
        0 <= n <= first_batch(order).operations.len(),
    ensures
        effects(s, first_batch(order).operations, n) == s,
    decreases n,
{
    if n > 0 {
        lemma_first_keeps(s, order, n - 1);
        lemma_first_ops(order, 0);
        let op = first_batch(order).operations[n - 1];
        if n == 1 {
            lemma_no_effect(s, op);
        } else {
            lemma_first_reads(order, n - 1);
            lemma_order_reads(s, op);
        }
    }
}

/// Law: the first batch of an order begins a transaction on what is kept, changes nothing
/// in it, and locks the stock row of every line before any line is read.
pub proof fn law_first_batch_only_reads(c: Connection, order: OrderPlan)
    ensures
        ({
            let ops = first_batch(order).operations;
            let n = order.lines.len();
            &&& executed_all(c, ops, ops.len() as int) == (Connection { kept: c.kept, open: c.kept })
            &&& ops.len() == 2 + lock_count(order) + 2 * n
            &&& forall|i: int|
                0 <= i < n ==> exists|p: int|
                    2 <= p < 2 + lock_count(order) && locks(
                        #[trigger] ops[p],
                        row_of(#[trigger] order.lines[i]),
                    )
        }),
{
    let ops = first_batch(order).operations;
    let n = order.lines.len() as int;
    lemma_first_ops(order, 0);
    assert forall|i: int| 0 <= i < ops.drop_first().len() implies !runs(
        #[trigger] ops.drop_first()[i],
        StatementId::Commit,
    ) && !runs(ops.drop_first()[i], StatementId::Abort) && !runs(
        ops.drop_first()[i],
        StatementId::Begin,
    ) by {
        lemma_first_reads(order, i + 1);
    }
    lemma_begun_batch(c, ops, ops.len() as int);
    lemma_first_keeps(c.kept, order, ops.len() as int);
    law_locks_are_sorted_and_unique(order.lines, n);
    let keys = sorted_keys(order.lines, n);
    assert forall|i: int| 0 <= i < n implies exists|p: int|
        2 <= p < 2 + lock_count(order) && locks(
            #[trigger] ops[p],
            row_of(#[trigger] order.lines[i]),
        ) by {
        let key = stock_key_of(order.lines[i]);
        assert(keys.contains(key));
        let q = choose|q: int| 0 <= q < keys.len() && keys[q] == key;
        lemma_first_ops(order, q);
        assert(locks(ops[2 + q], row_of(order.lines[i])));
    }
}

/// Whether an operation locks a stock row.
pub open spec fn locks(op: OperationModel, key: (int, int)) -> bool {
    runs(op, StatementId::NewOrderLockStock) && number(op, 0) == key.0 && number(op, 1) == key.1
}

/// Whether the numbers in the tables fit their columns.
pub open spec fn numbers_fit(s: Store) -> bool {
    &&& forall|k: (int, int)|
        s.districts.contains_key(k) ==> i32::MIN <= (#[trigger] s.districts[k]).d_next_o_id
            <= i32::MAX
    &&& forall|k: (int, int)|
        s.stock.contains_key(k) ==> {
            let row = #[trigger] s.stock[k];
            &&& i32::MIN <= row.s_quantity <= i32::MAX
            &&& i32::MIN <= row.s_order_cnt <= i32::MAX
            &&& i32::MIN <= row.s_remote_cnt <= i32::MAX
        }
}

/// Whether a line holds what the tables hold for it: its stock row, the information of
/// the order's district there, and the price of its item times its quantity.
pub open spec fn line_as_stored(s: Store, order: OrderPlan, line: MaterializedModel) -> bool {
    let row = s.stock[row_of(line.plan)];
    let item = line.plan.item_id as int;
    &&& s.stock.contains_key(row_of(line.plan))
    &&& row_is(row, line.initial_stock)
    &&& line.district_info == row.s_dist[order.district_id - 1]
    &&& s.items.contains_key(item)
    &&& integer_product(s.items[item].i_price, line.plan.quantity as int) == Some(
        line.amount_bits,
    )
}

pub proof fn lemma_line_read(
    order: OrderPlan,
    results: Seq<Option<Seq<Seq<WireModel>>>>,
    from: int,
    i: int,
)
    requires
        0 <= from <= i < order.lines.len(),
        line_reads_fault(order, first_batch(order), results, from) is None,
    ensures
        line_read_fault(order, first_batch(order), results, i) is None,
    decreases i - from,
{
    if from < i {
        lemma_line_read(order, results, from + 1, i);
    }
}

/// A line that is read from the tables holds what they hold.
proof fn lemma_line_as_stored(
    s: Store,
    order: OrderPlan,
    results: Seq<Option<Seq<Seq<WireModel>>>>,
    i: int,
)
    requires
        1 <= order.district_id <= 10,
        0 <= i < order.lines.len() <= 15,
        numbers_fit(s),
        answers_at(s, first_batch(order).operations, results, 2 + lock_count(order) + 2 * i),
        answers_at(s, first_batch(order).operations, results, 3 + lock_count(order) + 2 * i),
        line_read_fault(order, first_batch(order), results, i) is None,
        !order.lines[i].invalid_item,
    ensures
        line_as_stored(s, order, read_line(order, first_batch(order), results, i)),
{
    let plan = first_batch(order);
    let ops = plan.operations;
    let n = order.lines.len() as int;
    let p = 2 + lock_count(order) + 2 * i;
    law_locks_are_sorted_and_unique(order.lines, n);
    lemma_first_ops(order, i);
    lemma_first_keeps(s, order, p);
    lemma_first_keeps(s, order, p + 1);
    lemma_order_query(s, ops[p]);
    lemma_order_query(s, ops[p + 1]);
    lemma_lock_count(order.lines, n);
    assert(plan.line_results[i].item == p);
    assert(plan.line_results[i].stock == p + 1);
    let line = order.lines[i];
    let key = row_of(line);
    assert(item_rows(plan, results, i) == order_query(s, ops[p]));
    assert(stock_rows(plan, results, i) == order_query(s, ops[p + 1]));
    let row = s.stock[key];
    let cells = seq![
        int_cell(row.s_quantity),
        WireModel::Float32(row.s_ytd),
        int_cell(row.s_order_cnt),
        int_cell(row.s_remote_cnt),
        WireModel::Char(row.s_data),
    ] + Seq::new(10, |i: int| WireModel::Char(row.s_dist[i]));
    assert(s.stock.contains_key(key));
    assert(stock_rows(plan, results, i)[0] == cells);
    assert(cells[order.district_id + 4] == WireModel::Char(row.s_dist[order.district_id - 1]));
    assert(s.items.contains_key(line.item_id as int));
    assert(item_rows(plan, results, i)[0][0] == WireModel::Float32(
        s.items[line.item_id as int].i_price,
    ));
}

proof fn lemma_lock_count(lines: Seq<LinePlan>, n: int)
    requires
        0 <= n <= lines.len(),
    ensures
        sorted_keys(lines, n).len() <= n,
    decreases n,
{
    if n > 0 {
        lemma_lock_count(lines, n - 1);
        lemma_one_key_more(sorted_keys(lines, n - 1), stock_key_of(lines[n - 1]));
    }
}

proof fn lemma_one_key_more(keys: Seq<(i32, i32)>, key: (i32, i32))
    ensures
        with_key(keys, key).len() <= keys.len() + 1,
    decreases keys.len(),
{
    if keys.len() > 0 {
        lemma_one_key_more(keys.drop_last(), key);
    }
}

/// Whether the lines before `m` have valid items and those from it on do not.
pub open spec fn valid_up_to(order: OrderPlan, m: int) -> bool {
    &&& 0 <= m <= order.lines.len()
    &&& forall|i: int| 0 <= i < order.lines.len() ==> ((#[trigger] order.lines[i]).invalid_item <==> i
        >= m)
}

pub proof fn lemma_read_lines(
    order: OrderPlan,
    results: Seq<Option<Seq<Seq<WireModel>>>>,
    m: int,
    n: int,
)
    requires
        valid_up_to(order, m),
        0 <= n <= order.lines.len(),
    ensures
        ({
            let lines = read_lines(order, first_batch(order), results, n);
            let count = if n < m {
                n
            } else {
                m
            };
            &&& lines.len() == count
            &&& forall|i: int|
                0 <= i < count ==> #[trigger] lines[i] == read_line(
                    order,
                    first_batch(order),
                    results,
                    i,
                )
        }),
    decreases n,
{
    if n > 0 {
        lemma_read_lines(order, results, m, n - 1);
    }
}

/// Law: what an order reads is what the tables hold. Where they answer the first batch, an
/// accepted reading has the district's next order number as its own, and for every line
/// with a valid item, in order, the stock row of its supply warehouse and item, the
/// information of the home district there, and the price of the item times the quantity.
pub proof fn law_order_reads_what_is_stored(
    s: Store,
    order: OrderPlan,
    results: Seq<Option<Seq<Seq<WireModel>>>>,
    m: int,
)
    requires
        1 <= order.district_id <= 10,
        order.lines.len() <= 15,
        valid_up_to(order, m),
        numbers_fit(s),
        s.districts.contains_key((order.warehouse_id as int, order.district_id as int)),
        answers_at(s, first_batch(order).operations, results, 1),
        forall|i: int|
            2 + lock_count(order) <= i < first_batch(order).operations.len() ==> #[trigger]
                answers_at(s, first_batch(order).operations, results, i),
        first_results_fault(order, first_batch(order), results) is None,
    ensures
        ({
            let read = first_results_order(order, first_batch(order), results);
            let w = order.warehouse_id as int;
            let d = order.district_id as int;
            &&& s.customers.contains_key((w, d, order.customer_id as int))
            &&& read.order_id == s.districts[(w, d)].d_next_o_id
            &&& read.order_id > 0
            &&& read.lines.len() == m
            &&& forall|i: int|
                0 <= i < m ==> (#[trigger] read.lines[i]).plan == order.lines[i] && line_as_stored(
                    s,
                    order,
                    read.lines[i],
                )
        }),
{
    let plan = first_batch(order);
    let ops = plan.operations;
    let n = order.lines.len() as int;
    let read = first_results_order(order, plan, results);
    lemma_first_ops(order, 0);
    lemma_first_keeps(s, order, 1);
    lemma_order_query(s, ops[1]);
    lemma_read_lines(order, results, m, n);
    assert forall|i: int| 0 <= i < m implies (#[trigger] read.lines[i]).plan == order.lines[i]
        && line_as_stored(s, order, read.lines[i]) by {
        lemma_line_read(order, results, 0, i);
        let p = 2 + lock_count(order) + 2 * i;
        assert(answers_at(s, ops, results, p));
        assert(answers_at(s, ops, results, p + 1));
        lemma_line_as_stored(s, order, results, i);
    }
}

} // verus!
