//! What the evidence of a NewOrder says of the tables.
use vstd::prelude::*;

use crate::binary32::{integer_product, is_finite};
use crate::ranking::common::response_rows;
use crate::ranking::flow::FlowNext;
use crate::ranking::new_order::{OrderPlan, first_batch, order_input_fault, planned_order};
use crate::ranking::new_order_flow::{
    NewOrderCourse, NewOrderPoint, is_order_outcome, new_order_batch, new_order_next,
};
use crate::ranking::new_order_read_law::{
    law_first_batch_only_reads, law_order_reads_what_is_stored, law_plan_is_the_input,
    lemma_line_read, lemma_read_lines, line_as_stored, lock_count, numbers_fit, valid_up_to,
};
use crate::ranking::new_order_rows::{
    MaterializedModel, ReadOrder, first_results_fault, first_results_order, read_line,
};
use crate::ranking::new_order_store_law::{
    after_is_finite, law_new_order_stores_its_order, line_stored, numbered_apart, order_kept,
    row_is, row_of, stock_as_read,
};
use crate::ranking::new_order_writes::{
    RecoveryLine, is_order_evidence, quantities_fit, quantity_sum, recovery_line, recovery_models,
    remote_count, second_batch,
};
use crate::ranking::runner::{NewOrderEvidence, RankedCommit, RankedTransactionOutcome};
use crate::ranking::store_model::{Connection, Store, executed_all};
use crate::ranking::store_queries::answers_at;
use crate::wire::{BatchResponse, WireModel};
use crate::workload::{NewOrderInput, OrderLineInput, RoutedTransaction};

verus! {

/// How many of the first `n` lines come from another warehouse than `home`.
pub open spec fn lines_from_elsewhere(lines: Seq<OrderLineInput>, home: int, n: int) -> nat
    decreases n,
{
    if n <= 0 {
        0
    } else {
        lines_from_elsewhere(lines, home, n - 1) + if lines[n - 1].supply_warehouse == home {
            0nat
        } else {
            1nat
        }
    }
}

/// The quantity that the first `n` lines order.
pub open spec fn ordered_quantity(lines: Seq<OrderLineInput>, n: int) -> nat
    decreases n,
{
    if n <= 0 {
        0
    } else {
        ordered_quantity(lines, n - 1) + lines[n - 1].quantity as nat
    }
}

proof fn lemma_totals(
    route: RoutedTransaction,
    input: NewOrderInput,
    timestamp: Seq<u8>,
    lines: Seq<MaterializedModel>,
    n: int,
)
    requires
        order_input_fault(route, input, timestamp) is None,
        0 <= n <= lines.len() <= input.lines@.len(),
        forall|i: int|
            0 <= i < lines.len() ==> (#[trigger] lines[i]).plan == planned_order(
                route,
                input,
                timestamp,
            ).lines[i],
    ensures
        remote_count(planned_order(route, input, timestamp), lines, n) == lines_from_elsewhere(
            input.lines@,
            route.home_warehouse as int,
            n,
        ),
        quantity_sum(lines, n) == ordered_quantity(input.lines@, n),
        remote_count(planned_order(route, input, timestamp), lines, n) <= n,
        0 <= quantity_sum(lines, n) <= 10 * n,
    decreases n,
{
    if n > 0 {
        lemma_totals(route, input, timestamp, lines, n - 1);
        law_plan_is_the_input(route, input, timestamp);
        assert(lines[n - 1].plan == planned_order(route, input, timestamp).lines[n - 1]);
    }
}

/// Whether the row of an order line, the evidence of the line and its input agree, and
/// the amount is the price that the tables hold times the quantity.
pub open spec fn line_evident(
    s: Store,
    t: Store,
    key: (int, int, int, int),
    line: OrderLineInput,
    shown: RecoveryLine,
    amount_bits: u32,
) -> bool {
    let row = t.order_lines[key];
    let stock = s.stock[(line.supply_warehouse as int, line.item_id as int)];
    &&& t.order_lines.contains_key(key)
    &&& row.ol_i_id == line.item_id
    &&& row.ol_supply_w_id == line.supply_warehouse
    &&& row.ol_quantity == line.quantity
    &&& row.ol_amount == amount_bits
    &&& integer_product(s.items[line.item_id as int].i_price, line.quantity as int) == Some(
        amount_bits,
    )
    &&& row.ol_dist_info == stock.s_dist[key.1 - 1]
    &&& row.ol_delivery_d.len() == 0
    &&& shown.number == key.3
    &&& shown.item_id == line.item_id
    &&& shown.supply_warehouse == line.supply_warehouse
    &&& shown.quantity == line.quantity
    &&& shown.amount_bits == amount_bits
    &&& shown.district_info == row.ol_dist_info
}

/// Whether evidence says what the tables held before and after an order.
pub open spec fn order_evident(
    s: Store,
    t: Store,
    route: RoutedTransaction,
    input: NewOrderInput,
    timestamp: Seq<u8>,
    e: NewOrderEvidence,
) -> bool {
    let w = route.home_warehouse as int;
    let d = route.home_district as int;
    let o = s.districts[(w, d)].d_next_o_id;
    let n = input.lines@.len() as int;
    let row = t.orders[(w, d, o)];
    &&& e.warehouse_id == w
    &&& e.district_id == d
    &&& e.order_id == o
    &&& t.districts[(w, d)].d_next_o_id == o + 1
    &&& t.orders.contains_key((w, d, o))
    &&& row.o_c_id == input.customer_id
    &&& row.o_entry_d == timestamp
    &&& e.entry_timestamp@ == timestamp
    &&& row.o_carrier_id == 0
    &&& row.o_ol_cnt == n
    &&& e.line_count == n
    &&& row.o_all_local == 1 <==> e.remote_line_count == 0
    &&& t.new_orders.contains((w, d, o))
    &&& e.remote_line_count == lines_from_elsewhere(input.lines@, w, n)
    &&& e.stock_ytd_delta == ordered_quantity(input.lines@, n)
    &&& e.line_amount_bits@.len() == n
    &&& e.recovery_lines@.len() == n
    &&& forall|k: int|
        0 <= k < n ==> line_evident(
            s,
            t,
            (w, d, o, k + 1),
            #[trigger] input.lines@[k],
            e.recovery_lines@[k]@,
            e.line_amount_bits@[k],
        )
}

proof fn lemma_local(lines: Seq<OrderLineInput>, home: u16, n: int)
    requires
        0 <= n <= lines.len(),
    ensures
        lines_from_elsewhere(lines, home as int, n) == 0 <==> forall|i: int|
            0 <= i < n ==> (#[trigger] lines[i]).supply_warehouse == home,
    decreases n,
{
    if n > 0 {
        lemma_local(lines, home, n - 1);
    }
}

/// An accepted reading of an order that is not rolled back is fit to be written.
proof fn lemma_reading(
    s: Store,
    route: RoutedTransaction,
    input: NewOrderInput,
    timestamp: Seq<u8>,
    results: Seq<Option<Seq<Seq<WireModel>>>>,
)
    requires
        order_input_fault(route, input, timestamp) is None,
        !input.expected_rollback,
        order_answered(s, planned_order(route, input, timestamp), results),
        first_results_fault(
            planned_order(route, input, timestamp),
            first_batch(planned_order(route, input, timestamp)),
            results,
        ) is None,
    ensures
        ({
            let order = planned_order(route, input, timestamp);
            let read = first_results_order(order, first_batch(order), results);
            &&& read.order_id == s.districts[(
                order.warehouse_id as int,
                order.district_id as int,
            )].d_next_o_id
            &&& read.lines.len() == input.lines@.len()
            &&& forall|i: int|
                0 <= i < read.lines.len() ==> (#[trigger] read.lines[i]).plan == order.lines[i]
                    && line_as_stored(s, order, read.lines[i])
            &&& quantities_fit(read.lines)
            &&& stock_as_read(s, read.lines)
            &&& numbered_apart(read.lines)
        }),
{
    let order = planned_order(route, input, timestamp);
    let plan = first_batch(order);
    let n = order.lines.len() as int;
    let read = first_results_order(order, plan, results);
    law_plan_is_the_input(route, input, timestamp);
    assert(valid_up_to(order, n));
    law_order_reads_what_is_stored(s, order, results, n);
    assert forall|k: int| 0 <= k < read.lines.len() implies 0 <= (
    #[trigger] read.lines[k]).plan.quantity <= i32::MAX - 10
        && read.lines[k].initial_stock.quantity >= 0 && is_finite(
        read.lines[k].initial_stock.ytd_bits,
    ) by {
        assert(read.lines[k].plan == order.lines[k]);
        lemma_line_read(order, results, 0, k);
        lemma_read_lines(order, results, n, n);
        assert(read.lines[k] == read_line(order, plan, results, k));
    }
    assert forall|k: int| 0 <= k < read.lines.len() implies s.stock.contains_key(
        row_of((#[trigger] read.lines[k]).plan),
    ) && row_is(s.stock[row_of(read.lines[k].plan)], read.lines[k].initial_stock) && is_finite(
        read.lines[k].initial_stock.ytd_bits,
    ) by {
        assert(line_as_stored(s, order, read.lines[k]));
    }
    assert forall|i: int, j: int| 0 <= i < j < read.lines.len() implies (
    #[trigger] read.lines[i]).plan.number != (#[trigger] read.lines[j]).plan.number by {
        assert(read.lines[i].plan == order.lines[i] && read.lines[j].plan == order.lines[j]);
    }
}

/// Whether the tables hold the order's district, and the results of its first batch are
/// what they answer.
pub open spec fn order_answered(
    s: Store,
    order: OrderPlan,
    results: Seq<Option<Seq<Seq<WireModel>>>>,
) -> bool {
    let ops = first_batch(order).operations;
    &&& numbers_fit(s)
    &&& s.districts.contains_key((order.warehouse_id as int, order.district_id as int))
    &&& answers_at(s, ops, results, 1)
    &&& forall|i: int|
        2 + lock_count(order) <= i < ops.len() ==> #[trigger] answers_at(s, ops, results, i)
}

/// Law: the evidence of a NewOrder is what the tables held. Where the tables answer the
/// first batch, an order that is committed reports its route, the number that the district
/// held, and of every line the input's item, supply warehouse and quantity with the amount
/// and the district information that its row was left with.
pub proof fn law_order_evidence_is_what_was_stored(
    c: Connection,
    route: RoutedTransaction,
    input: NewOrderInput,
    timestamp: Seq<u8>,
    m: NewOrderCourse,
    first: BatchResponse,
    second: BatchResponse,
    e: NewOrderEvidence,
)
    requires
        order_input_fault(route, input, timestamp) is None,
        !input.expected_rollback,
        m.order == planned_order(route, input, timestamp),
        m.point == (NewOrderPoint::Read { plan: first_batch(m.order) }),
        order_answered(c.kept, m.order, response_rows(first, new_order_batch(m).len())),
        new_order_next(m, first) matches FlowNext::Next(n) && (n.point matches NewOrderPoint::Write {
            read,
            plan,
        } && (forall|k: int|
            0 <= k < read.lines.len() ==> #[trigger] after_is_finite(m.order, read.lines, k)) && (
        new_order_next(n, second) matches FlowNext::Finished(end) && is_order_outcome(
            RankedTransactionOutcome::Committed(RankedCommit::NewOrder(e)),
            m.order,
            end,
        ))),
    ensures
        ({
            let n = new_order_next(m, first)->Next_0;
            let begun = executed_all(c, new_order_batch(m), new_order_batch(m).len() as int);
            let t = executed_all(begun, new_order_batch(n), new_order_batch(n).len() as int).kept;
            order_evident(c.kept, t, route, input, timestamp, e)
        }),
{
    let order = m.order;
    let s = c.kept;
    let n = new_order_next(m, first)->Next_0;
    let results = response_rows(first, new_order_batch(m).len());
    let read = first_results_order(order, first_batch(order), results);
    let begun = executed_all(c, new_order_batch(m), new_order_batch(m).len() as int);
    law_plan_is_the_input(route, input, timestamp);
    law_first_batch_only_reads(c, order);
    lemma_reading(s, route, input, timestamp, results);
    assert(n.point == (NewOrderPoint::Write { read, plan: second_batch(order, read) }));
    law_new_order_stores_its_order(begun, order, read);
    let t = executed_all(begun, new_order_batch(n), new_order_batch(n).len() as int).kept;
    assert(order_kept(s, t, order, read));
    let count = input.lines@.len() as int;
    lemma_totals(route, input, timestamp, read.lines, count);
    lemma_local(input.lines@, route.home_warehouse, count);
    lemma_evident(s, t, route, input, timestamp, read, e);
}

proof fn lemma_evident(
    s: Store,
    t: Store,
    route: RoutedTransaction,
    input: NewOrderInput,
    timestamp: Seq<u8>,
    read: ReadOrder,
    e: NewOrderEvidence,
)
    requires
        order_input_fault(route, input, timestamp) is None,
        !input.expected_rollback,
        order_kept(s, t, planned_order(route, input, timestamp), read),
        s.districts.contains_key((route.home_warehouse as int, route.home_district as int)),
        read.order_id == s.districts[(
            route.home_warehouse as int,
            route.home_district as int,
        )].d_next_o_id,
        read.lines.len() == input.lines@.len(),
        forall|i: int|
            0 <= i < read.lines.len() ==> (#[trigger] read.lines[i]).plan == planned_order(
                route,
                input,
                timestamp,
            ).lines[i] && line_as_stored(s, planned_order(route, input, timestamp), read.lines[i]),
        is_order_evidence(
            e,
            planned_order(route, input, timestamp),
            read,
            second_batch(planned_order(route, input, timestamp), read),
        ),
    ensures
        order_evident(s, t, route, input, timestamp, e),
{
    let order = planned_order(route, input, timestamp);
    let n = input.lines@.len() as int;
    let w = route.home_warehouse as int;
    let d = route.home_district as int;
    let o = read.order_id as int;
    law_plan_is_the_input(route, input, timestamp);
    lemma_totals(route, input, timestamp, read.lines, n);
    lemma_local(input.lines@, route.home_warehouse, n);
    let shown = recovery_models(e.recovery_lines@);
    assert(shown == second_batch(order, read).recovery_lines);
    assert(shown.len() == e.recovery_lines@.len());
    assert forall|k: int| 0 <= k < n implies line_evident(
        s,
        t,
        (w, d, o, k + 1),
        #[trigger] input.lines@[k],
        e.recovery_lines@[k]@,
        e.line_amount_bits@[k],
    ) by {
        let line = read.lines[k];
        assert(line.plan == order.lines[k]);
        assert(shown[k] == e.recovery_lines@[k]@);
        assert(shown[k] == recovery_line(order, read.lines, k));
        assert(line_as_stored(s, order, line));
        assert(line_stored(t.order_lines[(w, d, o, k + 1)], line));
    }
    if lines_from_elsewhere(input.lines@, w, n) == 0 {
        assert forall|i: int| 0 <= i < n implies (#[trigger] order.lines[i]).supply_warehouse
            == order.warehouse_id by {
            assert(input.lines@[i].supply_warehouse == route.home_warehouse);
        }
    } else {
        let i = choose|i: int|
            0 <= i < n && (#[trigger] input.lines@[i]).supply_warehouse != route.home_warehouse;
        assert(order.lines[i].supply_warehouse != order.warehouse_id);
    }
}

} // verus!
