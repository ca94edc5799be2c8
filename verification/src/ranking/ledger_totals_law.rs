//! The totals of a ledger are those of its events.
use vstd::prelude::*;

use crate::ranking::ledger::{
    DeliveredOrderDelta, EventModel, LedgerClass, NewOrderLineDelta, PartitionDelta, event_fault,
    normal_class, partition_position, tail_class,
};
use crate::ranking::ledger_events::{
    delivered_model, delta_amounts, delta_quantities, delta_suppliers, event_outcome,
    quantity_total, remote_count,
};
use crate::ranking::ledger_merge_law::lemma_applied_order_clean;
use crate::ranking::ledger_rules::{replays_at, reproducible};
use crate::ranking::run_ledger::{
    LedgerModel, applied, applied_orders_fault, apply_fault, committed_counts,
    delivered_partitions, events_valid, keyed_partitions, lines_delivered, order_amounts,
    order_position, order_repeats, ranked_events, replay_fault, replayed, shaped,
};

verus! {

/// A number of each of the first `n` events, added up.
pub open spec fn event_total(
    events: Seq<EventModel>,
    n: int,
    part: spec_fn(EventModel) -> int,
) -> int
    decreases n,
{
    if n <= 0 {
        0
    } else {
        event_total(events, n - 1, part) + part(events[n - 1])
    }
}

/// The amounts of each of the first `n` events, one after the other.
pub open spec fn event_amounts(
    events: Seq<EventModel>,
    n: int,
    part: spec_fn(EventModel) -> Seq<u32>,
) -> Seq<u32>
    decreases n,
{
    if n <= 0 {
        Seq::empty()
    } else {
        event_amounts(events, n - 1, part) + part(events[n - 1])
    }
}

/// One if it holds.
pub open spec fn one_if(b: bool) -> int {
    if b {
        1
    } else {
        0
    }
}

/// The order lines that a committed NewOrder left.
pub open spec fn lines_of(e: EventModel) -> Seq<NewOrderLineDelta> {
    match e {
        EventModel::NewOrder(delta) => delta.lines,
        _ => Seq::empty(),
    }
}

/// Those of them that came from another warehouse than the order's own.
pub open spec fn remote_lines_of(e: EventModel) -> Seq<NewOrderLineDelta> {
    match e {
        EventModel::NewOrder(delta) => delta.lines.filter(
            |line: NewOrderLineDelta| line.supply_warehouse != delta.warehouse_id,
        ),
        _ => Seq::empty(),
    }
}

/// The quantity of the first `n` lines.
pub open spec fn quantity_of(lines: Seq<NewOrderLineDelta>, n: int) -> int
    decreases n,
{
    if n <= 0 {
        0
    } else {
        quantity_of(lines, n - 1) + lines[n - 1].quantity
    }
}

/// The orders that a Delivery delivered.
pub open spec fn orders_of(e: EventModel) -> Seq<DeliveredOrderDelta> {
    match e {
        EventModel::Delivery(delta) => delta.orders,
        _ => Seq::empty(),
    }
}

/// The lines of the first `n` delivered orders.
pub open spec fn delivered_lines_of(orders: Seq<DeliveredOrderDelta>, n: int) -> int
    decreases n,
{
    if n <= 0 {
        0
    } else {
        delivered_lines_of(orders, n - 1) + orders[n - 1].line_count
    }
}

/// The amounts of the lines of a NewOrder.
pub open spec fn line_amounts_of(e: EventModel) -> Seq<u32> {
    Seq::new(lines_of(e).len(), |i: int| lines_of(e)[i].amount_bits)
}

/// The amount of a Payment.
pub open spec fn paid_by(e: EventModel) -> Seq<u32> {
    match e {
        EventModel::Payment(delta) => seq![delta.amount_bits],
        _ => Seq::empty(),
    }
}

/// The amounts that a Delivery credited.
pub open spec fn credited_by(e: EventModel) -> Seq<u32> {
    Seq::new(orders_of(e).len(), |i: int| orders_of(e)[i].customer_amount_bits)
}

/// Whether the counters of a ledger are those of the first `n` events.
pub open spec fn counters_of_events(m: LedgerModel, events: Seq<EventModel>, n: int) -> bool {
    &&& m.new_orders == event_total(events, n, |e: EventModel| one_if(e is NewOrder))
    &&& m.new_order_lines == event_total(events, n, |e: EventModel| lines_of(e).len() as int)
    &&& m.remote_new_order_lines == event_total(
        events,
        n,
        |e: EventModel| remote_lines_of(e).len() as int,
    )
    &&& m.stock_ytd_delta == event_total(
        events,
        n,
        |e: EventModel| quantity_of(lines_of(e), lines_of(e).len() as int),
    )
    &&& m.payments == event_total(events, n, |e: EventModel| one_if(e is Payment))
    &&& m.delivery_commits == event_total(events, n, |e: EventModel| one_if(e is Delivery))
    &&& m.delivered_orders == event_total(events, n, |e: EventModel| orders_of(e).len() as int)
    &&& m.delivered_order_lines == event_total(
        events,
        n,
        |e: EventModel| delivered_lines_of(orders_of(e), orders_of(e).len() as int),
    )
    &&& m.order_status_commits == event_total(
        events,
        n,
        |e: EventModel| one_if(e is OrderStatus),
    )
    &&& m.stock_level_commits == event_total(events, n, |e: EventModel| one_if(e is StockLevel))
    &&& m.expected_rollbacks == event_total(
        events,
        n,
        |e: EventModel| one_if(e is ExpectedRollback),
    )
}

/// Whether the amounts of a ledger are those of the first `n` events, in their order.
pub open spec fn amounts_of_events(m: LedgerModel, events: Seq<EventModel>, n: int) -> bool {
    &&& m.new_order_line_amount_bits == event_amounts(
        events,
        n,
        |e: EventModel| line_amounts_of(e),
    )
    &&& m.payment_amount_bits == event_amounts(events, n, |e: EventModel| paid_by(e))
    &&& m.delivery_customer_amount_bits == event_amounts(
        events,
        n,
        |e: EventModel| credited_by(e),
    )
}

/// Whether an event is a NewOrder of a district.
pub open spec fn ordered_in(e: EventModel, w: int, d: int) -> bool {
    e matches EventModel::NewOrder(delta) && delta.warehouse_id == w && delta.district_id == d
}

/// How many of the first `n` orders were delivered in a district.
pub open spec fn orders_in(orders: Seq<DeliveredOrderDelta>, n: int, d: int) -> int
    decreases n,
{
    if n <= 0 {
        0
    } else {
        orders_in(orders, n - 1, d) + one_if(orders[n - 1].district_id == d)
    }
}

/// Their lines.
pub open spec fn lines_in(orders: Seq<DeliveredOrderDelta>, n: int, d: int) -> int
    decreases n,
{
    if n <= 0 {
        0
    } else {
        lines_in(orders, n - 1, d) + if orders[n - 1].district_id == d {
            orders[n - 1].line_count as int
        } else {
            0
        }
    }
}

/// The orders that an event delivered in a district.
pub open spec fn delivered_in(e: EventModel, w: int, d: int) -> int {
    match e {
        EventModel::Delivery(delta) => if delta.warehouse_id == w {
            orders_in(delta.orders, delta.orders.len() as int, d)
        } else {
            0
        },
        _ => 0,
    }
}

/// The lines of those orders.
pub open spec fn delivered_lines_in(e: EventModel, w: int, d: int) -> int {
    match e {
        EventModel::Delivery(delta) => if delta.warehouse_id == w {
            lines_in(delta.orders, delta.orders.len() as int, d)
        } else {
            0
        },
        _ => 0,
    }
}

/// Whether a partition holds what the first `n` events left in its district.
pub open spec fn partition_of_events(
    p: PartitionDelta,
    events: Seq<EventModel>,
    n: int,
    w: int,
    d: int,
) -> bool {
    &&& p.new_orders == event_total(events, n, |e: EventModel| one_if(ordered_in(e, w, d)))
    &&& p.new_order_lines == event_total(
        events,
        n,
        |e: EventModel|
            if ordered_in(e, w, d) {
                lines_of(e).len() as int
            } else {
                0
            },
    )
    &&& p.delivered_orders == event_total(events, n, |e: EventModel| delivered_in(e, w, d))
    &&& p.delivered_order_lines == event_total(
        events,
        n,
        |e: EventModel| delivered_lines_in(e, w, d),
    )
}

proof fn lemma_remote(lines: Seq<NewOrderLineDelta>, home: u16)
    ensures
        remote_count(delta_suppliers(lines), home) == lines.filter(
            |line: NewOrderLineDelta| line.supply_warehouse != home,
        ).len(),
        remote_count(delta_suppliers(lines), home) <= lines.len(),
    decreases lines.len(),
{
    reveal(Seq::filter);
    if lines.len() > 0 {
        lemma_remote(lines.drop_last(), home);
        assert(delta_suppliers(lines).drop_last() =~= delta_suppliers(lines.drop_last()));
    }
}

proof fn lemma_quantity(lines: Seq<NewOrderLineDelta>, n: int)
    requires
        0 <= n <= lines.len(),
    ensures
        quantity_total(delta_quantities(lines).subrange(0, n)) == quantity_of(lines, n),
        quantity_of(lines, n) <= 255 * n,
    decreases n,
{
    if n > 0 {
        lemma_quantity(lines, n - 1);
        let now = delta_quantities(lines).subrange(0, n);
        assert(now.drop_last() =~= delta_quantities(lines).subrange(0, n - 1));
    }
}

proof fn lemma_lines_delivered(warehouse_id: u16, orders: Seq<DeliveredOrderDelta>, n: int)
    requires
        0 <= n <= orders.len(),
    ensures
        lines_delivered(
            Seq::new(orders.len(), |i: int| delivered_model(warehouse_id, orders[i])),
            n,
        ) == delivered_lines_of(orders, n),
    decreases n,
{
    if n > 0 {
        lemma_lines_delivered(warehouse_id, orders, n - 1);
    }
}

/// What one more event adds to the counters and the amounts.
proof fn lemma_event_counted(m: LedgerModel, e: EventModel)
    requires
        event_fault(e) is None,
        apply_fault(m, event_outcome(e)) is None,
    ensures
        ({
            let t = applied(m, event_outcome(e));
            &&& t.new_orders == m.new_orders + one_if(e is NewOrder)
            &&& t.new_order_lines == m.new_order_lines + lines_of(e).len()
            &&& t.remote_new_order_lines == m.remote_new_order_lines + remote_lines_of(e).len()
            &&& t.stock_ytd_delta == m.stock_ytd_delta + quantity_of(
                lines_of(e),
                lines_of(e).len() as int,
            )
            &&& t.payments == m.payments + one_if(e is Payment)
            &&& t.delivery_commits == m.delivery_commits + one_if(e is Delivery)
            &&& t.delivered_orders == m.delivered_orders + orders_of(e).len()
            &&& t.delivered_order_lines == m.delivered_order_lines + delivered_lines_of(
                orders_of(e),
                orders_of(e).len() as int,
            )
            &&& t.order_status_commits == m.order_status_commits + one_if(e is OrderStatus)
            &&& t.stock_level_commits == m.stock_level_commits + one_if(e is StockLevel)
            &&& t.expected_rollbacks == m.expected_rollbacks + one_if(e is ExpectedRollback)
            &&& t.new_order_line_amount_bits == m.new_order_line_amount_bits + line_amounts_of(e)
            &&& t.payment_amount_bits == m.payment_amount_bits + paid_by(e)
            &&& t.delivery_customer_amount_bits == m.delivery_customer_amount_bits + credited_by(e)
        }),
{
    let t = applied(m, event_outcome(e));
    match e {
        EventModel::NewOrder(delta) => {
            let n = delta.lines.len() as int;
            lemma_remote(delta.lines, delta.warehouse_id);
            lemma_quantity(delta.lines, n);
            assert(delta_quantities(delta.lines).subrange(0, n) =~= delta_quantities(delta.lines));
            assert(delta_amounts(delta.lines) =~= line_amounts_of(e));
        },
        EventModel::Delivery(delta) => {
            let orders = Seq::new(
                delta.orders.len(),
                |i: int| delivered_model(delta.warehouse_id, delta.orders[i]),
            );
            lemma_lines_delivered(delta.warehouse_id, delta.orders, delta.orders.len() as int);
            assert(order_amounts(orders) =~= credited_by(e));
        },
        _ => {},
    }
    assert(t.payment_amount_bits =~= m.payment_amount_bits + paid_by(e));
    assert(t.new_order_line_amount_bits =~= m.new_order_line_amount_bits + line_amounts_of(e));
    assert(t.delivery_customer_amount_bits =~= m.delivery_customer_amount_bits + credited_by(e));
}

proof fn lemma_counted(events: Seq<EventModel>, n: int)
    requires
        0 <= n <= events.len(),
        forall|i: int| 0 <= i < events.len() ==> #[trigger] replays_at(events, i),
    ensures
        counters_of_events(replayed(events, n), events, n),
        amounts_of_events(replayed(events, n), events, n),
    decreases n,
{
    if n > 0 {
        lemma_counted(events, n - 1);
        reveal(replays_at);
        assert(replays_at(events, n - 1));
        lemma_event_counted(replayed(events, n - 1), events[n - 1]);
    }
}

/// Law: the totals of a ledger are those of its events: every counter is the number of
/// events of its kind, or of the lines, remote lines, quantities or orders in them, and
/// every list of amounts holds the amounts in them, in order.
pub proof fn law_totals_are_those_of_the_events(m: LedgerModel)
    requires
        reproducible(m),
    ensures
        counters_of_events(m, m.events, m.events.len() as int),
        amounts_of_events(m, m.events, m.events.len() as int),
{
    lemma_counted(m.events, m.events.len() as int);
}

/// The partitions after the first `n` orders of a Delivery, for one district.
proof fn lemma_district(
    partitions: Seq<PartitionDelta>,
    warehouse_id: u16,
    deltas: Seq<DeliveredOrderDelta>,
    n: int,
    w: int,
    d: int,
)
    requires
        partitions.len() == 500,
        0 <= n <= deltas.len(),
        1 <= w <= 50,
        1 <= d <= 10,
        applied_orders_fault(
            partitions,
            Seq::new(deltas.len(), |i: int| delivered_model(warehouse_id, deltas[i])),
            0,
        ) is None,
    ensures
        ({
            let orders = Seq::new(
                deltas.len(),
                |i: int| delivered_model(warehouse_id, deltas[i]),
            );
            let now = delivered_partitions(partitions, orders, n);
            let p = partition_position(w, d);
            let here = warehouse_id == w;
            &&& now.len() == 500
            &&& now[p].new_orders == partitions[p].new_orders
            &&& now[p].new_order_lines == partitions[p].new_order_lines
            &&& now[p].delivered_orders == partitions[p].delivered_orders + if here {
                orders_in(deltas, n, d)
            } else {
                0
            }
            &&& now[p].delivered_order_lines == partitions[p].delivered_order_lines + if here {
                lines_in(deltas, n, d)
            } else {
                0
            }
            &&& (forall|k: int| 0 <= k < n ==> (#[trigger] deltas[k]).district_id != d)
                ==> orders_in(deltas, n, d) == 0 && lines_in(deltas, n, d) == 0
        }),
    decreases n,
{
    if n > 0 {
        let orders = Seq::new(deltas.len(), |i: int| delivered_model(warehouse_id, deltas[i]));
        lemma_district(partitions, warehouse_id, deltas, n - 1, w, d);
        lemma_applied_order_clean(partitions, orders, 0, n - 1);
        assert(orders[n - 1] == delivered_model(warehouse_id, deltas[n - 1]));
        if deltas[n - 1].district_id == d && warehouse_id == w {
            assert forall|k: int| 0 <= k < n - 1 implies (#[trigger] deltas[k]).district_id != d by {
                if deltas[k].district_id == d {
                    assert(orders[k] == delivered_model(warehouse_id, deltas[k]));
                    assert(order_position(orders[k]) == order_position(orders[n - 1]));
                    assert(order_repeats(orders, n - 1));
                }
            }
        }
    }
}

/// What one more event adds to a partition.
proof fn lemma_event_placed(m: LedgerModel, e: EventModel, w: int, d: int)
    requires
        shaped(m),
        event_fault(e) is None,
        apply_fault(m, event_outcome(e)) is None,
        1 <= w <= 50,
        1 <= d <= 10,
    ensures
        ({
            let t = applied(m, event_outcome(e));
            let p = partition_position(w, d);
            &&& shaped(t)
            &&& t.partitions[p].new_orders == m.partitions[p].new_orders + one_if(
                ordered_in(e, w, d),
            )
            &&& t.partitions[p].new_order_lines == m.partitions[p].new_order_lines + if ordered_in(
                e,
                w,
                d,
            ) {
                lines_of(e).len() as int
            } else {
                0
            }
            &&& t.partitions[p].delivered_orders == m.partitions[p].delivered_orders
                + delivered_in(e, w, d)
            &&& t.partitions[p].delivered_order_lines == m.partitions[p].delivered_order_lines
                + delivered_lines_in(e, w, d)
        }),
{
    if let EventModel::Delivery(delta) = e {
        lemma_district(
            m.partitions,
            delta.warehouse_id,
            delta.orders,
            delta.orders.len() as int,
            w,
            d,
        );
    }
}

proof fn lemma_placed(events: Seq<EventModel>, n: int, w: int, d: int)
    requires
        0 <= n <= events.len(),
        forall|i: int| 0 <= i < events.len() ==> #[trigger] replays_at(events, i),
        1 <= w <= 50,
        1 <= d <= 10,
    ensures
        shaped(replayed(events, n)),
        partition_of_events(
            replayed(events, n).partitions[partition_position(w, d)],
            events,
            n,
            w,
            d,
        ),
    decreases n,
{
    if n > 0 {
        lemma_placed(events, n - 1, w, d);
        reveal(replays_at);
        assert(replays_at(events, n - 1));
        lemma_event_placed(replayed(events, n - 1), events[n - 1], w, d);
    }
}

/// Law: a partition of a ledger holds what its events left in its district: the orders
/// entered there with their lines, and the orders delivered there with theirs.
pub proof fn law_partitions_are_those_of_the_events(m: LedgerModel, w: int, d: int)
    requires
        reproducible(m),
        1 <= w <= 50,
        1 <= d <= 10,
    ensures
        ({
            let p = 10 * (w - 1) + (d - 1);
            let keyed = keyed_partitions(m.partitions);
            &&& keyed.len() == 500
            &&& keyed[p].0.warehouse_id == w
            &&& keyed[p].0.district_id == d
            &&& keyed[p].1 == m.partitions[p]
            &&& partition_of_events(m.partitions[p], m.events, m.events.len() as int, w, d)
        }),
{
    lemma_placed(m.events, m.events.len() as int, w, d);
}

/// Law: the ranked events of a ledger are those of the formal windows, in their order.
/// A terminal in time is one of them exactly if its stage is one of the three formal ones;
/// a late one never is.
pub proof fn law_ranked_events_are_those_of_the_windows(events: Seq<EventModel>, stage: u64)
    ensures
        ranked_events(events, events.len() as int) == events.filter(
            |e: EventModel| e.meta().class is RankedWindow,
        ),
        normal_class(stage).ranked() <==> 1 <= stage <= 3,
        normal_class(stage) matches LedgerClass::RankedWindow(k) ==> k + 1 == stage,
        !tail_class(stage).ranked(),
{
    lemma_ranked(events, events.len() as int);
    assert(events.subrange(0, events.len() as int) =~= events);
}

proof fn lemma_ranked(events: Seq<EventModel>, n: int)
    requires
        0 <= n <= events.len(),
    ensures
        ranked_events(events, n) == events.subrange(0, n).filter(
            |e: EventModel| e.meta().class is RankedWindow,
        ),
    decreases n,
{
    reveal(Seq::filter);
    if n > 0 {
        lemma_ranked(events, n - 1);
        assert(events.subrange(0, n).drop_last() =~= events.subrange(0, n - 1));
    }
}

/// Law: the ranked counts are those of the events of the formal windows alone.
pub proof fn law_ranked_counts(events: Seq<EventModel>)
    requires
        events_valid(events),
        replay_fault(ranked_events(events, events.len() as int), 0, "ranked ledger events"@)
            is None,
    ensures
        ({
            let ranked = events.filter(|e: EventModel| e.meta().class is RankedWindow);
            let m = replayed(ranked, ranked.len() as int);
            let counts = committed_counts(m);
            &&& m.events == ranked
            &&& counters_of_events(m, ranked, ranked.len() as int)
            &&& amounts_of_events(m, ranked, ranked.len() as int)
            &&& counts.new_orders == m.new_orders
            &&& counts.new_order_lines == m.new_order_lines
            &&& counts.remote_new_order_lines == m.remote_new_order_lines
            &&& counts.payments == m.payments
            &&& counts.delivered_orders == m.delivered_orders
            &&& counts.delivered_order_lines == m.delivered_order_lines
        }),
{
    law_ranked_events_are_those_of_the_windows(events, 0);
    let ranked = ranked_events(events, events.len() as int);
    assert forall|i: int| 0 <= i < ranked.len() implies #[trigger] replays_at(ranked, i) by {
        reveal(replays_at);
        lemma_replay_accepted(ranked, 0, i);
        lemma_ranked_valid(events, events.len() as int, i);
    }
    lemma_counted(ranked, ranked.len() as int);
    lemma_replayed_holds(ranked, ranked.len() as int);
    assert(ranked.subrange(0, ranked.len() as int) =~= ranked);
}

proof fn lemma_replay_accepted(events: Seq<EventModel>, from: int, i: int)
    requires
        0 <= from <= i < events.len(),
        replay_fault(events, from, "ranked ledger events"@) is None,
    ensures
        apply_fault(replayed(events, i), event_outcome(events[i])) is None,
    decreases i - from,
{
    if from < i {
        lemma_replay_accepted(events, from + 1, i);
    }
}

proof fn lemma_ranked_valid(events: Seq<EventModel>, n: int, i: int)
    requires
        events_valid(events),
        0 <= n <= events.len(),
        0 <= i < ranked_events(events, n).len(),
    ensures
        event_fault(ranked_events(events, n)[i]) is None,
    decreases n,
{
    if n > 0 {
        let before = ranked_events(events, n - 1);
        if i < before.len() {
            lemma_ranked_valid(events, n - 1, i);
        } else {
            assert(ranked_events(events, n)[i] == events[n - 1]);
        }
    }
}

proof fn lemma_replayed_holds(events: Seq<EventModel>, n: int)
    requires
        0 <= n <= events.len(),
    ensures
        replayed(events, n).events == events.subrange(0, n),
    decreases n,
{
    if n > 0 {
        lemma_replayed_holds(events, n - 1);
    }
    assert(replayed(events, n).events =~= events.subrange(0, n));
}

} // verus!
