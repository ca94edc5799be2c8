//! Merging keeps ledgers reproducible from their events.
use vstd::prelude::*;

use crate::ranking::ledger::{
    PartitionDelta, delivery_partition_delta, delta_add_fault, delta_sum, partition_position,
};
use crate::ranking::ledger_events::{OrderModel, OutcomeModel, event_outcome};
use crate::ranking::ledger_rules::{
    aggregates, lemma_applied_ignores_events, lemma_replayed_prefix, lemma_replays_transfer,
    replays_at, reproducible,
};
use crate::ranking::run_ledger::{
    LedgerModel, applied, applied_order_fault, applied_orders_fault, apply_fault,
    delivered_partitions, empty_ledger, lines_delivered, merge_counters_fault, merge_fault,
    merged, order_position, order_repeats, partitions_sum_fault, replayed, shaped,
};

verus! {

/// No field of a partition is negative.
pub open spec fn delta_nonneg(d: PartitionDelta) -> bool {
    d.new_orders >= 0 && d.new_order_lines >= 0 && d.delivered_orders >= 0
        && d.delivered_order_lines >= 0
}

/// Field by field order of partitions.
pub open spec fn delta_below(a: PartitionDelta, b: PartitionDelta) -> bool {
    a.new_orders <= b.new_orders && a.new_order_lines <= b.new_order_lines && a.delivered_orders
        <= b.delivered_orders && a.delivered_order_lines <= b.delivered_order_lines
}

/// No counter or partition field is negative.
pub open spec fn nonneg(m: LedgerModel) -> bool {
    &&& m.new_orders >= 0
    &&& m.new_order_lines >= 0
    &&& m.remote_new_order_lines >= 0
    &&& m.stock_ytd_delta >= 0
    &&& m.payments >= 0
    &&& m.delivery_commits >= 0
    &&& m.delivered_orders >= 0
    &&& m.delivered_order_lines >= 0
    &&& m.order_status_commits >= 0
    &&& m.stock_level_commits >= 0
    &&& m.expected_rollbacks >= 0
    &&& forall|p: int| 0 <= p < m.partitions.len() ==> delta_nonneg(#[trigger] m.partitions[p])
}

/// Field by field order of ledgers; lists by length.
pub open spec fn below(a: LedgerModel, b: LedgerModel) -> bool {
    &&& a.new_orders <= b.new_orders
    &&& a.new_order_lines <= b.new_order_lines
    &&& a.remote_new_order_lines <= b.remote_new_order_lines
    &&& a.stock_ytd_delta <= b.stock_ytd_delta
    &&& a.payments <= b.payments
    &&& a.delivery_commits <= b.delivery_commits
    &&& a.delivered_orders <= b.delivered_orders
    &&& a.delivered_order_lines <= b.delivered_order_lines
    &&& a.order_status_commits <= b.order_status_commits
    &&& a.stock_level_commits <= b.stock_level_commits
    &&& a.expected_rollbacks <= b.expected_rollbacks
    &&& a.new_order_line_amount_bits.len() <= b.new_order_line_amount_bits.len()
    &&& a.payment_amount_bits.len() <= b.payment_amount_bits.len()
    &&& a.delivery_customer_amount_bits.len() <= b.delivery_customer_amount_bits.len()
    &&& a.partitions.len() == b.partitions.len()
    &&& forall|p: int|
        0 <= p < a.partitions.len() ==> delta_below(#[trigger] a.partitions[p], b.partitions[p])
}

/// The sums of two ledgers stay in range.
pub open spec fn sums_fit(a: LedgerModel, b: LedgerModel) -> bool {
    &&& merge_counters_fault(a, b) is None
    &&& a.partitions.len() == b.partitions.len()
    &&& forall|p: int|
        0 <= p < a.partitions.len() ==> delta_add_fault(
            #[trigger] a.partitions[p],
            b.partitions[p],
        ) is None
    &&& a.new_order_line_amount_bits.len() + b.new_order_line_amount_bits.len() <= usize::MAX
    &&& a.payment_amount_bits.len() + b.payment_amount_bits.len() <= usize::MAX
    &&& a.delivery_customer_amount_bits.len() + b.delivery_customer_amount_bits.len() <= usize::MAX
}

proof fn lemma_partition_sums(a: Seq<PartitionDelta>, b: Seq<PartitionDelta>, i: int, p: int)
    requires
        0 <= i <= p < a.len(),
        partitions_sum_fault(a, b, i) is None,
    ensures
        delta_add_fault(a[p], b[p]) is None,
    decreases p - i,
{
    if i < p {
        lemma_partition_sums(a, b, i + 1, p);
    }
}

proof fn lemma_merge_fits(a: LedgerModel, b: LedgerModel)
    requires
        merge_fault(a, b) is None,
        a.partitions.len() == b.partitions.len(),
    ensures
        sums_fit(a, b),
{
    assert forall|p: int| 0 <= p < a.partitions.len() implies delta_add_fault(
        #[trigger] a.partitions[p],
        b.partitions[p],
    ) is None by {
        lemma_partition_sums(a.partitions, b.partitions, 0, p);
    }
}

proof fn lemma_smaller_fits(a: LedgerModel, small: LedgerModel, b: LedgerModel)
    requires
        sums_fit(a, b),
        nonneg(a),
        nonneg(small),
        below(small, b),
    ensures
        sums_fit(a, small),
{
    assert forall|p: int| 0 <= p < a.partitions.len() implies delta_add_fault(
        #[trigger] a.partitions[p],
        small.partitions[p],
    ) is None by {
        assert(delta_nonneg(a.partitions[p]));
        assert(delta_nonneg(small.partitions[p]));
        assert(delta_below(small.partitions[p], b.partitions[p]));
        assert(delta_add_fault(a.partitions[p], b.partitions[p]) is None);
    }
}

/// A clean list of orders has no faulty member.
pub proof fn lemma_applied_order_clean(
    partitions: Seq<PartitionDelta>,
    orders: Seq<OrderModel>,
    i: int,
    k: int,
)
    requires
        0 <= i <= k < orders.len(),
        applied_orders_fault(partitions, orders, i) is None,
    ensures
        applied_order_fault(partitions, orders, k) is None,
    decreases k - i,
{
    if i < k {
        lemma_applied_order_clean(partitions, orders, i + 1, k);
    }
}

/// Every partition after a Delivery is its old value, plus the one order that
/// was delivered from it, if any.
proof fn lemma_delivered_value(
    partitions: Seq<PartitionDelta>,
    orders: Seq<OrderModel>,
    n: int,
    p: int,
)
    requires
        partitions.len() == 500,
        0 <= n <= orders.len(),
        applied_orders_fault(partitions, orders, 0) is None,
        0 <= p < 500,
    ensures
        delivered_partitions(partitions, orders, n).len() == 500,
        forall|k: int|
            0 <= k < n && order_position(#[trigger] orders[k]) == p ==> delivered_partitions(
                partitions,
                orders,
                n,
            )[p] == delta_sum(
                partitions[p],
                delivery_partition_delta(orders[k].line_count as i64),
            ),
        (forall|k: int| 0 <= k < n ==> order_position(#[trigger] orders[k]) != p)
            ==> delivered_partitions(partitions, orders, n)[p] == partitions[p],
    decreases n,
{
    if n > 0 {
        lemma_delivered_value(partitions, orders, n - 1, p);
        lemma_applied_order_clean(partitions, orders, 0, n - 1);
        let last = order_position(orders[n - 1]);
        assert(0 <= last < 500);
        assert forall|k: int| 0 <= k < n - 1 implies order_position(#[trigger] orders[k]) != last by {
            if order_position(orders[k]) == last {
                assert(order_repeats(orders, n - 1));
            }
        }
    }
}

/// The orders that can be applied to one list of partitions can be applied to
/// another, as far as the sums allow.
proof fn lemma_orders_clean_elsewhere(
    from: Seq<PartitionDelta>,
    to: Seq<PartitionDelta>,
    orders: Seq<OrderModel>,
    i: int,
)
    requires
        0 <= i <= orders.len(),
        applied_orders_fault(from, orders, i) is None,
        forall|k: int|
            i <= k < orders.len() ==> delta_add_fault(
                to[order_position(#[trigger] orders[k])],
                delivery_partition_delta(orders[k].line_count as i64),
            ) is None,
    ensures
        applied_orders_fault(to, orders, i) is None,
    decreases orders.len() - i,
{
    if i < orders.len() {
        lemma_orders_clean_elsewhere(from, to, orders, i + 1);
        assert(applied_order_fault(from, orders, i) is None);
        assert(delta_add_fault(
            to[order_position(orders[i])],
            delivery_partition_delta(orders[i].line_count as i64),
        ) is None);
    }
}

proof fn lemma_lines_delivered_nonneg(orders: Seq<OrderModel>, n: int)
    ensures
        lines_delivered(orders, n) >= 0,
    decreases n,
{
    if n > 0 {
        lemma_lines_delivered_nonneg(orders, n - 1);
    }
}

/// Applying an outcome lets nothing shrink.
proof fn lemma_apply_grows(m: LedgerModel, outcome: OutcomeModel)
    requires
        shaped(m),
        nonneg(m),
        apply_fault(m, outcome) is None,
    ensures
        shaped(applied(m, outcome)),
        nonneg(applied(m, outcome)),
        below(m, applied(m, outcome)),
{
    let next = applied(m, outcome);
    match outcome {
        OutcomeModel::NewOrder {
            warehouse_id,
            district_id,
            order_id,
            line_count,
            remote_line_count,
            stock_ytd_delta,
            amounts,
        } => {
            let position = partition_position(warehouse_id as int, district_id as int);
            assert forall|p: int| 0 <= p < 500 implies delta_nonneg(#[trigger] next.partitions[p])
                && delta_below(m.partitions[p], next.partitions[p]) by {
                assert(delta_nonneg(m.partitions[p]));
                if p == position {
                    assert(delta_nonneg(m.partitions[position]));
                }
            }
        },
        OutcomeModel::Delivery(orders) => {
            lemma_lines_delivered_nonneg(orders, orders.len() as int);
            lemma_delivered_value(m.partitions, orders, orders.len() as int, 0);
            assert forall|p: int| 0 <= p < 500 implies delta_nonneg(#[trigger] next.partitions[p])
                && delta_below(m.partitions[p], next.partitions[p]) by {
                assert(delta_nonneg(m.partitions[p]));
                lemma_delivered_value(m.partitions, orders, orders.len() as int, p);
                if exists|k: int|
                    0 <= k < orders.len() && order_position(#[trigger] orders[k]) == p {
                    let k = choose|k: int|
                        0 <= k < orders.len() && order_position(#[trigger] orders[k]) == p;
                    lemma_applied_order_clean(m.partitions, orders, 0, k);
                    assert(order_position(orders[k]) == p);
                }
            }
        },
        _ => {
            assert forall|p: int| 0 <= p < 500 implies delta_nonneg(#[trigger] next.partitions[p])
                && delta_below(m.partitions[p], next.partitions[p]) by {
                assert(delta_nonneg(m.partitions[p]));
            }
        },
    }
}

/// Applying an outcome and adding a ledger commute.
proof fn lemma_apply_commutes(a: LedgerModel, b: LedgerModel, outcome: OutcomeModel)
    requires
        shaped(a),
        shaped(b),
        nonneg(a),
        nonneg(b),
        apply_fault(b, outcome) is None,
        sums_fit(a, b),
        sums_fit(a, applied(b, outcome)),
    ensures
        apply_fault(merged(a, b), outcome) is None,
        aggregates(applied(merged(a, b), outcome)) == aggregates(merged(a, applied(b, outcome))),
{
    lemma_apply_grows(b, outcome);
    let both = merged(a, b);
    let next = applied(b, outcome);
    match outcome {
        OutcomeModel::NewOrder {
            warehouse_id,
            district_id,
            order_id,
            line_count,
            remote_line_count,
            stock_ytd_delta,
            amounts,
        } => {
            let position = partition_position(warehouse_id as int, district_id as int);
            assert(delta_nonneg(a.partitions[position]));
            assert(delta_nonneg(b.partitions[position]));
            assert(delta_add_fault(a.partitions[position], b.partitions[position]) is None);
            assert(delta_add_fault(a.partitions[position], next.partitions[position]) is None);
            let left = applied(both, outcome).partitions;
            let right = merged(a, next).partitions;
            assert forall|p: int| 0 <= p < 500 implies left[p] == right[p] by {
                assert(delta_add_fault(a.partitions[p], b.partitions[p]) is None);
            }
            assert(left =~= right);
            assert(applied(both, outcome).new_order_line_amount_bits =~= merged(
                a,
                next,
            ).new_order_line_amount_bits);
        },
        OutcomeModel::Delivery(orders) => {
            let n = orders.len() as int;
            lemma_lines_delivered_nonneg(orders, n);
            assert forall|k: int| 0 <= k < n implies delta_add_fault(
                both.partitions[order_position(#[trigger] orders[k])],
                delivery_partition_delta(orders[k].line_count as i64),
            ) is None by {
                let p = order_position(orders[k]);
                lemma_applied_order_clean(b.partitions, orders, 0, k);
                lemma_delivered_value(b.partitions, orders, n, p);
                assert(delta_nonneg(a.partitions[p]));
                assert(delta_nonneg(b.partitions[p]));
                assert(delta_add_fault(a.partitions[p], b.partitions[p]) is None);
                assert(delta_add_fault(a.partitions[p], next.partitions[p]) is None);
            }
            lemma_orders_clean_elsewhere(b.partitions, both.partitions, orders, 0);
            let left = applied(both, outcome).partitions;
            let right = merged(a, next).partitions;
            lemma_delivered_value(both.partitions, orders, n, 0);
            assert forall|p: int| 0 <= p < 500 implies left[p] == right[p] by {
                lemma_delivered_value(both.partitions, orders, n, p);
                lemma_delivered_value(b.partitions, orders, n, p);
                assert(delta_add_fault(a.partitions[p], b.partitions[p]) is None);
                assert(delta_add_fault(a.partitions[p], next.partitions[p]) is None);
                if exists|k: int| 0 <= k < n && order_position(#[trigger] orders[k]) == p {
                    let k = choose|k: int| 0 <= k < n && order_position(#[trigger] orders[k]) == p;
                    lemma_applied_order_clean(b.partitions, orders, 0, k);
                    assert(order_position(orders[k]) == p);
                }
            }
            assert(left =~= right);
            assert(applied(both, outcome).delivery_customer_amount_bits =~= merged(
                a,
                next,
            ).delivery_customer_amount_bits);
        },
        OutcomeModel::Payment {
            warehouse_id,
            district_id,
            customer_warehouse_id,
            customer_district_id,
            customer_id,
            amount_bits,
        } => {
            assert(applied(both, outcome).payment_amount_bits =~= merged(
                a,
                next,
            ).payment_amount_bits);
        },
        _ => {},
    }
}

/// The states of a replay grow step by step.
proof fn lemma_replay_grows(m: LedgerModel, k: int, n: int)
    requires
        reproducible(m),
        0 <= k <= n <= m.events.len(),
    ensures
        shaped(replayed(m.events, k)),
        nonneg(replayed(m.events, k)),
        shaped(replayed(m.events, n)),
        nonneg(replayed(m.events, n)),
        below(replayed(m.events, k), replayed(m.events, n)),
    decreases n,
{
    if n == 0 {
    } else if k == n {
        lemma_replay_grows(m, n - 1, n - 1);
        let before = replayed(m.events, n - 1);
        assert(replays_at(m.events, n - 1));
        reveal(replays_at);
        lemma_apply_grows(before, event_outcome(m.events[n - 1]));
    } else {
        lemma_replay_grows(m, k, n - 1);
        let before = replayed(m.events, n - 1);
        assert(replays_at(m.events, n - 1));
        reveal(replays_at);
        lemma_apply_grows(before, event_outcome(m.events[n - 1]));
        let start = replayed(m.events, k);
        let end = replayed(m.events, n);
        assert forall|p: int| 0 <= p < start.partitions.len() implies delta_below(
            #[trigger] start.partitions[p],
            end.partitions[p],
        ) by {
            assert(delta_below(start.partitions[p], before.partitions[p]));
            assert(delta_below(before.partitions[p], end.partitions[p]));
        }
    }
}

/// One replay step on a sum is one step on the added ledger.
proof fn lemma_merge_step(
    a: LedgerModel,
    part: LedgerModel,
    left: LedgerModel,
    outcome: OutcomeModel,
)
    requires
        shaped(a),
        shaped(part),
        nonneg(a),
        nonneg(part),
        apply_fault(part, outcome) is None,
        sums_fit(a, part),
        sums_fit(a, applied(part, outcome)),
        aggregates(left) == aggregates(merged(a, part)),
    ensures
        apply_fault(left, outcome) is None,
        aggregates(applied(left, outcome)) == aggregates(merged(a, applied(part, outcome))),
{
    lemma_apply_commutes(a, part, outcome);
    let both = merged(a, part);
    lemma_applied_ignores_events(left, outcome, Seq::empty());
    lemma_applied_ignores_events(both, outcome, Seq::empty());
    assert(aggregates(applied(left, outcome)) =~= applied(aggregates(left), outcome));
    assert(aggregates(applied(both, outcome)) =~= applied(aggregates(both), outcome));
}

/// Adding the empty ledger changes nothing.
proof fn lemma_merge_empty(a: LedgerModel)
    requires
        shaped(a),
    ensures
        aggregates(merged(a, empty_ledger())) == aggregates(a),
{
    let start = merged(a, empty_ledger());
    assert forall|p: int| 0 <= p < 500 implies start.partitions[p] == a.partitions[p] by {}
    assert(start.partitions =~= a.partitions);
    assert(start.new_order_line_amount_bits =~= a.new_order_line_amount_bits);
    assert(start.payment_amount_bits =~= a.payment_amount_bits);
    assert(start.delivery_customer_amount_bits =~= a.delivery_customer_amount_bits);
}

/// The replay states of `b` fit on top of `a`.
proof fn lemma_part_fits(a: LedgerModel, b: LedgerModel, k: int)
    requires
        reproducible(a),
        reproducible(b),
        merge_fault(a, b) is None,
        0 <= k <= b.events.len(),
    ensures
        shaped(a),
        nonneg(a),
        shaped(replayed(b.events, k)),
        nonneg(replayed(b.events, k)),
        sums_fit(a, replayed(b.events, k)),
{
    let n = a.events.len() as int;
    let size = b.events.len() as int;
    lemma_replay_grows(a, n, n);
    lemma_replay_grows(b, k, size);
    lemma_merge_fits(a, b);
    lemma_smaller_fits(a, replayed(b.events, k), b);
}

/// A step of `b` on top of `a`.
proof fn lemma_merge_advance(a: LedgerModel, b: LedgerModel, k: int, left: LedgerModel)
    requires
        reproducible(a),
        reproducible(b),
        merge_fault(a, b) is None,
        0 <= k < b.events.len(),
        aggregates(left) == aggregates(merged(a, replayed(b.events, k))),
    ensures
        apply_fault(left, event_outcome(b.events[k])) is None,
        aggregates(applied(left, event_outcome(b.events[k]))) == aggregates(
            merged(a, replayed(b.events, k + 1)),
        ),
{
    lemma_part_fits(a, b, k);
    lemma_part_fits(a, b, k + 1);
    let part = replayed(b.events, k);
    let outcome = event_outcome(b.events[k]);
    assert(apply_fault(part, outcome) is None) by {
        assert(replays_at(b.events, k));
        reveal(replays_at);
    }
    let next = replayed(b.events, k + 1);
    assert(sums_fit(a, applied(part, outcome))) by {
        assert(applied(part, outcome).partitions == next.partitions);
    }
    lemma_merge_step(a, part, left, outcome);
    assert(aggregates(merged(a, next)) =~= aggregates(merged(a, applied(part, outcome))));
}

proof fn lemma_merge_replay(a: LedgerModel, b: LedgerModel, k: int)
    requires
        reproducible(a),
        reproducible(b),
        merge_fault(a, b) is None,
        0 <= k <= b.events.len(),
    ensures
        aggregates(replayed(a.events + b.events, a.events.len() + k)) == aggregates(
            merged(a, replayed(b.events, k)),
        ),
        replayed(a.events + b.events, a.events.len() + k).events == a.events + b.events.subrange(
            0,
            k,
        ),
    decreases k,
{
    let e = a.events + b.events;
    let n = a.events.len() as int;
    if k == 0 {
        lemma_replayed_prefix(e, a.events, n);
        lemma_part_fits(a, b, 0);
        lemma_merge_empty(a);
        assert(a.events + b.events.subrange(0, 0) =~= a.events);
    } else {
        lemma_merge_replay(a, b, k - 1);
        let left = replayed(e, n + k - 1);
        lemma_merge_advance(a, b, k - 1, left);
        assert(e[n + k - 1] == b.events[k - 1]);
        let outcome = event_outcome(b.events[k - 1]);
        assert(aggregates(replayed(e, n + k)) =~= aggregates(applied(left, outcome)));
        assert(a.events + b.events.subrange(0, k) =~= (a.events + b.events.subrange(0, k - 1)).push(
            b.events[k - 1],
        ));
    }
}

/// Every event of the merged list can be replayed in turn.
proof fn lemma_merged_event_replays(a: LedgerModel, b: LedgerModel, i: int)
    requires
        reproducible(a),
        reproducible(b),
        merge_fault(a, b) is None,
        0 <= i < a.events.len() + b.events.len(),
    ensures
        replays_at(a.events + b.events, i),
{
    let e = a.events + b.events;
    let n = a.events.len() as int;
    if i < n {
        lemma_replays_transfer(a.events, e, i);
    } else {
        lemma_merge_replay(a, b, i - n);
        assert(e[i] == b.events[i - n]);
        lemma_merge_advance(a, b, i - n, replayed(e, i));
        assert(replays_at(b.events, i - n));
        reveal(replays_at);
    }
}

proof fn lemma_merged_is_replayed(a: LedgerModel, b: LedgerModel)
    requires
        reproducible(a),
        reproducible(b),
        merge_fault(a, b) is None,
    ensures
        merged(a, b) == replayed(a.events + b.events, (a.events + b.events).len() as int),
{
    let size = b.events.len() as int;
    lemma_merge_replay(a, b, size);
    assert(b.events.subrange(0, size) =~= b.events);
    let end = replayed(a.events + b.events, (a.events + b.events).len() as int);
    assert(aggregates(end) == aggregates(merged(a, b)));
    assert(end =~= merged(a, b));
}

/// Merging two ledgers that their events reproduce gives a third such ledger.
pub proof fn law_merge_keeps_reproducible(a: LedgerModel, b: LedgerModel)
    requires
        reproducible(a),
        reproducible(b),
        merge_fault(a, b) is None,
    ensures
        reproducible(merged(a, b)),
{
    let m = merged(a, b);
    lemma_merged_is_replayed(a, b);
    assert forall|i: int| 0 <= i < m.events.len() implies #[trigger] replays_at(m.events, i) by {
        lemma_merged_event_replays(a, b, i);
    }
}

} // verus!
