//! What the physical account keeps.
use vstd::prelude::*;

use crate::accumulator::{SumModel, with_list, with_terms};
use crate::ranking::bounded_stats::{
    StatsModel, classes_fault, delta_refusal, incremented, increments_fault, lemma_delivered_each,
    lemma_delta_in_domain, offer_fault, partitions_fault, partitions_total,
    partitions_total_fault, stats_fault, stats_shaped, total_of, totals_fault, with_delta,
};
use crate::ranking::bounded_terminal::{
    DeltaModel, PartitionIncrement, bounded_terminal_fault, delivered_increment, delivered_lines,
    repeats_district, terminal_delta,
};
use crate::ranking::bounded_totals::{
    ClassTotals, PartitionTotals, class_sum, class_sum_fault, class_totals_fault, partition_sum,
    partition_sum_fault, partition_totals_fault,
};
use crate::ranking::ledger::LedgerClass;
use crate::ranking::runner::{DeliveredOrderEvidence, RankedCommit, RankedTransactionOutcome};
use crate::workload::TransactionTicket;

verus! {

/// Whether no counter of `a` exceeds its counterpart in `b`.
pub open spec fn class_at_most(a: ClassTotals, b: ClassTotals) -> bool {
    &&& a.new_order_commits <= b.new_order_commits
    &&& a.payment_commits <= b.payment_commits
    &&& a.order_status_commits <= b.order_status_commits
    &&& a.delivery_commits <= b.delivery_commits
    &&& a.stock_level_commits <= b.stock_level_commits
    &&& a.expected_rollbacks <= b.expected_rollbacks
    &&& a.new_orders <= b.new_orders
    &&& a.new_order_lines <= b.new_order_lines
    &&& a.remote_new_order_lines <= b.remote_new_order_lines
    &&& a.stock_quantity_delta <= b.stock_quantity_delta
    &&& a.delivered_orders <= b.delivered_orders
    &&& a.delivered_order_lines <= b.delivered_order_lines
}

/// Whether no counter of `a` exceeds its counterpart in `b`.
pub open spec fn partition_at_most(a: PartitionTotals, b: PartitionTotals) -> bool {
    &&& a.new_orders <= b.new_orders
    &&& a.new_order_lines <= b.new_order_lines
    &&& a.delivered_orders <= b.delivered_orders
    &&& a.delivered_order_lines <= b.delivered_order_lines
}

proof fn lemma_total_monotone(classes: Seq<ClassTotals>, n: int, m: int)
    requires
        0 <= n <= m,
        totals_fault(classes, m) is None,
    ensures
        totals_fault(classes, n) is None,
        class_at_most(total_of(classes, n), total_of(classes, m)),
    decreases m,
{
    if n < m {
        lemma_total_monotone(classes, n, m - 1);
    }
}

/// One class grows by `d`: the total grows by `d`.
pub proof fn lemma_total_update(classes: Seq<ClassTotals>, k: int, d: ClassTotals, n: int)
    requires
        0 <= k < classes.len(),
        0 <= n <= classes.len(),
        totals_fault(classes, classes.len() as int) is None,
        class_sum_fault(total_of(classes, classes.len() as int), d) is None,
    ensures
        ({
            let grown = classes.update(k, class_sum(classes[k], d));
            &&& totals_fault(grown, n) is None
            &&& n <= k ==> total_of(grown, n) == total_of(classes, n)
            &&& n > k ==> total_of(grown, n) == class_sum(total_of(classes, n), d)
        }),
    decreases n,
{
    let grown = classes.update(k, class_sum(classes[k], d));
    if n > 0 {
        lemma_total_update(classes, k, d, n - 1);
        lemma_total_monotone(classes, n, classes.len() as int);
        lemma_total_monotone(classes, n - 1, classes.len() as int);
        assert(class_sum_fault(total_of(classes, n - 1), classes[n - 1]) is None);
    }
}

proof fn lemma_partitions_monotone(partitions: Seq<PartitionTotals>, n: int, m: int)
    requires
        0 <= n <= m,
        partitions_total_fault(partitions, m) is None,
    ensures
        partitions_total_fault(partitions, n) is None,
        partition_at_most(partitions_total(partitions, n), partitions_total(partitions, m)),
    decreases m,
{
    if n < m {
        lemma_partitions_monotone(partitions, n, m - 1);
    }
}

/// One partition grows by `d`: the total grows by `d`.
proof fn lemma_partitions_update(
    partitions: Seq<PartitionTotals>,
    k: int,
    d: PartitionTotals,
    n: int,
)
    requires
        0 <= k < partitions.len(),
        0 <= n <= partitions.len(),
        partitions_total_fault(partitions, partitions.len() as int) is None,
        partition_sum_fault(partitions_total(partitions, partitions.len() as int), d) is None,
    ensures
        ({
            let grown = partitions.update(k, partition_sum(partitions[k], d));
            &&& partitions_total_fault(grown, n) is None
            &&& n <= k ==> partitions_total(grown, n) == partitions_total(partitions, n)
            &&& n > k ==> partitions_total(grown, n) == partition_sum(
                partitions_total(partitions, n),
                d,
            )
        }),
    decreases n,
{
    if n > 0 {
        lemma_partitions_update(partitions, k, d, n - 1);
        lemma_partitions_monotone(partitions, n, partitions.len() as int);
        lemma_partitions_monotone(partitions, n - 1, partitions.len() as int);
        assert(partition_sum_fault(partitions_total(partitions, n - 1), partitions[n - 1])
            is None);
    }
}

/// No two increments touch the same partition.
pub open spec fn increments_distinct(increments: Seq<PartitionIncrement>) -> bool {
    forall|i: int, j: int|
        0 <= i < j < increments.len() ==> (#[trigger] increments[i]).index != (
        #[trigger] increments[j]).index
}

/// Sums over the first `n` increments: orders and lines, new and delivered.
pub open spec fn increments_sum(increments: Seq<PartitionIncrement>, n: int) -> (
    nat,
    nat,
    nat,
    nat,
)
    decreases n,
{
    if n <= 0 {
        (0, 0, 0, 0)
    } else {
        let before = increments_sum(increments, n - 1);
        let d = increments[n - 1].delta;
        (
            before.0 + d.new_orders as nat,
            before.1 + d.new_order_lines as nat,
            before.2 + d.delivered_orders as nat,
            before.3 + d.delivered_order_lines as nat,
        )
    }
}

/// Whether a delta adds to the partitions and sums what it adds to its class.
pub open spec fn delta_balanced(d: DeltaModel) -> bool {
    let c = d.class_totals;
    &&& 0 <= d.class_index < 9
    &&& forall|i: int| 0 <= i < d.partitions.len() ==> (#[trigger] d.partitions[i]).index < 500
    &&& increments_distinct(d.partitions)
    &&& increments_sum(d.partitions, d.partitions.len() as int) == (
        c.new_orders as nat,
        c.new_order_lines as nat,
        c.delivered_orders as nat,
        c.delivered_order_lines as nat,
    )
    &&& c.payment_commits == if d.payment_amount is Some {
        1int
    } else {
        0int
    }
    &&& c.new_order_lines == d.line_amounts.len()
    &&& c.delivered_orders == d.delivery_amounts.len()
}

proof fn lemma_delivered_sum(orders: Seq<DeliveredOrderEvidence>, n: int)
    requires
        0 <= n <= orders.len() <= 10,
    ensures
        increments_sum(
            Seq::new(orders.len(), |i: int| delivered_increment(orders[i])),
            n,
        ) == (0nat, 0nat, n as nat, delivered_lines(orders, n)),
        delivered_lines(orders, n) <= 255 * n,
    decreases n,
{
    if n > 0 {
        lemma_delivered_sum(orders, n - 1);
    }
}

/// What an accepted terminal adds is balanced.
pub proof fn law_terminal_delta_is_balanced(
    class: LedgerClass,
    ticket: TransactionTicket,
    outcome: RankedTransactionOutcome,
)
    requires
        bounded_terminal_fault(class, ticket, outcome) is None,
    ensures
        delta_balanced(terminal_delta(class, ticket, outcome)),
{
    let d = terminal_delta(class, ticket, outcome);
    lemma_delta_in_domain(class, ticket, outcome);
    reveal_with_fuel(increments_sum, 2);
    if let RankedTransactionOutcome::Committed(RankedCommit::Delivery(orders)) = outcome {
        let home = ticket.route.home_warehouse;
        lemma_delivered_sum(orders@, orders@.len() as int);
        assert forall|i: int, j: int| 0 <= i < j < d.partitions.len() implies (
        #[trigger] d.partitions[i]).index != (#[trigger] d.partitions[j]).index by {
            lemma_delivered_each(home, orders@, 0, i);
            lemma_delivered_each(home, orders@, 0, j);
            assert(!repeats_district(orders@, j));
            assert(orders@[i].district_id != orders@[j].district_id);
        }
    }
}

proof fn lemma_list_terms(s: SumModel, amounts: Seq<u32>, i: int)
    requires
        0 <= i <= amounts.len(),
    ensures
        with_list(s, amounts, i).terms == s.terms + amounts.len() - i,
    decreases amounts.len() - i,
{
    if i < amounts.len() {
        lemma_list_terms(with_terms(s, amounts[i], 1), amounts, i + 1);
    }
}

pub proof fn lemma_classes_valid(s: StatsModel, from: int, i: int)
    requires
        classes_fault(s, from) is None,
        0 <= from <= i < 9,
    ensures
        class_totals_fault(s.classes[i]) is None,
        s.payments[i].terms == s.classes[i].payment_commits,
        s.lines[i].terms == s.classes[i].new_order_lines,
        s.deliveries[i].terms == s.classes[i].delivered_orders,
    decreases i - from,
{
    if from < i {
        lemma_classes_valid(s, from + 1, i);
    }
}

pub proof fn lemma_classes_all_valid(s: StatsModel, from: int)
    requires
        0 <= from <= 9,
        forall|i: int|
            from <= i < 9 ==> class_totals_fault(#[trigger] s.classes[i]) is None
                && s.payments[i].terms == s.classes[i].payment_commits && s.lines[i].terms
                == s.classes[i].new_order_lines && s.deliveries[i].terms
                == s.classes[i].delivered_orders,
    ensures
        classes_fault(s, from) is None,
    decreases 9 - from,
{
    if from < 9 {
        lemma_classes_all_valid(s, from + 1);
    }
}

pub proof fn lemma_partitions_valid(partitions: Seq<PartitionTotals>, from: int, i: int)
    requires
        partitions_fault(partitions, from) is None,
        0 <= from <= i < partitions.len(),
    ensures
        partition_totals_fault(partitions[i]) is None,
    decreases i - from,
{
    if from < i {
        lemma_partitions_valid(partitions, from + 1, i);
    }
}

pub proof fn lemma_partitions_all_valid(partitions: Seq<PartitionTotals>, from: int)
    requires
        0 <= from <= partitions.len(),
        forall|i: int|
            from <= i < partitions.len() ==> partition_totals_fault(#[trigger] partitions[i]) is None,
    ensures
        partitions_fault(partitions, from) is None,
    decreases partitions.len() - from,
{
    if from < partitions.len() {
        lemma_partitions_all_valid(partitions, from + 1);
    }
}

/// An accepted increment is in range.
pub proof fn lemma_increments_valid(
    partitions: Seq<PartitionTotals>,
    increments: Seq<PartitionIncrement>,
    from: int,
    i: int,
)
    requires
        increments_fault(partitions, increments, from) is None,
        0 <= from <= i < increments.len(),
    ensures
        partition_sum_fault(partitions[increments[i].index as int], increments[i].delta) is None,
        partition_totals_fault(
            partition_sum(partitions[increments[i].index as int], increments[i].delta),
        ) is None,
    decreases i - from,
{
    if from < i {
        lemma_increments_valid(partitions, increments, from + 1, i);
    }
}

/// The partitions after the first `n` increments: each is as it was or grown
/// by its own increment, all are valid, and the total has grown by the sum.
proof fn lemma_incremented(
    partitions: Seq<PartitionTotals>,
    increments: Seq<PartitionIncrement>,
    n: int,
)
    requires
        partitions.len() == 500,
        0 <= n <= increments.len(),
        forall|i: int| 0 <= i < increments.len() ==> (#[trigger] increments[i]).index < 500,
        increments_distinct(increments),
        increments_fault(partitions, increments, 0) is None,
        partitions_fault(partitions, 0) is None,
        partitions_total_fault(partitions, 500) is None,
        ({
            let sum = increments_sum(increments, increments.len() as int);
            let total = partitions_total(partitions, 500);
            &&& total.new_orders + sum.0 <= u64::MAX
            &&& total.new_order_lines + sum.1 <= u64::MAX
            &&& total.delivered_orders + sum.2 <= u64::MAX
            &&& total.delivered_order_lines + sum.3 <= u64::MAX
        }),
    ensures
        ({
            let grown = incremented(partitions, increments, n);
            let sum = increments_sum(increments, n);
            let total = partitions_total(partitions, 500);
            &&& grown.len() == 500
            &&& forall|i: int|
                n <= i < increments.len() ==> grown[(#[trigger] increments[i]).index as int]
                    == partitions[increments[i].index as int]
            &&& partitions_fault(grown, 0) is None
            &&& partitions_total_fault(grown, 500) is None
            &&& partitions_total(grown, 500).new_orders == total.new_orders + sum.0
            &&& partitions_total(grown, 500).new_order_lines == total.new_order_lines + sum.1
            &&& partitions_total(grown, 500).delivered_orders == total.delivered_orders + sum.2
            &&& partitions_total(grown, 500).delivered_order_lines == total.delivered_order_lines
                + sum.3
        }),
    decreases n,
{
    if n > 0 {
        lemma_incremented(partitions, increments, n - 1);
        let before = incremented(partitions, increments, n - 1);
        let u = increments[n - 1];
        let at = u.index as int;
        let grown = incremented(partitions, increments, n);
        lemma_increments_sum_monotone(increments, n, increments.len() as int);
        assert(before[at] == partitions[at]);
        lemma_increments_valid(partitions, increments, 0, n - 1);
        assert(partition_sum_fault(partitions_total(before, 500), u.delta) is None);
        lemma_partitions_update(before, at, u.delta, 500);
        assert forall|i: int| 0 <= i < 500 implies partition_totals_fault(
            #[trigger] grown[i],
        ) is None by {
            lemma_partitions_valid(before, 0, i);
        }
        lemma_partitions_all_valid(grown, 0);
    }
}

proof fn lemma_increments_sum_monotone(increments: Seq<PartitionIncrement>, n: int, m: int)
    requires
        0 <= n <= m,
    ensures
        increments_sum(increments, n).0 <= increments_sum(increments, m).0,
        increments_sum(increments, n).1 <= increments_sum(increments, m).1,
        increments_sum(increments, n).2 <= increments_sum(increments, m).2,
        increments_sum(increments, n).3 <= increments_sum(increments, m).3,
    decreases m,
{
    if n < m {
        lemma_increments_sum_monotone(increments, n, m - 1);
    }
}

/// A consistent account that accepts a balanced delta stays consistent.
proof fn lemma_delta_keeps_consistent(s: StatsModel, d: DeltaModel)
    requires
        stats_shaped(s),
        stats_fault(s) is None,
        delta_balanced(d),
        delta_refusal(s, d) is None,
    ensures
        stats_fault(with_delta(s, d)) is None,
{
    let k = d.class_index;
    let t = with_delta(s, d);
    lemma_total_update(s.classes, k, d.class_totals, 9);
    lemma_list_terms(s.lines[k], d.line_amounts, 0);
    lemma_list_terms(s.deliveries[k], d.delivery_amounts, 0);
    assert forall|i: int| 0 <= i < 9 implies class_totals_fault(#[trigger] t.classes[i]) is None
        && t.payments[i].terms == t.classes[i].payment_commits && t.lines[i].terms
        == t.classes[i].new_order_lines && t.deliveries[i].terms
        == t.classes[i].delivered_orders by {
        lemma_classes_valid(s, 0, i);
    }
    lemma_classes_all_valid(t, 0);
    lemma_incremented(s.partitions, d.partitions, d.partitions.len() as int);
}

/// An accepted terminal keeps a consistent account consistent.
pub proof fn law_offer_keeps_consistent(
    s: StatsModel,
    class: LedgerClass,
    ticket: TransactionTicket,
    outcome: RankedTransactionOutcome,
)
    requires
        stats_shaped(s),
        stats_fault(s) is None,
        offer_fault(s, class, ticket, outcome) is None,
    ensures
        stats_fault(with_delta(s, terminal_delta(class, ticket, outcome))) is None,
{
    law_terminal_delta_is_balanced(class, ticket, outcome);
    lemma_delta_keeps_consistent(s, terminal_delta(class, ticket, outcome));
}

} // verus!
