//! The account in fixed space says what the ledger of all events says.
use vstd::prelude::*;

use crate::accumulator::{SumModel, with_list, with_terms};
use crate::binary32::value;
use crate::ranking::bounded_laws::{lemma_increments_valid, lemma_total_update};
use crate::ranking::bounded_merge_law::{class_adds_up, lemma_addable, lemma_total_of_sum};
use crate::ranking::bounded_stats::{
    StatsModel, account_merge_fault, empty_stats, group_sum, group_terms, group_total,
    incremented, increments_fault, lemma_delta_in_domain, offer_fault, stats_shaped, stats_sum,
    total_of, with_delta,
};
use crate::ranking::bounded_terminal::{delivered_increment, delivered_lines, terminal_delta};
use crate::ranking::bounded_totals::{
    ClassTotals, PartitionTotals, class_sum_fault, no_totals, partition_sum_fault,
};
use crate::ranking::ledger::{LedgerClass, PartitionDelta, delta_add_fault};
use crate::ranking::ledger_events::{OrderModel, order_model, order_models};
use crate::ranking::run_ledger::{
    LedgerModel, applied_order_fault, applied_orders_fault, delivered_partitions, empty_ledger,
    lines_delivered, merge_fault, merged, order_amounts, order_position, partitions_sum_fault,
    record_fault, recorded, shaped,
};
use crate::ranking::runner::{DeliveredOrderEvidence, RankedCommit, RankedTransactionOutcome};
use crate::workload::TransactionTicket;

verus! {

/// The sum of the amounts from `i` on, in units of the smallest binary32 value.
pub open spec fn amounts_from(amounts: Seq<u32>, i: int) -> nat
    decreases amounts.len() - i,
{
    if i >= amounts.len() {
        0
    } else {
        value(amounts[i]) as nat + amounts_from(amounts, i + 1)
    }
}

/// A partition has the same counters in the account and in the ledger.
pub open spec fn same_partition(a: PartitionTotals, b: PartitionDelta) -> bool {
    &&& a.new_orders == b.new_orders
    &&& a.new_order_lines == b.new_order_lines
    &&& a.delivered_orders == b.delivered_orders
    &&& a.delivered_order_lines == b.delivered_order_lines
}

/// The totals of the account are the counters of the ledger.
pub open spec fn same_counters(t: ClassTotals, m: LedgerModel) -> bool {
    &&& t.new_order_commits == m.new_orders
    &&& t.new_orders == m.new_orders
    &&& t.new_order_lines == m.new_order_lines
    &&& t.remote_new_order_lines == m.remote_new_order_lines
    &&& t.stock_quantity_delta == m.stock_ytd_delta
    &&& t.payment_commits == m.payments
    &&& t.order_status_commits == m.order_status_commits
    &&& t.delivery_commits == m.delivery_commits
    &&& t.delivered_orders == m.delivered_orders
    &&& t.delivered_order_lines == m.delivered_order_lines
    &&& t.stock_level_commits == m.stock_level_commits
    &&& t.expected_rollbacks == m.expected_rollbacks
}

/// Nine sums together are the exact sum of a list of amounts.
pub open spec fn same_amounts(group: Seq<SumModel>, amounts: Seq<u32>) -> bool {
    &&& group_terms(group, 9) == amounts.len()
    &&& group_total(group, 9) == amounts_from(amounts, 0)
}

/// An account says what a ledger says.
pub open spec fn account_matches(s: StatsModel, m: LedgerModel) -> bool {
    &&& same_counters(total_of(s.classes, 9), m)
    &&& forall|p: int|
        0 <= p < 500 ==> same_partition(#[trigger] s.partitions[p], m.partitions[p])
    &&& same_amounts(s.payments, m.payment_amount_bits)
    &&& same_amounts(s.lines, m.new_order_line_amount_bits)
    &&& same_amounts(s.deliveries, m.delivery_customer_amount_bits)
}

proof fn lemma_group_update(group: Seq<SumModel>, k: int, x: SumModel, n: int)
    requires
        0 <= k < group.len(),
        0 <= n <= group.len(),
    ensures
        group_terms(group.update(k, x), n) + (if k < n {
            group[k].terms as int
        } else {
            0
        }) == group_terms(group, n) + (if k < n {
            x.terms as int
        } else {
            0
        }),
        group_total(group.update(k, x), n) + (if k < n {
            group[k].total as int
        } else {
            0
        }) == group_total(group, n) + (if k < n {
            x.total as int
        } else {
            0
        }),
    decreases n,
{
    if n > 0 {
        lemma_group_update(group, k, x, n - 1);
    }
}

proof fn lemma_with_list(s: SumModel, amounts: Seq<u32>, i: int)
    requires
        0 <= i <= amounts.len(),
    ensures
        with_list(s, amounts, i) == (SumModel {
            terms: (s.terms + amounts.len() - i) as nat,
            total: s.total + amounts_from(amounts, i),
        }),
    decreases amounts.len() - i,
{
    if i < amounts.len() {
        let next = with_terms(s, amounts[i], 1);
        assert(value(amounts[i]) as nat * 1 == value(amounts[i]) as nat);
        lemma_with_list(next, amounts, i + 1);
    }
}

proof fn lemma_amounts_joined(a: Seq<u32>, b: Seq<u32>, i: int)
    requires
        0 <= i <= a.len(),
    ensures
        amounts_from(a + b, i) == amounts_from(a, i) + amounts_from(b, 0),
    decreases a.len() - i,
{
    if i < a.len() {
        lemma_amounts_joined(a, b, i + 1);
    } else {
        lemma_amounts_tail(a, b, 0);
    }
}

proof fn lemma_amounts_tail(a: Seq<u32>, b: Seq<u32>, i: int)
    requires
        0 <= i <= b.len(),
    ensures
        amounts_from(a + b, a.len() + i) == amounts_from(b, i),
    decreases b.len() - i,
{
    if i < b.len() {
        lemma_amounts_tail(a, b, i + 1);
    }
}

/// A list of amounts that comes to one sum and to the list of the ledger.
proof fn lemma_amounts_added(group: Seq<SumModel>, k: int, amounts: Seq<u32>, more: Seq<u32>)
    requires
        group.len() == 9,
        0 <= k < 9,
        same_amounts(group, amounts),
    ensures
        same_amounts(group.update(k, with_list(group[k], more, 0)), amounts + more),
{
    lemma_with_list(group[k], more, 0);
    lemma_group_update(group, k, with_list(group[k], more, 0), 9);
    lemma_amounts_joined(amounts, more, 0);
}

proof fn lemma_no_amounts(group: Seq<SumModel>, k: int)
    requires
        group.len() == 9,
        0 <= k < 9,
    ensures
        group.update(k, with_list(group[k], Seq::empty(), 0)) == group,
{
    assert(with_list(group[k], Seq::empty(), 0) == group[k]);
    assert(group.update(k, group[k]) =~= group);
}

/// An order of an applied list is applied.
pub proof fn lemma_applied_order(
    partitions: Seq<PartitionDelta>,
    orders: Seq<OrderModel>,
    from: int,
    i: int,
)
    requires
        0 <= from <= i < orders.len(),
        applied_orders_fault(partitions, orders, from) is None,
    ensures
        applied_order_fault(partitions, orders, i) is None,
    decreases i - from,
{
    if from < i {
        lemma_applied_order(partitions, orders, from + 1, i);
    }
}

proof fn lemma_same_partitions(
    partitions: Seq<PartitionTotals>,
    deltas: Seq<PartitionDelta>,
    orders: Seq<DeliveredOrderEvidence>,
    n: int,
)
    requires
        partitions.len() == 500,
        deltas.len() == 500,
        0 <= n <= orders.len(),
        forall|p: int| 0 <= p < 500 ==> same_partition(#[trigger] partitions[p], deltas[p]),
        increments_fault(
            partitions,
            Seq::new(orders.len(), |i: int| delivered_increment(orders[i])),
            0,
        ) is None,
        applied_orders_fault(deltas, order_models(orders), 0) is None,
    ensures
        ({
            let a = incremented(
                partitions,
                Seq::new(orders.len(), |i: int| delivered_increment(orders[i])),
                n,
            );
            let b = delivered_partitions(deltas, order_models(orders), n);
            &&& a.len() == 500
            &&& b.len() == 500
            &&& forall|p: int| 0 <= p < 500 ==> same_partition(#[trigger] a[p], b[p])
        }),
    decreases n,
{
    let incs = Seq::new(orders.len(), |i: int| delivered_increment(orders[i]));
    let models = order_models(orders);
    if n > 0 {
        lemma_same_partitions(partitions, deltas, orders, n - 1);
        lemma_increments_valid(partitions, incs, 0, n - 1);
        lemma_applied_order(deltas, models, 0, n - 1);
        let at = order_position(models[n - 1]);
        assert(0 <= at < 500);
        assert(incs[n - 1] == delivered_increment(orders[n - 1]));
        assert(incs[n - 1].index == at);
        assert(same_partition(partitions[at], deltas[at]));
        let a = incremented(partitions, incs, n);
        let b = delivered_partitions(deltas, models, n);
        let x = incremented(partitions, incs, n - 1);
        let y = delivered_partitions(deltas, models, n - 1);
        assert forall|p: int| 0 <= p < 500 implies same_partition(#[trigger] a[p], b[p]) by {
            if p != at {
                assert(same_partition(x[p], y[p]));
            }
        }
    }
}

proof fn lemma_same_lines(orders: Seq<DeliveredOrderEvidence>, n: int)
    requires
        0 <= n <= orders.len(),
    ensures
        delivered_lines(orders, n) == lines_delivered(order_models(orders), n),
        delivered_lines(orders, n) <= 255 * n,
    decreases n,
{
    if n > 0 {
        lemma_same_lines(orders, n - 1);
        assert(order_models(orders)[n - 1] == order_model(orders[n - 1]));
    }
}

/// The totals of the account and the counters of the ledger grow together.
proof fn lemma_same_counters(
    s: StatsModel,
    m: LedgerModel,
    class: LedgerClass,
    ticket: TransactionTicket,
    outcome: RankedTransactionOutcome,
)
    requires
        stats_shaped(s),
        account_matches(s, m),
        offer_fault(s, class, ticket, outcome) is None,
        record_fault(m, class, ticket, outcome) is None,
    ensures
        same_counters(
            total_of(with_delta(s, terminal_delta(class, ticket, outcome)).classes, 9),
            recorded(m, class, ticket, outcome),
        ),
{
    let d = terminal_delta(class, ticket, outcome);
    lemma_delta_in_domain(class, ticket, outcome);
    lemma_total_update(s.classes, d.class_index, d.class_totals, 9);
    if let RankedTransactionOutcome::Committed(RankedCommit::Delivery(orders)) = outcome {
        lemma_same_lines(orders@, orders@.len() as int);
        assert(order_models(orders@).len() == orders@.len());
    }
}

/// The partitions of the account and of the ledger grow together.
proof fn lemma_partitions_grow(
    s: StatsModel,
    m: LedgerModel,
    class: LedgerClass,
    ticket: TransactionTicket,
    outcome: RankedTransactionOutcome,
)
    requires
        stats_shaped(s),
        shaped(m),
        account_matches(s, m),
        offer_fault(s, class, ticket, outcome) is None,
        record_fault(m, class, ticket, outcome) is None,
    ensures
        ({
            let a = with_delta(s, terminal_delta(class, ticket, outcome)).partitions;
            let b = recorded(m, class, ticket, outcome).partitions;
            forall|p: int| 0 <= p < 500 ==> same_partition(#[trigger] a[p], b[p])
        }),
{
    let d = terminal_delta(class, ticket, outcome);
    let a = with_delta(s, d).partitions;
    let b = recorded(m, class, ticket, outcome).partitions;
    lemma_delta_in_domain(class, ticket, outcome);
    match outcome {
        RankedTransactionOutcome::Committed(RankedCommit::Delivery(orders)) => {
            lemma_same_partitions(s.partitions, m.partitions, orders@, orders@.len() as int);
        },
        RankedTransactionOutcome::Committed(RankedCommit::NewOrder(evidence)) => {
            let at = d.partitions[0].index as int;
            lemma_increments_valid(s.partitions, d.partitions, 0, 0);
            reveal_with_fuel(incremented, 2);
            assert(same_partition(s.partitions[at], m.partitions[at]));
            assert forall|p: int| 0 <= p < 500 implies same_partition(#[trigger] a[p], b[p]) by {
                if p != at {
                    assert(same_partition(s.partitions[p], m.partitions[p]));
                }
            }
        },
        _ => {
            assert(a == s.partitions);
            assert(b == m.partitions);
        },
    }
}

/// The sums of the account and the lists of the ledger grow together.
proof fn lemma_amounts_grow(
    s: StatsModel,
    m: LedgerModel,
    class: LedgerClass,
    ticket: TransactionTicket,
    outcome: RankedTransactionOutcome,
)
    requires
        stats_shaped(s),
        account_matches(s, m),
        offer_fault(s, class, ticket, outcome) is None,
        record_fault(m, class, ticket, outcome) is None,
    ensures
        ({
            let a = with_delta(s, terminal_delta(class, ticket, outcome));
            let b = recorded(m, class, ticket, outcome);
            &&& same_amounts(a.payments, b.payment_amount_bits)
            &&& same_amounts(a.lines, b.new_order_line_amount_bits)
            &&& same_amounts(a.deliveries, b.delivery_customer_amount_bits)
        }),
{
    let d = terminal_delta(class, ticket, outcome);
    let k = d.class_index;
    lemma_delta_in_domain(class, ticket, outcome);
    assert(s.payments.update(k, s.payments[k]) =~= s.payments);
    lemma_no_amounts(s.lines, k);
    lemma_no_amounts(s.deliveries, k);
    match outcome {
        RankedTransactionOutcome::Committed(RankedCommit::Delivery(orders)) => {
            let amounts = order_amounts(order_models(orders@));
            assert(d.delivery_amounts =~= amounts);
            lemma_amounts_added(s.deliveries, k, m.delivery_customer_amount_bits, amounts);
        },
        RankedTransactionOutcome::Committed(RankedCommit::NewOrder(evidence)) => {
            lemma_amounts_added(
                s.lines,
                k,
                m.new_order_line_amount_bits,
                evidence.line_amount_bits@,
            );
        },
        RankedTransactionOutcome::Committed(RankedCommit::Payment(evidence)) => {
            let bits = evidence.amount_bits;
            let one = seq![bits];
            lemma_amounts_added(s.payments, k, m.payment_amount_bits, one);
            reveal_with_fuel(with_list, 2);
            assert(with_list(s.payments[k], one, 0) == with_terms(s.payments[k], bits, 1));
            assert(m.payment_amount_bits + one =~= m.payment_amount_bits.push(bits));
        },
        _ => {},
    }
}

/// Law: the account in fixed space and the ledger start out equal.
pub proof fn law_empty_account_matches_ledger()
    ensures
        account_matches(empty_stats(), empty_ledger()),
{
    lemma_nothing(9);
}

proof fn lemma_nothing(n: int)
    requires
        0 <= n <= 9,
    ensures
        total_of(empty_stats().classes, n) == no_totals(),
        group_terms(empty_stats().payments, n) == 0,
        group_total(empty_stats().payments, n) == 0,
    decreases n,
{
    if n > 0 {
        lemma_nothing(n - 1);
    }
}

/// Law: the account in fixed space stands for the ledger. A terminal that both accept keeps every
/// counter, every partition and every exact sum of amounts equal.
pub proof fn law_account_matches_ledger(
    s: StatsModel,
    m: LedgerModel,
    class: LedgerClass,
    ticket: TransactionTicket,
    outcome: RankedTransactionOutcome,
)
    requires
        stats_shaped(s),
        shaped(m),
        account_matches(s, m),
        offer_fault(s, class, ticket, outcome) is None,
        record_fault(m, class, ticket, outcome) is None,
    ensures
        account_matches(
            with_delta(s, terminal_delta(class, ticket, outcome)),
            recorded(m, class, ticket, outcome),
        ),
{
    lemma_same_counters(s, m, class, ticket, outcome);
    lemma_partitions_grow(s, m, class, ticket, outcome);
    lemma_amounts_grow(s, m, class, ticket, outcome);
}

proof fn lemma_group_joined(a: Seq<SumModel>, b: Seq<SumModel>, n: int)
    requires
        a.len() == b.len(),
        0 <= n <= a.len(),
    ensures
        group_terms(group_sum(a, b), n) == group_terms(a, n) + group_terms(b, n),
        group_total(group_sum(a, b), n) == group_total(a, n) + group_total(b, n),
    decreases n,
{
    if n > 0 {
        lemma_group_joined(a, b, n - 1);
    }
}

proof fn lemma_same_joined(a: Seq<SumModel>, b: Seq<SumModel>, x: Seq<u32>, y: Seq<u32>)
    requires
        a.len() == 9,
        b.len() == 9,
        same_amounts(a, x),
        same_amounts(b, y),
    ensures
        same_amounts(group_sum(a, b), x + y),
{
    lemma_group_joined(a, b, 9);
    lemma_amounts_joined(x, y, 0);
}

proof fn lemma_delta_added(a: Seq<PartitionDelta>, b: Seq<PartitionDelta>, from: int, i: int)
    requires
        0 <= from <= i < a.len(),
        partitions_sum_fault(a, b, from) is None,
    ensures
        delta_add_fault(a[i], b[i]) is None,
    decreases i - from,
{
    if from < i {
        lemma_delta_added(a, b, from + 1, i);
    }
}

/// Law: merging two accounts stands for merging the two ledgers.
pub proof fn law_merged_accounts_match_merged_ledgers(
    s: StatsModel,
    t: StatsModel,
    m: LedgerModel,
    n: LedgerModel,
)
    requires
        stats_shaped(s),
        stats_shaped(t),
        shaped(m),
        shaped(n),
        account_matches(s, m),
        account_matches(t, n),
        account_merge_fault(s, t) is None,
        merge_fault(m, n) is None,
    ensures
        account_matches(stats_sum(s, t), merged(m, n)),
{
    let a = stats_sum(s, t);
    let b = merged(m, n);
    lemma_addable(s, t);
    assert forall|i: int| 0 <= i < 9 implies #[trigger] class_adds_up(
        s.classes,
        t.classes,
        a.classes,
        i,
    ) by {
        assert(class_sum_fault(s.classes[i], t.classes[i]) is None);
    }
    lemma_total_of_sum(s.classes, t.classes, a.classes, 9);
    assert(same_counters(total_of(a.classes, 9), b));
    assert forall|p: int| 0 <= p < 500 implies same_partition(
        #[trigger] a.partitions[p],
        b.partitions[p],
    ) by {
        assert(same_partition(s.partitions[p], m.partitions[p]));
        assert(same_partition(t.partitions[p], n.partitions[p]));
        assert(partition_sum_fault(s.partitions[p], t.partitions[p]) is None);
        lemma_delta_added(m.partitions, n.partitions, 0, p);
    }
    lemma_same_joined(s.payments, t.payments, m.payment_amount_bits, n.payment_amount_bits);
    lemma_same_joined(
        s.lines,
        t.lines,
        m.new_order_line_amount_bits,
        n.new_order_line_amount_bits,
    );
    lemma_same_joined(
        s.deliveries,
        t.deliveries,
        m.delivery_customer_amount_bits,
        n.delivery_customer_amount_bits,
    );
}

} // verus!
