//! Accounts merge in any order.
use vstd::prelude::*;

use crate::accumulator::{MAX_TERMS, SumModel, empty_sum};
use crate::ranking::bounded_laws::{
    class_at_most, lemma_classes_all_valid, lemma_classes_valid, lemma_partitions_all_valid,
    lemma_partitions_valid, partition_at_most,
};
use crate::ranking::bounded_stats::{
    StatsModel, account_merge_fault, addition_refusal, classes_merge_fault, empty_stats,
    group_merge_fault, group_sum, group_terms, partitions_merge_fault, partitions_total,
    partitions_total_fault, stats_fault, stats_shaped, stats_sum, total_of, totals_fault,
};
use crate::ranking::bounded_totals::{
    ClassTotals, PartitionTotals, class_sum, class_sum_fault, class_totals_fault, no_partition,
    no_totals, partition_sum, partition_sum_fault, partition_totals_fault,
};

verus! {

/// Whether every counter and term count of two accounts has a sum.
pub open spec fn addable(a: StatsModel, b: StatsModel) -> bool {
    &&& forall|i: int|
        0 <= i < 9 ==> class_sum_fault(#[trigger] a.classes[i], b.classes[i]) is None
    &&& forall|i: int|
        0 <= i < 500 ==> partition_sum_fault(#[trigger] a.partitions[i], b.partitions[i]) is None
    &&& group_addable(a.payments, b.payments)
    &&& group_addable(a.lines, b.lines)
    &&& group_addable(a.deliveries, b.deliveries)
}

/// Whether two groups can be joined.
pub open spec fn group_addable(a: Seq<SumModel>, b: Seq<SumModel>) -> bool {
    forall|i: int| 0 <= i < 9 ==> (#[trigger] a[i]).terms + b[i].terms <= MAX_TERMS
}

proof fn lemma_classes_addable(a: Seq<ClassTotals>, b: Seq<ClassTotals>, from: int)
    requires
        0 <= from <= a.len(),
    ensures
        classes_merge_fault(a, b, from) is None <==> forall|i: int|
            from <= i < a.len() ==> class_sum_fault(#[trigger] a[i], b[i]) is None,
    decreases a.len() - from,
{
    if from < a.len() {
        lemma_classes_addable(a, b, from + 1);
        if classes_merge_fault(a, b, from) is None {
            assert forall|i: int| from <= i < a.len() implies class_sum_fault(
                #[trigger] a[i],
                b[i],
            ) is None by {
                if i > from {
                    assert(from + 1 <= i);
                }
            }
        }
    }
}

proof fn lemma_partitions_addable(a: Seq<PartitionTotals>, b: Seq<PartitionTotals>, from: int)
    requires
        0 <= from <= a.len(),
    ensures
        partitions_merge_fault(a, b, from) is None <==> forall|i: int|
            from <= i < a.len() ==> partition_sum_fault(#[trigger] a[i], b[i]) is None,
    decreases a.len() - from,
{
    if from < a.len() {
        lemma_partitions_addable(a, b, from + 1);
        if partitions_merge_fault(a, b, from) is None {
            assert forall|i: int| from <= i < a.len() implies partition_sum_fault(
                #[trigger] a[i],
                b[i],
            ) is None by {
                if i > from {
                    assert(from + 1 <= i);
                }
            }
        }
    }
}

proof fn lemma_group_addable(a: Seq<SumModel>, b: Seq<SumModel>, field: &'static str, from: int)
    requires
        0 <= from <= a.len(),
    ensures
        group_merge_fault(a, b, field, from) is None <==> forall|i: int|
            from <= i < a.len() ==> (#[trigger] a[i]).terms + b[i].terms <= MAX_TERMS,
    decreases a.len() - from,
{
    if from < a.len() {
        lemma_group_addable(a, b, field, from + 1);
        if group_merge_fault(a, b, field, from) is None {
            assert forall|i: int| from <= i < a.len() implies (#[trigger] a[i]).terms + b[i].terms
                <= MAX_TERMS by {
                if i > from {
                    assert(from + 1 <= i);
                }
            }
        }
    }
}

/// An addition is refused exactly where a counter or a term count overflows.
pub proof fn lemma_addable(a: StatsModel, b: StatsModel)
    requires
        stats_shaped(a),
        stats_shaped(b),
    ensures
        addition_refusal(a, b) is None <==> addable(a, b),
{
    lemma_classes_addable(a.classes, b.classes, 0);
    lemma_partitions_addable(a.partitions, b.partitions, 0);
    lemma_group_addable(a.payments, b.payments, "Payment/history amount", 0);
    lemma_group_addable(a.lines, b.lines, "NewOrder line amount", 0);
    lemma_group_addable(a.deliveries, b.deliveries, "Delivery customer amount", 0);
}

/// Two accounts merge in either order, with the same result.
pub proof fn law_merge_commutes(a: StatsModel, b: StatsModel)
    requires
        stats_shaped(a),
        stats_shaped(b),
    ensures
        stats_sum(a, b) == stats_sum(b, a),
        account_merge_fault(a, b) is None <==> account_merge_fault(b, a) is None,
{
    assert(stats_sum(a, b).classes =~= stats_sum(b, a).classes);
    assert(stats_sum(a, b).partitions =~= stats_sum(b, a).partitions);
    assert(stats_sum(a, b).payments =~= stats_sum(b, a).payments);
    assert(stats_sum(a, b).lines =~= stats_sum(b, a).lines);
    assert(stats_sum(a, b).deliveries =~= stats_sum(b, a).deliveries);
    lemma_addable(a, b);
    lemma_addable(b, a);
    if addable(a, b) {
        lemma_addable_flips(a, b);
    }
    if addable(b, a) {
        lemma_addable_flips(b, a);
    }
}

proof fn lemma_addable_flips(a: StatsModel, b: StatsModel)
    requires
        addable(a, b),
    ensures
        addable(b, a),
{
    assert forall|i: int| 0 <= i < 9 implies class_sum_fault(
        #[trigger] b.classes[i],
        a.classes[i],
    ) is None by {
        assert(class_sum_fault(a.classes[i], b.classes[i]) is None);
    }
    assert forall|i: int| 0 <= i < 500 implies partition_sum_fault(
        #[trigger] b.partitions[i],
        a.partitions[i],
    ) is None by {
        assert(partition_sum_fault(a.partitions[i], b.partitions[i]) is None);
    }
    assert forall|i: int| 0 <= i < 9 implies (#[trigger] b.payments[i]).terms
        + a.payments[i].terms <= MAX_TERMS by {
        assert(a.payments[i].terms + b.payments[i].terms <= MAX_TERMS);
    }
    assert forall|i: int| 0 <= i < 9 implies (#[trigger] b.lines[i]).terms + a.lines[i].terms
        <= MAX_TERMS by {
        assert(a.lines[i].terms + b.lines[i].terms <= MAX_TERMS);
    }
    assert forall|i: int| 0 <= i < 9 implies (#[trigger] b.deliveries[i]).terms
        + a.deliveries[i].terms <= MAX_TERMS by {
        assert(a.deliveries[i].terms + b.deliveries[i].terms <= MAX_TERMS);
    }
}

/// Whether every counter of `x` is at most its counterpart in `y`.
pub open spec fn within(x: StatsModel, y: StatsModel) -> bool {
    &&& forall|i: int| 0 <= i < 9 ==> class_at_most(#[trigger] x.classes[i], y.classes[i])
    &&& forall|i: int|
        0 <= i < 500 ==> partition_at_most(#[trigger] x.partitions[i], y.partitions[i])
    &&& group_within(x.payments, y.payments)
    &&& group_within(x.lines, y.lines)
    &&& group_within(x.deliveries, y.deliveries)
}

/// Whether no sum of `x` has more terms than its counterpart in `y`.
pub open spec fn group_within(x: Seq<SumModel>, y: Seq<SumModel>) -> bool {
    forall|i: int| 0 <= i < 9 ==> (#[trigger] x[i]).terms <= y[i].terms
}

proof fn lemma_total_within(x: Seq<ClassTotals>, y: Seq<ClassTotals>, n: int)
    requires
        forall|i: int| 0 <= i < n ==> class_at_most(#[trigger] x[i], y[i]),
        totals_fault(y, n) is None,
    ensures
        totals_fault(x, n) is None,
        class_at_most(total_of(x, n), total_of(y, n)),
    decreases n,
{
    if n > 0 {
        lemma_total_within(x, y, n - 1);
        assert(class_at_most(x[n - 1], y[n - 1]));
    }
}

proof fn lemma_partitions_within(x: Seq<PartitionTotals>, y: Seq<PartitionTotals>, n: int)
    requires
        forall|i: int| 0 <= i < n ==> partition_at_most(#[trigger] x[i], y[i]),
        partitions_total_fault(y, n) is None,
    ensures
        partitions_total_fault(x, n) is None,
        partition_at_most(partitions_total(x, n), partitions_total(y, n)),
    decreases n,
{
    if n > 0 {
        lemma_partitions_within(x, y, n - 1);
        assert(partition_at_most(x[n - 1], y[n - 1]));
    }
}

proof fn lemma_terms_within(x: Seq<SumModel>, y: Seq<SumModel>, n: int)
    requires
        n <= 9,
        group_within(x, y),
    ensures
        group_terms(x, n) <= group_terms(y, n),
    decreases n,
{
    if n > 0 {
        lemma_terms_within(x, y, n - 1);
        assert(x[n - 1].terms <= y[n - 1].terms);
    }
}

/// One class is the sum of two others.
pub open spec fn class_adds_up(
    b: Seq<ClassTotals>,
    c: Seq<ClassTotals>,
    sum: Seq<ClassTotals>,
    i: int,
) -> bool {
    class_sum_fault(b[i], c[i]) is None && sum[i] == class_sum(b[i], c[i])
}

/// One partition is the sum of two others.
spec fn partition_adds_up(
    b: Seq<PartitionTotals>,
    c: Seq<PartitionTotals>,
    sum: Seq<PartitionTotals>,
    i: int,
) -> bool {
    partition_sum_fault(b[i], c[i]) is None && sum[i] == partition_sum(b[i], c[i])
}

/// Classes that add up have totals that add up.
pub proof fn lemma_total_of_sum(
    b: Seq<ClassTotals>,
    c: Seq<ClassTotals>,
    sum: Seq<ClassTotals>,
    n: int,
)
    requires
        0 <= n,
        forall|i: int| 0 <= i < n ==> #[trigger] class_adds_up(b, c, sum, i),
        totals_fault(b, n) is None,
        totals_fault(c, n) is None,
        totals_fault(sum, n) is None,
    ensures
        total_of(sum, n) == class_sum(total_of(b, n), total_of(c, n)),
        class_sum_fault(total_of(b, n), total_of(c, n)) is None,
    decreases n,
{
    if n > 0 {
        lemma_total_of_sum(b, c, sum, n - 1);
        assert(class_adds_up(b, c, sum, n - 1));
    }
}

proof fn lemma_partitions_of_sum(
    b: Seq<PartitionTotals>,
    c: Seq<PartitionTotals>,
    sum: Seq<PartitionTotals>,
    n: int,
)
    requires
        0 <= n,
        forall|i: int| 0 <= i < n ==> #[trigger] partition_adds_up(b, c, sum, i),
        partitions_total_fault(b, n) is None,
        partitions_total_fault(c, n) is None,
        partitions_total_fault(sum, n) is None,
    ensures
        partitions_total(sum, n) == partition_sum(partitions_total(b, n), partitions_total(c, n)),
        partition_sum_fault(partitions_total(b, n), partitions_total(c, n)) is None,
    decreases n,
{
    if n > 0 {
        lemma_partitions_of_sum(b, c, sum, n - 1);
        assert(partition_adds_up(b, c, sum, n - 1));
    }
}

proof fn lemma_class_sum_valid(b: ClassTotals, c: ClassTotals, y: ClassTotals)
    requires
        class_totals_fault(b) is None,
        class_totals_fault(c) is None,
        class_totals_fault(y) is None,
        class_sum_fault(b, c) is None,
        class_at_most(class_sum(b, c), y),
    ensures
        class_totals_fault(class_sum(b, c)) is None,
{
}

proof fn lemma_partition_sum_valid(b: PartitionTotals, c: PartitionTotals, y: PartitionTotals)
    requires
        partition_totals_fault(b) is None,
        partition_totals_fault(c) is None,
        partition_totals_fault(y) is None,
        partition_sum_fault(b, c) is None,
        partition_at_most(partition_sum(b, c), y),
    ensures
        partition_totals_fault(partition_sum(b, c)) is None,
{
}

/// The sum of two consistent accounts within a consistent one is consistent.
proof fn lemma_sum_valid(b: StatsModel, c: StatsModel, y: StatsModel)
    requires
        stats_shaped(b),
        stats_shaped(c),
        stats_shaped(y),
        stats_fault(b) is None,
        stats_fault(c) is None,
        stats_fault(y) is None,
        addable(b, c),
        within(stats_sum(b, c), y),
    ensures
        stats_fault(stats_sum(b, c)) is None,
{
    let s = stats_sum(b, c);
    assert forall|i: int| 0 <= i < 9 implies class_totals_fault(#[trigger] s.classes[i]) is None
        && s.payments[i].terms == s.classes[i].payment_commits && s.lines[i].terms
        == s.classes[i].new_order_lines && s.deliveries[i].terms
        == s.classes[i].delivered_orders by {
        lemma_classes_valid(b, 0, i);
        lemma_classes_valid(c, 0, i);
        lemma_classes_valid(y, 0, i);
        assert(class_sum_fault(b.classes[i], c.classes[i]) is None);
        assert(s.classes[i] == class_sum(b.classes[i], c.classes[i]));
        assert(class_at_most(s.classes[i], y.classes[i]));
        lemma_class_sum_valid(b.classes[i], c.classes[i], y.classes[i]);
    }
    lemma_classes_all_valid(s, 0);
    assert forall|i: int| 0 <= i < 500 implies partition_totals_fault(
        #[trigger] s.partitions[i],
    ) is None by {
        lemma_partitions_valid(b.partitions, 0, i);
        lemma_partitions_valid(c.partitions, 0, i);
        lemma_partitions_valid(y.partitions, 0, i);
        assert(partition_sum_fault(b.partitions[i], c.partitions[i]) is None);
        assert(partition_at_most(s.partitions[i], y.partitions[i]));
        lemma_partition_sum_valid(b.partitions[i], c.partitions[i], y.partitions[i]);
    }
    lemma_partitions_all_valid(s.partitions, 0);
    lemma_total_within(s.classes, y.classes, 9);
    lemma_partitions_within(s.partitions, y.partitions, 500);
    assert forall|i: int| 0 <= i < 9 implies #[trigger] class_adds_up(
        b.classes,
        c.classes,
        s.classes,
        i,
    ) by {
        assert(class_sum_fault(b.classes[i], c.classes[i]) is None);
    }
    lemma_total_of_sum(b.classes, c.classes, s.classes, 9);
    assert forall|i: int| 0 <= i < 500 implies #[trigger] partition_adds_up(
        b.partitions,
        c.partitions,
        s.partitions,
        i,
    ) by {
        assert(partition_sum_fault(b.partitions[i], c.partitions[i]) is None);
    }
    lemma_partitions_of_sum(b.partitions, c.partitions, s.partitions, 500);
    lemma_terms_within(s.payments, y.payments, 9);
    lemma_terms_within(s.lines, y.lines, 9);
    lemma_terms_within(s.deliveries, y.deliveries, 9);
}

proof fn lemma_group_regroups(a: Seq<SumModel>, b: Seq<SumModel>, c: Seq<SumModel>)
    requires
        a.len() == 9,
        b.len() == 9,
        c.len() == 9,
        group_addable(a, b),
        group_addable(group_sum(a, b), c),
    ensures
        group_addable(b, c),
        group_addable(a, group_sum(b, c)),
        group_sum(group_sum(a, b), c) == group_sum(a, group_sum(b, c)),
        group_within(group_sum(b, c), group_sum(group_sum(a, b), c)),
{
    assert forall|i: int| 0 <= i < 9 implies (#[trigger] b[i]).terms + c[i].terms
        <= MAX_TERMS by {
        assert(group_sum(a, b)[i].terms + c[i].terms <= MAX_TERMS);
    }
    assert forall|i: int| 0 <= i < 9 implies (#[trigger] a[i]).terms + group_sum(b, c)[i].terms
        <= MAX_TERMS by {
        assert(group_sum(a, b)[i].terms + c[i].terms <= MAX_TERMS);
    }
    assert(group_sum(group_sum(a, b), c) =~= group_sum(a, group_sum(b, c)));
}

proof fn lemma_classes_regroup(a: StatsModel, b: StatsModel, c: StatsModel)
    requires
        stats_shaped(a),
        stats_shaped(b),
        stats_shaped(c),
        addable(a, b),
        addable(stats_sum(a, b), c),
    ensures
        forall|i: int|
            0 <= i < 9 ==> class_sum_fault(#[trigger] b.classes[i], c.classes[i]) is None,
        forall|i: int|
            0 <= i < 9 ==> class_sum_fault(
                #[trigger] a.classes[i],
                stats_sum(b, c).classes[i],
            ) is None,
        stats_sum(stats_sum(a, b), c).classes == stats_sum(a, stats_sum(b, c)).classes,
        forall|i: int|
            0 <= i < 9 ==> class_at_most(
                #[trigger] stats_sum(b, c).classes[i],
                stats_sum(stats_sum(a, b), c).classes[i],
            ),
{
    let ab = stats_sum(a, b);
    let bc = stats_sum(b, c);
    assert forall|i: int| 0 <= i < 9 implies class_sum_fault(
        #[trigger] b.classes[i],
        c.classes[i],
    ) is None by {
        assert(class_sum_fault(a.classes[i], b.classes[i]) is None);
        assert(class_sum_fault(ab.classes[i], c.classes[i]) is None);
    }
    assert forall|i: int| 0 <= i < 9 implies class_sum_fault(
        #[trigger] a.classes[i],
        bc.classes[i],
    ) is None by {
        assert(class_sum_fault(a.classes[i], b.classes[i]) is None);
        assert(class_sum_fault(ab.classes[i], c.classes[i]) is None);
        assert(class_sum_fault(b.classes[i], c.classes[i]) is None);
    }
    assert forall|i: int| 0 <= i < 9 implies #[trigger] stats_sum(ab, c).classes[i] == stats_sum(
        a,
        bc,
    ).classes[i] by {
        assert(class_sum_fault(a.classes[i], b.classes[i]) is None);
        assert(class_sum_fault(ab.classes[i], c.classes[i]) is None);
        assert(class_sum_fault(b.classes[i], c.classes[i]) is None);
    }
    assert(stats_sum(ab, c).classes =~= stats_sum(a, bc).classes);
    assert forall|i: int| 0 <= i < 9 implies class_at_most(
        #[trigger] bc.classes[i],
        stats_sum(ab, c).classes[i],
    ) by {
        assert(class_sum_fault(a.classes[i], b.classes[i]) is None);
        assert(class_sum_fault(ab.classes[i], c.classes[i]) is None);
        assert(class_sum_fault(b.classes[i], c.classes[i]) is None);
    }
}

proof fn lemma_partitions_regroup(a: StatsModel, b: StatsModel, c: StatsModel)
    requires
        stats_shaped(a),
        stats_shaped(b),
        stats_shaped(c),
        addable(a, b),
        addable(stats_sum(a, b), c),
    ensures
        forall|i: int|
            0 <= i < 500 ==> partition_sum_fault(
                #[trigger] b.partitions[i],
                c.partitions[i],
            ) is None,
        forall|i: int|
            0 <= i < 500 ==> partition_sum_fault(
                #[trigger] a.partitions[i],
                stats_sum(b, c).partitions[i],
            ) is None,
        stats_sum(stats_sum(a, b), c).partitions == stats_sum(a, stats_sum(b, c)).partitions,
        forall|i: int|
            0 <= i < 500 ==> partition_at_most(
                #[trigger] stats_sum(b, c).partitions[i],
                stats_sum(stats_sum(a, b), c).partitions[i],
            ),
{
    let ab = stats_sum(a, b);
    let bc = stats_sum(b, c);
    assert forall|i: int| 0 <= i < 500 implies partition_sum_fault(
        #[trigger] b.partitions[i],
        c.partitions[i],
    ) is None by {
        assert(partition_sum_fault(a.partitions[i], b.partitions[i]) is None);
        assert(partition_sum_fault(ab.partitions[i], c.partitions[i]) is None);
    }
    assert forall|i: int| 0 <= i < 500 implies partition_sum_fault(
        #[trigger] a.partitions[i],
        bc.partitions[i],
    ) is None by {
        assert(partition_sum_fault(a.partitions[i], b.partitions[i]) is None);
        assert(partition_sum_fault(ab.partitions[i], c.partitions[i]) is None);
        assert(partition_sum_fault(b.partitions[i], c.partitions[i]) is None);
    }
    assert forall|i: int| 0 <= i < 500 implies #[trigger] stats_sum(ab, c).partitions[i]
        == stats_sum(a, bc).partitions[i] by {
        assert(partition_sum_fault(a.partitions[i], b.partitions[i]) is None);
        assert(partition_sum_fault(ab.partitions[i], c.partitions[i]) is None);
        assert(partition_sum_fault(b.partitions[i], c.partitions[i]) is None);
    }
    assert(stats_sum(ab, c).partitions =~= stats_sum(a, bc).partitions);
    assert forall|i: int| 0 <= i < 500 implies partition_at_most(
        #[trigger] bc.partitions[i],
        stats_sum(ab, c).partitions[i],
    ) by {
        assert(partition_sum_fault(a.partitions[i], b.partitions[i]) is None);
        assert(partition_sum_fault(ab.partitions[i], c.partitions[i]) is None);
        assert(partition_sum_fault(b.partitions[i], c.partitions[i]) is None);
    }
}

/// Three accounts that merge one after the other also merge from the other
/// end, with the same result.  With [`law_merge_commutes`], every order of
/// workers gives the same account.
pub proof fn law_merge_regroups(a: StatsModel, b: StatsModel, c: StatsModel)
    requires
        stats_shaped(a),
        stats_shaped(b),
        stats_shaped(c),
        account_merge_fault(a, b) is None,
        account_merge_fault(stats_sum(a, b), c) is None,
    ensures
        account_merge_fault(b, c) is None,
        account_merge_fault(a, stats_sum(b, c)) is None,
        stats_sum(stats_sum(a, b), c) == stats_sum(a, stats_sum(b, c)),
{
    let ab = stats_sum(a, b);
    let bc = stats_sum(b, c);
    let abc = stats_sum(ab, c);
    lemma_addable(a, b);
    lemma_addable(ab, c);
    lemma_classes_regroup(a, b, c);
    lemma_partitions_regroup(a, b, c);
    lemma_group_regroups(a.payments, b.payments, c.payments);
    lemma_group_regroups(a.lines, b.lines, c.lines);
    lemma_group_regroups(a.deliveries, b.deliveries, c.deliveries);
    assert(abc == stats_sum(a, bc));
    assert(addable(b, c));
    assert(addable(a, bc));
    lemma_addable(b, c);
    lemma_addable(a, bc);
    assert(within(bc, abc));
    lemma_sum_valid(b, c, abc);
}

/// The empty account is consistent and changes nothing that it is merged with.
pub proof fn law_empty_account_is_neutral(a: StatsModel)
    requires
        stats_shaped(a),
    ensures
        stats_fault(empty_stats()) is None,
        stats_sum(empty_stats(), a) == a,
{
    let e = empty_stats();
    assert(stats_sum(e, a).classes =~= a.classes);
    assert(stats_sum(e, a).partitions =~= a.partitions);
    assert(stats_sum(e, a).payments =~= a.payments);
    assert(stats_sum(e, a).lines =~= a.lines);
    assert(stats_sum(e, a).deliveries =~= a.deliveries);
    lemma_classes_all_valid(e, 0);
    lemma_partitions_all_valid(e.partitions, 0);
    lemma_empty_totals(9);
    lemma_empty_partitions(500);
    lemma_empty_terms(e.payments, 9);
    lemma_empty_terms(e.lines, 9);
    lemma_empty_terms(e.deliveries, 9);
}

proof fn lemma_empty_totals(n: int)
    requires
        0 <= n <= 9,
    ensures
        totals_fault(empty_stats().classes, n) is None,
        total_of(empty_stats().classes, n) == no_totals(),
    decreases n,
{
    if n > 0 {
        lemma_empty_totals(n - 1);
    }
}

proof fn lemma_empty_partitions(n: int)
    requires
        0 <= n <= 500,
    ensures
        partitions_total_fault(empty_stats().partitions, n) is None,
        partitions_total(empty_stats().partitions, n) == no_partition(),
    decreases n,
{
    if n > 0 {
        lemma_empty_partitions(n - 1);
    }
}

proof fn lemma_empty_terms(group: Seq<SumModel>, n: int)
    requires
        0 <= n <= 9,
        forall|i: int| 0 <= i < 9 ==> #[trigger] group[i] == empty_sum(),
    ensures
        group_terms(group, n) == 0,
    decreases n,
{
    if n > 0 {
        lemma_empty_terms(group, n - 1);
    }
}

} // verus!
