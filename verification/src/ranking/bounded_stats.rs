//! Fixed-space physical accounting for terminal results.
//!
//! Nothing here grows with the number of terminals.  Every accepted terminal
//! contributes to one of nine classes, to the fixed 50x10 partitions, and to
//! exact sums of amounts per class.
use vstd::prelude::*;

use crate::accumulator::{
    FloatError, MAX_TERMS, NonNegativeF32Accumulator, SumModel, empty_sum, joined_sum, list_fault,
    term_fault, with_list, with_terms,
};
use crate::checks::{first, refusal, refused_if};
use crate::ranking::bounded_terminal::{
    DeltaModel, PartitionIncrement, TerminalDelta, bounded_terminal_fault,
    class_index_without_stage, class_slot, delivered_list_fault, key_fault, one_delivered_fault,
    partition_slot, slot_fault, terminal_delta,
};
use crate::ranking::bounded_totals::{
    BoundedStatsError, ClassTotals, PartitionTotals, class_sum, class_sum_fault,
    class_totals_fault, no_partition, no_totals, partition_sum, partition_sum_fault,
    partition_totals_fault,
};
use crate::ranking::ledger::{LedgerClass, partition_position};
use crate::ranking::runner::{DeliveredOrderEvidence, RankedCommit, RankedTransactionOutcome};
use crate::workload::TransactionTicket;

verus! {

pub const LEDGER_CLASS_COUNT: usize = 9;

pub const PHYSICAL_PARTITION_COUNT: usize = 500;

/// Constant-domain terminal accounting.
#[derive(Clone, Copy, Debug, PartialEq, Eq)]
pub struct BoundedPhysicalStats {
    pub classes: [ClassTotals; 9],
    pub partitions: [PartitionTotals; 500],
    pub payment_history_amounts: [NonNegativeF32Accumulator; 9],
    pub new_order_line_amounts: [NonNegativeF32Accumulator; 9],
    pub delivery_customer_amounts: [NonNegativeF32Accumulator; 9],
}

/// The content of a [`BoundedPhysicalStats`].
#[verifier::ext_equal]
pub struct StatsModel {
    pub classes: Seq<ClassTotals>,
    pub partitions: Seq<PartitionTotals>,
    pub payments: Seq<SumModel>,
    pub lines: Seq<SumModel>,
    pub deliveries: Seq<SumModel>,
}

/// The contents of a group of sums.
pub open spec fn sums_of(group: Seq<NonNegativeF32Accumulator>) -> Seq<SumModel> {
    Seq::new(group.len(), |i: int| group[i]@)
}

/// Every sum of a group is one of its terms.
pub open spec fn group_wf(group: Seq<NonNegativeF32Accumulator>) -> bool {
    forall|i: int| 0 <= i < group.len() ==> (#[trigger] group[i]).wf()
}

impl View for BoundedPhysicalStats {
    type V = StatsModel;

    open spec fn view(&self) -> StatsModel {
        StatsModel {
            classes: self.classes@,
            partitions: self.partitions@,
            payments: sums_of(self.payment_history_amounts@),
            lines: sums_of(self.new_order_line_amounts@),
            deliveries: sums_of(self.delivery_customer_amounts@),
        }
    }
}

/// Nine classes, five hundred partitions.
pub open spec fn stats_shaped(s: StatsModel) -> bool {
    s.classes.len() == 9 && s.partitions.len() == 500 && s.payments.len() == 9 && s.lines.len() == 9
        && s.deliveries.len() == 9
}

/// Why the first `n` classes have no total.
pub open spec fn totals_fault(classes: Seq<ClassTotals>, n: int) -> Option<BoundedStatsError>
    decreases n,
{
    if n <= 0 {
        None
    } else {
        first(
            totals_fault(classes, n - 1),
            class_sum_fault(total_of(classes, n - 1), classes[n - 1]),
        )
    }
}

/// The total of the first `n` classes.
pub open spec fn total_of(classes: Seq<ClassTotals>, n: int) -> ClassTotals
    decreases n,
{
    if n <= 0 {
        no_totals()
    } else {
        class_sum(total_of(classes, n - 1), classes[n - 1])
    }
}

/// Why the first `n` partitions have no total.
pub open spec fn partitions_total_fault(partitions: Seq<PartitionTotals>, n: int) -> Option<
    BoundedStatsError,
>
    decreases n,
{
    if n <= 0 {
        None
    } else {
        first(
            partitions_total_fault(partitions, n - 1),
            partition_sum_fault(partitions_total(partitions, n - 1), partitions[n - 1]),
        )
    }
}

/// The total of the first `n` partitions.
pub open spec fn partitions_total(partitions: Seq<PartitionTotals>, n: int) -> PartitionTotals
    decreases n,
{
    if n <= 0 {
        no_partition()
    } else {
        partition_sum(partitions_total(partitions, n - 1), partitions[n - 1])
    }
}

/// A refused sum under the name of its field.
pub open spec fn named(field: &'static str, fault: Option<FloatError>) -> Option<
    BoundedStatsError,
> {
    match fault {
        Some(source) => Some(BoundedStatsError::Float { field, source }),
        None => None,
    }
}

/// Terms of the first `n` sums.
pub open spec fn group_terms(group: Seq<SumModel>, n: int) -> nat
    decreases n,
{
    if n <= 0 {
        0
    } else {
        group_terms(group, n - 1) + group[n - 1].terms
    }
}

/// Total of the first `n` sums.
pub open spec fn group_total(group: Seq<SumModel>, n: int) -> nat
    decreases n,
{
    if n <= 0 {
        0
    } else {
        group_total(group, n - 1) + group[n - 1].total
    }
}

/// Why nine sums cannot become one.
pub open spec fn group_fault(group: Seq<SumModel>, field: &'static str) -> Option<
    BoundedStatsError,
> {
    named(field, refused_if(group_terms(group, 9) > MAX_TERMS, FloatError::TermLimit))
}

/// Why the increments from `i` on are refused.
pub open spec fn increments_fault(
    partitions: Seq<PartitionTotals>,
    increments: Seq<PartitionIncrement>,
    i: int,
) -> Option<BoundedStatsError>
    decreases increments.len() - i,
{
    if i >= increments.len() {
        None
    } else {
        let before = partitions[increments[i].index as int];
        first(
            partition_sum_fault(before, increments[i].delta),
            first(
                partition_totals_fault(partition_sum(before, increments[i].delta)),
                increments_fault(partitions, increments, i + 1),
            ),
        )
    }
}

/// The partitions after the first `n` increments.
pub open spec fn incremented(
    partitions: Seq<PartitionTotals>,
    increments: Seq<PartitionIncrement>,
    n: int,
) -> Seq<PartitionTotals>
    decreases n,
{
    if n <= 0 {
        partitions
    } else {
        let u = increments[n - 1];
        incremented(partitions, increments, n - 1).update(
            u.index as int,
            partition_sum(partitions[u.index as int], u.delta),
        )
    }
}

/// A sum after an optional payment.
pub open spec fn after_payment(s: SumModel, amount: Option<u32>) -> SumModel {
    match amount {
        Some(bits) => with_terms(s, bits, 1),
        None => s,
    }
}

/// Why an optional payment is refused.
pub open spec fn payment_term_fault(s: SumModel, amount: Option<u32>) -> Option<FloatError> {
    match amount {
        Some(bits) => term_fault(s, bits, 1),
        None => None,
    }
}

/// Why an increment of the counters is refused.
pub open spec fn counters_fault(s: StatsModel, d: DeltaModel) -> Option<BoundedStatsError> {
    let k = d.class_index;
    first(
        class_sum_fault(s.classes[k], d.class_totals),
        first(
            class_totals_fault(class_sum(s.classes[k], d.class_totals)),
            first(
                totals_fault(s.classes, 9),
                first(
                    class_sum_fault(total_of(s.classes, 9), d.class_totals),
                    increments_fault(s.partitions, d.partitions, 0),
                ),
            ),
        ),
    )
}

/// Why an increment of the sums is refused.
pub open spec fn sums_fault(s: StatsModel, d: DeltaModel) -> Option<BoundedStatsError> {
    let k = d.class_index;
    let t = with_delta(s, d);
    first(
        named("Payment/history amount", payment_term_fault(s.payments[k], d.payment_amount)),
        first(
            named("NewOrder line amount", list_fault(s.lines[k], d.line_amounts, 0)),
            first(
                named(
                    "Delivery customer amount",
                    list_fault(s.deliveries[k], d.delivery_amounts, 0),
                ),
                first(
                    group_fault(t.payments, "Payment/history amount"),
                    first(
                        group_fault(t.lines, "NewOrder line amount"),
                        group_fault(t.deliveries, "Delivery customer amount"),
                    ),
                ),
            ),
        ),
    )
}

/// Why an increment is refused.
pub open spec fn delta_refusal(s: StatsModel, d: DeltaModel) -> Option<BoundedStatsError> {
    first(counters_fault(s, d), sums_fault(s, d))
}

/// The account after an increment.
pub open spec fn with_delta(s: StatsModel, d: DeltaModel) -> StatsModel {
    let k = d.class_index;
    StatsModel {
        classes: s.classes.update(k, class_sum(s.classes[k], d.class_totals)),
        partitions: incremented(s.partitions, d.partitions, d.partitions.len() as int),
        payments: s.payments.update(k, after_payment(s.payments[k], d.payment_amount)),
        lines: s.lines.update(k, with_list(s.lines[k], d.line_amounts, 0)),
        deliveries: s.deliveries.update(k, with_list(s.deliveries[k], d.delivery_amounts, 0)),
    }
}

/// Why a terminal is refused by an account.
pub open spec fn offer_fault(
    s: StatsModel,
    class: LedgerClass,
    ticket: TransactionTicket,
    outcome: RankedTransactionOutcome,
) -> Option<BoundedStatsError> {
    first(
        bounded_terminal_fault(class, ticket, outcome),
        delta_refusal(s, terminal_delta(class, ticket, outcome)),
    )
}

/// Why the classes from `i` on contradict themselves or their sums.
pub open spec fn classes_fault(s: StatsModel, i: int) -> Option<BoundedStatsError>
    decreases 9 - i,
{
    if i >= 9 {
        None
    } else {
        first(
            class_totals_fault(s.classes[i]),
            first(
                refused_if(
                    s.payments[i].terms != s.classes[i].payment_commits,
                    BoundedStatsError::Inconsistent(
                        "Payment/history amount terms differ from Payment commits",
                    ),
                ),
                first(
                    refused_if(
                        s.lines[i].terms != s.classes[i].new_order_lines,
                        BoundedStatsError::Inconsistent(
                            "NewOrder amount terms differ from NewOrder lines",
                        ),
                    ),
                    first(
                        refused_if(
                            s.deliveries[i].terms != s.classes[i].delivered_orders,
                            BoundedStatsError::Inconsistent(
                                "Delivery amount terms differ from delivered orders",
                            ),
                        ),
                        classes_fault(s, i + 1),
                    ),
                ),
            ),
        )
    }
}

/// Why the partitions from `i` on contradict themselves.
pub open spec fn partitions_fault(partitions: Seq<PartitionTotals>, i: int) -> Option<
    BoundedStatsError,
>
    decreases partitions.len() - i,
{
    if i >= partitions.len() {
        None
    } else {
        first(partition_totals_fault(partitions[i]), partitions_fault(partitions, i + 1))
    }
}

/// Whether the partitions hold what the classes hold.
pub open spec fn totals_agree(total: ClassTotals, partitions: PartitionTotals) -> bool {
    &&& partitions.new_orders == total.new_orders
    &&& partitions.new_order_lines == total.new_order_lines
    &&& partitions.delivered_orders == total.delivered_orders
    &&& partitions.delivered_order_lines == total.delivered_order_lines
}

/// Why the sums of an account cannot be joined.
pub open spec fn groups_fault(s: StatsModel) -> Option<BoundedStatsError> {
    first(
        group_fault(s.payments, "Payment/history amount"),
        first(
            group_fault(s.lines, "NewOrder line amount"),
            group_fault(s.deliveries, "Delivery customer amount"),
        ),
    )
}

/// Why an account contradicts itself.
pub open spec fn stats_fault(s: StatsModel) -> Option<BoundedStatsError> {
    first(
        classes_fault(s, 0),
        first(
            partitions_fault(s.partitions, 0),
            first(
                totals_fault(s.classes, 9),
                first(
                    partitions_total_fault(s.partitions, 500),
                    first(
                        refused_if(
                            !totals_agree(
                                total_of(s.classes, 9),
                                partitions_total(s.partitions, 500),
                            ),
                            BoundedStatsError::Inconsistent(
                                "partition totals differ from all-class physical totals",
                            ),
                        ),
                        groups_fault(s),
                    ),
                ),
            ),
        ),
    )
}

/// Why the classes from `i` on cannot be added.
pub open spec fn classes_merge_fault(a: Seq<ClassTotals>, b: Seq<ClassTotals>, i: int) -> Option<
    BoundedStatsError,
>
    decreases a.len() - i,
{
    if i >= a.len() {
        None
    } else {
        first(class_sum_fault(a[i], b[i]), classes_merge_fault(a, b, i + 1))
    }
}

/// Why the partitions from `i` on cannot be added.
pub open spec fn partitions_merge_fault(
    a: Seq<PartitionTotals>,
    b: Seq<PartitionTotals>,
    i: int,
) -> Option<BoundedStatsError>
    decreases a.len() - i,
{
    if i >= a.len() {
        None
    } else {
        first(partition_sum_fault(a[i], b[i]), partitions_merge_fault(a, b, i + 1))
    }
}

/// Why the sums from `i` on cannot be joined.
pub open spec fn group_merge_fault(
    a: Seq<SumModel>,
    b: Seq<SumModel>,
    field: &'static str,
    i: int,
) -> Option<BoundedStatsError>
    decreases a.len() - i,
{
    if i >= a.len() {
        None
    } else {
        first(
            named(field, refused_if(a[i].terms + b[i].terms > MAX_TERMS, FloatError::TermLimit)),
            group_merge_fault(a, b, field, i + 1),
        )
    }
}

/// Two groups joined.
pub open spec fn group_sum(a: Seq<SumModel>, b: Seq<SumModel>) -> Seq<SumModel> {
    Seq::new(a.len(), |i: int| joined_sum(a[i], b[i]))
}

/// Two accounts added.
pub open spec fn stats_sum(a: StatsModel, b: StatsModel) -> StatsModel {
    StatsModel {
        classes: Seq::new(a.classes.len(), |i: int| class_sum(a.classes[i], b.classes[i])),
        partitions: Seq::new(
            a.partitions.len(),
            |i: int| partition_sum(a.partitions[i], b.partitions[i]),
        ),
        payments: group_sum(a.payments, b.payments),
        lines: group_sum(a.lines, b.lines),
        deliveries: group_sum(a.deliveries, b.deliveries),
    }
}

/// Why two accounts cannot be added.
pub open spec fn addition_refusal(a: StatsModel, b: StatsModel) -> Option<BoundedStatsError> {
    first(
        classes_merge_fault(a.classes, b.classes, 0),
        first(
            partitions_merge_fault(a.partitions, b.partitions, 0),
            first(
                group_merge_fault(a.payments, b.payments, "Payment/history amount", 0),
                first(
                    group_merge_fault(a.lines, b.lines, "NewOrder line amount", 0),
                    group_merge_fault(a.deliveries, b.deliveries, "Delivery customer amount", 0),
                ),
            ),
        ),
    )
}

/// Why one account refuses another.
pub open spec fn account_merge_fault(a: StatsModel, b: StatsModel) -> Option<BoundedStatsError> {
    first(
        stats_fault(a),
        first(stats_fault(b), first(addition_refusal(a, b), stats_fault(stats_sum(a, b)))),
    )
}

/// The account of nothing.
pub open spec fn empty_stats() -> StatsModel {
    StatsModel {
        classes: Seq::new(9, |i: int| no_totals()),
        partitions: Seq::new(500, |i: int| no_partition()),
        payments: Seq::new(9, |i: int| empty_sum()),
        lines: Seq::new(9, |i: int| empty_sum()),
        deliveries: Seq::new(9, |i: int| empty_sum()),
    }
}

/// Why the accounts from `i` on cannot be merged into `s`.
pub open spec fn merge_list_fault(s: StatsModel, list: Seq<BoundedPhysicalStats>, i: int) -> Option<
    BoundedStatsError,
>
    decreases list.len() - i,
{
    if i >= list.len() {
        None
    } else {
        first(account_merge_fault(s, list[i]@), merge_list_fault(stats_sum(s, list[i]@), list, i + 1))
    }
}

/// `s` with the accounts from `i` on.
pub open spec fn merged_list(s: StatsModel, list: Seq<BoundedPhysicalStats>, i: int) -> StatsModel
    decreases list.len() - i,
{
    if i >= list.len() {
        s
    } else {
        merged_list(stats_sum(s, list[i]@), list, i + 1)
    }
}

proof fn lemma_terms_monotone(group: Seq<SumModel>, n: int, m: int)
    requires
        0 <= n <= m,
    ensures
        group_terms(group, n) <= group_terms(group, m),
    decreases m,
{
    if n < m {
        lemma_terms_monotone(group, n, m - 1);
    }
}

fn merge_group(group: &[NonNegativeF32Accumulator; 9], field: &'static str) -> (r: Result<
    NonNegativeF32Accumulator,
    BoundedStatsError,
>)
    requires
        group_wf(group@),
    ensures
        refusal(r) == group_fault(sums_of(group@), field),
        r matches Ok(joined) ==> joined@ == (SumModel {
            terms: group_terms(sums_of(group@), 9),
            total: group_total(sums_of(group@), 9),
        }) && joined.wf(),
{
    let ghost models = sums_of(group@);
    let mut merged = NonNegativeF32Accumulator::new();
    let mut i: usize = 0;
    while i < 9
        invariant
            i <= 9,
            group@.len() == 9,
            group_wf(group@),
            models == sums_of(group@),
            merged.wf(),
            merged@ == (SumModel {
                terms: group_terms(models, i as int),
                total: group_total(models, i as int),
            }),
        decreases 9 - i,
    {
        assert(group@[i as int].wf());
        assert(models[i as int] == group@[i as int]@);
        match merged.merge(&group[i]) {
            Ok(_) => {},
            Err(source) => {
                proof {
                    lemma_terms_monotone(models, i as int + 1, 9);
                }
                return Err(BoundedStatsError::Float { field, source });
            },
        }
        i = i + 1;
    }
    Ok(merged)
}

/// Counts the terms of a group with one sum replaced.
fn check_replacement(
    group: &[NonNegativeF32Accumulator; 9],
    index: usize,
    replacement: &NonNegativeF32Accumulator,
    field: &'static str,
) -> (r: Result<(), BoundedStatsError>)
    requires
        group_wf(group@),
        index < 9,
        replacement.wf(),
    ensures
        refusal(r) == group_fault(sums_of(group@).update(index as int, replacement@), field),
{
    let ghost models = sums_of(group@).update(index as int, replacement@);
    let mut terms: u64 = 0;
    let mut i: usize = 0;
    while i < 9
        invariant
            i <= 9,
            index < 9,
            group@.len() == 9,
            group_wf(group@),
            replacement.wf(),
            models == sums_of(group@).update(index as int, replacement@),
            terms == group_terms(models, i as int),
            terms <= MAX_TERMS,
        decreases 9 - i,
    {
        assert(group@[i as int].wf());
        let own: u64 = if i == index {
            replacement.term_count()
        } else {
            group[i].term_count()
        };
        if own > MAX_TERMS - terms {
            proof {
                lemma_terms_monotone(models, i as int + 1, 9);
            }
            return Err(BoundedStatsError::Float { field, source: FloatError::TermLimit });
        }
        terms = terms + own;
        i = i + 1;
    }
    Ok(())
}

impl BoundedPhysicalStats {
    /// Every sum is one of its terms.
    pub open spec fn wf(&self) -> bool {
        &&& group_wf(self.payment_history_amounts@)
        &&& group_wf(self.new_order_line_amounts@)
        &&& group_wf(self.delivery_customer_amounts@)
    }

    pub fn class_totals(&self, class: LedgerClass) -> (r: Result<ClassTotals, BoundedStatsError>)
        ensures
            refusal(r) == slot_fault(class),
            r matches Ok(totals) ==> totals == self@.classes[class_slot(class)->0],
    {
        let index: usize = class_index_without_stage(class)?;
        Ok(self.classes[index])
    }

    pub fn totals(&self) -> (r: Result<ClassTotals, BoundedStatsError>)
        ensures
            refusal(r) == totals_fault(self@.classes, 9),
            r matches Ok(total) ==> total == total_of(self@.classes, 9),
    {
        let mut total = ClassTotals::none();
        let mut i: usize = 0;
        while i < 9
            invariant
                i <= 9,
                totals_fault(self@.classes, i as int) is None,
                total == total_of(self@.classes, i as int),
            decreases 9 - i,
        {
            match total.checked_add(self.classes[i]) {
                Ok(next) => {
                    total = next;
                },
                Err(error) => {
                    proof {
                        lemma_totals_fault_first(self@.classes, i as int + 1, 9);
                    }
                    return Err(error);
                },
            }
            i = i + 1;
        }
        Ok(total)
    }

    pub fn partition_totals(&self, warehouse_id: i32, district_id: i32) -> (r: Result<
        PartitionTotals,
        BoundedStatsError,
    >)
        ensures
            refusal(r) == key_fault(warehouse_id, district_id),
            r matches Ok(totals) ==> totals == self@.partitions[partition_position(
                warehouse_id as int,
                district_id as int,
            )],
    {
        let index: usize = partition_slot(warehouse_id, district_id)?;
        Ok(self.partitions[index])
    }

    /// Every partition with its warehouse and district, in order.
    pub fn partition_totals_iter(&self) -> (r: Vec<((i32, i32), PartitionTotals)>)
        ensures
            r@ == Seq::new(
                500,
                |i: int| (((i / 10 + 1) as i32, (i % 10 + 1) as i32), self@.partitions[i]),
            ),
    {
        let ghost goal = Seq::new(
            500,
            |i: int| (((i / 10 + 1) as i32, (i % 10 + 1) as i32), self@.partitions[i]),
        );
        let mut out: Vec<((i32, i32), PartitionTotals)> = Vec::new();
        let mut i: usize = 0;
        while i < 500
            invariant
                i <= 500,
                goal == Seq::new(
                    500,
                    |i: int| (((i / 10 + 1) as i32, (i % 10 + 1) as i32), self@.partitions[i]),
                ),
                out@ =~= goal.subrange(0, i as int),
            decreases 500 - i,
        {
            let warehouse: i32 = (i / 10) as i32 + 1;
            let district: i32 = (i % 10) as i32 + 1;
            out.push(((warehouse, district), self.partitions[i]));
            i = i + 1;
        }
        assert(out@ =~= goal);
        out
    }

    pub fn payment_history_amounts_for(&self, class: LedgerClass) -> (r: Result<
        &NonNegativeF32Accumulator,
        BoundedStatsError,
    >)
        ensures
            refusal(r) == slot_fault(class),
            r matches Ok(amounts) ==> amounts@ == self@.payments[class_slot(class)->0],
    {
        let index: usize = class_index_without_stage(class)?;
        Ok(&self.payment_history_amounts[index])
    }

    pub fn new_order_line_amounts_for(&self, class: LedgerClass) -> (r: Result<
        &NonNegativeF32Accumulator,
        BoundedStatsError,
    >)
        ensures
            refusal(r) == slot_fault(class),
            r matches Ok(amounts) ==> amounts@ == self@.lines[class_slot(class)->0],
    {
        let index: usize = class_index_without_stage(class)?;
        Ok(&self.new_order_line_amounts[index])
    }

    pub fn delivery_customer_amounts_for(&self, class: LedgerClass) -> (r: Result<
        &NonNegativeF32Accumulator,
        BoundedStatsError,
    >)
        ensures
            refusal(r) == slot_fault(class),
            r matches Ok(amounts) ==> amounts@ == self@.deliveries[class_slot(class)->0],
    {
        let index: usize = class_index_without_stage(class)?;
        Ok(&self.delivery_customer_amounts[index])
    }

    pub fn payment_history_amounts(&self) -> (r: Result<
        NonNegativeF32Accumulator,
        BoundedStatsError,
    >)
        requires
            self.wf(),
        ensures
            refusal(r) == group_fault(self@.payments, "Payment/history amount"),
            r matches Ok(joined) ==> joined@ == (SumModel {
                terms: group_terms(self@.payments, 9),
                total: group_total(self@.payments, 9),
            }) && joined.wf(),
    {
        merge_group(&self.payment_history_amounts, "Payment/history amount")
    }

    pub fn new_order_line_amounts(&self) -> (r: Result<
        NonNegativeF32Accumulator,
        BoundedStatsError,
    >)
        requires
            self.wf(),
        ensures
            refusal(r) == group_fault(self@.lines, "NewOrder line amount"),
            r matches Ok(joined) ==> joined@ == (SumModel {
                terms: group_terms(self@.lines, 9),
                total: group_total(self@.lines, 9),
            }) && joined.wf(),
    {
        merge_group(&self.new_order_line_amounts, "NewOrder line amount")
    }

    pub fn delivery_customer_amounts(&self) -> (r: Result<
        NonNegativeF32Accumulator,
        BoundedStatsError,
    >)
        requires
            self.wf(),
        ensures
            refusal(r) == group_fault(self@.deliveries, "Delivery customer amount"),
            r matches Ok(joined) ==> joined@ == (SumModel {
                terms: group_terms(self@.deliveries, 9),
                total: group_total(self@.deliveries, 9),
            }) && joined.wf(),
    {
        merge_group(&self.delivery_customer_amounts, "Delivery customer amount")
    }
}

fn nine_classes(totals: ClassTotals) -> (r: [ClassTotals; 9])
    ensures
        r@ == Seq::new(9, |i: int| totals),
{
    [totals, totals, totals, totals, totals, totals, totals, totals, totals]
}

fn all_partitions(totals: PartitionTotals) -> (r: [PartitionTotals; 500])
    ensures
        r@ == Seq::new(500, |i: int| totals),
{
    let mut r = [totals; 500];
    let mut i: usize = 0;
    while i < 500
        invariant
            i <= 500,
            r@.len() == 500,
            forall|k: int| 0 <= k < i ==> r@[k] == totals,
        decreases 500 - i,
    {
        r[i] = totals;
        i = i + 1;
    }
    r
}

impl Default for BoundedPhysicalStats {
    fn default() -> (r: Self)
        ensures
            r@ == empty_stats(),
            r.wf(),
    {
        let none = ClassTotals::none();
        let nothing = PartitionTotals::none();
        let zero = NonNegativeF32Accumulator::new();
        let r = BoundedPhysicalStats {
            classes: nine_classes(none),
            partitions: all_partitions(nothing),
            payment_history_amounts: [zero; 9],
            new_order_line_amounts: [zero; 9],
            delivery_customer_amounts: [zero; 9],
        };
        assert(r.classes@ =~= empty_stats().classes);
        assert(r.partitions@ =~= empty_stats().partitions);
        assert(sums_of(r.payment_history_amounts@) =~= empty_stats().payments);
        assert(sums_of(r.new_order_line_amounts@) =~= empty_stats().lines);
        assert(sums_of(r.delivery_customer_amounts@) =~= empty_stats().deliveries);
        r
    }
}

impl BoundedPhysicalStats {
    fn check_classes(&self) -> (r: Result<(), BoundedStatsError>)
        ensures
            refusal(r) == classes_fault(self@, 0),
    {
        let ghost model = self@;
        let mut i: usize = 0;
        while i < 9
            invariant
                i <= 9,
                model == self@,
                stats_shaped(model),
                classes_fault(model, 0) == classes_fault(model, i as int),
            decreases 9 - i,
        {
            let class = self.classes[i];
            class.validate()?;
            if self.payment_history_amounts[i].term_count() != class.payment_commits {
                return Err(
                    BoundedStatsError::Inconsistent(
                        "Payment/history amount terms differ from Payment commits",
                    ),
                );
            }
            if self.new_order_line_amounts[i].term_count() != class.new_order_lines {
                return Err(
                    BoundedStatsError::Inconsistent(
                        "NewOrder amount terms differ from NewOrder lines",
                    ),
                );
            }
            if self.delivery_customer_amounts[i].term_count() != class.delivered_orders {
                return Err(
                    BoundedStatsError::Inconsistent(
                        "Delivery amount terms differ from delivered orders",
                    ),
                );
            }
            i = i + 1;
        }
        Ok(())
    }

    fn check_partitions(&self) -> (r: Result<(), BoundedStatsError>)
        ensures
            refusal(r) == partitions_fault(self@.partitions, 0),
    {
        let mut i: usize = 0;
        while i < 500
            invariant
                i <= 500,
                self@.partitions.len() == 500,
                partitions_fault(self@.partitions, 0) == partitions_fault(
                    self@.partitions,
                    i as int,
                ),
            decreases 500 - i,
        {
            self.partitions[i].validate()?;
            i = i + 1;
        }
        Ok(())
    }

    fn partitions_sum(&self) -> (r: Result<PartitionTotals, BoundedStatsError>)
        ensures
            refusal(r) == partitions_total_fault(self@.partitions, 500),
            r matches Ok(total) ==> total == partitions_total(self@.partitions, 500),
    {
        let mut total = PartitionTotals::none();
        let mut i: usize = 0;
        while i < 500
            invariant
                i <= 500,
                partitions_total_fault(self@.partitions, i as int) is None,
                total == partitions_total(self@.partitions, i as int),
            decreases 500 - i,
        {
            match total.checked_add(self.partitions[i]) {
                Ok(next) => {
                    total = next;
                },
                Err(error) => {
                    proof {
                        lemma_partitions_fault_first(self@.partitions, i as int + 1, 500);
                    }
                    return Err(error);
                },
            }
            i = i + 1;
        }
        Ok(total)
    }

    /// Whether the account is consistent in itself.
    pub fn validate(&self) -> (r: Result<(), BoundedStatsError>)
        requires
            self.wf(),
        ensures
            refusal(r) == stats_fault(self@),
    {
        self.check_classes()?;
        self.check_partitions()?;
        let total = self.totals()?;
        let sum = self.partitions_sum()?;
        if sum.new_orders != total.new_orders || sum.new_order_lines != total.new_order_lines
            || sum.delivered_orders != total.delivered_orders || sum.delivered_order_lines
            != total.delivered_order_lines {
            return Err(
                BoundedStatsError::Inconsistent(
                    "partition totals differ from all-class physical totals",
                ),
            );
        }
        self.payment_history_amounts()?;
        self.new_order_line_amounts()?;
        self.delivery_customer_amounts()?;
        Ok(())
    }

    /// The partitions that a delta changes, with their new totals.
    fn stage_partitions(&self, increments: &Vec<PartitionIncrement>) -> (r: Result<
        Vec<PartitionIncrement>,
        BoundedStatsError,
    >)
        requires
            forall|i: int| 0 <= i < increments@.len() ==> (#[trigger] increments@[i]).index < 500,
        ensures
            refusal(r) == increments_fault(self@.partitions, increments@, 0),
            r matches Ok(staged) ==> staged@ == Seq::new(
                increments@.len(),
                |i: int| staged_increment(self@.partitions, increments@[i]),
            ),
    {
        let ghost goal = Seq::new(
            increments@.len(),
            |i: int| staged_increment(self@.partitions, increments@[i]),
        );
        let mut staged: Vec<PartitionIncrement> = Vec::new();
        let mut i: usize = 0;
        while i < increments.len()
            invariant
                i <= increments@.len(),
                goal == Seq::new(
                    increments@.len(),
                    |i: int| staged_increment(self@.partitions, increments@[i]),
                ),
                forall|k: int| 0 <= k < increments@.len() ==> (#[trigger] increments@[k]).index < 500,
                increments_fault(self@.partitions, increments@, 0) == increments_fault(
                    self@.partitions,
                    increments@,
                    i as int,
                ),
                staged@ =~= goal.subrange(0, i as int),
            decreases increments@.len() - i,
        {
            let update = increments[i];
            assert(increments@[i as int].index < 500);
            let value = self.partitions[update.index].checked_add(update.delta)?;
            value.validate()?;
            staged.push(PartitionIncrement { index: update.index, delta: value });
            i = i + 1;
        }
        assert(staged@ =~= goal);
        Ok(staged)
    }

    /// Adds what a terminal adds, or changes nothing.
    fn add_delta(&mut self, delta: &TerminalDelta) -> (r: Result<(), BoundedStatsError>)
        requires
            old(self).wf(),
            delta.class_index < 9,
            forall|i: int|
                0 <= i < delta.partitions@.len() ==> (#[trigger] delta.partitions@[i]).index < 500,
        ensures
            refusal(r) == delta_refusal(old(self)@, delta@),
            r is Ok ==> final(self)@ == with_delta(old(self)@, delta@),
            r is Err ==> *final(self) == *old(self),
            final(self).wf(),
    {
        let ghost before = self@;
        let ghost d = delta@;
        let k: usize = delta.class_index;
        let next_class = self.classes[k].checked_add(delta.class_totals)?;
        next_class.validate()?;
        let total = self.totals()?;
        total.checked_add(delta.class_totals)?;
        let staged = self.stage_partitions(&delta.partitions)?;
        assert(counters_fault(before, d) is None);
        assert(self.payment_history_amounts@[k as int].wf());
        assert(self.new_order_line_amounts@[k as int].wf());
        assert(self.delivery_customer_amounts@[k as int].wf());
        let mut payments = self.payment_history_amounts[k];
        if let Some(bits) = delta.payment_amount {
            if let Err(source) = payments.add_bits(bits) {
                return Err(BoundedStatsError::Float { field: "Payment/history amount", source });
            }
        }
        let mut lines = self.new_order_line_amounts[k];
        if let Some(amounts) = delta.line_amounts {
            if let Err(source) = lines.extend_bits(amounts.as_slice()) {
                return Err(BoundedStatsError::Float { field: "NewOrder line amount", source });
            }
        }
        let mut deliveries = self.delivery_customer_amounts[k];
        if let Err(source) = deliveries.extend_bits(delta.delivery_amounts.as_slice()) {
            return Err(BoundedStatsError::Float { field: "Delivery customer amount", source });
        }
        assert(payments@ == after_payment(before.payments[k as int], d.payment_amount));
        assert(lines@ == with_list(before.lines[k as int], d.line_amounts, 0));
        assert(deliveries@ == with_list(before.deliveries[k as int], d.delivery_amounts, 0));
        check_replacement(&self.payment_history_amounts, k, &payments, "Payment/history amount")?;
        check_replacement(&self.new_order_line_amounts, k, &lines, "NewOrder line amount")?;
        check_replacement(
            &self.delivery_customer_amounts,
            k,
            &deliveries,
            "Delivery customer amount",
        )?;
        self.classes[k] = next_class;
        self.write_partitions(&staged);
        proof {
            lemma_staged(before.partitions, d.partitions, staged@, d.partitions.len() as int);
        }
        let ghost old_payments = self.payment_history_amounts@;
        let ghost old_lines = self.new_order_line_amounts@;
        let ghost old_deliveries = self.delivery_customer_amounts@;
        self.payment_history_amounts[k] = payments;
        self.new_order_line_amounts[k] = lines;
        self.delivery_customer_amounts[k] = deliveries;
        proof {
            assert(self@.payments =~= before.payments.update(k as int, payments@));
            assert(self@.lines =~= before.lines.update(k as int, lines@));
            assert(self@.deliveries =~= before.deliveries.update(k as int, deliveries@));
            assert(self@ =~= with_delta(before, d));
            assert forall|i: int| 0 <= i < 9 implies (
            #[trigger] self.payment_history_amounts@[i]).wf() by {
                assert(old_payments[i].wf());
            }
            assert forall|i: int| 0 <= i < 9 implies (
            #[trigger] self.new_order_line_amounts@[i]).wf() by {
                assert(old_lines[i].wf());
            }
            assert forall|i: int| 0 <= i < 9 implies (
            #[trigger] self.delivery_customer_amounts@[i]).wf() by {
                assert(old_deliveries[i].wf());
            }
        }
        Ok(())
    }

    /// Writes staged totals.
    fn write_partitions(&mut self, staged: &Vec<PartitionIncrement>)
        requires
            forall|i: int| 0 <= i < staged@.len() ==> (#[trigger] staged@[i]).index < 500,
        ensures
            final(self).partitions@ == written(
                old(self).partitions@,
                staged@,
                staged@.len() as int,
            ),
            final(self).classes == old(self).classes,
            final(self).payment_history_amounts == old(self).payment_history_amounts,
            final(self).new_order_line_amounts == old(self).new_order_line_amounts,
            final(self).delivery_customer_amounts == old(self).delivery_customer_amounts,
    {
        let mut i: usize = 0;
        while i < staged.len()
            invariant
                i <= staged@.len(),
                forall|k: int| 0 <= k < staged@.len() ==> (#[trigger] staged@[k]).index < 500,
                self.partitions@ == written(old(self).partitions@, staged@, i as int),
                self.classes == old(self).classes,
                self.payment_history_amounts == old(self).payment_history_amounts,
                self.new_order_line_amounts == old(self).new_order_line_amounts,
                self.delivery_customer_amounts == old(self).delivery_customer_amounts,
            decreases staged@.len() - i,
        {
            let update = staged[i];
            assert(staged@[i as int].index < 500);
            self.partitions[update.index] = update.delta;
            i = i + 1;
        }
    }

    /// Validates and atomically accounts for one confirmed terminal.
    ///
    /// The caller offers each terminal exactly once, with the scheduler's
    /// in-window or tail disposition.
    pub fn offer_terminal(
        &mut self,
        class: LedgerClass,
        ticket: &TransactionTicket,
        outcome: &RankedTransactionOutcome,
    ) -> (r: Result<(), BoundedStatsError>)
        requires
            old(self).wf(),
        ensures
            refusal(r) == offer_fault(old(self)@, class, *ticket, *outcome),
            r is Ok ==> final(self)@ == with_delta(
                old(self)@,
                terminal_delta(class, *ticket, *outcome),
            ),
            r is Err ==> *final(self) == *old(self),
            final(self).wf(),
    {
        let delta = TerminalDelta::from_terminal(class, ticket, outcome)?;
        proof {
            lemma_delta_in_domain(class, *ticket, *outcome);
        }
        self.add_delta(&delta)
    }
}

/// An increment with the partition's new totals.
pub open spec fn staged_increment(
    partitions: Seq<PartitionTotals>,
    u: PartitionIncrement,
) -> PartitionIncrement {
    PartitionIncrement {
        index: u.index,
        delta: partition_sum(partitions[u.index as int], u.delta),
    }
}

/// The partitions with the first `n` staged totals written.
pub open spec fn written(
    partitions: Seq<PartitionTotals>,
    staged: Seq<PartitionIncrement>,
    n: int,
) -> Seq<PartitionTotals>
    decreases n,
{
    if n <= 0 {
        partitions
    } else {
        written(partitions, staged, n - 1).update(
            staged[n - 1].index as int,
            staged[n - 1].delta,
        )
    }
}

proof fn lemma_staged(
    partitions: Seq<PartitionTotals>,
    increments: Seq<PartitionIncrement>,
    staged: Seq<PartitionIncrement>,
    n: int,
)
    requires
        0 <= n <= increments.len(),
        staged == Seq::new(
            increments.len(),
            |i: int| staged_increment(partitions, increments[i]),
        ),
    ensures
        written(partitions, staged, n) == incremented(partitions, increments, n),
    decreases n,
{
    if n > 0 {
        lemma_staged(partitions, increments, staged, n - 1);
    }
}

/// An accepted terminal changes only partitions of the domain.
pub proof fn lemma_delta_in_domain(
    class: LedgerClass,
    ticket: TransactionTicket,
    outcome: RankedTransactionOutcome,
)
    requires
        bounded_terminal_fault(class, ticket, outcome) is None,
    ensures
        0 <= terminal_delta(class, ticket, outcome).class_index < 9,
        forall|i: int|
            0 <= i < terminal_delta(class, ticket, outcome).partitions.len() ==> (
            #[trigger] terminal_delta(class, ticket, outcome).partitions[i]).index < 500,
{
    if let RankedTransactionOutcome::Committed(RankedCommit::Delivery(orders)) = outcome {
        let home = ticket.route.home_warehouse;
        assert forall|i: int|
            0 <= i < terminal_delta(class, ticket, outcome).partitions.len() implies (
        #[trigger] terminal_delta(class, ticket, outcome).partitions[i]).index < 500 by {
            lemma_delivered_each(home, orders@, 0, i);
        }
    }
}

/// An accepted list of delivered orders is accepted order by order.
pub proof fn lemma_delivered_each(
    home: u16,
    orders: Seq<DeliveredOrderEvidence>,
    from: int,
    i: int,
)
    requires
        0 <= from <= i < orders.len(),
        delivered_list_fault(home, orders, from) is None,
    ensures
        one_delivered_fault(home, orders, i) is None,
    decreases i - from,
{
    if from < i {
        lemma_delivered_each(home, orders, from + 1, i);
    }
}

fn merge_group_into(
    target: &mut [NonNegativeF32Accumulator; 9],
    addition: &[NonNegativeF32Accumulator; 9],
    field: &'static str,
) -> (r: Result<(), BoundedStatsError>)
    requires
        group_wf(old(target)@),
        group_wf(addition@),
    ensures
        refusal(r) == group_merge_fault(sums_of(old(target)@), sums_of(addition@), field, 0),
        r is Ok ==> sums_of(final(target)@) == group_sum(sums_of(old(target)@), sums_of(addition@)),
        group_wf(final(target)@),
{
    let ghost before = target@;
    let ghost a = sums_of(before);
    let ghost b = sums_of(addition@);
    let mut i: usize = 0;
    while i < 9
        invariant
            i <= 9,
            before == old(target)@,
            a == sums_of(before),
            b == sums_of(addition@),
            before.len() == 9,
            target@.len() == 9,
            group_wf(target@),
            group_wf(addition@),
            forall|k: int| 0 <= k < i ==> (#[trigger] target@[k])@ == joined_sum(a[k], b[k]),
            forall|k: int| i <= k < 9 ==> #[trigger] target@[k] == before[k],
            group_merge_fault(a, b, field, 0) == group_merge_fault(a, b, field, i as int),
        decreases 9 - i,
    {
        assert(target@[i as int].wf());
        assert(addition@[i as int].wf());
        let ghost held = target@;
        let mut own = target[i];
        match own.merge(&addition[i]) {
            Ok(_) => {},
            Err(source) => {
                return Err(BoundedStatsError::Float { field, source });
            },
        }
        target[i] = own;
        assert forall|k: int| 0 <= k < 9 implies (#[trigger] target@[k]).wf() by {
            assert(held[k].wf());
        }
        i = i + 1;
    }
    assert(sums_of(target@) =~= group_sum(a, b));
    Ok(())
}

impl BoundedPhysicalStats {
    /// Adds another account without checking the result.
    fn add_account(&mut self, other: &Self) -> (r: Result<(), BoundedStatsError>)
        requires
            old(self).wf(),
            other.wf(),
        ensures
            refusal(r) == addition_refusal(old(self)@, other@),
            r is Ok ==> final(self)@ == stats_sum(old(self)@, other@),
            final(self).wf(),
    {
        let ghost a = self@;
        let ghost b = other@;
        let ghost before = *self;
        let mut i: usize = 0;
        while i < 9
            invariant
                i <= 9,
                a == before@,
                b == other@,
                before == *old(self),
                self.partitions == before.partitions,
                self.payment_history_amounts == before.payment_history_amounts,
                self.new_order_line_amounts == before.new_order_line_amounts,
                self.delivery_customer_amounts == before.delivery_customer_amounts,
                self.classes@.len() == 9,
                self.wf(),
                forall|k: int|
                    0 <= k < i ==> #[trigger] self.classes@[k] == class_sum(
                        a.classes[k],
                        b.classes[k],
                    ),
                forall|k: int| i <= k < 9 ==> #[trigger] self.classes@[k] == a.classes[k],
                classes_merge_fault(a.classes, b.classes, 0) == classes_merge_fault(
                    a.classes,
                    b.classes,
                    i as int,
                ),
            decreases 9 - i,
        {
            let next = self.classes[i].checked_add(other.classes[i])?;
            self.classes[i] = next;
            i = i + 1;
        }
        let mut j: usize = 0;
        while j < 500
            invariant
                j <= 500,
                a == before@,
                b == other@,
                before == *old(self),
                self.payment_history_amounts == before.payment_history_amounts,
                self.new_order_line_amounts == before.new_order_line_amounts,
                self.delivery_customer_amounts == before.delivery_customer_amounts,
                self.wf(),
                self.partitions@.len() == 500,
                self.classes@ =~= stats_sum(a, b).classes,
                forall|k: int|
                    0 <= k < j ==> #[trigger] self.partitions@[k] == partition_sum(
                        a.partitions[k],
                        b.partitions[k],
                    ),
                forall|k: int| j <= k < 500 ==> #[trigger] self.partitions@[k] == a.partitions[k],
                classes_merge_fault(a.classes, b.classes, 0) is None,
                partitions_merge_fault(a.partitions, b.partitions, 0) == partitions_merge_fault(
                    a.partitions,
                    b.partitions,
                    j as int,
                ),
            decreases 500 - j,
        {
            let next = self.partitions[j].checked_add(other.partitions[j])?;
            self.partitions[j] = next;
            j = j + 1;
        }
        assert(self.partitions@ =~= stats_sum(a, b).partitions);
        merge_group_into(
            &mut self.payment_history_amounts,
            &other.payment_history_amounts,
            "Payment/history amount",
        )?;
        merge_group_into(
            &mut self.new_order_line_amounts,
            &other.new_order_line_amounts,
            "NewOrder line amount",
        )?;
        merge_group_into(
            &mut self.delivery_customer_amounts,
            &other.delivery_customer_amounts,
            "Delivery customer amount",
        )?;
        assert(self@ =~= stats_sum(a, b));
        Ok(())
    }

    /// Checked, atomic and order-independent merge of one worker's account.
    pub fn merge(&mut self, other: &Self) -> (r: Result<(), BoundedStatsError>)
        requires
            old(self).wf(),
            other.wf(),
        ensures
            refusal(r) == account_merge_fault(old(self)@, other@),
            r is Ok ==> final(self)@ == stats_sum(old(self)@, other@),
            r is Err ==> *final(self) == *old(self),
            final(self).wf(),
    {
        self.validate()?;
        other.validate()?;
        let mut next = *self;
        next.add_account(other)?;
        next.validate()?;
        *self = next;
        Ok(())
    }

    /// Merges accounts in order, starting from nothing.
    pub fn merge_all(summaries: &Vec<BoundedPhysicalStats>) -> (r: Result<Self, BoundedStatsError>)
        requires
            forall|i: int| 0 <= i < summaries@.len() ==> (#[trigger] summaries@[i]).wf(),
        ensures
            refusal(r) == merge_list_fault(empty_stats(), summaries@, 0),
            r matches Ok(merged) ==> merged@ == merged_list(empty_stats(), summaries@, 0)
                && merged.wf(),
    {
        let mut merged = BoundedPhysicalStats::default();
        let mut i: usize = 0;
        while i < summaries.len()
            invariant
                i <= summaries@.len(),
                forall|k: int| 0 <= k < summaries@.len() ==> (#[trigger] summaries@[k]).wf(),
                merged.wf(),
                merge_list_fault(empty_stats(), summaries@, 0) == merge_list_fault(
                    merged@,
                    summaries@,
                    i as int,
                ),
                merged_list(empty_stats(), summaries@, 0) == merged_list(
                    merged@,
                    summaries@,
                    i as int,
                ),
            decreases summaries@.len() - i,
        {
            assert(summaries@[i as int].wf());
            merged.merge(&summaries[i])?;
            i = i + 1;
        }
        Ok(merged)
    }
}

/// The first partition that overflows a total decides.
proof fn lemma_partitions_fault_first(partitions: Seq<PartitionTotals>, n: int, m: int)
    requires
        0 <= n <= m,
        partitions_total_fault(partitions, n) is Some,
    ensures
        partitions_total_fault(partitions, m) == partitions_total_fault(partitions, n),
    decreases m,
{
    if n < m {
        lemma_partitions_fault_first(partitions, n, m - 1);
    }
}

/// The first class that overflows a total decides.
proof fn lemma_totals_fault_first(classes: Seq<ClassTotals>, n: int, m: int)
    requires
        0 <= n <= m,
        totals_fault(classes, n) is Some,
    ensures
        totals_fault(classes, m) == totals_fault(classes, n),
    decreases m,
{
    if n < m {
        lemma_totals_fault_first(classes, n, m - 1);
    }
}

} // verus!
