//! Whole-ledger consistency rules and what recording and merging keep.
use vstd::prelude::*;

use crate::ranking::identity_set::IdentitySet;
use crate::ranking::ledger::{
    EventModel, LedgerClass, LedgerError, LedgerFault, NEW_ORDERS_PER_DISTRICT, PARTITION_COUNT,
    PartitionDelta, add_fault, amounts_fault, checked_add, checked_mul, delta_add_fault,
    delta_fault, delta_sum, either, event_fault, fails, fault, identity, line_range_fault,
    mul_fault, negative_fault, no_delta, validate_amount_bits, validate_line_range,
    validate_non_negative, validate_vector_len, vector_len_fault,
};
use crate::ranking::ledger_events::{
    OutcomeModel, event_outcome, law_event_keeps_outcome, ticket_event,
};
use crate::ranking::run_ledger::{
    LedgerModel, RunLedger, applied, apply_fault, empty_ledger, events_valid, identities_clash,
    lemma_seen_step, merge_fault, record_fault, recorded, replayed, seen, shaped,
};
use crate::ranking::runner::RankedTransactionOutcome;
use crate::workload::TransactionTicket;

verus! {

/// Every counter is at least zero.
pub open spec fn counters_fault(m: LedgerModel) -> Option<LedgerFault> {
    either(
        negative_fault(m.new_orders, "new_orders"@),
        either(
            negative_fault(m.new_order_lines, "new_order_lines"@),
            either(
                negative_fault(m.remote_new_order_lines, "remote_new_order_lines"@),
                either(
                    negative_fault(m.stock_ytd_delta, "stock_ytd_delta"@),
                    either(
                        negative_fault(m.payments, "payments"@),
                        either(
                            negative_fault(m.delivery_commits, "delivery_commits"@),
                            late_counters_fault(m),
                        ),
                    ),
                ),
            ),
        ),
    )
}

pub open spec fn late_counters_fault(m: LedgerModel) -> Option<LedgerFault> {
    either(
        negative_fault(m.delivered_orders, "delivered_orders"@),
        either(
            negative_fault(m.delivered_order_lines, "delivered_order_lines"@),
            either(
                negative_fault(m.order_status_commits, "order_status_commits"@),
                either(
                    negative_fault(m.stock_level_commits, "stock_level_commits"@),
                    negative_fault(m.expected_rollbacks, "expected_rollbacks"@),
                ),
            ),
        ),
    )
}

/// Ranges between the counters.
pub open spec fn ranges_fault(m: LedgerModel) -> Option<LedgerFault> {
    either(
        fails(
            m.remote_new_order_lines > m.new_order_lines,
            LedgerFault::Inconsistent("remote NewOrder lines exceed all NewOrder lines"@),
        ),
        either(
            line_range_fault(m.new_orders as int, m.new_order_lines as int, "committed NewOrder"@),
            either(
                line_range_fault(
                    m.delivered_orders as int,
                    m.delivered_order_lines as int,
                    "delivered order"@,
                ),
                either(
                    mul_fault(m.delivery_commits as int, 10, "maximum delivered orders"@),
                    either(
                        fails(
                            m.delivered_orders > m.delivery_commits * 10,
                            LedgerFault::Inconsistent(
                                "delivered orders exceed ten per committed Delivery"@,
                            ),
                        ),
                        either(
                            mul_fault(m.new_order_lines as int, 10, "maximum stock_ytd_delta"@),
                            fails(
                                !(m.new_order_lines <= m.stock_ytd_delta <= m.new_order_lines
                                    * 10),
                                LedgerFault::Inconsistent(
                                    "stock_ytd_delta must equal 1..=10 per committed NewOrder line"@,
                                ),
                            ),
                        ),
                    ),
                ),
            ),
        ),
    )
}

/// The amount lists have the counted lengths and hold valid amounts.
pub open spec fn amount_lists_fault(m: LedgerModel) -> Option<LedgerFault> {
    either(
        vector_len_fault(
            "new_order_line_amount_bits"@,
            m.new_order_lines,
            m.new_order_line_amount_bits.len(),
        ),
        either(
            vector_len_fault("payment_amount_bits"@, m.payments, m.payment_amount_bits.len()),
            either(
                vector_len_fault(
                    "delivery_customer_amount_bits"@,
                    m.delivered_orders,
                    m.delivery_customer_amount_bits.len(),
                ),
                either(
                    amounts_fault("NewOrder line amount"@, m.new_order_line_amount_bits, 0),
                    either(
                        amounts_fault("Payment amount"@, m.payment_amount_bits, 0),
                        amounts_fault(
                            "Delivery customer amount"@,
                            m.delivery_customer_amount_bits,
                            0,
                        ),
                    ),
                ),
            ),
        ),
    )
}

/// Sum of the first `n` partitions.
pub open spec fn partition_total(partitions: Seq<PartitionDelta>, n: int) -> PartitionDelta
    decreases n,
{
    if n <= 0 {
        no_delta()
    } else {
        delta_sum(partition_total(partitions, n - 1), partitions[n - 1])
    }
}

pub open spec fn partition_rule_fault(partitions: Seq<PartitionDelta>, i: int) -> Option<
    LedgerFault,
> {
    either(
        delta_fault(partitions[i]),
        either(
            add_fault(
                NEW_ORDERS_PER_DISTRICT as int,
                partitions[i].new_orders as int,
                "partition available undelivered orders"@,
            ),
            either(
                fails(
                    partitions[i].delivered_orders > NEW_ORDERS_PER_DISTRICT
                        + partitions[i].new_orders,
                    LedgerFault::Inconsistent(
                        "partition deliveries exceed initial plus committed queued orders"@,
                    ),
                ),
                delta_add_fault(partition_total(partitions, i), partitions[i]),
            ),
        ),
    )
}

/// The first partition from position `i` on that breaks a rule.
pub open spec fn partition_rules_fault(partitions: Seq<PartitionDelta>, i: int) -> Option<
    LedgerFault,
>
    decreases partitions.len() - i,
{
    if i < 0 || i >= partitions.len() {
        None
    } else {
        either(partition_rule_fault(partitions, i), partition_rules_fault(partitions, i + 1))
    }
}

pub open spec fn totals_differ(m: LedgerModel) -> bool {
    let total = partition_total(m.partitions, m.partitions.len() as int);
    total.new_orders != m.new_orders || total.new_order_lines != m.new_order_lines
        || total.delivered_orders != m.delivered_orders || total.delivered_order_lines
        != m.delivered_order_lines
}

pub open spec fn event_rule_fault(events: Seq<EventModel>, i: int) -> Option<LedgerFault> {
    either(
        event_fault(events[i]),
        either(
            fails(
                seen(events, i, identity(events[i].meta())),
                LedgerFault::Inconsistent("duplicate terminal event identity"@),
            ),
            apply_fault(replayed(events, i), event_outcome(events[i])),
        ),
    )
}

/// The first event from position `i` on that breaks a rule or cannot be
/// replayed.
pub open spec fn event_rules_fault(events: Seq<EventModel>, i: int) -> Option<LedgerFault>
    decreases events.len() - i,
{
    if i < 0 || i >= events.len() {
        None
    } else {
        either(event_rule_fault(events, i), event_rules_fault(events, i + 1))
    }
}

/// A ledger without its events.
pub open spec fn aggregates(m: LedgerModel) -> LedgerModel {
    LedgerModel { events: Seq::empty(), ..m }
}

/// Everything that makes a ledger inconsistent.
pub open spec fn ledger_fault(m: LedgerModel) -> Option<LedgerFault> {
    either(
        counters_fault(m),
        either(
            fails(
                m.partitions.len() != 500,
                LedgerFault::Inconsistent("ledger must contain exactly 500 partitions"@),
            ),
            either(
                ranges_fault(m),
                either(
                    amount_lists_fault(m),
                    either(
                        partition_rules_fault(m.partitions, 0),
                        either(
                            fails(
                                totals_differ(m),
                                LedgerFault::Inconsistent(
                                    "partition deltas do not equal global committed counts"@,
                                ),
                            ),
                            either(
                                event_rules_fault(m.events, 0),
                                fails(
                                    aggregates(m) != aggregates(
                                        replayed(m.events, m.events.len() as int),
                                    ),
                                    LedgerFault::Inconsistent(
                                        "terminal events do not reproduce aggregate ledger fields"@,
                                    ),
                                ),
                            ),
                        ),
                    ),
                ),
            ),
        ),
    )
}

proof fn lemma_rules_give_valid(events: Seq<EventModel>, from: int, i: int)
    requires
        0 <= from <= i < events.len(),
        event_rules_fault(events, from) is None,
    ensures
        event_fault(events[i]) is None,
    decreases i - from,
{
    if from < i {
        lemma_rules_give_valid(events, from + 1, i);
    }
}

/// Law: a ledger that passes its own rules has all its partitions and only valid events.
pub proof fn law_consistent_ledger_is_well_formed(m: LedgerModel)
    requires
        ledger_fault(m) is None,
    ensures
        shaped(m),
        events_valid(m.events),
{
    assert forall|i: int| 0 <= i < m.events.len() implies event_fault(
        #[trigger] m.events[i],
    ) is None by {
        lemma_rules_give_valid(m.events, 0, i);
    }
}

fn words_equal(a: &Vec<u32>, b: &Vec<u32>) -> (r: bool)
    ensures
        r == (a@ == b@),
{
    if a.len() != b.len() {
        return false;
    }
    let mut i: usize = 0;
    while i < a.len()
        invariant
            i <= a.len() == b.len(),
            forall|k: int| 0 <= k < i ==> a@[k] == b@[k],
        decreases a.len() - i,
    {
        if a[i] != b[i] {
            return false;
        }
        i = i + 1;
    }
    assert(a@ =~= b@);
    true
}

fn partitions_equal(a: &Vec<PartitionDelta>, b: &Vec<PartitionDelta>) -> (r: bool)
    ensures
        r == (a@ == b@),
{
    if a.len() != b.len() {
        return false;
    }
    let mut i: usize = 0;
    while i < a.len()
        invariant
            i <= a.len() == b.len(),
            forall|k: int| 0 <= k < i ==> a@[k] == b@[k],
        decreases a.len() - i,
    {
        if a[i] != b[i] {
            return false;
        }
        i = i + 1;
    }
    assert(a@ =~= b@);
    true
}

/// Applying an outcome neither reads nor changes the events.
pub proof fn lemma_applied_ignores_events(m: LedgerModel, outcome: OutcomeModel, events: Seq<EventModel>)
    ensures
        applied(LedgerModel { events, ..m }, outcome) == (LedgerModel {
            events,
            ..applied(m, outcome)
        }),
        apply_fault(LedgerModel { events, ..m }, outcome) == apply_fault(m, outcome),
        applied(m, outcome).events == m.events,
{
}

impl RunLedger {
    /// Checks the counters, the partitions and that the events reproduce them.
    pub fn validate(&self) -> (r: Result<(), LedgerError>)
        ensures
            fault(r) == ledger_fault(self@),
    {
        self.validate_counters()?;
        if self.partitions.len() != PARTITION_COUNT {
            return Err(
                LedgerError::Inconsistent("ledger must contain exactly 500 partitions".to_owned()),
            );
        }
        self.validate_ranges()?;
        self.validate_amount_lists()?;
        self.validate_partitions()?;
        self.validate_events()
    }

    fn validate_counters(&self) -> (r: Result<(), LedgerError>)
        ensures
            fault(r) == counters_fault(self@),
    {
        validate_non_negative(self.new_orders, "new_orders")?;
        validate_non_negative(self.new_order_lines, "new_order_lines")?;
        validate_non_negative(self.remote_new_order_lines, "remote_new_order_lines")?;
        validate_non_negative(self.stock_ytd_delta, "stock_ytd_delta")?;
        validate_non_negative(self.payments, "payments")?;
        validate_non_negative(self.delivery_commits, "delivery_commits")?;
        validate_non_negative(self.delivered_orders, "delivered_orders")?;
        validate_non_negative(self.delivered_order_lines, "delivered_order_lines")?;
        validate_non_negative(self.order_status_commits, "order_status_commits")?;
        validate_non_negative(self.stock_level_commits, "stock_level_commits")?;
        validate_non_negative(self.expected_rollbacks, "expected_rollbacks")
    }

    fn validate_ranges(&self) -> (r: Result<(), LedgerError>)
        ensures
            fault(r) == ranges_fault(self@),
    {
        if self.remote_new_order_lines > self.new_order_lines {
            return Err(
                LedgerError::Inconsistent(
                    "remote NewOrder lines exceed all NewOrder lines".to_owned(),
                ),
            );
        }
        validate_line_range(self.new_orders, self.new_order_lines, "committed NewOrder")?;
        validate_line_range(self.delivered_orders, self.delivered_order_lines, "delivered order")?;
        let maximum_delivered_orders: i64 = checked_mul(
            self.delivery_commits,
            10,
            "maximum delivered orders",
        )?;
        if self.delivered_orders > maximum_delivered_orders {
            return Err(
                LedgerError::Inconsistent(
                    "delivered orders exceed ten per committed Delivery".to_owned(),
                ),
            );
        }
        let maximum_stock_delta: i64 = checked_mul(
            self.new_order_lines,
            10,
            "maximum stock_ytd_delta",
        )?;
        if self.stock_ytd_delta < self.new_order_lines || self.stock_ytd_delta
            > maximum_stock_delta {
            return Err(
                LedgerError::Inconsistent(
                    "stock_ytd_delta must equal 1..=10 per committed NewOrder line".to_owned(),
                ),
            );
        }
        Ok(())
    }

    fn validate_amount_lists(&self) -> (r: Result<(), LedgerError>)
        ensures
            fault(r) == amount_lists_fault(self@),
    {
        validate_vector_len(
            "new_order_line_amount_bits",
            self.new_order_lines,
            self.new_order_line_amount_bits.len(),
        )?;
        validate_vector_len(
            "payment_amount_bits",
            self.payments,
            self.payment_amount_bits.len(),
        )?;
        validate_vector_len(
            "delivery_customer_amount_bits",
            self.delivered_orders,
            self.delivery_customer_amount_bits.len(),
        )?;
        validate_amount_bits("NewOrder line amount", self.new_order_line_amount_bits.as_slice())?;
        validate_amount_bits("Payment amount", self.payment_amount_bits.as_slice())?;
        validate_amount_bits(
            "Delivery customer amount",
            self.delivery_customer_amount_bits.as_slice(),
        )
    }

    fn validate_partitions(&self) -> (r: Result<(), LedgerError>)
        ensures
            fault(r) == either(
                partition_rules_fault(self@.partitions, 0),
                fails(
                    totals_differ(self@),
                    LedgerFault::Inconsistent(
                        "partition deltas do not equal global committed counts"@,
                    ),
                ),
            ),
    {
        let mut total = PartitionDelta::default();
        let mut i: usize = 0;
        while i < self.partitions.len()
            invariant
                i <= self.partitions.len(),
                total == partition_total(self@.partitions, i as int),
                partition_rules_fault(self@.partitions, 0) == partition_rules_fault(
                    self@.partitions,
                    i as int,
                ),
            decreases self.partitions.len() - i,
        {
            let delta = self.partitions[i];
            delta.validate()?;
            let available_orders: i64 = checked_add(
                NEW_ORDERS_PER_DISTRICT,
                delta.new_orders,
                "partition available undelivered orders",
            )?;
            if delta.delivered_orders > available_orders {
                return Err(
                    LedgerError::Inconsistent(
                        "partition deliveries exceed initial plus committed queued orders".to_owned(

                        ),
                    ),
                );
            }
            total = total.checked_add(delta)?;
            i = i + 1;
        }
        if total.new_orders != self.new_orders || total.new_order_lines != self.new_order_lines
            || total.delivered_orders != self.delivered_orders || total.delivered_order_lines
            != self.delivered_order_lines {
            return Err(
                LedgerError::Inconsistent(
                    "partition deltas do not equal global committed counts".to_owned(),
                ),
            );
        }
        Ok(())
    }

    fn validate_events(&self) -> (r: Result<(), LedgerError>)
        ensures
            fault(r) == either(
                event_rules_fault(self@.events, 0),
                fails(
                    aggregates(self@) != aggregates(
                        replayed(self@.events, self@.events.len() as int),
                    ),
                    LedgerFault::Inconsistent(
                        "terminal events do not reproduce aggregate ledger fields"@,
                    ),
                ),
            ),
    {
        let ghost events = self@.events;
        let mut ids = IdentitySet::new();
        let mut replay = RunLedger::default();
        let mut i: usize = 0;
        while i < self.events.len()
            invariant
                i <= self.events.len(),
                events == self@.events,
                events.len() == self.events@.len(),
                shaped(replay@),
                replay@ == aggregates(replayed(events, i as int)),
                event_rules_fault(events, 0) == event_rules_fault(events, i as int),
                forall|id: (u64, u16, u64)| #[trigger]
                    ids@.contains(id) <==> seen(events, i as int, id),
            decreases self.events.len() - i,
        {
            let event = &self.events[i];
            assert(events[i as int] == event@);
            event.validate()?;
            let meta = event.meta();
            if !ids.insert((meta.stage, meta.client_id, meta.txn_no)) {
                return Err(
                    LedgerError::Inconsistent("duplicate terminal event identity".to_owned()),
                );
            }
            proof {
                let outcome = event_outcome(event@);
                lemma_applied_ignores_events(replayed(events, i as int), outcome, Seq::empty());
                assert forall|id: (u64, u16, u64)| #[trigger] ids@.contains(id) <==> seen(
                    events,
                    i as int + 1,
                    id,
                ) by {
                    lemma_seen_step(events, i as int, id);
                }
            }
            replay.apply_outcome(&event.to_outcome())?;
            proof {
                assert(replay@ =~= aggregates(replayed(events, i as int + 1)));
            }
            i = i + 1;
        }
        if !self.same_aggregate_state(&replay) {
            return Err(
                LedgerError::Inconsistent(
                    "terminal events do not reproduce aggregate ledger fields".to_owned(),
                ),
            );
        }
        Ok(())
    }

    /// Whether everything but the events agrees.
    pub fn same_aggregate_state(&self, other: &Self) -> (r: bool)
        ensures
            r == (aggregates(self@) == aggregates(other@)),
    {
        self.new_orders == other.new_orders && self.new_order_lines == other.new_order_lines
            && self.remote_new_order_lines == other.remote_new_order_lines && self.stock_ytd_delta
            == other.stock_ytd_delta && self.payments == other.payments && self.delivery_commits
            == other.delivery_commits && self.delivered_orders == other.delivered_orders
            && self.delivered_order_lines == other.delivered_order_lines
            && self.order_status_commits == other.order_status_commits && self.stock_level_commits
            == other.stock_level_commits && self.expected_rollbacks == other.expected_rollbacks
            && words_equal(&self.new_order_line_amount_bits, &other.new_order_line_amount_bits)
            && words_equal(&self.payment_amount_bits, &other.payment_amount_bits) && words_equal(
            &self.delivery_customer_amount_bits,
            &other.delivery_customer_amount_bits,
        ) && partitions_equal(&self.partitions, &other.partitions)
    }
}

/// Event `i` is valid and can be applied after those before it.
#[verifier::opaque]
pub open spec fn replays_at(events: Seq<EventModel>, i: int) -> bool {
    event_fault(events[i]) is None && apply_fault(
        replayed(events, i),
        event_outcome(events[i]),
    ) is None
}

/// The events of a ledger are valid, can be replayed, and reproduce it.
pub open spec fn reproducible(m: LedgerModel) -> bool {
    &&& forall|i: int| 0 <= i < m.events.len() ==> #[trigger] replays_at(m.events, i)
    &&& m == replayed(m.events, m.events.len() as int)
}

/// Whether an event replays depends on it and on those before it.
pub proof fn lemma_replays_transfer(a: Seq<EventModel>, b: Seq<EventModel>, i: int)
    requires
        0 <= i < a.len(),
        i < b.len(),
        replays_at(a, i),
        forall|k: int| 0 <= k <= i ==> a[k] == b[k],
    ensures
        replays_at(b, i),
{
    reveal(replays_at);
    lemma_replayed_prefix(a, b, i);
}

/// Replaying reads only the events replayed.
pub proof fn lemma_replayed_prefix(a: Seq<EventModel>, b: Seq<EventModel>, n: int)
    requires
        0 <= n <= a.len(),
        n <= b.len(),
        forall|k: int| 0 <= k < n ==> a[k] == b[k],
    ensures
        replayed(a, n) == replayed(b, n),
    decreases n,
{
    if n > 0 {
        lemma_replayed_prefix(a, b, n - 1);
    }
}

/// An empty ledger is reproduced by its events.
pub proof fn law_empty_ledger_reproducible()
    ensures
        reproducible(empty_ledger()),
        ledger_fault(empty_ledger()) is None,
{
    assert(empty_ledger().events =~= Seq::<EventModel>::empty());
    lemma_empty_partitions(0);
    lemma_empty_total(500);
    assert(aggregates(empty_ledger()) =~= empty_ledger());
}

proof fn lemma_empty_partitions(i: int)
    requires
        0 <= i <= 500,
    ensures
        partition_rules_fault(empty_ledger().partitions, i) is None,
    decreases 500 - i,
{
    if i < 500 {
        lemma_empty_partitions(i + 1);
        lemma_empty_total(i);
    }
}

proof fn lemma_empty_total(n: int)
    requires
        0 <= n <= 500,
    ensures
        partition_total(empty_ledger().partitions, n) == no_delta(),
    decreases n,
{
    if n > 0 {
        lemma_empty_total(n - 1);
    }
}

/// Recording keeps a ledger reproducible from its events.
pub proof fn law_record_keeps_reproducible(
    m: LedgerModel,
    class: LedgerClass,
    ticket: TransactionTicket,
    outcome: RankedTransactionOutcome,
)
    requires
        reproducible(m),
        record_fault(m, class, ticket, outcome) is None,
    ensures
        reproducible(recorded(m, class, ticket, outcome)),
{
    let event = ticket_event(class, ticket, outcome);
    let next = recorded(m, class, ticket, outcome);
    let n = m.events.len() as int;
    law_event_keeps_outcome(class, ticket, outcome);
    lemma_replayed_prefix(next.events, m.events, n);
    assert(next.events[n] == event);
    assert forall|i: int| 0 <= i < next.events.len() implies #[trigger] replays_at(
        next.events,
        i,
    ) by {
        if i < n {
            lemma_replays_transfer(m.events, next.events, i);
        } else {
            reveal(replays_at);
        }
    }
    assert(replayed(next.events, n + 1) == (LedgerModel {
        events: m.events.push(event),
        ..applied(m, event_outcome(event))
    }));
}

/// The terminal with the identity of a recorded one cannot be merged in again.
pub proof fn law_merge_rejects_repeated_identity(a: LedgerModel, b: LedgerModel, i: int, j: int)
    requires
        0 <= i < a.events.len(),
        0 <= j < b.events.len(),
        identity(a.events[i].meta()) == identity(b.events[j].meta()),
    ensures
        merge_fault(a, b) == Some(
            LedgerFault::Inconsistent(
                "duplicate terminal event identity across worker ledgers"@,
            ),
        ),
{
    let id = identity(b.events[j].meta());
    assert(seen(a.events, a.events.len() as int, id)) by {
        assert(identity(a.events[i].meta()) == id);
    }
    assert(identities_clash(a.events, b.events)) by {
        assert(identity(b.events[j].meta()) == id);
    }
}

} // verus!
