//! Where an account counts a terminal, and that it takes what a ledger takes.
use vstd::prelude::*;

use crate::accumulator::{with_list, with_terms};
use crate::ranking::bounded_stats::{StatsModel, offer_fault, stats_shaped, with_delta};
use crate::ranking::bounded_terminal::{
    bounded_terminal_fault, delivered_lines, order_lines_fault, remote_lines, terminal_delta,
    total_quantity,
};
use crate::ranking::bounded_totals::ClassTotals;
use crate::ranking::ledger::LedgerClass;
use crate::ranking::ledger_events::terminal_fault;
use crate::ranking::ledger_totals_law::one_if;
use crate::ranking::new_order_evidence_law::{lines_from_elsewhere, ordered_quantity};
use crate::ranking::runner::{DeliveredOrderEvidence, RankedCommit, RankedTransactionOutcome};
use crate::ranking::terminal_law::{
    is_amount_up_to, law_orders_are_taken_if_they_add_up, law_payments_are_taken_if_they_add_up,
    lemma_limits,
};
use crate::workload::{OrderLineInput, TransactionParameters, TransactionTicket};

verus! {

/// The place of a class in an account: the warmup, the three windows, their tails in the
/// same order, then what is not ranked.
pub open spec fn place_of(class: LedgerClass) -> int {
    match class {
        LedgerClass::Warmup => 0,
        LedgerClass::RankedWindow(k) => 1 + k,
        LedgerClass::WarmupTail => 4,
        LedgerClass::RankedTail(k) => 5 + k,
        LedgerClass::NonRanked => 8,
    }
}

/// Law: an account counts a terminal in its class and in no other. Every other class keeps
/// its counters and its three sums.
pub proof fn law_account_counts_in_one_class(
    s: StatsModel,
    class: LedgerClass,
    ticket: TransactionTicket,
    outcome: RankedTransactionOutcome,
    j: int,
)
    requires
        stats_shaped(s),
        offer_fault(s, class, ticket, outcome) is None,
        0 <= j < 9,
        j != place_of(class),
    ensures
        ({
            let t = with_delta(s, terminal_delta(class, ticket, outcome));
            &&& 0 <= place_of(class) < 9
            &&& t.classes[j] == s.classes[j]
            &&& t.payments[j] == s.payments[j]
            &&& t.lines[j] == s.lines[j]
            &&& t.deliveries[j] == s.deliveries[j]
        }),
{
}

/// What a terminal adds to the counters of its class.
pub open spec fn class_grows(
    before: ClassTotals,
    after: ClassTotals,
    outcome: RankedTransactionOutcome,
) -> bool {
    &&& after.new_order_commits - before.new_order_commits == one_if(
        outcome matches RankedTransactionOutcome::Committed(c) && c is NewOrder,
    )
    &&& after.payment_commits - before.payment_commits == one_if(
        outcome matches RankedTransactionOutcome::Committed(c) && c is Payment,
    )
    &&& after.order_status_commits - before.order_status_commits == one_if(
        outcome matches RankedTransactionOutcome::Committed(c) && c is OrderStatus,
    )
    &&& after.delivery_commits - before.delivery_commits == one_if(
        outcome matches RankedTransactionOutcome::Committed(c) && c is Delivery,
    )
    &&& after.stock_level_commits - before.stock_level_commits == one_if(
        outcome matches RankedTransactionOutcome::Committed(c) && c is StockLevel,
    )
    &&& after.expected_rollbacks - before.expected_rollbacks == one_if(
        outcome is ExpectedRollback,
    )
    &&& match outcome {
        RankedTransactionOutcome::Committed(RankedCommit::NewOrder(e)) => {
            &&& after.new_orders == before.new_orders + 1
            &&& after.new_order_lines == before.new_order_lines + e.line_count
            &&& after.remote_new_order_lines == before.remote_new_order_lines + e.remote_line_count
            &&& after.stock_quantity_delta == before.stock_quantity_delta + e.stock_ytd_delta
        },
        _ => {
            &&& after.new_orders == before.new_orders
            &&& after.new_order_lines == before.new_order_lines
            &&& after.remote_new_order_lines == before.remote_new_order_lines
            &&& after.stock_quantity_delta == before.stock_quantity_delta
        },
    }
    &&& match outcome {
        RankedTransactionOutcome::Committed(RankedCommit::Delivery(orders)) => {
            &&& after.delivered_orders == before.delivered_orders + orders@.len()
            &&& after.delivered_order_lines == before.delivered_order_lines + delivered_lines(
                orders@,
                orders@.len() as int,
            )
        },
        _ => {
            &&& after.delivered_orders == before.delivered_orders
            &&& after.delivered_order_lines == before.delivered_order_lines
        },
    }
}

/// Law: the class of a terminal grows by what its outcome says: one transaction of its
/// kind, and the lines, quantities and orders that its evidence holds.
pub proof fn law_account_grows_by_the_outcome(
    s: StatsModel,
    class: LedgerClass,
    ticket: TransactionTicket,
    outcome: RankedTransactionOutcome,
)
    requires
        stats_shaped(s),
        offer_fault(s, class, ticket, outcome) is None,
    ensures
        ({
            let t = with_delta(s, terminal_delta(class, ticket, outcome));
            let k = place_of(class);
            &&& class_grows(s.classes[k], t.classes[k], outcome)
            &&& t.payments[k] == match outcome {
                RankedTransactionOutcome::Committed(RankedCommit::Payment(e)) => with_terms(
                    s.payments[k],
                    e.amount_bits,
                    1,
                ),
                _ => s.payments[k],
            }
            &&& t.lines[k] == match outcome {
                RankedTransactionOutcome::Committed(RankedCommit::NewOrder(e)) => with_list(
                    s.lines[k],
                    e.line_amount_bits@,
                    0,
                ),
                _ => s.lines[k],
            }
        }),
{
    if let RankedTransactionOutcome::Committed(RankedCommit::Delivery(orders)) = outcome {
        lemma_lines_bound(orders@, orders@.len() as int);
    }
}

proof fn lemma_lines_bound(orders: Seq<DeliveredOrderEvidence>, n: int)
    requires
        0 <= n,
    ensures
        delivered_lines(orders, n) <= 255 * n,
    decreases n,
{
    if n > 0 {
        lemma_lines_bound(orders, n - 1);
    }
}

/// The totals that a NewOrder's input has for an account are those of its lines.
proof fn lemma_account_totals(lines: Seq<OrderLineInput>, home: u16, n: int)
    requires
        0 <= n,
    ensures
        remote_lines(lines, home, n) == lines_from_elsewhere(lines, home as int, n),
        total_quantity(lines, n) == ordered_quantity(lines, n),
    decreases n,
{
    if n > 0 {
        lemma_account_totals(lines, home, n - 1);
    }
}

proof fn lemma_account_lines(lines: Seq<OrderLineInput>, amounts: Seq<u32>, from: int)
    requires
        0 <= from <= lines.len(),
        amounts.len() == lines.len(),
    ensures
        order_lines_fault(lines, amounts, from) is None <==> forall|i: int|
            from <= i < lines.len() ==> account_line(#[trigger] lines[i], amounts[i], i),
    decreases lines.len() - from,
{
    lemma_limits();
    if from < lines.len() {
        lemma_account_lines(lines, amounts, from + 1);
    }
}

/// Whether an account takes a line with its amount.
spec fn account_line(line: OrderLineInput, amount: u32, i: int) -> bool {
    &&& line.number == i + 1
    &&& !line.invalid()
    &&& 1 <= line.item_id <= 100_000
    &&& 1 <= line.supply_warehouse <= 50
    &&& 1 <= line.quantity <= 10
    &&& is_amount_up_to(amount, 1_000)
}

/// Law: an account takes exactly the committed NewOrders and Payments that a ledger takes.
pub proof fn law_account_takes_what_a_ledger_takes(
    class: LedgerClass,
    ticket: TransactionTicket,
    outcome: RankedTransactionOutcome,
)
    requires
        outcome matches RankedTransactionOutcome::Committed(c) && (c is NewOrder || c is Payment),
    ensures
        bounded_terminal_fault(class, ticket, outcome) is None <==> terminal_fault(
            class,
            ticket,
            outcome,
        ) is None,
{
    lemma_limits();
    match (ticket.parameters, outcome) {
        (
            TransactionParameters::NewOrder(input),
            RankedTransactionOutcome::Committed(RankedCommit::NewOrder(e)),
        ) => {
            law_orders_are_taken_if_they_add_up(class, ticket, input, e);
            let lines = input.lines@;
            let amounts = e.line_amount_bits@;
            lemma_account_totals(lines, ticket.route.home_warehouse, lines.len() as int);
            if amounts.len() == lines.len() {
                lemma_account_lines(lines, amounts, 0);
                if bounded_terminal_fault(class, ticket, outcome) is None {
                    assert forall|i: int| 0 <= i < lines.len() implies is_amount_up_to(
                        #[trigger] amounts[i],
                        1_000,
                    ) by {
                        assert(account_line(lines[i], amounts[i], i));
                    }
                    assert forall|i: int| 0 <= i < lines.len() implies account_line(
                        #[trigger] lines[i],
                        amounts[i],
                        i,
                    ) by {}
                }
                if terminal_fault(class, ticket, outcome) is None {
                    assert forall|i: int| 0 <= i < lines.len() implies account_line(
                        #[trigger] lines[i],
                        amounts[i],
                        i,
                    ) by {
                        assert(is_amount_up_to(amounts[i], 1_000));
                    }
                }
            }
        },
        (
            TransactionParameters::Payment(input),
            RankedTransactionOutcome::Committed(RankedCommit::Payment(e)),
        ) => {
            law_payments_are_taken_if_they_add_up(class, ticket, input, e);
        },
        _ => {},
    }
}

} // verus!
