//! Which terminals a ledger takes, and what it keeps of them.
use vstd::arithmetic::power2::{lemma2_to64, lemma_pow2_adds, pow2};
use vstd::prelude::*;

use crate::binary32::{difference, is_finite, sum, value};
use crate::ranking::ledger::{
    DeliveredOrderDelta, EventModel, LedgerClass, LedgerEventMeta, MAX_DELIVERY_AMOUNT_BITS,
    MAX_LINE_AMOUNT_BITS, MAX_PAYMENT_AMOUNT_BITS, NewOrderLineDelta, PaymentDelta,
    delivered_order_fault, delivered_orders_fault, district_seen, line_fault, lines_fault,
    ticket_meta,
};
use crate::ranking::ledger_events::{
    delivered_delta, delivery_model, foreign_order, input_quantities, input_suppliers, line_delta,
    line_deltas, quantity_total, remote_count, terminal_fault, ticket_event,
};
use crate::ranking::new_order_evidence_law::{lines_from_elsewhere, ordered_quantity};
use crate::ranking::runner::{
    DeliveredOrderEvidence, NewOrderEvidence, PaymentEvidence, RankedCommit,
    RankedTransactionOutcome,
};
use crate::workload::{
    CustomerSelector, DeliveryInput, NewOrderInput, OrderLineInput, PaymentInput,
    RoutedTransaction, TransactionParameters, TransactionTicket,
};

verus! {

/// Whether a pattern is a positive amount of at most `limit`.
pub open spec fn is_amount_up_to(bits: u32, limit: int) -> bool {
    is_finite(bits) && 0 < value(bits) <= limit * pow2(149)
}

/// The limits of the three kinds of amounts.
pub proof fn lemma_limits()
    ensures
        value(MAX_LINE_AMOUNT_BITS) == 1_000 * pow2(149),
        value(MAX_PAYMENT_AMOUNT_BITS) == 5_000 * pow2(149),
        value(MAX_DELIVERY_AMOUNT_BITS) == 15_000 * pow2(149),
{
    lemma2_to64();
    lemma_pow2_adds(135, 14);
    lemma_pow2_adds(138, 11);
    lemma_pow2_adds(139, 10);
    let a = pow2(135) as int;
    let b = pow2(138) as int;
    let c = pow2(139) as int;
    assert(16_384_000 * a == 1_000 * (a * 16_384)) by (nonlinear_arith);
    assert(10_240_000 * b == 5_000 * (b * 2_048)) by (nonlinear_arith);
    assert(15_360_000 * c == 15_000 * (c * 1_024)) by (nonlinear_arith);
}

/// Whether the class, the stage and the client of a terminal fit each other.
pub open spec fn placed(class: LedgerClass, ticket: TransactionTicket) -> bool {
    let stage = ticket.route.stage.number;
    &&& ticket.route.client_id < 32
    &&& match class {
        LedgerClass::Warmup | LedgerClass::WarmupTail => stage == 0,
        LedgerClass::RankedWindow(k) | LedgerClass::RankedTail(k) => 1 <= stage <= 3 && k + 1
            == stage,
        LedgerClass::NonRanked => stage > 3,
    }
}

/// Whether an event is that of a ticket.
pub open spec fn is_of_ticket(
    meta: LedgerEventMeta,
    class: LedgerClass,
    ticket: TransactionTicket,
) -> bool {
    &&& meta.class == class
    &&& meta.stage == ticket.route.stage.number
    &&& meta.client_id == ticket.route.client_id
    &&& meta.txn_no == ticket.route.txn_no
    &&& meta.parameter_fingerprint == ticket.parameter_fingerprint
}

/// Whether the evidence of a Payment is sound in itself: every total moves by the amount,
/// the balance against it, and the customer has one Payment more and no Delivery more.
pub open spec fn payment_adds_up(e: PaymentEvidence) -> bool {
    &&& is_amount_up_to(e.amount_bits, 5_000)
    &&& is_finite(e.warehouse_before_bits) && is_finite(e.warehouse_after_bits)
    &&& is_finite(e.district_before_bits) && is_finite(e.district_after_bits)
    &&& is_finite(e.customer_balance_before_bits) && is_finite(e.customer_balance_after_bits)
    &&& is_finite(e.customer_ytd_before_bits) && is_finite(e.customer_ytd_after_bits)
    &&& sum(e.warehouse_before_bits, e.amount_bits) == Some(e.warehouse_after_bits)
    &&& sum(e.district_before_bits, e.amount_bits) == Some(e.district_after_bits)
    &&& difference(e.customer_balance_before_bits, e.amount_bits) == Some(
        e.customer_balance_after_bits,
    )
    &&& sum(e.customer_ytd_before_bits, e.amount_bits) == Some(e.customer_ytd_after_bits)
    &&& e.customer_version_before.payment_count >= 0
    &&& e.customer_version_after.payment_count == e.customer_version_before.payment_count + 1
    &&& e.customer_version_before.delivery_count >= 0
    &&& e.customer_version_after.delivery_count == e.customer_version_before.delivery_count
}

/// Law: a ledger takes a committed Payment exactly if its evidence is that of its ticket
/// and adds up: route, customer and amount are the ticket's, a customer of the home
/// warehouse is one of the home district, and every total moved by the amount.
pub proof fn law_payments_are_taken_if_they_add_up(
    class: LedgerClass,
    ticket: TransactionTicket,
    input: PaymentInput,
    e: PaymentEvidence,
)
    requires
        ticket.parameters == TransactionParameters::Payment(input),
    ensures
        ({
            let outcome = RankedTransactionOutcome::Committed(RankedCommit::Payment(e));
            terminal_fault(class, ticket, outcome) is None <==> {
                &&& placed(class, ticket)
                &&& e.warehouse_id == ticket.route.home_warehouse
                &&& e.district_id == ticket.route.home_district
                &&& e.customer_warehouse_id == input.customer_warehouse
                &&& e.customer_district_id == input.customer_district
                &&& e.amount_bits == input.amount_bits
                &&& input.customer matches CustomerSelector::Id(id) ==> e.customer_id == id
                &&& 1 <= e.warehouse_id <= 50 && 1 <= e.district_id <= 10
                &&& 1 <= e.customer_warehouse_id <= 50 && 1 <= e.customer_district_id <= 10
                &&& e.customer_warehouse_id == e.warehouse_id ==> e.customer_district_id
                    == e.district_id
                &&& 1 <= e.customer_id <= 3_000
                &&& payment_adds_up(e)
            }
        }),
{
    lemma_limits();
}

/// Whether the evidence of a delivered order is sound in itself.
pub open spec fn delivered_adds_up(e: DeliveredOrderEvidence) -> bool {
    &&& is_amount_up_to(e.amount_bits, 15_000)
    &&& is_finite(e.customer_balance_before_bits) && is_finite(e.customer_balance_after_bits)
    &&& sum(e.customer_balance_before_bits, e.amount_bits) == Some(e.customer_balance_after_bits)
    &&& e.customer_version_before.delivery_count >= 0
    &&& e.customer_version_after.delivery_count == e.customer_version_before.delivery_count + 1
    &&& e.customer_version_before.payment_count >= 0
    &&& e.customer_version_after.payment_count == e.customer_version_before.payment_count
}

/// Whether the orders of a Delivery may stand together: at most ten, all of one warehouse,
/// each of a district of its own, each sound in itself.
pub open spec fn delivery_adds_up(orders: Seq<DeliveredOrderEvidence>, warehouse: u16) -> bool {
    &&& orders.len() <= 10
    &&& forall|i: int|
        0 <= i < orders.len() ==> {
            let e = #[trigger] orders[i];
            &&& e.warehouse_id == warehouse
            &&& 1 <= e.district_id <= 10
            &&& e.order_id > 0
            &&& 1 <= e.customer_id <= 3_000
            &&& 5 <= e.line_count <= 15
            &&& delivered_adds_up(e)
        }
    &&& forall|i: int, j: int|
        0 <= i < j < orders.len() ==> (#[trigger] orders[i]).district_id != (
        #[trigger] orders[j]).district_id
}

proof fn lemma_delivered_clean(warehouse_id: u16, orders: Seq<DeliveredOrderDelta>, from: int)
    requires
        0 <= from <= orders.len(),
    ensures
        delivered_orders_fault(warehouse_id, orders, from) is None <==> forall|i: int|
            from <= i < orders.len() ==> #[trigger] delivered_order_fault(warehouse_id, orders, i)
                is None,
    decreases orders.len() - from,
{
    if from < orders.len() {
        lemma_delivered_clean(warehouse_id, orders, from + 1);
    }
}

/// Whether a delivered order may stand at its place.
spec fn delivered_fits(orders: Seq<DeliveredOrderEvidence>, warehouse: u16, i: int) -> bool {
    let e = orders[i];
    &&& 1 <= warehouse <= 50
    &&& 1 <= e.district_id <= 10
    &&& e.order_id > 0
    &&& 1 <= e.customer_id <= 3_000
    &&& 5 <= e.line_count <= 15
    &&& delivered_adds_up(e)
    &&& forall|j: int| 0 <= j < i ==> (#[trigger] orders[j]).district_id != e.district_id
}

/// The evidence of delivered orders as events hold it.
spec fn kept_orders(orders: Seq<DeliveredOrderEvidence>) -> Seq<DeliveredOrderDelta> {
    Seq::new(orders.len(), |i: int| delivered_delta(orders[i]))
}

proof fn lemma_delivered_fits(orders: Seq<DeliveredOrderEvidence>, warehouse: u16, i: int)
    requires
        0 <= i < orders.len(),
    ensures
        delivered_order_fault(warehouse, kept_orders(orders), i) is None <==> delivered_fits(
            orders,
            warehouse,
            i,
        ),
{
    lemma_limits();
    let deltas = kept_orders(orders);
    let district = orders[i].district_id;
    assert(deltas[i] == delivered_delta(orders[i]));
    if district_seen(deltas, i, district) {
        let j = choose|j: int| 0 <= j < i && #[trigger] deltas[j].district_id == district;
        assert(orders[j].district_id == district);
    } else {
        assert forall|j: int| 0 <= j < i implies (#[trigger] orders[j]).district_id
            != district by {
            assert(deltas[j].district_id == orders[j].district_id);
        }
    }
}

/// Law: a ledger takes a committed Delivery exactly if its orders are of the ticket's
/// warehouse, of different districts, and each adds up.
pub proof fn law_deliveries_are_taken_if_they_add_up(
    class: LedgerClass,
    ticket: TransactionTicket,
    input: DeliveryInput,
    orders: Vec<DeliveredOrderEvidence>,
)
    requires
        ticket.parameters == TransactionParameters::Delivery(input),
    ensures
        ({
            let outcome = RankedTransactionOutcome::Committed(RankedCommit::Delivery(orders));
            terminal_fault(class, ticket, outcome) is None <==> {
                &&& placed(class, ticket)
                &&& 1 <= ticket.route.home_warehouse <= 50
                &&& 1 <= input.carrier_id <= 10
                &&& delivery_adds_up(orders@, ticket.route.home_warehouse)
            }
        }),
{
    let home = ticket.route.home_warehouse;
    let deltas = kept_orders(orders@);
    if 1 <= home <= 50 {
        lemma_delivery_sound(home, orders@);
    }
    assert(delivery_model(ticket_meta(class, ticket), ticket.route, input, orders@).orders
        =~= deltas);
    assert(foreign_order(orders@, home) <==> exists|i: int|
        0 <= i < orders@.len() && (#[trigger] orders@[i]).warehouse_id != home);
}

/// Orders of one warehouse are sound together exactly if each fits its place.
proof fn lemma_delivery_sound(home: u16, orders: Seq<DeliveredOrderEvidence>)
    requires
        1 <= home <= 50,
    ensures
        delivery_adds_up(orders, home) <==> orders.len() <= 10 && !foreign_order(orders, home)
            && delivered_orders_fault(home, kept_orders(orders), 0) is None,
{
    let deltas = kept_orders(orders);
    lemma_delivered_clean(home, deltas, 0);
    if delivered_orders_fault(home, deltas, 0) is None && !foreign_order(orders, home) {
        assert forall|i: int| 0 <= i < orders.len() implies #[trigger] delivered_fits(
            orders,
            home,
            i,
        ) by {
            assert(delivered_order_fault(home, deltas, i) is None);
            lemma_delivered_fits(orders, home, i);
        }
        assert forall|i: int| 0 <= i < orders.len() implies {
            let e = #[trigger] orders[i];
            &&& e.warehouse_id == home
            &&& 1 <= e.district_id <= 10
            &&& e.order_id > 0
            &&& 1 <= e.customer_id <= 3_000
            &&& 5 <= e.line_count <= 15
            &&& delivered_adds_up(e)
        } by {
            assert(delivered_fits(orders, home, i));
        }
        assert forall|i: int, j: int| 0 <= i < j < orders.len() implies (
        #[trigger] orders[i]).district_id != (#[trigger] orders[j]).district_id by {
            assert(delivered_fits(orders, home, j));
        }
    }
    if delivery_adds_up(orders, home) {
        assert forall|i: int| 0 <= i < deltas.len() implies #[trigger] delivered_order_fault(
            home,
            deltas,
            i,
        ) is None by {
            assert(orders[i].warehouse_id == home);
            assert(delivered_fits(orders, home, i));
            lemma_delivered_fits(orders, home, i);
        }
        assert(!foreign_order(orders, home));
    }
}

/// Whether the evidence of a NewOrder is that of its ticket.
pub open spec fn order_adds_up(
    route: RoutedTransaction,
    input: NewOrderInput,
    e: NewOrderEvidence,
) -> bool {
    let lines = input.lines@;
    &&& e.warehouse_id == route.home_warehouse
    &&& e.district_id == route.home_district
    &&& e.order_id > 0
    &&& e.line_count == lines.len()
    &&& e.line_amount_bits@.len() == lines.len()
    &&& e.remote_line_count == lines_from_elsewhere(
        lines,
        route.home_warehouse as int,
        lines.len() as int,
    )
    &&& e.stock_ytd_delta == ordered_quantity(lines, lines.len() as int)
    &&& forall|i: int|
        0 <= i < lines.len() ==> is_amount_up_to(#[trigger] e.line_amount_bits@[i], 1_000)
}

/// Whether a NewOrder may be committed at all: the lines are numbered, valid and in range,
/// and it is local exactly if every line is.
pub open spec fn order_may_commit(route: RoutedTransaction, input: NewOrderInput) -> bool {
    let lines = input.lines@;
    &&& 1 <= route.home_warehouse <= 50
    &&& 1 <= route.home_district <= 10
    &&& 1 <= input.customer_id <= 3_000
    &&& !input.expected_rollback
    &&& 5 <= lines.len() <= 15
    &&& input.all_local <==> lines_from_elsewhere(
        lines,
        route.home_warehouse as int,
        lines.len() as int,
    ) == 0
    &&& forall|i: int|
        0 <= i < lines.len() ==> {
            let line = #[trigger] lines[i];
            &&& line.number == i + 1
            &&& !line.invalid()
            &&& 1 <= line.item_id <= 100_000
            &&& 1 <= line.supply_warehouse <= 50
            &&& 1 <= line.quantity <= 10
        }
}

proof fn lemma_lines_clean(lines: Seq<NewOrderLineDelta>, from: int)
    requires
        0 <= from <= lines.len(),
    ensures
        lines_fault(lines, from) is None <==> forall|i: int|
            from <= i < lines.len() ==> line_fault(i, #[trigger] lines[i]) is None,
    decreases lines.len() - from,
{
    if from < lines.len() {
        lemma_lines_clean(lines, from + 1);
    }
}

proof fn lemma_input_totals(lines: Seq<OrderLineInput>, home: u16, n: int)
    requires
        0 <= n <= lines.len(),
    ensures
        remote_count(input_suppliers(lines).subrange(0, n), home) == lines_from_elsewhere(
            lines,
            home as int,
            n,
        ),
        quantity_total(input_quantities(lines).subrange(0, n)) == ordered_quantity(lines, n),
    decreases n,
{
    if n > 0 {
        lemma_input_totals(lines, home, n - 1);
        let a = input_suppliers(lines).subrange(0, n);
        let b = input_quantities(lines).subrange(0, n);
        assert(a.drop_last() =~= input_suppliers(lines).subrange(0, n - 1));
        assert(b.drop_last() =~= input_quantities(lines).subrange(0, n - 1));
    }
}

/// Law: a ledger takes a committed NewOrder exactly if its ticket may commit and its
/// evidence is the ticket's: as many lines, as many of them from other warehouses and as
/// large a quantity, with an amount for each line.
pub proof fn law_orders_are_taken_if_they_add_up(
    class: LedgerClass,
    ticket: TransactionTicket,
    input: NewOrderInput,
    e: NewOrderEvidence,
)
    requires
        ticket.parameters == TransactionParameters::NewOrder(input),
    ensures
        ({
            let outcome = RankedTransactionOutcome::Committed(RankedCommit::NewOrder(e));
            terminal_fault(class, ticket, outcome) is None <==> {
                &&& placed(class, ticket)
                &&& order_may_commit(ticket.route, input)
                &&& order_adds_up(ticket.route, input, e)
            }
        }),
{
    lemma_limits();
    let route = ticket.route;
    let lines = input.lines@;
    let n = lines.len() as int;
    let outcome = RankedTransactionOutcome::Committed(RankedCommit::NewOrder(e));
    let deltas = line_deltas(lines, e.line_amount_bits@);
    lemma_lines_clean(deltas, 0);
    lemma_input_totals(lines, route.home_warehouse, n);
    assert(input_suppliers(lines).subrange(0, n) =~= input_suppliers(lines));
    assert(input_quantities(lines).subrange(0, n) =~= input_quantities(lines));
    if terminal_fault(class, ticket, outcome) is None {
        assert forall|i: int| 0 <= i < n implies {
            let line = #[trigger] lines[i];
            &&& line.number == i + 1
            &&& !line.invalid()
            &&& 1 <= line.item_id <= 100_000
            &&& 1 <= line.supply_warehouse <= 50
            &&& 1 <= line.quantity <= 10
        } by {
            assert(line_fault(i, deltas[i]) is None);
        }
        assert forall|i: int| 0 <= i < n implies is_amount_up_to(
            #[trigger] e.line_amount_bits@[i],
            1_000,
        ) by {
            assert(line_fault(i, deltas[i]) is None);
        }
    }
    if placed(class, ticket) && order_may_commit(route, input) && order_adds_up(route, input, e) {
        assert forall|i: int| 0 <= i < deltas.len() implies line_fault(i, #[trigger] deltas[i])
            is None by {
            assert(deltas[i] == line_delta(lines[i], e.line_amount_bits@[i]));
            assert(is_amount_up_to(e.line_amount_bits@[i], 1_000));
        }
    }
}

/// Law: the event of a terminal says what was done. It is that of the ticket, and holds of
/// a NewOrder the ticket's customer and lines with the amounts of the evidence, of a
/// Payment and of every delivered order the evidence itself.
pub proof fn law_event_says_what_was_done(
    class: LedgerClass,
    ticket: TransactionTicket,
    outcome: RankedTransactionOutcome,
)
    requires
        terminal_fault(class, ticket, outcome) is None,
    ensures
        is_of_ticket(ticket_event(class, ticket, outcome).meta(), class, ticket),
        match (outcome, ticket.parameters) {
            (
                RankedTransactionOutcome::Committed(RankedCommit::NewOrder(e)),
                TransactionParameters::NewOrder(input),
            ) => ticket_event(class, ticket, outcome) matches EventModel::NewOrder(m) && {
                &&& m.warehouse_id == e.warehouse_id
                &&& m.district_id == e.district_id
                &&& m.order_id == e.order_id
                &&& m.customer_id == input.customer_id
                &&& m.lines.len() == e.line_count
                &&& forall|i: int|
                    0 <= i < m.lines.len() ==> {
                        let line = #[trigger] m.lines[i];
                        &&& line.number == i + 1
                        &&& line.item_id == input.lines@[i].item_id
                        &&& line.supply_warehouse == input.lines@[i].supply_warehouse
                        &&& line.quantity == input.lines@[i].quantity
                        &&& line.amount_bits == e.line_amount_bits@[i]
                    }
            },
            (RankedTransactionOutcome::Committed(RankedCommit::Payment(e)), _) => ticket_event(
                class,
                ticket,
                outcome,
            ) matches EventModel::Payment(m) && payment_kept(m, e),
            (
                RankedTransactionOutcome::Committed(RankedCommit::Delivery(orders)),
                TransactionParameters::Delivery(input),
            ) => ticket_event(class, ticket, outcome) matches EventModel::Delivery(m) && {
                &&& m.warehouse_id == ticket.route.home_warehouse
                &&& m.carrier_id == input.carrier_id
                &&& m.orders.len() == orders@.len()
                &&& forall|i: int|
                    0 <= i < m.orders.len() ==> delivered_kept(
                        #[trigger] m.orders[i],
                        orders@[i],
                    ) && orders@[i].warehouse_id == m.warehouse_id
            },
            (RankedTransactionOutcome::Committed(RankedCommit::StockLevel { low_stock_count }), _) =>
            ticket_event(class, ticket, outcome) matches EventModel::StockLevel {
                low_stock_count: kept,
                ..
            } && kept == low_stock_count,
            (RankedTransactionOutcome::Committed(RankedCommit::OrderStatus), _) => ticket_event(
                class,
                ticket,
                outcome,
            ) is OrderStatus,
            (RankedTransactionOutcome::ExpectedRollback, _) => ticket_event(
                class,
                ticket,
                outcome,
            ) matches EventModel::ExpectedRollback { warehouse_id, district_id, .. } && warehouse_id
                == ticket.route.home_warehouse && district_id == ticket.route.home_district
                && ticket.parameters is NewOrder,
            _ => false,
        },
{
    if let RankedTransactionOutcome::Committed(RankedCommit::NewOrder(e)) = outcome {
        if let TransactionParameters::NewOrder(input) = ticket.parameters {
            law_orders_are_taken_if_they_add_up(class, ticket, input, e);
            let deltas = line_deltas(input.lines@, e.line_amount_bits@);
            assert forall|i: int| 0 <= i < deltas.len() implies {
                let line = #[trigger] deltas[i];
                &&& line.number == i + 1
                &&& line.item_id == input.lines@[i].item_id
                &&& line.supply_warehouse == input.lines@[i].supply_warehouse
                &&& line.quantity == input.lines@[i].quantity
                &&& line.amount_bits == e.line_amount_bits@[i]
            } by {
                assert(input.lines@[i].number == i + 1);
            }
        }
    }
    if let RankedTransactionOutcome::Committed(RankedCommit::Delivery(orders)) = outcome {
        if let TransactionParameters::Delivery(input) = ticket.parameters {
            law_deliveries_are_taken_if_they_add_up(class, ticket, input, orders);
        }
    }
}

/// Whether an event holds the evidence of a Payment.
pub open spec fn payment_kept(m: PaymentDelta, e: PaymentEvidence) -> bool {
    &&& m.warehouse_id == e.warehouse_id
    &&& m.district_id == e.district_id
    &&& m.customer_warehouse_id == e.customer_warehouse_id
    &&& m.customer_district_id == e.customer_district_id
    &&& m.customer_id == e.customer_id
    &&& m.amount_bits == e.amount_bits
    &&& m.warehouse_before_bits == e.warehouse_before_bits
    &&& m.warehouse_after_bits == e.warehouse_after_bits
    &&& m.district_before_bits == e.district_before_bits
    &&& m.district_after_bits == e.district_after_bits
    &&& m.customer_balance_before_bits == e.customer_balance_before_bits
    &&& m.customer_balance_after_bits == e.customer_balance_after_bits
    &&& m.customer_ytd_before_bits == e.customer_ytd_before_bits
    &&& m.customer_ytd_after_bits == e.customer_ytd_after_bits
    &&& m.customer_payment_count_before == e.customer_version_before.payment_count
    &&& m.customer_payment_count_after == e.customer_version_after.payment_count
    &&& m.customer_delivery_count_before == e.customer_version_before.delivery_count
    &&& m.customer_delivery_count_after == e.customer_version_after.delivery_count
}

/// Whether an event holds the evidence of a delivered order.
pub open spec fn delivered_kept(m: DeliveredOrderDelta, e: DeliveredOrderEvidence) -> bool {
    &&& m.district_id == e.district_id
    &&& m.order_id == e.order_id
    &&& m.customer_id == e.customer_id
    &&& m.line_count == e.line_count
    &&& m.customer_amount_bits == e.amount_bits
    &&& m.customer_balance_before_bits == e.customer_balance_before_bits
    &&& m.customer_balance_after_bits == e.customer_balance_after_bits
    &&& m.customer_payment_count_before == e.customer_version_before.payment_count
    &&& m.customer_payment_count_after == e.customer_version_after.payment_count
    &&& m.customer_delivery_count_before == e.customer_version_before.delivery_count
    &&& m.customer_delivery_count_after == e.customer_version_after.delivery_count
}

} // verus!
