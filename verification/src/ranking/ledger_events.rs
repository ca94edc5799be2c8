//! From confirmed terminals to ledger events and back to outcomes.
use vstd::prelude::*;

use crate::ranking::ledger::{
    DeliveredOrderDelta, DeliveryDelta, DeliveryModel, EventModel, LedgerClass, LedgerError,
    LedgerEvent, LedgerEventMeta, LedgerFault, NewOrderDelta, NewOrderLineDelta, NewOrderModel,
    PaymentDelta, either, event_fault, fails, fault, ticket_meta, ticket_meta_fault,
};
use crate::ranking::runner::{
    CustomerVersion, DeliveredOrderEvidence, NewOrderEvidence, PaymentEvidence, RankedCommit,
    RankedTransactionOutcome,
};
use crate::workload::{
    CustomerSelector, DeliveryInput, NewOrderInput, OrderLineInput, PaymentInput,
    RoutedTransaction, TransactionParameters, TransactionTicket,
};

verus! {

/// What accounting reads of one delivered order.
pub struct OrderModel {
    pub warehouse_id: u16,
    pub district_id: u8,
    pub order_id: i32,
    pub customer_id: i32,
    pub line_count: u8,
    pub amount_bits: u32,
}

/// What accounting reads of a terminal outcome.
#[verifier::ext_equal]
pub enum OutcomeModel {
    NewOrder {
        warehouse_id: u16,
        district_id: u8,
        order_id: i32,
        line_count: u8,
        remote_line_count: u8,
        stock_ytd_delta: u32,
        amounts: Seq<u32>,
    },
    Payment {
        warehouse_id: u16,
        district_id: u8,
        customer_warehouse_id: u16,
        customer_district_id: u8,
        customer_id: i32,
        amount_bits: u32,
    },
    OrderStatus,
    StockLevel { low_stock_count: i32 },
    Delivery(Seq<OrderModel>),
    ExpectedRollback,
}

pub open spec fn order_model(order: DeliveredOrderEvidence) -> OrderModel {
    OrderModel {
        warehouse_id: order.warehouse_id,
        district_id: order.district_id,
        order_id: order.order_id,
        customer_id: order.customer_id,
        line_count: order.line_count,
        amount_bits: order.amount_bits,
    }
}

pub open spec fn order_models(orders: Seq<DeliveredOrderEvidence>) -> Seq<OrderModel> {
    Seq::new(orders.len(), |i: int| order_model(orders[i]))
}

pub open spec fn outcome_model(outcome: RankedTransactionOutcome) -> OutcomeModel {
    match outcome {
        RankedTransactionOutcome::ExpectedRollback => OutcomeModel::ExpectedRollback,
        RankedTransactionOutcome::Committed(commit) => match commit {
            RankedCommit::NewOrder(evidence) => OutcomeModel::NewOrder {
                warehouse_id: evidence.warehouse_id,
                district_id: evidence.district_id,
                order_id: evidence.order_id,
                line_count: evidence.line_count,
                remote_line_count: evidence.remote_line_count,
                stock_ytd_delta: evidence.stock_ytd_delta,
                amounts: evidence.line_amount_bits@,
            },
            RankedCommit::Payment(evidence) => OutcomeModel::Payment {
                warehouse_id: evidence.warehouse_id,
                district_id: evidence.district_id,
                customer_warehouse_id: evidence.customer_warehouse_id,
                customer_district_id: evidence.customer_district_id,
                customer_id: evidence.customer_id,
                amount_bits: evidence.amount_bits,
            },
            RankedCommit::OrderStatus => OutcomeModel::OrderStatus,
            RankedCommit::StockLevel { low_stock_count } => OutcomeModel::StockLevel {
                low_stock_count,
            },
            RankedCommit::Delivery(orders) => OutcomeModel::Delivery(order_models(orders@)),
        },
    }
}

/// How many lines are supplied from another warehouse.
pub open spec fn remote_count(suppliers: Seq<u16>, home: u16) -> nat
    decreases suppliers.len(),
{
    if suppliers.len() == 0 {
        0
    } else {
        remote_count(suppliers.drop_last(), home) + if suppliers.last() != home {
            1nat
        } else {
            0nat
        }
    }
}

/// Sum of line quantities.
pub open spec fn quantity_total(quantities: Seq<u8>) -> nat
    decreases quantities.len(),
{
    if quantities.len() == 0 {
        0
    } else {
        quantity_total(quantities.drop_last()) + quantities.last() as nat
    }
}

pub open spec fn delta_suppliers(lines: Seq<NewOrderLineDelta>) -> Seq<u16> {
    Seq::new(lines.len(), |i: int| lines[i].supply_warehouse)
}

pub open spec fn delta_quantities(lines: Seq<NewOrderLineDelta>) -> Seq<u8> {
    Seq::new(lines.len(), |i: int| lines[i].quantity)
}

pub open spec fn delta_amounts(lines: Seq<NewOrderLineDelta>) -> Seq<u32> {
    Seq::new(lines.len(), |i: int| lines[i].amount_bits)
}

pub open spec fn input_suppliers(lines: Seq<OrderLineInput>) -> Seq<u16> {
    Seq::new(lines.len(), |i: int| lines[i].supply_warehouse)
}

pub open spec fn input_quantities(lines: Seq<OrderLineInput>) -> Seq<u8> {
    Seq::new(lines.len(), |i: int| lines[i].quantity)
}

pub open spec fn delivered_model(warehouse_id: u16, order: DeliveredOrderDelta) -> OrderModel {
    OrderModel {
        warehouse_id,
        district_id: order.district_id,
        order_id: order.order_id,
        customer_id: order.customer_id,
        line_count: order.line_count,
        amount_bits: order.customer_amount_bits,
    }
}

/// The outcome that an event stands for.
pub open spec fn event_outcome(event: EventModel) -> OutcomeModel {
    match event {
        EventModel::NewOrder(delta) => OutcomeModel::NewOrder {
            warehouse_id: delta.warehouse_id,
            district_id: delta.district_id,
            order_id: delta.order_id,
            line_count: delta.lines.len() as u8,
            remote_line_count: remote_count(
                delta_suppliers(delta.lines),
                delta.warehouse_id,
            ) as u8,
            stock_ytd_delta: quantity_total(delta_quantities(delta.lines)) as u32,
            amounts: delta_amounts(delta.lines),
        },
        EventModel::Payment(delta) => OutcomeModel::Payment {
            warehouse_id: delta.warehouse_id,
            district_id: delta.district_id,
            customer_warehouse_id: delta.customer_warehouse_id,
            customer_district_id: delta.customer_district_id,
            customer_id: delta.customer_id,
            amount_bits: delta.amount_bits,
        },
        EventModel::Delivery(delta) => OutcomeModel::Delivery(
            Seq::new(
                delta.orders.len(),
                |i: int| delivered_model(delta.warehouse_id, delta.orders[i]),
            ),
        ),
        EventModel::OrderStatus { meta } => OutcomeModel::OrderStatus,
        EventModel::StockLevel { meta, low_stock_count } => OutcomeModel::StockLevel {
            low_stock_count,
        },
        EventModel::ExpectedRollback { meta, warehouse_id, district_id } =>
            OutcomeModel::ExpectedRollback,
    }
}

proof fn lemma_counts_bounded(suppliers: Seq<u16>, home: u16, quantities: Seq<u8>)
    ensures
        remote_count(suppliers, home) <= suppliers.len(),
        quantity_total(quantities) <= 255 * quantities.len(),
    decreases suppliers.len() + quantities.len(),
{
    if suppliers.len() > 0 {
        lemma_counts_bounded(suppliers.drop_last(), home, quantities);
    } else if quantities.len() > 0 {
        lemma_counts_bounded(suppliers, home, quantities.drop_last());
    }
}

fn copy_order(warehouse_id: u16, order: &DeliveredOrderDelta) -> (r: DeliveredOrderEvidence)
    ensures
        order_model(r) == delivered_model(warehouse_id, *order),
        r.customer_balance_before_bits == order.customer_balance_before_bits,
        r.customer_balance_after_bits == order.customer_balance_after_bits,
        r.line_amount_bits@ == Seq::new(order.line_count as nat, |i: int| 0u32),
{
    let mut line_amount_bits: Vec<u32> = Vec::new();
    let mut k: u8 = 0;
    while k < order.line_count
        invariant
            k <= order.line_count,
            line_amount_bits@ == Seq::new(k as nat, |i: int| 0u32),
        decreases order.line_count - k,
    {
        line_amount_bits.push(0);
        k = k + 1;
    }
    DeliveredOrderEvidence {
        warehouse_id,
        district_id: order.district_id,
        order_id: order.order_id,
        customer_id: order.customer_id,
        line_count: order.line_count,
        amount_bits: order.customer_amount_bits,
        customer_balance_before_bits: order.customer_balance_before_bits,
        customer_balance_after_bits: order.customer_balance_after_bits,
        customer_version_before: CustomerVersion {
            payment_count: order.customer_payment_count_before,
            delivery_count: order.customer_delivery_count_before,
        },
        customer_version_after: CustomerVersion {
            payment_count: order.customer_payment_count_after,
            delivery_count: order.customer_delivery_count_after,
        },
        delivery_timestamp: Vec::new(),
        line_amount_bits,
    }
}

impl LedgerEvent {
    /// Rebuilds the accounting content of the terminal.
    pub fn to_outcome(&self) -> (r: RankedTransactionOutcome)
        requires
            event_fault(self@) is None,
        ensures
            outcome_model(r) == event_outcome(self@),
    {
        match self {
            LedgerEvent::NewOrder(delta) => {
                let mut remote_line_count: u8 = 0;
                let mut stock_ytd_delta: u32 = 0;
                let mut line_amount_bits: Vec<u32> = Vec::new();
                let mut i: usize = 0;
                proof {
                    assert(delta_suppliers(delta.lines@).subrange(0, 0) =~= Seq::<u16>::empty());
                    assert(delta_quantities(delta.lines@).subrange(0, 0) =~= Seq::<u8>::empty());
                }
                while i < delta.lines.len()
                    invariant
                        i <= delta.lines.len() <= 15,
                        remote_line_count <= i,
                        stock_ytd_delta <= 255 * i,
                        remote_line_count == remote_count(
                            delta_suppliers(delta.lines@).subrange(0, i as int),
                            delta.warehouse_id,
                        ),
                        stock_ytd_delta == quantity_total(
                            delta_quantities(delta.lines@).subrange(0, i as int),
                        ),
                        line_amount_bits@ == delta_amounts(delta.lines@).subrange(0, i as int),
                    decreases delta.lines.len() - i,
                {
                    let line = &delta.lines[i];
                    proof {
                        let s = delta_suppliers(delta.lines@);
                        let q = delta_quantities(delta.lines@);
                        assert(s.subrange(0, i as int + 1).drop_last() =~= s.subrange(0, i as int));
                        assert(q.subrange(0, i as int + 1).drop_last() =~= q.subrange(0, i as int));
                    }
                    if line.supply_warehouse != delta.warehouse_id {
                        remote_line_count = remote_line_count + 1;
                    }
                    stock_ytd_delta = stock_ytd_delta + line.quantity as u32;
                    line_amount_bits.push(line.amount_bits);
                    i = i + 1;
                }
                proof {
                    let s = delta_suppliers(delta.lines@);
                    let q = delta_quantities(delta.lines@);
                    let a = delta_amounts(delta.lines@);
                    assert(s.subrange(0, i as int) =~= s);
                    assert(q.subrange(0, i as int) =~= q);
                    assert(a.subrange(0, i as int) =~= a);
                }
                RankedTransactionOutcome::Committed(
                    RankedCommit::NewOrder(
                        NewOrderEvidence {
                            warehouse_id: delta.warehouse_id,
                            district_id: delta.district_id,
                            order_id: delta.order_id,
                            line_count: delta.lines.len() as u8,
                            remote_line_count,
                            stock_ytd_delta,
                            line_amount_bits,
                            entry_timestamp: Vec::new(),
                            recovery_lines: Vec::new(),
                        },
                    ),
                )
            },
            LedgerEvent::Payment(delta) => RankedTransactionOutcome::Committed(
                RankedCommit::Payment(
                    PaymentEvidence {
                        warehouse_id: delta.warehouse_id,
                        district_id: delta.district_id,
                        customer_warehouse_id: delta.customer_warehouse_id,
                        customer_district_id: delta.customer_district_id,
                        customer_id: delta.customer_id,
                        amount_bits: delta.amount_bits,
                        warehouse_before_bits: delta.warehouse_before_bits,
                        warehouse_after_bits: delta.warehouse_after_bits,
                        district_before_bits: delta.district_before_bits,
                        district_after_bits: delta.district_after_bits,
                        customer_balance_before_bits: delta.customer_balance_before_bits,
                        customer_balance_after_bits: delta.customer_balance_after_bits,
                        customer_ytd_before_bits: delta.customer_ytd_before_bits,
                        customer_ytd_after_bits: delta.customer_ytd_after_bits,
                        customer_version_before: CustomerVersion {
                            payment_count: delta.customer_payment_count_before,
                            delivery_count: delta.customer_delivery_count_before,
                        },
                        customer_version_after: CustomerVersion {
                            payment_count: delta.customer_payment_count_after,
                            delivery_count: delta.customer_delivery_count_after,
                        },
                        history_timestamp: Vec::new(),
                        history_data: Vec::new(),
                        customer_is_bad_credit: false,
                        customer_data_before: Vec::new(),
                        customer_data_after: Vec::new(),
                    },
                ),
            ),
            LedgerEvent::Delivery(delta) => {
                let mut orders: Vec<DeliveredOrderEvidence> = Vec::new();
                let mut i: usize = 0;
                while i < delta.orders.len()
                    invariant
                        i <= delta.orders.len(),
                        orders.len() == i,
                        forall|k: int|
                            0 <= k < i ==> order_model(#[trigger] orders@[k]) == delivered_model(
                                delta.warehouse_id,
                                delta.orders@[k],
                            ),
                    decreases delta.orders.len() - i,
                {
                    orders.push(copy_order(delta.warehouse_id, &delta.orders[i]));
                    i = i + 1;
                }
                let r = RankedTransactionOutcome::Committed(RankedCommit::Delivery(orders));
                assert(outcome_model(r) == event_outcome(self@)) by {
                    assert(order_models(orders@) =~= Seq::new(
                        delta.orders@.len(),
                        |i: int| delivered_model(delta.warehouse_id, delta.orders@[i]),
                    ));
                }
                r
            },
            LedgerEvent::OrderStatus { meta: _ } => RankedTransactionOutcome::Committed(
                RankedCommit::OrderStatus,
            ),
            LedgerEvent::StockLevel { meta: _, low_stock_count } =>
                RankedTransactionOutcome::Committed(
                RankedCommit::StockLevel { low_stock_count: *low_stock_count },
            ),
            LedgerEvent::ExpectedRollback { meta: _, warehouse_id: _, district_id: _ } =>
                RankedTransactionOutcome::ExpectedRollback,
        }
    }
}

/// The event line of an input line and its amount.
pub open spec fn line_delta(line: OrderLineInput, amount_bits: u32) -> NewOrderLineDelta {
    NewOrderLineDelta {
        number: line.number,
        item_id: line.item_id,
        supply_warehouse: line.supply_warehouse,
        quantity: line.quantity,
        amount_bits,
    }
}

pub open spec fn line_deltas(lines: Seq<OrderLineInput>, amounts: Seq<u32>) -> Seq<
    NewOrderLineDelta,
> {
    Seq::new(lines.len(), |i: int| line_delta(lines[i], amounts[i]))
}

/// Whether a line carries the invalid item.
pub open spec fn has_invalid_line(lines: Seq<OrderLineInput>) -> bool {
    exists|i: int| 0 <= i < lines.len() && (#[trigger] lines[i]).invalid()
}

/// The ledger line rules read of a committed NewOrder.
pub open spec fn committed_new_order_fault(
    route: RoutedTransaction,
    input: NewOrderInput,
    evidence: NewOrderEvidence,
) -> Option<LedgerFault> {
    let remote = remote_count(input_suppliers(input.lines@), route.home_warehouse);
    either(
        fails(
            input.expected_rollback,
            LedgerFault::InvalidEvidence(
                "expected-rollback NewOrder cannot be recorded as committed"@,
            ),
        ),
        either(
            fails(
                evidence.warehouse_id != route.home_warehouse || evidence.district_id
                    != route.home_district || evidence.line_count as nat != input.lines@.len()
                    || evidence.line_amount_bits@.len() != input.lines@.len(),
                LedgerFault::InvalidEvidence("NewOrder outcome does not match its frozen ticket"@),
            ),
            either(
                fails(
                    has_invalid_line(input.lines@),
                    LedgerFault::InvalidEvidence(
                        "committed NewOrder ticket contains the invalid item"@,
                    ),
                ),
                fails(
                    remote != evidence.remote_line_count || quantity_total(
                        input_quantities(input.lines@),
                    ) != evidence.stock_ytd_delta || input.all_local != (remote == 0),
                    LedgerFault::InvalidEvidence(
                        "NewOrder derived line deltas differ from outcome evidence"@,
                    ),
                ),
            ),
        ),
    )
}

fn new_order_event(
    meta: LedgerEventMeta,
    route: &RoutedTransaction,
    input: &NewOrderInput,
    evidence: &NewOrderEvidence,
) -> (r: Result<LedgerEvent, LedgerError>)
    ensures
        fault(r) == committed_new_order_fault(*route, *input, *evidence),
        r matches Ok(event) ==> event@ == EventModel::NewOrder(
            NewOrderModel {
                meta,
                warehouse_id: route.home_warehouse,
                district_id: route.home_district,
                order_id: evidence.order_id,
                customer_id: input.customer_id,
                lines: line_deltas(input.lines@, evidence.line_amount_bits@),
            },
        ),
{
    if input.expected_rollback {
        return Err(
            LedgerError::InvalidEvidence(
                "expected-rollback NewOrder cannot be recorded as committed",
            ),
        );
    }
    if evidence.warehouse_id != route.home_warehouse || evidence.district_id
        != route.home_district || evidence.line_count as usize != input.lines.len()
        || evidence.line_amount_bits.len() != input.lines.len() {
        return Err(
            LedgerError::InvalidEvidence("NewOrder outcome does not match its frozen ticket"),
        );
    }
    let mut remote_line_count: u8 = 0;
    let mut stock_ytd_delta: u32 = 0;
    let mut lines: Vec<NewOrderLineDelta> = Vec::new();
    let mut i: usize = 0;
    proof {
        assert(input_suppliers(input.lines@).subrange(0, 0) =~= Seq::<u16>::empty());
        assert(input_quantities(input.lines@).subrange(0, 0) =~= Seq::<u8>::empty());
    }
    while i < input.lines.len()
        invariant
            i <= input.lines.len() <= 255,
            evidence.line_amount_bits.len() == input.lines.len(),
            remote_line_count <= i,
            stock_ytd_delta <= 255 * i,
            remote_line_count == remote_count(
                input_suppliers(input.lines@).subrange(0, i as int),
                route.home_warehouse,
            ),
            stock_ytd_delta == quantity_total(
                input_quantities(input.lines@).subrange(0, i as int),
            ),
            lines@ == line_deltas(input.lines@, evidence.line_amount_bits@).subrange(0, i as int),
            forall|k: int| 0 <= k < i ==> !(#[trigger] input.lines@[k]).invalid(),
            !input.expected_rollback,
            evidence.warehouse_id == route.home_warehouse,
            evidence.district_id == route.home_district,
            evidence.line_count as nat == input.lines@.len(),
        decreases input.lines.len() - i,
    {
        let line = &input.lines[i];
        if line.is_invalid_item() {
            assert(has_invalid_line(input.lines@)) by {
                assert(input.lines@[i as int].invalid());
            }
            return Err(
                LedgerError::InvalidEvidence("committed NewOrder ticket contains the invalid item"),
            );
        }
        proof {
            let s = input_suppliers(input.lines@);
            let q = input_quantities(input.lines@);
            assert(s.subrange(0, i as int + 1).drop_last() =~= s.subrange(0, i as int));
            assert(q.subrange(0, i as int + 1).drop_last() =~= q.subrange(0, i as int));
        }
        if line.supply_warehouse != route.home_warehouse {
            remote_line_count = remote_line_count + 1;
        }
        stock_ytd_delta = stock_ytd_delta + line.quantity as u32;
        lines.push(
            NewOrderLineDelta {
                number: line.number,
                item_id: line.item_id,
                supply_warehouse: line.supply_warehouse,
                quantity: line.quantity,
                amount_bits: evidence.line_amount_bits[i],
            },
        );
        i = i + 1;
    }
    proof {
        let s = input_suppliers(input.lines@);
        let q = input_quantities(input.lines@);
        let d = line_deltas(input.lines@, evidence.line_amount_bits@);
        assert(s.subrange(0, i as int) =~= s);
        assert(q.subrange(0, i as int) =~= q);
        assert(d.subrange(0, i as int) =~= d);
    }
    if remote_line_count != evidence.remote_line_count || stock_ytd_delta
        != evidence.stock_ytd_delta || input.all_local != (remote_line_count == 0) {
        return Err(
            LedgerError::InvalidEvidence(
                "NewOrder derived line deltas differ from outcome evidence",
            ),
        );
    }
    Ok(
        LedgerEvent::NewOrder(
            NewOrderDelta {
                meta,
                warehouse_id: route.home_warehouse,
                district_id: route.home_district,
                order_id: evidence.order_id,
                customer_id: input.customer_id,
                lines,
            },
        ),
    )
}

/// Whether a frozen input is the deliberate rollback.
pub open spec fn is_rollback_input(input: NewOrderInput) -> bool {
    input.expected_rollback && input.lines@.len() > 0 && input.lines@.last().invalid()
}

pub fn rollback_input(input: &NewOrderInput) -> (r: bool)
    ensures
        r == is_rollback_input(*input),
{
    input.expected_rollback && input.lines.len() > 0 && input.lines[input.lines.len()
        - 1].is_invalid_item()
}

pub open spec fn payment_match_fault(
    route: RoutedTransaction,
    input: PaymentInput,
    evidence: PaymentEvidence,
) -> Option<LedgerFault> {
    either(
        fails(
            evidence.warehouse_id != route.home_warehouse || evidence.district_id
                != route.home_district || evidence.customer_warehouse_id
                != input.customer_warehouse || evidence.customer_district_id
                != input.customer_district || evidence.amount_bits != input.amount_bits,
            LedgerFault::InvalidEvidence("Payment outcome does not match its frozen ticket"@),
        ),
        fails(
            input.customer matches CustomerSelector::Id(id) && id != evidence.customer_id,
            LedgerFault::InvalidEvidence(
                "Payment resolved customer differs from frozen id selector"@,
            ),
        ),
    )
}

pub open spec fn payment_delta(meta: LedgerEventMeta, evidence: PaymentEvidence) -> PaymentDelta {
    PaymentDelta {
        meta,
        warehouse_id: evidence.warehouse_id,
        district_id: evidence.district_id,
        customer_warehouse_id: evidence.customer_warehouse_id,
        customer_district_id: evidence.customer_district_id,
        customer_id: evidence.customer_id,
        amount_bits: evidence.amount_bits,
        warehouse_before_bits: evidence.warehouse_before_bits,
        warehouse_after_bits: evidence.warehouse_after_bits,
        district_before_bits: evidence.district_before_bits,
        district_after_bits: evidence.district_after_bits,
        customer_balance_before_bits: evidence.customer_balance_before_bits,
        customer_balance_after_bits: evidence.customer_balance_after_bits,
        customer_ytd_before_bits: evidence.customer_ytd_before_bits,
        customer_ytd_after_bits: evidence.customer_ytd_after_bits,
        customer_payment_count_before: evidence.customer_version_before.payment_count,
        customer_payment_count_after: evidence.customer_version_after.payment_count,
        customer_delivery_count_before: evidence.customer_version_before.delivery_count,
        customer_delivery_count_after: evidence.customer_version_after.delivery_count,
    }
}

fn payment_event(
    meta: LedgerEventMeta,
    route: &RoutedTransaction,
    input: &PaymentInput,
    evidence: &PaymentEvidence,
) -> (r: Result<LedgerEvent, LedgerError>)
    ensures
        fault(r) == payment_match_fault(*route, *input, *evidence),
        r matches Ok(event) ==> event@ == EventModel::Payment(payment_delta(meta, *evidence)),
{
    if evidence.warehouse_id != route.home_warehouse || evidence.district_id
        != route.home_district || evidence.customer_warehouse_id != input.customer_warehouse
        || evidence.customer_district_id != input.customer_district || evidence.amount_bits
        != input.amount_bits {
        return Err(
            LedgerError::InvalidEvidence("Payment outcome does not match its frozen ticket"),
        );
    }
    if let CustomerSelector::Id(customer_id) = &input.customer {
        if *customer_id as i32 != evidence.customer_id {
            return Err(
                LedgerError::InvalidEvidence(
                    "Payment resolved customer differs from frozen id selector",
                ),
            );
        }
    }
    Ok(
        LedgerEvent::Payment(
            PaymentDelta {
                meta,
                warehouse_id: evidence.warehouse_id,
                district_id: evidence.district_id,
                customer_warehouse_id: evidence.customer_warehouse_id,
                customer_district_id: evidence.customer_district_id,
                customer_id: evidence.customer_id,
                amount_bits: evidence.amount_bits,
                warehouse_before_bits: evidence.warehouse_before_bits,
                warehouse_after_bits: evidence.warehouse_after_bits,
                district_before_bits: evidence.district_before_bits,
                district_after_bits: evidence.district_after_bits,
                customer_balance_before_bits: evidence.customer_balance_before_bits,
                customer_balance_after_bits: evidence.customer_balance_after_bits,
                customer_ytd_before_bits: evidence.customer_ytd_before_bits,
                customer_ytd_after_bits: evidence.customer_ytd_after_bits,
                customer_payment_count_before: evidence.customer_version_before.payment_count,
                customer_payment_count_after: evidence.customer_version_after.payment_count,
                customer_delivery_count_before: evidence.customer_version_before.delivery_count,
                customer_delivery_count_after: evidence.customer_version_after.delivery_count,
            },
        ),
    )
}

pub open spec fn delivered_delta(order: DeliveredOrderEvidence) -> DeliveredOrderDelta {
    DeliveredOrderDelta {
        district_id: order.district_id,
        order_id: order.order_id,
        customer_id: order.customer_id,
        line_count: order.line_count,
        customer_amount_bits: order.amount_bits,
        customer_balance_before_bits: order.customer_balance_before_bits,
        customer_balance_after_bits: order.customer_balance_after_bits,
        customer_payment_count_before: order.customer_version_before.payment_count,
        customer_payment_count_after: order.customer_version_after.payment_count,
        customer_delivery_count_before: order.customer_version_before.delivery_count,
        customer_delivery_count_after: order.customer_version_after.delivery_count,
    }
}

/// Whether an order was delivered from another warehouse.
pub open spec fn foreign_order(orders: Seq<DeliveredOrderEvidence>, home: u16) -> bool {
    exists|i: int| 0 <= i < orders.len() && #[trigger] orders[i].warehouse_id != home
}

pub open spec fn delivery_model(
    meta: LedgerEventMeta,
    route: RoutedTransaction,
    input: DeliveryInput,
    orders: Seq<DeliveredOrderEvidence>,
) -> DeliveryModel {
    DeliveryModel {
        meta,
        warehouse_id: route.home_warehouse,
        carrier_id: input.carrier_id,
        orders: Seq::new(orders.len(), |i: int| delivered_delta(orders[i])),
    }
}

fn delivery_event(
    meta: LedgerEventMeta,
    route: &RoutedTransaction,
    input: &DeliveryInput,
    orders: &Vec<DeliveredOrderEvidence>,
) -> (r: Result<LedgerEvent, LedgerError>)
    ensures
        fault(r) == fails(
            foreign_order(orders@, route.home_warehouse),
            LedgerFault::InvalidEvidence("Delivery outcome warehouse differs from frozen ticket"@),
        ),
        r matches Ok(event) ==> event@ == EventModel::Delivery(
            delivery_model(meta, *route, *input, orders@),
        ),
{
    let mut deltas: Vec<DeliveredOrderDelta> = Vec::new();
    let mut i: usize = 0;
    while i < orders.len()
        invariant
            i <= orders.len(),
            deltas@ == Seq::new(i as nat, |k: int| delivered_delta(orders@[k])),
            forall|k: int| 0 <= k < i ==> #[trigger] orders@[k].warehouse_id
                == route.home_warehouse,
        decreases orders.len() - i,
    {
        let order = &orders[i];
        if order.warehouse_id != route.home_warehouse {
            assert(orders@[i as int].warehouse_id != route.home_warehouse);
            return Err(
                LedgerError::InvalidEvidence(
                    "Delivery outcome warehouse differs from frozen ticket",
                ),
            );
        }
        deltas.push(
            DeliveredOrderDelta {
                district_id: order.district_id,
                order_id: order.order_id,
                customer_id: order.customer_id,
                line_count: order.line_count,
                customer_amount_bits: order.amount_bits,
                customer_balance_before_bits: order.customer_balance_before_bits,
                customer_balance_after_bits: order.customer_balance_after_bits,
                customer_payment_count_before: order.customer_version_before.payment_count,
                customer_payment_count_after: order.customer_version_after.payment_count,
                customer_delivery_count_before: order.customer_version_before.delivery_count,
                customer_delivery_count_after: order.customer_version_after.delivery_count,
            },
        );
        i = i + 1;
    }
    Ok(
        LedgerEvent::Delivery(
            DeliveryDelta {
                meta,
                warehouse_id: route.home_warehouse,
                carrier_id: input.carrier_id,
                orders: deltas,
            },
        ),
    )
}

/// What a ticket and its outcome disagree on, before the event rules.
pub open spec fn match_fault(ticket: TransactionTicket, outcome: RankedTransactionOutcome) -> Option<
    LedgerFault,
> {
    let route = ticket.route;
    match (ticket.parameters, outcome) {
        (
            TransactionParameters::NewOrder(input),
            RankedTransactionOutcome::Committed(RankedCommit::NewOrder(evidence)),
        ) => committed_new_order_fault(route, input, evidence),
        (
            TransactionParameters::NewOrder(input),
            RankedTransactionOutcome::ExpectedRollback,
        ) => fails(
            !is_rollback_input(input),
            LedgerFault::InvalidEvidence(
                "business rollback does not match the frozen invalid-item ticket"@,
            ),
        ),
        (
            TransactionParameters::Payment(input),
            RankedTransactionOutcome::Committed(RankedCommit::Payment(evidence)),
        ) => payment_match_fault(route, input, evidence),
        (
            TransactionParameters::OrderStatus(input),
            RankedTransactionOutcome::Committed(RankedCommit::OrderStatus),
        ) => None,
        (
            TransactionParameters::Delivery(input),
            RankedTransactionOutcome::Committed(RankedCommit::Delivery(orders)),
        ) => fails(
            foreign_order(orders@, route.home_warehouse),
            LedgerFault::InvalidEvidence("Delivery outcome warehouse differs from frozen ticket"@),
        ),
        (
            TransactionParameters::StockLevel(input),
            RankedTransactionOutcome::Committed(RankedCommit::StockLevel { low_stock_count }),
        ) => None,
        _ => Some(
            LedgerFault::InvalidEvidence("terminal outcome kind does not match its frozen ticket"@),
        ),
    }
}

/// The event of a ticket whose outcome matches it.
pub open spec fn ticket_event(
    class: LedgerClass,
    ticket: TransactionTicket,
    outcome: RankedTransactionOutcome,
) -> EventModel {
    let meta = ticket_meta(class, ticket);
    let route = ticket.route;
    match (ticket.parameters, outcome) {
        (
            TransactionParameters::NewOrder(input),
            RankedTransactionOutcome::Committed(RankedCommit::NewOrder(evidence)),
        ) => EventModel::NewOrder(
            NewOrderModel {
                meta,
                warehouse_id: route.home_warehouse,
                district_id: route.home_district,
                order_id: evidence.order_id,
                customer_id: input.customer_id,
                lines: line_deltas(input.lines@, evidence.line_amount_bits@),
            },
        ),
        (
            TransactionParameters::Payment(input),
            RankedTransactionOutcome::Committed(RankedCommit::Payment(evidence)),
        ) => EventModel::Payment(payment_delta(meta, evidence)),
        (
            TransactionParameters::OrderStatus(input),
            RankedTransactionOutcome::Committed(RankedCommit::OrderStatus),
        ) => EventModel::OrderStatus { meta },
        (
            TransactionParameters::Delivery(input),
            RankedTransactionOutcome::Committed(RankedCommit::Delivery(orders)),
        ) => EventModel::Delivery(delivery_model(meta, route, input, orders@)),
        (
            TransactionParameters::StockLevel(input),
            RankedTransactionOutcome::Committed(RankedCommit::StockLevel { low_stock_count }),
        ) => EventModel::StockLevel { meta, low_stock_count },
        _ => EventModel::ExpectedRollback {
            meta,
            warehouse_id: route.home_warehouse,
            district_id: route.home_district,
        },
    }
}

/// Everything that keeps a terminal out of the ledger.
pub open spec fn terminal_fault(
    class: LedgerClass,
    ticket: TransactionTicket,
    outcome: RankedTransactionOutcome,
) -> Option<LedgerFault> {
    either(
        ticket_meta_fault(class, ticket),
        either(
            match_fault(ticket, outcome),
            event_fault(ticket_event(class, ticket, outcome)),
        ),
    )
}

pub fn event_from_ticket(
    class: LedgerClass,
    ticket: &TransactionTicket,
    outcome: &RankedTransactionOutcome,
) -> (r: Result<LedgerEvent, LedgerError>)
    ensures
        fault(r) == terminal_fault(class, *ticket, *outcome),
        r matches Ok(event) ==> event@ == ticket_event(class, *ticket, *outcome),
{
    let meta = LedgerEventMeta::from_ticket(class, ticket)?;
    let route = ticket.route();
    let event = match (ticket.parameters(), outcome) {
        (
            TransactionParameters::NewOrder(input),
            RankedTransactionOutcome::Committed(RankedCommit::NewOrder(evidence)),
        ) => new_order_event(meta, route, input, evidence)?,
        (
            TransactionParameters::NewOrder(input),
            RankedTransactionOutcome::ExpectedRollback,
        ) => {
            if !rollback_input(input) {
                return Err(
                    LedgerError::InvalidEvidence(
                        "business rollback does not match the frozen invalid-item ticket",
                    ),
                );
            }
            LedgerEvent::ExpectedRollback {
                meta,
                warehouse_id: route.home_warehouse,
                district_id: route.home_district,
            }
        },
        (
            TransactionParameters::Payment(input),
            RankedTransactionOutcome::Committed(RankedCommit::Payment(evidence)),
        ) => payment_event(meta, route, input, evidence)?,
        (
            TransactionParameters::OrderStatus(_),
            RankedTransactionOutcome::Committed(RankedCommit::OrderStatus),
        ) => LedgerEvent::OrderStatus { meta },
        (
            TransactionParameters::Delivery(input),
            RankedTransactionOutcome::Committed(RankedCommit::Delivery(orders)),
        ) => delivery_event(meta, route, input, orders)?,
        (
            TransactionParameters::StockLevel(_),
            RankedTransactionOutcome::Committed(RankedCommit::StockLevel { low_stock_count }),
        ) => LedgerEvent::StockLevel { meta, low_stock_count: *low_stock_count },
        _ => {
            return Err(
                LedgerError::InvalidEvidence(
                    "terminal outcome kind does not match its frozen ticket",
                ),
            );
        },
    };
    event.validate()?;
    Ok(event)
}

/// A recorded event stands for exactly the outcome that it was made from.
pub proof fn law_event_keeps_outcome(
    class: LedgerClass,
    ticket: TransactionTicket,
    outcome: RankedTransactionOutcome,
)
    requires
        terminal_fault(class, ticket, outcome) is None,
    ensures
        event_outcome(ticket_event(class, ticket, outcome)) == outcome_model(outcome),
{
    match (ticket.parameters, outcome) {
        (
            TransactionParameters::NewOrder(input),
            RankedTransactionOutcome::Committed(RankedCommit::NewOrder(evidence)),
        ) => {
            let lines = line_deltas(input.lines@, evidence.line_amount_bits@);
            assert(delta_suppliers(lines) =~= input_suppliers(input.lines@));
            assert(delta_quantities(lines) =~= input_quantities(input.lines@));
            assert(delta_amounts(lines) =~= evidence.line_amount_bits@);
        },
        (
            TransactionParameters::Delivery(input),
            RankedTransactionOutcome::Committed(RankedCommit::Delivery(orders)),
        ) => {
            let meta = ticket_meta(class, ticket);
            let model = delivery_model(meta, ticket.route, input, orders@);
            assert(Seq::new(
                model.orders.len(),
                |i: int| delivered_model(model.warehouse_id, model.orders[i]),
            ) =~= order_models(orders@)) by {
                assert forall|i: int| 0 <= i < orders@.len() implies delivered_model(
                    model.warehouse_id,
                    model.orders[i],
                ) == order_model(#[trigger] orders@[i]) by {
                    assert(orders@[i].warehouse_id == ticket.route.home_warehouse);
                }
            }
        },
        _ => {},
    }
}

} // verus!
