use tpcc_ranking::profile::TransactionKind;
use tpcc_ranking::ranking::common::BatchExecutionError;
use tpcc_ranking::ranking::delivery_flow::DeliveryFlow;
use tpcc_ranking::ranking::flow::{FlowStep, RankedTransactionError};
use tpcc_ranking::ranking::new_order_flow::NewOrderFlow;
use tpcc_ranking::ranking::order_status_flow::OrderStatusFlow;
use tpcc_ranking::ranking::payment_flow::PaymentFlow;
use tpcc_ranking::ranking::runner::{RankedCommit, RankedTransactionOutcome};
use tpcc_ranking::ranking::statement_id::StatementId;
use tpcc_ranking::wire::{BatchQueryResult, BatchResponse, Operation, WireValue};
use tpcc_ranking::workload::{
    CustomerSelector, DeliveryInput, NewOrderInput, OrderLineInput, OrderStatusInput, PaymentInput,
    RoutedTransaction, StageId,
};

fn route(kind: TransactionKind) -> RoutedTransaction {
    RoutedTransaction {
        kind,
        stage: StageId::measurement(0),
        client_id: 1,
        txn_no: 1,
        home_warehouse: 2,
        home_district: 3,
        payment_customer_warehouse: 2,
    }
}

fn whole(n: i32) -> WireValue {
    WireValue::Int32(n)
}

fn float(x: f32) -> WireValue {
    WireValue::Float32(x.to_bits())
}

fn text(s: &str) -> WireValue {
    WireValue::Char(s.as_bytes().to_vec())
}

/// Answers every query of a batch.
fn answer(
    batch: &[Operation],
    rows: impl Fn(usize, &Operation) -> Option<Vec<Vec<WireValue>>>,
) -> BatchResponse {
    BatchResponse::Complete {
        executed_operations: batch.len() as u16,
        results: batch
            .iter()
            .enumerate()
            .filter_map(|(index, operation)| {
                rows(index, operation).map(|rows| BatchQueryResult {
                    operation_index: index as u16,
                    rows,
                })
            })
            .collect(),
    }
}

fn is(operation: &Operation, id: StatementId) -> bool {
    operation.statement_id == id.wire_id()
}

fn aborted(batch: &[Operation]) -> bool {
    batch.len() == 1 && is(&batch[0], StatementId::Abort)
}

fn server_abort() -> BatchResponse {
    BatchResponse::TransactionAbort {
        executed_operations: 0,
        failed_operation: 0,
        diagnostic: "conflict".to_owned(),
    }
}

fn next<F>(step: FlowStep<F>) -> F {
    match step {
        FlowStep::Next(flow) => flow,
        FlowStep::Done(end) => panic!("ended with {end:?}"),
    }
}

fn done<F>(step: FlowStep<F>) -> Result<RankedTransactionOutcome, RankedTransactionError> {
    match step {
        FlowStep::Next(_) => panic!("there is another batch"),
        FlowStep::Done(end) => end,
    }
}

fn status_rows(index: usize, operation: &Operation) -> Option<Vec<Vec<WireValue>>> {
    if index == 1 && is(operation, StatementId::OrderStatusCustomerById) {
        return Some(vec![vec![whole(9), float(1.0), text("AL"), text("OE"), text("BAR")]]);
    }
    if is(operation, StatementId::OrderStatusLatestOrder) {
        return Some(vec![vec![whole(3001)]]);
    }
    if is(operation, StatementId::OrderStatusOrder) {
        return Some(vec![vec![whole(3001), text("2026-07-29"), whole(0)]]);
    }
    if is(operation, StatementId::OrderStatusLines) {
        return Some(
            (1..=5)
                .map(|n| vec![whole(n), whole(n), whole(2), whole(5), float(1.0), text("")])
                .collect(),
        );
    }
    None
}

fn status_flow() -> OrderStatusFlow {
    OrderStatusFlow::start(
        &route(TransactionKind::OrderStatus),
        OrderStatusInput { customer: CustomerSelector::Id(9) },
    )
    .unwrap()
}

#[test]
fn order_status_takes_three_batches() {
    let first = status_flow();
    let response = answer(&first.batch, status_rows);
    let second = next(first.advance(response));
    let response = answer(&second.batch, status_rows);
    let third = next(second.advance(response));
    assert!(is(third.batch.last().unwrap(), StatementId::Commit));
    let response = answer(&third.batch, status_rows);
    assert_eq!(
        done(third.advance(response)).unwrap(),
        RankedTransactionOutcome::Committed(RankedCommit::OrderStatus)
    );
}

#[test]
fn violation_inside_an_open_transaction_is_aborted_first() {
    let first = status_flow();
    let response = answer(&first.batch, |index, _| {
        (index == 1).then_some(vec![vec![whole(8), float(1.0), text("AL"), text("OE"), text("BAR")]])
    });
    let abort = next(first.advance(response));
    assert!(aborted(&abort.batch));
    let response = answer(&abort.batch, |_, _| None);
    let error = done(abort.advance(response)).unwrap_err();
    assert!(!error.is_retryable_abort());
    let RankedTransactionError::Semantic(violation) = error else {
        panic!("a violation");
    };
    assert!(violation.requires_explicit_abort());
}

#[test]
fn violation_after_the_commit_is_final() {
    let first = status_flow();
    let response = answer(&first.batch, status_rows);
    let second = next(first.advance(response));
    let response = answer(&second.batch, status_rows);
    let third = next(second.advance(response));
    let response = answer(&third.batch, |index, operation| {
        if index == 0 {
            Some(vec![vec![whole(3002), text("2026-07-29"), whole(0)]])
        } else {
            status_rows(index, operation)
        }
    });
    let RankedTransactionError::Semantic(violation) = done(third.advance(response)).unwrap_err()
    else {
        panic!("a violation");
    };
    assert!(!violation.requires_explicit_abort());
}

#[test]
fn server_abort_is_retryable_and_ends_at_once() {
    let error = done(status_flow().advance(server_abort())).unwrap_err();
    assert!(error.is_retryable_abort());
    assert!(matches!(
        error,
        RankedTransactionError::Batch(BatchExecutionError::RetryableAbort { .. })
    ));
}

fn delivery_flow() -> DeliveryFlow {
    DeliveryFlow::start(
        &route(TransactionKind::Delivery),
        &DeliveryInput { carrier_id: 4 },
        "2026-08-11",
    )
}

fn claims(index: usize, _: &Operation) -> Option<Vec<Vec<WireValue>>> {
    (index > 0).then(|| vec![vec![if index == 2 { whole(3001) } else { WireValue::Null }]])
}

fn delivery_rows(_: usize, operation: &Operation) -> Option<Vec<Vec<WireValue>>> {
    if is(operation, StatementId::DeliveryEarlierQueueCount) {
        Some(vec![vec![whole(0)]])
    } else if is(operation, StatementId::DeliveryExactQueueCount) {
        Some(vec![vec![whole(1)]])
    } else if is(operation, StatementId::DeliveryOrder) {
        Some(vec![vec![whole(42), whole(0), whole(5)]])
    } else if is(operation, StatementId::DeliveryLineRows) {
        Some((1..=5).map(|n| vec![whole(n), float(0.5), whole(3001)]).collect())
    } else if is(operation, StatementId::DeliveryLineSum) {
        Some(vec![vec![float(2.5)]])
    } else if is(operation, StatementId::DeliveryCustomer) {
        Some(vec![vec![float(10.0), whole(3), whole(4)]])
    } else if is(operation, StatementId::DeliveryCustomerAfter) {
        Some(vec![vec![float(12.5), whole(3), whole(5)]])
    } else {
        None
    }
}

#[test]
fn delivery_claims_locks_and_delivers() {
    let first = delivery_flow();
    let response = answer(&first.batch, claims);
    let second = next(first.advance(response));
    let response = answer(&second.batch, delivery_rows);
    let third = next(second.advance(response));
    let response = answer(&third.batch, delivery_rows);
    let RankedTransactionOutcome::Committed(RankedCommit::Delivery(list)) =
        done(third.advance(response)).unwrap()
    else {
        panic!("a delivery");
    };
    assert_eq!(list.len(), 1);
    assert_eq!((list[0].district_id, list[0].order_id, list[0].customer_id), (2, 3001, 42));
}

#[test]
fn delivery_without_claims_only_commits() {
    let first = delivery_flow();
    let response = answer(&first.batch, |index, _| (index > 0).then(Vec::new));
    let second = next(first.advance(response));
    assert_eq!(second.batch.len(), 1);
    assert!(is(&second.batch[0], StatementId::Commit));
    let response = answer(&second.batch, |_, _| None);
    assert_eq!(
        done(second.advance(response)).unwrap(),
        RankedTransactionOutcome::Committed(RankedCommit::Delivery(Vec::new()))
    );
}

#[test]
fn lost_claim_is_retried_only_after_its_abort() {
    let lost = |index: usize, operation: &Operation| {
        if is(operation, StatementId::DeliveryExactQueueCount) {
            Some(vec![vec![whole(0)]])
        } else {
            delivery_rows(index, operation)
        }
    };
    for fails in [false, true] {
        let first = delivery_flow();
        let response = answer(&first.batch, claims);
        let second = next(first.advance(response));
        let response = answer(&second.batch, lost);
        let abort = next(second.advance(response));
        assert!(aborted(&abort.batch));
        let response = if fails {
            BatchResponse::TopLevelError { diagnostic: "gone".to_owned() }
        } else {
            answer(&abort.batch, |_, _| None)
        };
        let error = done(abort.advance(response)).unwrap_err();
        assert_eq!(error.is_retryable_abort(), !fails);
        if !fails {
            assert_eq!(
                error.message_with(""),
                "Delivery warehouse district 2 order 3001 disappeared before queue confirmation"
            );
        }
    }
}

#[test]
fn payment_reads_then_writes() {
    let input = PaymentInput {
        customer_warehouse: 2,
        customer_district: 3,
        customer: CustomerSelector::Id(321),
        amount_cents: 100,
        amount_bits: 1.0_f32.to_bits(),
    };
    let first = PaymentFlow::start(&route(TransactionKind::Payment), input, "2026-07-29").unwrap();
    let rows = |index: usize, operation: &Operation| {
        if is(operation, StatementId::PaymentCustomerAfter) {
            return Some(vec![vec![float(-11.0), float(11.0), whole(2), whole(0), text("data")]]);
        }
        if first.batch.len() != 8 {
            return None;
        }
        match index {
            1 => Some(vec![vec![float(100.0), text("WAREHOUSE")]]),
            3 => Some(vec![vec![float(101.0)]]),
            4 => Some(vec![vec![float(200.0), text("DISTRICT")]]),
            6 => Some(vec![vec![float(201.0)]]),
            7 => Some(vec![vec![
                whole(321),
                text("ALICE"),
                text("LAST"),
                text("GC"),
                float(-10.0),
                float(10.0),
                whole(1),
                whole(0),
                text("data"),
            ]]),
            _ => None,
        }
    };
    let response = answer(&first.batch, rows);
    let second = next(first.clone().advance(response));
    let response = answer(&second.batch, |index, operation| {
        (index == 2).then(|| rows(index, operation)).flatten()
    });
    let RankedTransactionOutcome::Committed(RankedCommit::Payment(evidence)) =
        done(second.advance(response)).unwrap()
    else {
        panic!("a payment");
    };
    assert_eq!(evidence.customer_id, 321);
    assert_eq!(evidence.history_data, b"WAREHOUSE    DISTRICT");
}

#[test]
fn new_order_reads_then_writes() {
    let input = NewOrderInput {
        customer_id: 17,
        lines: (1..=5)
            .map(|number| OrderLineInput {
                number,
                item_id: u32::from(number) * 10,
                supply_warehouse: 2,
                quantity: 3,
            })
            .collect(),
        expected_rollback: false,
        all_local: true,
    };
    let first =
        NewOrderFlow::start(&route(TransactionKind::NewOrder), &input, "2026-07-29").unwrap();
    assert!(is(&first.batch[1], StatementId::NewOrderHome));
    let error = done(first.clone().advance(server_abort())).unwrap_err();
    assert!(error.is_retryable_abort());
    // No row of the home query: a violation inside the open transaction.
    let response = answer(&first.batch, |_, _| None);
    let abort = next(first.advance(response));
    assert!(aborted(&abort.batch));

    let mut refused = input;
    refused.lines.pop();
    assert!(matches!(
        NewOrderFlow::start(&route(TransactionKind::NewOrder), &refused, "2026-07-29"),
        Err(RankedTransactionError::Semantic(_))
    ));
}

#[test]
fn a_rate_out_of_range_is_shown_in_decimal() {
    let input = NewOrderInput {
        customer_id: 17,
        lines: (1..=5)
            .map(|number| OrderLineInput {
                number,
                item_id: u32::from(number) * 10,
                supply_warehouse: 2,
                quantity: 3,
            })
            .collect(),
        expected_rollback: false,
        all_local: true,
    };
    let first =
        NewOrderFlow::start(&route(TransactionKind::NewOrder), &input, "2026-07-29").unwrap();
    let response = answer(&first.batch, |_, operation| {
        is(operation, StatementId::NewOrderHome).then(|| {
            vec![vec![
                float(0.6),
                text("LAST"),
                text("GC"),
                float(0.1),
                whole(3001),
                float(0.1),
            ]]
        })
    });
    let abort = next(first.advance(response));
    let response = answer(&abort.batch, |_, _| None);
    let error = done(abort.advance(response)).unwrap_err();
    let bits = error.shown_bits().unwrap();
    assert_eq!(bits, 0.6f32.to_bits());
    assert_eq!(
        error.message_with(&f32::from_bits(bits).to_string()),
        "customer.c_discount 0.6 is outside 0..=0.5"
    );
}
