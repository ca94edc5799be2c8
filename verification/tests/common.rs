use tpcc_ranking::ranking::common::{
    abort_operation, accept_batch, customer_lower_median, expect_f32_add, expect_f32_sub,
    f32_add_bits, f32_sub_bits, operation, row_char, row_f32_bits, row_int32, BatchExecutionError,
    SemanticResultExt, SemanticViolation,
};
use tpcc_ranking::ranking::statement_id::StatementId;
use tpcc_ranking::wire::{BatchQueryResult, BatchResponse, Operation, WireValue};

fn op(id: StatementId) -> Operation {
    operation(id, vec![])
}

fn operations(count: usize) -> Vec<Operation> {
    (0..count).map(|_| op(StatementId::Begin)).collect()
}

fn successful(executed_operations: u16, results: Vec<BatchQueryResult>) -> BatchResponse {
    BatchResponse::Complete {
        executed_operations,
        results,
    }
}

fn query_result(operation_index: u16, rows: Vec<Vec<WireValue>>) -> BatchQueryResult {
    BatchQueryResult {
        operation_index,
        rows,
    }
}

#[test]
fn constructs_typed_and_abort_operations() {
    let amount = WireValue::Float32((17.25 as f32).to_bits());
    let built = operation(
        StatementId::PaymentUpdateWarehouse,
        vec![amount.clone(), WireValue::Int32(7)],
    );
    assert_eq!(
        built,
        Operation {
            statement_id: StatementId::PaymentUpdateWarehouse.wire_id(),
            parameters: vec![amount, WireValue::Int32(7)],
        }
    );
    assert_eq!(
        abort_operation(),
        Operation {
            statement_id: StatementId::Abort.wire_id(),
            parameters: Vec::new(),
        }
    );
}

#[test]
fn accepts_only_complete_success_and_indexes_query_rows() {
    let operations = operations(3);
    let response = successful(
        3,
        vec![
            query_result(0, vec![vec![WireValue::Int32(17)]]),
            query_result(2, vec![vec![WireValue::Char(b"ok".to_vec())]]),
        ],
    );
    let results = accept_batch(response, &operations).unwrap();
    assert_eq!(results.operation_count(), 3);
    assert_eq!(results.single_int32(0).unwrap(), 17);
    assert_eq!(results.single_char(2).unwrap(), b"ok");
    assert!(results.rows(1).is_err());

    let partial = successful(2, Vec::new());
    assert!(matches!(
        accept_batch(partial, &operations),
        Err(BatchExecutionError::FatalProtocol(_))
    ));
}

#[test]
fn rejects_invalid_or_reordered_query_indices() {
    let operations = operations(2);
    let outside = successful(2, vec![query_result(2, Vec::new())]);
    assert!(matches!(
        accept_batch(outside, &operations),
        Err(BatchExecutionError::FatalProtocol(_))
    ));

    let reordered = successful(
        2,
        vec![query_result(1, Vec::new()), query_result(0, Vec::new())],
    );
    assert!(matches!(
        accept_batch(reordered, &operations),
        Err(BatchExecutionError::FatalProtocol(_))
    ));
}

#[test]
fn classifies_only_transaction_abort_as_retryable() {
    let operations = operations(2);
    let retryable = accept_batch(
        BatchResponse::TransactionAbort {
            executed_operations: 1,
            failed_operation: 1,
            diagnostic: "write conflict".to_owned(),
        },
        &operations,
    )
    .unwrap_err();
    assert!(retryable.is_retryable_abort());
    assert!(matches!(
        retryable,
        BatchExecutionError::RetryableAbort { .. }
    ));

    let fatal_operation = accept_batch(
        BatchResponse::Error {
            executed_operations: 1,
            failed_operation: 1,
            diagnostic: "constraint".to_owned(),
        },
        &operations,
    )
    .unwrap_err();
    assert!(!fatal_operation.is_retryable_abort());
    assert!(matches!(
        fatal_operation,
        BatchExecutionError::FatalOperation { .. }
    ));

    let top_level = accept_batch(
        BatchResponse::TopLevelError {
            diagnostic: "bad batch".to_owned(),
        },
        &operations,
    )
    .unwrap_err();
    assert!(matches!(
        top_level,
        BatchExecutionError::FatalTopLevel { .. }
    ));
}

#[test]
fn malformed_failure_index_is_fatal_protocol() {
    let error = accept_batch(
        BatchResponse::TransactionAbort {
            executed_operations: 0,
            failed_operation: 1,
            diagnostic: "bad envelope".to_owned(),
        },
        &operations(2),
    )
    .unwrap_err();
    assert!(matches!(error, BatchExecutionError::FatalProtocol(_)));
    assert!(!error.is_retryable_abort());
}

#[test]
fn strict_scalar_reads_reject_empty_multiple_null_and_wrong_type() {
    let operations = operations(5);
    let response = successful(
        5,
        vec![
            query_result(0, Vec::new()),
            query_result(
                1,
                vec![vec![WireValue::Int32(1)], vec![WireValue::Int32(2)]],
            ),
            query_result(2, vec![vec![WireValue::Int32(1), WireValue::Int32(2)]]),
            query_result(3, vec![vec![WireValue::Null]]),
            query_result(4, vec![vec![WireValue::Char(b"x".to_vec())]]),
        ],
    );
    let results = accept_batch(response, &operations).unwrap();
    assert!(results.single_int32(0).is_err());
    assert!(results.single_int32(1).is_err());
    assert!(results.single_int32(2).is_err());
    assert!(results.single_int32(3).is_err());
    assert!(results.single_int32(4).is_err());
}

#[test]
fn reads_multi_column_rows_with_strict_types_and_raw_float_bits() {
    let bits = 123.75_f32.to_bits();
    let operations = operations(1);
    let response = successful(
        1,
        vec![query_result(
            0,
            vec![vec![
                WireValue::Int32(9),
                WireValue::Float32(bits),
                WireValue::Char(b"GC".to_vec()),
            ]],
        )],
    );
    let results = accept_batch(response, &operations).unwrap();
    let row = results.single_row(0).unwrap();
    assert_eq!(row_int32(row, 0, "customer").unwrap(), 9);
    assert_eq!(row_f32_bits(row, 1, "customer").unwrap(), bits);
    assert_eq!(row_char(row, 2, "customer").unwrap(), b"GC");
    assert!(row_int32(row, 3, "customer").is_err());
    assert!(row_char(row, 1, "customer").is_err());
}

#[test]
fn binary32_helpers_round_once_and_compare_raw_bits() {
    let large = 16_777_216.0_f32.to_bits();
    let one = 1.0_f32.to_bits();
    assert_eq!(f32_add_bits(large, one).unwrap(), large);

    let before = 10.0_f32.to_bits();
    let delta = 0.1_f32.to_bits();
    let added = (10.0_f32 + 0.1_f32).to_bits();
    let subtracted = (10.0_f32 - 0.1_f32).to_bits();
    assert_eq!(f32_add_bits(before, delta).unwrap(), added);
    assert_eq!(f32_sub_bits(before, delta).unwrap(), subtracted);
    expect_f32_add(before, delta, added, "w_ytd").unwrap();
    expect_f32_sub(before, delta, subtracted, "c_balance").unwrap();

    let mismatch = expect_f32_add(before, delta, added.wrapping_add(1), "w_ytd").unwrap_err();
    assert!(mismatch.message().contains("expected bits"));
}

#[test]
fn binary32_helpers_reject_non_finite_inputs_and_outputs() {
    assert!(f32_add_bits(f32::NAN.to_bits(), 0.0_f32.to_bits()).is_err());
    assert!(f32_sub_bits(f32::INFINITY.to_bits(), 0.0_f32.to_bits()).is_err());
    assert!(f32_add_bits(f32::MAX.to_bits(), f32::MAX.to_bits()).is_err());
    assert!(expect_f32_add(
        1.0_f32.to_bits(),
        1.0_f32.to_bits(),
        f32::INFINITY.to_bits(),
        "w_ytd"
    )
    .is_err());
}

#[test]
fn surname_lookup_uses_stable_lower_median() {
    assert_eq!(*customer_lower_median(&[10]).unwrap(), 10);
    assert_eq!(*customer_lower_median(&[10, 20]).unwrap(), 10);
    assert_eq!(*customer_lower_median(&[10, 20, 30, 40]).unwrap(), 20);
    assert_eq!(*customer_lower_median(&[10, 20, 30, 40, 50]).unwrap(), 30);
    assert!(customer_lower_median::<i32>(&[]).is_err());
}

#[test]
fn open_transaction_semantic_error_carries_abort_obligation() {
    let error = Err::<(), _>(SemanticViolation::new("missing stock"))
        .require_explicit_abort()
        .unwrap_err();
    assert!(error.requires_explicit_abort());
    assert_eq!(error.message(), "missing stock");
    assert_eq!(abort_operation().statement_id, StatementId::Abort.wire_id());
}

#[test]
fn failures_have_exact_texts() {
    let error = accept_batch(
        BatchResponse::TransactionAbort {
            executed_operations: 1,
            failed_operation: 1,
            diagnostic: "write conflict".to_owned(),
        },
        &operations(2),
    )
    .unwrap_err();
    assert_eq!(
        error.message(),
        "retryable transaction abort at operation 1 after 1 operations: write conflict"
    );
    let results = accept_batch(successful(1, Vec::new()), &operations(1)).unwrap();
    assert_eq!(
        results.single_int32(0).unwrap_err().message(),
        "operation 0 has no query result"
    );
    assert_eq!(
        row_int32(&[WireValue::Null], 0, "row").unwrap_err().message(),
        "row column 0 expected INT32, got NULL"
    );
}

#[test]
fn binary32_arithmetic_agrees_with_the_machine() {
    let values = [
        0.0_f32,
        -0.0,
        1.0,
        -1.0,
        0.1,
        1.0e-45,
        -3.5e-40,
        1.5e38,
        -3.0e38,
        16_777_217.0,
        123_456.79,
    ];
    for a in values {
        for b in values {
            let sum = a + b;
            let difference = a - b;
            assert_eq!(
                f32_add_bits(a.to_bits(), b.to_bits()).ok(),
                sum.is_finite().then_some(sum.to_bits())
            );
            assert_eq!(
                f32_sub_bits(a.to_bits(), b.to_bits()).ok(),
                difference.is_finite().then_some(difference.to_bits())
            );
        }
    }
}
