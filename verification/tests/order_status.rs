use tpcc_ranking::profile::TransactionKind;
use tpcc_ranking::ranking::common::{accept_batch, operation};
use tpcc_ranking::ranking::order_status::{
    customer_lookup_operation, latest_order_id, select_customer_id, stage_one_operations,
    stage_three_operations, stage_two_operations, validate_final_results, validate_lines,
    validate_order, validate_partition, LATEST_ORDER_QUERY_OPERATION, LINES_QUERY_OPERATION,
    ORDER_QUERY_OPERATION,
};
use tpcc_ranking::ranking::statement_id::StatementId;
use tpcc_ranking::wire::{BatchQueryResult, BatchResponse, WireValue};
use tpcc_ranking::workload::{
    CustomerLastName, CustomerSelector, OrderStatusInput, RoutedTransaction, StageId,
};

fn sample_order_status(want_last_name: bool) -> (RoutedTransaction, OrderStatusInput) {
    let route = RoutedTransaction {
        kind: TransactionKind::OrderStatus,
        stage: StageId::warmup(),
        client_id: 0,
        txn_no: 3,
        home_warehouse: 12,
        home_district: 5,
        payment_customer_warehouse: 12,
    };
    let customer = if want_last_name {
        CustomerSelector::LastName(CustomerLastName { bytes: b"BARBARBAR".to_vec() })
    } else {
        CustomerSelector::Id(321)
    };
    (route, OrderStatusInput { customer })
}

fn customer_row(id: i32, first: &[u8], last: &[u8]) -> Vec<WireValue> {
    vec![
        WireValue::Int32(id),
        WireValue::Float32((10.0 as f32).to_bits()),
        WireValue::Char(first.to_vec()),
        WireValue::Char(b"OE".to_vec()),
        WireValue::Char(last.to_vec()),
    ]
}

fn valid_line(number: i32) -> Vec<WireValue> {
    vec![
        WireValue::Int32(number),
        WireValue::Int32(100 + number),
        WireValue::Int32(1),
        WireValue::Int32(5),
        WireValue::Float32((number as f32 * 3.25 as f32).to_bits()),
        WireValue::Char(b"2026-07-29 12:00:00".to_vec()),
    ]
}

#[test]
fn selector_operation_uses_typed_full_partition_keys() {
    let (id_route, id_input) = sample_order_status(false);
    let id_operation = customer_lookup_operation(&id_route, &id_input).unwrap();
    assert_eq!(
        id_operation.statement_id,
        StatementId::OrderStatusCustomerById.wire_id()
    );
    assert_eq!(
        &id_operation.parameters[..2],
        &[
            WireValue::Int32(i32::from(id_route.home_warehouse)),
            WireValue::Int32(i32::from(id_route.home_district)),
        ]
    );
    assert!(matches!(id_operation.parameters[2], WireValue::Int32(_)));

    let (last_route, last_input) = sample_order_status(true);
    let last_operation = customer_lookup_operation(&last_route, &last_input).unwrap();
    assert_eq!(
        last_operation.statement_id,
        StatementId::OrderStatusCustomerByLast.wire_id()
    );
    assert_eq!(
        &last_operation.parameters[..2],
        &[
            WireValue::Int32(i32::from(last_route.home_warehouse)),
            WireValue::Int32(i32::from(last_route.home_district)),
        ]
    );
    assert!(matches!(last_operation.parameters[2], WireValue::Char(_)));
}

#[test]
fn surname_lookup_selects_stable_lower_median() {
    let (_, input) = sample_order_status(true);
    let CustomerSelector::LastName(last_name) = &input.customer else {
        unreachable!();
    };
    let rows = vec![
        customer_row(11, b"AL", last_name.bytes.as_slice()),
        customer_row(12, b"BO", last_name.bytes.as_slice()),
        customer_row(13, b"BO", last_name.bytes.as_slice()),
        customer_row(14, b"CY", last_name.bytes.as_slice()),
    ];
    assert_eq!(select_customer_id(&input.customer, Ok(&rows)).unwrap(), 12);

    let mut unordered = rows;
    unordered.swap(1, 2);
    assert!(select_customer_id(&input.customer, Ok(&unordered)).is_err());
}

#[test]
fn stage_query_operation_indices_are_fixed() {
    let operations = vec![
        operation(
            StatementId::OrderStatusOrder,
            vec![
                WireValue::Int32(1),
                WireValue::Int32(2),
                WireValue::Int32(3001),
            ],
        ),
        operation(
            StatementId::OrderStatusLines,
            vec![
                WireValue::Int32(1),
                WireValue::Int32(2),
                WireValue::Int32(3001),
            ],
        ),
        operation(StatementId::Commit, Vec::new()),
    ];
    let response = BatchResponse::Complete {
        executed_operations: 3,
        results: vec![
            BatchQueryResult {
                operation_index: ORDER_QUERY_OPERATION as u16,
                rows: vec![vec![
                    WireValue::Int32(3001),
                    WireValue::Char(b"2026-07-29".to_vec()),
                    WireValue::Int32(0),
                ]],
            },
            BatchQueryResult {
                operation_index: LINES_QUERY_OPERATION as u16,
                rows: (1..=5).map(valid_line).collect(),
            },
        ],
    };
    let results = accept_batch(response, &operations).unwrap();
    validate_final_results(&results, ORDER_QUERY_OPERATION, LINES_QUERY_OPERATION, 3001)
        .unwrap();
}

#[test]
fn line_validation_is_strict_about_shape_ranges_and_finiteness() {
    let valid: Vec<Vec<WireValue>> = (1..=5).map(valid_line).collect();
    validate_lines(&valid).unwrap();

    let mut discontinuous = valid.clone();
    discontinuous[2][0] = WireValue::Int32(4);
    assert!(validate_lines(&discontinuous).is_err());

    let mut bad_quantity = valid.clone();
    bad_quantity[0][3] = WireValue::Int32(0);
    assert!(validate_lines(&bad_quantity).is_err());

    let mut non_finite = valid.clone();
    non_finite[0][4] = WireValue::Float32(f32::NAN.to_bits());
    assert!(validate_lines(&non_finite).is_err());

    let mut long_delivery = valid;
    long_delivery[0][5] = WireValue::Char(vec![b'x'; 31]);
    assert!(validate_lines(&long_delivery).is_err());
}

#[test]
fn three_batches_address_rows_by_their_full_keys() {
    let (route, input) = sample_order_status(false);
    let first = stage_one_operations(&route, &input).unwrap();
    assert_eq!(first[0].statement_id, StatementId::Begin.wire_id());
    let second = stage_two_operations(&route, 321);
    assert_eq!(
        second[LATEST_ORDER_QUERY_OPERATION].parameters,
        vec![WireValue::Int32(12), WireValue::Int32(5), WireValue::Int32(321)]
    );
    let third = stage_three_operations(&route, 3001);
    assert_eq!(third[2].statement_id, StatementId::Commit.wire_id());
    assert_eq!(third[0].parameters, third[1].parameters);
    let answer = BatchResponse::Complete {
        executed_operations: 1,
        results: vec![BatchQueryResult {
            operation_index: 0,
            rows: vec![vec![WireValue::Int32(0)]],
        }],
    };
    assert_eq!(
        latest_order_id(&accept_batch(answer, &second).unwrap(), 0).unwrap_err().message(),
        "OrderStatus latest order id 0 must be positive"
    );
}

#[test]
fn ranges_are_checked_with_exact_texts() {
    let (mut route, _) = sample_order_status(false);
    route.home_warehouse = 51;
    assert_eq!(
        validate_partition(&route).unwrap_err().message(),
        "OrderStatus warehouse 51 is outside 1..=50"
    );
    let row = [
        WireValue::Int32(3001),
        WireValue::Char(b"2026-07-29".to_vec()),
        WireValue::Int32(11),
    ];
    assert_eq!(
        validate_order(&row, 3001).unwrap_err().message(),
        "OrderStatus carrier id 11 is outside 0..=10"
    );
    let selector = CustomerSelector::Id(9);
    assert_eq!(
        select_customer_id(&selector, Ok(&[customer_row(8, b"AL", b"BAR")]))
            .unwrap_err()
            .message(),
        "OrderStatus customer-id lookup returned 8, expected 9"
    );
}
