use tpcc_ranking::profile::TransactionKind;
use tpcc_ranking::ranking::common::{accept_batch, BatchResults};
use tpcc_ranking::ranking::payment::{
    build_stage_one, build_stage_two, select_last_name_customer, validate_request,
    validate_stage_one, validate_stage_two, CustomerCredit, CustomerSnapshot, PaymentSnapshot,
    STAGE_ONE_CUSTOMER, STAGE_ONE_DISTRICT_BEFORE, STAGE_ONE_WAREHOUSE_BEFORE,
    STAGE_TWO_CUSTOMER_AFTER,
};
use tpcc_ranking::ranking::statement_id::StatementId;
use tpcc_ranking::wire::{BatchQueryResult, BatchResponse, Operation, WireValue};
use tpcc_ranking::workload::{
    CustomerLastName, CustomerSelector, PaymentInput, RoutedTransaction, StageId,
};

fn result(
    operations: &[Operation],
    rows: impl IntoIterator<Item = (u16, Vec<Vec<WireValue>>)>,
) -> BatchResults {
    accept_batch(
        BatchResponse::Complete {
            executed_operations: operations.len() as u16,
            results: rows
                .into_iter()
                .map(|(operation_index, rows)| BatchQueryResult {
                    operation_index,
                    rows,
                })
                .collect(),
        },
        operations,
    )
    .unwrap()
}

fn warehouse_row(ytd_bits: u32, name: &[u8]) -> Vec<WireValue> {
    vec![
        WireValue::Float32(ytd_bits),
        WireValue::Char(name.to_vec()),
    ]
}

fn district_row(ytd_bits: u32, name: &[u8]) -> Vec<WireValue> {
    warehouse_row(ytd_bits, name)
}

fn ytd_row(ytd_bits: u32) -> Vec<WireValue> {
    vec![WireValue::Float32(ytd_bits)]
}

fn customer_row(
    id: i32,
    first: &[u8],
    last: &[u8],
    credit: &[u8],
    balance_bits: u32,
    ytd_bits: u32,
    payment_count: i32,
    delivery_count: i32,
    data: &[u8],
) -> Vec<WireValue> {
    vec![
        WireValue::Int32(id),
        WireValue::Char(first.to_vec()),
        WireValue::Char(last.to_vec()),
        WireValue::Char(credit.to_vec()),
        WireValue::Float32(balance_bits),
        WireValue::Float32(ytd_bits),
        WireValue::Int32(payment_count),
        WireValue::Int32(delivery_count),
        WireValue::Char(data.to_vec()),
    ]
}

fn snapshot(credit: CustomerCredit) -> PaymentSnapshot {
    PaymentSnapshot {
        warehouse_before_bits: 100.0_f32.to_bits(),
        warehouse_after_bits: 101.0_f32.to_bits(),
        district_before_bits: 200.0_f32.to_bits(),
        district_after_bits: 201.0_f32.to_bits(),
        warehouse_name: b"WAREHOUSE".to_vec(),
        district_name: b"DISTRICT".to_vec(),
        customer: CustomerSnapshot {
            id: 321,
            first: b"ALICE".to_vec(),
            last: b"BARBARBAR".to_vec(),
            credit,
            balance_bits: (-10.0_f32).to_bits(),
            ytd_payment_bits: 10.0_f32.to_bits(),
            payment_count: 1,
            delivery_count: 0,
            data: b"ABCDEFGHIJKLMNOPQRSTUVWXYZabcdefghijklmnopqrstuvwx".to_vec(),
        },
    }
}

#[test]
fn stage_one_uses_exact_indices_and_separates_remote_keys() {
    let amount_bits = 17.25_f32.to_bits();
    let operations = build_stage_one(3, 4, 50, 7, &CustomerSelector::Id(321), amount_bits);
    assert_eq!(operations.len(), 8);
    assert_eq!(
        operations
            .iter()
            .map(|operation| operation.statement_id)
            .collect::<Vec<_>>(),
        vec![
            StatementId::Begin.wire_id(),
            StatementId::PaymentWarehouse.wire_id(),
            StatementId::PaymentUpdateWarehouse.wire_id(),
            StatementId::PaymentWarehouseAfter.wire_id(),
            StatementId::PaymentDistrict.wire_id(),
            StatementId::PaymentUpdateDistrict.wire_id(),
            StatementId::PaymentDistrictAfter.wire_id(),
            StatementId::PaymentCustomerById.wire_id(),
        ]
    );
    assert_eq!(
        operations[STAGE_ONE_WAREHOUSE_BEFORE].parameters,
        vec![WireValue::Int32(3)]
    );
    assert_eq!(
        operations[2].parameters,
        vec![WireValue::Float32(amount_bits), WireValue::Int32(3)]
    );
    assert_eq!(
        operations[STAGE_ONE_DISTRICT_BEFORE].parameters,
        vec![WireValue::Int32(3), WireValue::Int32(4)]
    );
    assert_eq!(
        operations[5].parameters,
        vec![
            WireValue::Float32(amount_bits),
            WireValue::Int32(3),
            WireValue::Int32(4),
        ]
    );
    assert_eq!(
        operations[STAGE_ONE_CUSTOMER].parameters,
        vec![
            WireValue::Int32(50),
            WireValue::Int32(7),
            WireValue::Int32(321),
        ]
    );
}

#[test]
fn surname_selection_uses_stable_lower_median() {
    let rows = vec![
        customer_row(
            8,
            b"ALICE",
            b"BARBARBAR",
            b"GC",
            0.0_f32.to_bits(),
            10.0_f32.to_bits(),
            1,
            0,
            b"a",
        ),
        customer_row(
            2,
            b"BOB",
            b"BARBARBAR",
            b"GC",
            0.0_f32.to_bits(),
            10.0_f32.to_bits(),
            1,
            0,
            b"b",
        ),
        customer_row(
            9,
            b"BOB",
            b"BARBARBAR",
            b"GC",
            0.0_f32.to_bits(),
            10.0_f32.to_bits(),
            1,
            0,
            b"c",
        ),
        customer_row(
            4,
            b"CAROL",
            b"BARBARBAR",
            b"BC",
            0.0_f32.to_bits(),
            10.0_f32.to_bits(),
            1,
            0,
            b"d",
        ),
    ];
    let selected = select_last_name_customer(&rows, b"BARBARBAR").unwrap();
    assert_eq!(selected.id, 2);

    let mut reordered = rows.clone();
    reordered.swap(1, 2);
    let selected = select_last_name_customer(&reordered, b"BARBARBAR").unwrap();
    assert_eq!(selected.id, 2);

    let duplicate_row = rows[0].clone();
    let mut duplicate = rows;
    duplicate.push(duplicate_row);
    assert!(select_last_name_customer(&duplicate, b"BARBARBAR").is_err());
}

#[test]
fn large_float_update_requires_zero_ulp() {
    let selector = CustomerSelector::Id(321);
    let amount_bits = 1.0_f32.to_bits();
    let operations = build_stage_one(3, 4, 3, 4, &selector, amount_bits);
    let large = 16_777_216.0_f32.to_bits();
    let district_before = 30_000.0_f32.to_bits();
    let district_after = (30_000.0_f32 + 1.0_f32).to_bits();
    let customer = customer_row(
        321,
        b"ALICE",
        b"LAST",
        b"GC",
        (-10.0_f32).to_bits(),
        10.0_f32.to_bits(),
        1,
        0,
        b"data",
    );
    let good = result(
        &operations,
        [
            (1, vec![warehouse_row(large, b"WAREHOUSE")]),
            (3, vec![ytd_row(large)]),
            (4, vec![district_row(district_before, b"DISTRICT")]),
            (6, vec![ytd_row(district_after)]),
            (7, vec![customer.clone()]),
        ],
    );
    validate_stage_one(&good, &selector, amount_bits).unwrap();

    let one_ulp_wrong = result(
        &operations,
        [
            (1, vec![warehouse_row(large, b"WAREHOUSE")]),
            (3, vec![ytd_row(large.wrapping_add(1))]),
            (4, vec![district_row(district_before, b"DISTRICT")]),
            (6, vec![ytd_row(district_after)]),
            (7, vec![customer]),
        ],
    );
    assert!(validate_stage_one(&one_ulp_wrong, &selector, amount_bits).is_err());
}

#[test]
fn bad_credit_stage_truncates_data_and_preserves_all_keys() {
    let snapshot = snapshot(CustomerCredit::Bad);
    let amount_bits = 5_000.0_f32.to_bits();
    let stage = build_stage_two(
        3,
        4,
        50,
        7,
        500_000,
        amount_bits,
        "2026-07-29 12:34:56",
        &snapshot,
    )
    .unwrap();
    assert_eq!(stage.operations.len(), 4);
    assert_eq!(
        stage
            .operations
            .iter()
            .map(|operation| operation.statement_id)
            .collect::<Vec<_>>(),
        vec![
            StatementId::PaymentUpdateBadCustomer.wire_id(),
            StatementId::PaymentInsertHistory.wire_id(),
            StatementId::PaymentCustomerAfter.wire_id(),
            StatementId::Commit.wire_id(),
        ]
    );
    assert_eq!(stage.expected_customer_data.len(), 50);
    assert!(stage.customer_is_bad_credit);
    assert_eq!(stage.history_data, b"WAREHOUSE    DISTRICT");
    assert!(stage
        .expected_customer_data
        .starts_with(b"321 7 50 4 3 5000.00 "));
    assert_eq!(
        stage.operations[0].parameters,
        vec![
            WireValue::Float32(amount_bits),
            WireValue::Char(stage.expected_customer_data.clone()),
            WireValue::Int32(50),
            WireValue::Int32(7),
            WireValue::Int32(321),
        ]
    );
    assert_eq!(
        stage.operations[1].parameters,
        vec![
            WireValue::Int32(321),
            WireValue::Int32(7),
            WireValue::Int32(50),
            WireValue::Int32(4),
            WireValue::Int32(3),
            WireValue::Char(b"2026-07-29 12:34:56".to_vec()),
            WireValue::Float32(amount_bits),
            WireValue::Char(b"WAREHOUSE    DISTRICT".to_vec()),
        ]
    );
    assert_eq!(
        stage.operations[STAGE_TWO_CUSTOMER_AFTER].parameters,
        vec![
            WireValue::Int32(50),
            WireValue::Int32(7),
            WireValue::Int32(321),
        ]
    );
}

#[test]
fn post_commit_validation_keeps_good_credit_data_and_never_requests_abort() {
    let snapshot = snapshot(CustomerCredit::Good);
    let amount_bits = 1.0_f32.to_bits();
    let stage = build_stage_two(
        3,
        4,
        3,
        4,
        100,
        amount_bits,
        "2026-07-29 12:34:56",
        &snapshot,
    )
    .unwrap();
    assert_eq!(stage.expected_customer_data, snapshot.customer.data);
    assert!(!stage.customer_is_bad_credit);
    let results = result(
        &stage.operations,
        [(
            2,
            vec![vec![
                WireValue::Float32((-11.0_f32).to_bits()),
                WireValue::Float32(11.0_f32.to_bits()),
                WireValue::Int32(2),
                WireValue::Int32(0),
                WireValue::Char(stage.expected_customer_data.clone()),
            ]],
        )],
    );
    validate_stage_two(
        &results,
        amount_bits,
        &snapshot,
        &stage.expected_customer_data,
    )
    .unwrap();

    let wrong = result(
        &stage.operations,
        [(
            2,
            vec![vec![
                WireValue::Float32((-11.0_f32).to_bits().wrapping_add(1)),
                WireValue::Float32(11.0_f32.to_bits()),
                WireValue::Int32(2),
                WireValue::Int32(0),
                WireValue::Char(stage.expected_customer_data.clone()),
            ]],
        )],
    );
    let error = validate_stage_two(
        &wrong,
        amount_bits,
        &snapshot,
        &stage.expected_customer_data,
    )
    .unwrap_err();
    assert!(!error.requires_explicit_abort());

    let changed_delivery_count = result(
        &stage.operations,
        [(
            2,
            vec![vec![
                WireValue::Float32((-11.0_f32).to_bits()),
                WireValue::Float32(11.0_f32.to_bits()),
                WireValue::Int32(2),
                WireValue::Int32(1),
                WireValue::Char(stage.expected_customer_data.clone()),
            ]],
        )],
    );
    assert!(validate_stage_two(
        &changed_delivery_count,
        amount_bits,
        &snapshot,
        &stage.expected_customer_data,
    )
    .is_err());
}

#[test]
fn request_is_checked_before_anything_is_sent() {
    let route = RoutedTransaction {
        kind: TransactionKind::Payment,
        stage: StageId::measurement(0),
        client_id: 1,
        txn_no: 1,
        home_warehouse: 3,
        home_district: 4,
        payment_customer_warehouse: 50,
    };
    let input = PaymentInput {
        customer_warehouse: 50,
        customer_district: 7,
        customer: CustomerSelector::LastName(CustomerLastName { bytes: b"BARBARBAR".to_vec() }),
        amount_cents: 1_725,
        amount_bits: 17.25_f32.to_bits(),
    };
    validate_request(&route, &input, "2026-07-29").unwrap();

    let mut cents = input.clone();
    cents.amount_cents = 1_726;
    assert_eq!(
        validate_request(&route, &cents, "2026-07-29").unwrap_err().message(),
        "Payment bound amount bits 0x418a0000 do not match 1726 cents (0x418a147b)"
    );
    let mut small = input.clone();
    small.amount_cents = 99;
    assert_eq!(
        validate_request(&route, &small, "2026-07-29").unwrap_err().message(),
        "Payment amount 99 cents is out of range"
    );
    let mut elsewhere = route;
    elsewhere.payment_customer_warehouse = 49;
    assert_eq!(
        validate_request(&elsewhere, &input, "2026-07-29").unwrap_err().message(),
        "routed Payment customer warehouse 49 does not match frozen input 50"
    );
    assert_eq!(
        validate_request(&route, &input, "").unwrap_err().message(),
        "Payment timestamp length 0 is outside 1..=30"
    );
}

#[test]
fn rows_in_any_order_select_the_same_customer() {
    let names: [&[u8]; 5] = [b"EVE", b"ANN", b"DAN", b"BEA", b"CYD"];
    let rows: Vec<Vec<WireValue>> = names
        .iter()
        .enumerate()
        .map(|(index, first)| {
            customer_row(index as i32 + 1, first, b"BAR", b"GC", 0, 0, 1, 0, b"")
        })
        .collect();
    for turn in 0..rows.len() {
        let mut turned = rows.clone();
        turned.rotate_left(turn);
        assert_eq!(select_last_name_customer(&turned, b"BAR").unwrap().first, b"CYD");
    }
}

#[test]
fn unknown_credit_is_quoted() {
    let texts: [(&[u8], &str); 3] = [
        (b"XC", "Payment customer 8 has invalid c_credit \"XC\""),
        (b"a\"\n", "Payment customer 8 has invalid c_credit \"a\\\"\\n\""),
        (b"\xff", "Payment customer 8 has invalid c_credit \"\u{fffd}\""),
    ];
    for (credit, text) in texts {
        let rows = vec![customer_row(8, b"ALICE", b"BAR", credit, 0, 0, 1, 0, b"a")];
        let error = select_last_name_customer(&rows, b"BAR").unwrap_err();
        assert_eq!(error.message(), text);
    }
}

#[test]
fn surname_selection_ignores_the_order_of_rows() {
    let row = |id: i32, first: &[u8]| {
        customer_row(
            id,
            first,
            b"BARBARBAR",
            b"GC",
            0.0_f32.to_bits(),
            10.0_f32.to_bits(),
            1,
            0,
            b"a",
        )
    };
    let mut rows = vec![row(8, b"ALICE"), row(9, b"BOB"), row(2, b"BOB"), row(4, b"CAROL")];
    let found = select_last_name_customer(&rows, b"BARBARBAR").unwrap();
    assert_eq!(found.id, 2);
    rows.reverse();
    let again = select_last_name_customer(&rows, b"BARBARBAR").unwrap();
    assert_eq!(again.id, 2);
}
