use tpcc_ranking::ranking::common::{accept_batch, operation};
use tpcc_ranking::ranking::delivery::{
    stage_one_operations, stage_three_operations, stage_two_operations, DistrictClaim, LockedOrder,
    StageTwoIndices,
};
use tpcc_ranking::ranking::delivery_commit::{
    delivery_outcome, validate_customer_after, validate_stage_three, CustomerReading,
    CustomerTransition,
};
use tpcc_ranking::ranking::delivery_locks::{
    lost_claim_diagnostic, parse_stage_two, StageTwoOutcome,
};
use tpcc_ranking::ranking::delivery_rows::{exact_f64_sum_to_f32_bits, parse_stage_one};
use tpcc_ranking::ranking::new_order_writes::UNDELIVERED_CARRIER_ID;
use tpcc_ranking::ranking::runner::{RankedCommit, RankedTransactionOutcome};
use tpcc_ranking::ranking::statement_id::StatementId;
use tpcc_ranking::wire::{BatchQueryResult, BatchResponse, WireValue};
use tpcc_ranking::workload::MIN_ORDER_LINES;

fn query(operation_index: usize, rows: Vec<Vec<WireValue>>) -> BatchQueryResult {
    BatchQueryResult {
        operation_index: operation_index as u16,
        rows,
    }
}

#[test]
fn empty_delivery_has_two_round_trips() {
    let operations = stage_one_operations(7);
    let response = BatchResponse::Complete {
        executed_operations: operations.len() as u16,
        results: (1..=10_usize)
            .map(|index| match index {
                3 => query(index, Vec::new()),
                7 => query(index, vec![vec![WireValue::Int32(0)]]),
                _ => query(index, vec![vec![WireValue::Null]]),
            })
            .collect(),
    };
    let results = accept_batch(response, &operations).unwrap();
    let claims = parse_stage_one(&results).unwrap();
    assert!(claims.is_empty());

    let terminal = [operation(StatementId::Commit, Vec::new())];
    let batches = [&operations[..], &terminal[..]];
    assert_eq!(batches.len(), 2);
    assert_eq!(batches[1][0].statement_id, StatementId::Commit.wire_id());
}

#[test]
fn stage_two_records_each_query_operation_index() {
    let claims = [
        DistrictClaim {
            district_id: 2,
            order_id: 3001,
        },
        DistrictClaim {
            district_id: 9,
            order_id: 3017,
        },
    ];
    let (operations, indices) = stage_two_operations(17, &claims);
    assert_eq!(operations.len(), 12);
    assert_eq!(
        indices,
        vec![
            StageTwoIndices {
                earlier_queue_count: 1,
                exact_queue_count: 2,
                order: 3,
                line_rows: 4,
                line_sum: 5,
            },
            StageTwoIndices {
                earlier_queue_count: 7,
                exact_queue_count: 8,
                order: 9,
                line_rows: 10,
                line_sum: 11,
            },
        ]
    );
    assert_eq!(
        operations[6].statement_id,
        StatementId::DeliveryLockQueue.wire_id()
    );
    assert_eq!(
        operations[6].parameters,
        vec![
            WireValue::Int32(17),
            WireValue::Int32(9),
            WireValue::Int32(3017),
        ]
    );
    assert_eq!(
        operations[1].statement_id,
        StatementId::DeliveryEarlierQueueCount.wire_id()
    );
    assert_eq!(
        operations[2].statement_id,
        StatementId::DeliveryExactQueueCount.wire_id()
    );
    assert_eq!(
        operations[3].statement_id,
        StatementId::DeliveryOrder.wire_id()
    );
}

#[test]
fn stage_two_retains_each_raw_line_for_recovery_evidence() {
    let claims = [DistrictClaim {
        district_id: 2,
        order_id: 3001,
    }];
    let (operations, indices) = stage_two_operations(17, &claims);
    let amounts = [
        1.25_f32.to_bits(),
        2.5_f32.to_bits(),
        3.75_f32.to_bits(),
        4.0_f32.to_bits(),
        5.5_f32.to_bits(),
    ];
    let sum_bits = exact_f64_sum_to_f32_bits(&amounts).unwrap();
    let response = BatchResponse::Complete {
        executed_operations: operations.len() as u16,
        results: vec![
            query(1, vec![vec![WireValue::Int32(0)]]),
            query(2, vec![vec![WireValue::Int32(1)]]),
            query(
                3,
                vec![vec![
                    WireValue::Int32(42),
                    WireValue::Int32(UNDELIVERED_CARRIER_ID),
                    WireValue::Int32(amounts.len() as i32),
                ]],
            ),
            query(
                4,
                amounts
                    .iter()
                    .enumerate()
                    .map(|(index, bits)| {
                        vec![
                            WireValue::Int32((index + 1) as i32),
                            WireValue::Float32(*bits),
                            WireValue::Int32(3001),
                        ]
                    })
                    .collect(),
            ),
            query(5, vec![vec![WireValue::Float32(sum_bits)]]),
        ],
    };
    let results = accept_batch(response, &operations).unwrap();
    let StageTwoOutcome::Locked(locked) =
        parse_stage_two(&results, &claims, &indices).unwrap()
    else {
        panic!("complete queue evidence must retain the locked order");
    };
    assert_eq!(locked.len(), 1);
    assert_eq!(locked[0].line_amount_bits, amounts);
    assert_eq!(locked[0].amount_bits, sum_bits);
}

#[test]
fn one_lost_claim_discards_other_locked_districts() {
    let claims = [
        DistrictClaim {
            district_id: 2,
            order_id: 3001,
        },
        DistrictClaim {
            district_id: 9,
            order_id: 3017,
        },
    ];
    let (operations, indices) = stage_two_operations(17, &claims);
    let amounts = [1.0_f32.to_bits(); MIN_ORDER_LINES as usize];
    let sum_bits = exact_f64_sum_to_f32_bits(&amounts).unwrap();
    let response = BatchResponse::Complete {
        executed_operations: operations.len() as u16,
        results: vec![
            query(1, vec![vec![WireValue::Int32(0)]]),
            query(2, vec![vec![WireValue::Int32(1)]]),
            query(
                3,
                vec![vec![
                    WireValue::Int32(42),
                    WireValue::Int32(UNDELIVERED_CARRIER_ID),
                    WireValue::Int32(MIN_ORDER_LINES as i32),
                ]],
            ),
            query(
                4,
                amounts
                    .iter()
                    .enumerate()
                    .map(|(offset, bits)| {
                        vec![
                            WireValue::Int32((offset + 1) as i32),
                            WireValue::Float32(*bits),
                            WireValue::Int32(3001),
                        ]
                    })
                    .collect(),
            ),
            query(5, vec![vec![WireValue::Float32(sum_bits)]]),
            query(7, vec![vec![WireValue::Int32(0)]]),
            query(8, vec![vec![WireValue::Int32(0)]]),
            query(9, Vec::new()),
            query(10, Vec::new()),
            query(11, Vec::new()),
        ],
    };
    let results = accept_batch(response, &operations).unwrap();

    assert_eq!(
        parse_stage_two(&results, &claims, &indices).unwrap(),
        StageTwoOutcome::ClaimLost(claims[1])
    );
}

#[test]
fn stage_two_rejects_non_oldest_or_mismatched_line_order() {
    let claims = [DistrictClaim {
        district_id: 2,
        order_id: 3001,
    }];
    let (operations, indices) = stage_two_operations(17, &claims);
    let amounts = [1.0_f32.to_bits(); MIN_ORDER_LINES as usize];

    let response = |earlier_count, exact_count, carrier_id, declared_lines, line_order_id| {
        BatchResponse::Complete {
            executed_operations: operations.len() as u16,
            results: vec![
                query(1, vec![vec![WireValue::Int32(earlier_count)]]),
                query(2, vec![vec![WireValue::Int32(exact_count)]]),
                query(
                    3,
                    vec![vec![
                        WireValue::Int32(42),
                        WireValue::Int32(carrier_id),
                        WireValue::Int32(declared_lines),
                    ]],
                ),
                query(
                    4,
                    amounts
                        .iter()
                        .enumerate()
                        .map(|(index, bits)| {
                            vec![
                                WireValue::Int32((index + 1) as i32),
                                WireValue::Float32(*bits),
                                WireValue::Int32(line_order_id),
                            ]
                        })
                        .collect(),
                ),
                query(
                    5,
                    vec![vec![WireValue::Float32(
                        exact_f64_sum_to_f32_bits(&amounts).unwrap(),
                    )]],
                ),
            ],
        }
    };

    let earlier = accept_batch(response(1, 0, 0, 5, 3001), &operations).unwrap();
    assert!(parse_stage_two(&earlier, &claims, &indices)
        .unwrap_err()
        .message()
        .contains("earlier queue rows"));

    let lost_exact = accept_batch(response(0, 0, 0, 5, 3001), &operations).unwrap();
    assert_eq!(
        parse_stage_two(&lost_exact, &claims, &indices).unwrap(),
        StageTwoOutcome::ClaimLost(claims[0])
    );

    let mut missing_exact_result = response(0, 1, 0, 5, 3001);
    let BatchResponse::Complete { results, .. } = &mut missing_exact_result else {
        unreachable!("test response is successful");
    };
    results.retain(|result| result.operation_index != 2);
    let missing_exact_result = accept_batch(missing_exact_result, &operations).unwrap();
    assert!(parse_stage_two(&missing_exact_result, &claims, &indices)
        .unwrap_err()
        .message()
        .contains("operation 2 has no query result"));

    let mut wrong_exact_type = response(0, 1, 0, 5, 3001);
    let BatchResponse::Complete { results, .. } = &mut wrong_exact_type else {
        unreachable!("test response is successful");
    };
    results
        .iter_mut()
        .find(|result| result.operation_index == 2)
        .unwrap()
        .rows[0][0] = WireValue::Char(b"1".to_vec());
    let wrong_exact_type = accept_batch(wrong_exact_type, &operations).unwrap();
    assert!(parse_stage_two(&wrong_exact_type, &claims, &indices)
        .unwrap_err()
        .message()
        .contains("expected INT32"));

    let duplicate_exact = accept_batch(response(0, 2, 0, 5, 3001), &operations).unwrap();
    assert!(parse_stage_two(&duplicate_exact, &claims, &indices)
        .unwrap_err()
        .message()
        .contains("exact queue rows"));

    let delivered = accept_batch(response(0, 1, 7, 5, 3001), &operations).unwrap();
    assert!(parse_stage_two(&delivered, &claims, &indices)
        .unwrap_err()
        .message()
        .contains("carrier id 7"));

    let wrong_declared_count = accept_batch(response(0, 1, 0, 6, 3001), &operations).unwrap();
    assert!(parse_stage_two(&wrong_declared_count, &claims, &indices)
        .unwrap_err()
        .message()
        .contains("declared 6 order lines but returned 5"));

    let wrong_line_order = accept_batch(response(0, 1, 0, 5, 3002), &operations).unwrap();
    assert!(parse_stage_two(&wrong_line_order, &claims, &indices)
        .unwrap_err()
        .message()
        .contains("belongs to order 3002"));
}

#[test]
fn stage_three_reads_customer_before_mutation_and_checks_after_commit() {
    let order = LockedOrder {
        claim: DistrictClaim {
            district_id: 2,
            order_id: 3001,
        },
        customer_id: 42,
        line_count: 5,
        amount_bits: 2.5_f32.to_bits(),
        line_amount_bits: vec![0.5_f32.to_bits(); 5],
    };
    let (operations, indices) = stage_three_operations(17, 7, "2026-08-11", &[order.clone()]);
    assert_eq!(operations.len(), 7);
    assert_eq!(indices[0].customer_before, 0);
    assert_eq!(indices[0].customer_after, 5);
    assert_eq!(
        operations
            .iter()
            .map(|operation| operation.statement_id)
            .collect::<Vec<_>>(),
        vec![
            StatementId::DeliveryCustomer.wire_id(),
            StatementId::DeliveryDeleteQueue.wire_id(),
            StatementId::DeliveryUpdateOrder.wire_id(),
            StatementId::DeliveryUpdateLines.wire_id(),
            StatementId::DeliveryUpdateCustomer.wire_id(),
            StatementId::DeliveryCustomerAfter.wire_id(),
            StatementId::Commit.wire_id(),
        ]
    );

    let response = BatchResponse::Complete {
        executed_operations: operations.len() as u16,
        results: vec![
            query(
                0,
                vec![vec![
                    WireValue::Float32(10.0_f32.to_bits()),
                    WireValue::Int32(3),
                    WireValue::Int32(4),
                ]],
            ),
            query(
                5,
                vec![vec![
                    WireValue::Float32(12.5_f32.to_bits()),
                    WireValue::Int32(3),
                    WireValue::Int32(5),
                ]],
            ),
        ],
    };
    let results = accept_batch(response, &operations).unwrap();
    let transitions = validate_stage_three(&results, &[order], &indices).unwrap();
    assert_eq!(transitions[0].before.balance_bits, 10.0_f32.to_bits());
    assert_eq!(transitions[0].after.balance_bits, 12.5_f32.to_bits());
    assert_eq!(transitions[0].before.delivery_count, 4);
    assert_eq!(transitions[0].after.delivery_count, 5);
}

#[test]
fn line_sum_expands_f32_to_f64_then_rounds_once() {
    let values = [
        16_777_216.0_f32.to_bits(),
        1.0_f32.to_bits(),
        1.0_f32.to_bits(),
    ];
    let bits = exact_f64_sum_to_f32_bits(&values).unwrap();
    assert_eq!(f32::from_bits(bits), 16_777_218.0_f32);

    let sequential_f32 = values
        .into_iter()
        .fold(0.0_f32, |sum, bits| sum + f32::from_bits(bits));
    assert_ne!(bits, sequential_f32.to_bits());
}

#[test]
fn customer_after_requires_zero_ulp_and_exact_count() {
    let before = 16_777_216.0_f32.to_bits();
    let amount = 1.0_f32.to_bits();
    let expected = (f32::from_bits(before) + f32::from_bits(amount)).to_bits();
    validate_customer_after(before, 4, 9, amount, expected, 4, 10, "customer").unwrap();

    assert!(validate_customer_after(
        before,
        4,
        9,
        amount,
        expected.wrapping_add(1),
        4,
        10,
        "customer"
    )
    .unwrap_err()
    .message()
    .contains("expected bits"));
    assert!(validate_customer_after(before, 4, 9, amount, expected, 4, 9, "customer").is_err());
    assert!(
        validate_customer_after(before, 4, 9, amount, expected, 5, 10, "customer").is_err()
    );
}

#[test]
fn first_batch_claims_the_oldest_order_of_each_district() {
    let operations = stage_one_operations(7);
    assert_eq!(operations.len(), 11);
    let response = BatchResponse::Complete {
        executed_operations: operations.len() as u16,
        results: (1..=10_usize)
            .map(|index| query(index, vec![vec![WireValue::Int32(index as i32 % 3)]]))
            .collect(),
    };
    let claims = parse_stage_one(&accept_batch(response, &operations).unwrap()).unwrap();
    assert_eq!(
        claims.iter().map(|claim| claim.district_id).collect::<Vec<_>>(),
        vec![1, 2, 4, 5, 7, 8, 10]
    );
    let negative = BatchResponse::Complete {
        executed_operations: operations.len() as u16,
        results: (1..=10_usize)
            .map(|index| query(index, vec![vec![WireValue::Int32(-1)]]))
            .collect(),
    };
    assert_eq!(
        parse_stage_one(&accept_batch(negative, &operations).unwrap())
            .unwrap_err()
            .message(),
        "Delivery oldest-order district 1 returned invalid order id -1"
    );
    assert_eq!(
        lost_claim_diagnostic(DistrictClaim { district_id: 9, order_id: 3017 }),
        "Delivery warehouse district 9 order 3017 disappeared before queue confirmation"
    );
}

#[test]
fn committed_delivery_reports_every_order() {
    let order = LockedOrder {
        claim: DistrictClaim { district_id: 2, order_id: 3001 },
        customer_id: 42,
        line_count: 5,
        amount_bits: 2.5_f32.to_bits(),
        line_amount_bits: vec![0.5_f32.to_bits(); 5],
    };
    let before = CustomerReading {
        balance_bits: 10.0_f32.to_bits(),
        payment_count: 3,
        delivery_count: 4,
    };
    let after = CustomerReading {
        balance_bits: 12.5_f32.to_bits(),
        payment_count: 3,
        delivery_count: 5,
    };
    let outcome =
        delivery_outcome(17, "2026-08-11", &[order], &[CustomerTransition { before, after }]);
    let RankedTransactionOutcome::Committed(RankedCommit::Delivery(list)) = outcome else {
        panic!("a committed delivery");
    };
    assert_eq!(list.len(), 1);
    assert_eq!(list[0].warehouse_id, 17);
    assert_eq!(list[0].delivery_timestamp, b"2026-08-11");
    assert_eq!(list[0].line_amount_bits.len(), 5);
    assert_eq!(list[0].customer_version_after.delivery_count, 5);
}

#[test]
fn line_sums_reject_what_is_not_finite() {
    assert_eq!(
        exact_f64_sum_to_f32_bits(&[0, f32::INFINITY.to_bits()]).unwrap_err().message(),
        "Delivery line amount 2 must be finite, got bits 0x7f800000"
    );
    assert_eq!(
        exact_f64_sum_to_f32_bits(&[f32::MAX.to_bits(), f32::MAX.to_bits()])
            .unwrap_err()
            .message(),
        "Delivery line amount sum cannot be represented as finite FLOAT32"
    );
}
