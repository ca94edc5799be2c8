use std::mem::size_of;

use tpcc_ranking::accumulator::{sum_f32_as_f64_once, FloatError, NonNegativeF32Accumulator};
use tpcc_ranking::profile::TransactionKind;
use tpcc_ranking::ranking::bounded_stats::{
    BoundedPhysicalStats, LEDGER_CLASS_COUNT, PHYSICAL_PARTITION_COUNT,
};
use tpcc_ranking::ranking::bounded_totals::{BoundedStatsError, ClassTotals, PartitionTotals};
use tpcc_ranking::ranking::ledger::LedgerClass;
use tpcc_ranking::ranking::run_ledger::RunLedger;
use tpcc_ranking::ranking::runner::{
    CustomerVersion, DeliveredOrderEvidence, NewOrderEvidence, PaymentEvidence, RankedCommit,
    RankedTransactionOutcome,
};
use tpcc_ranking::workload::{
    CustomerSelector, DeliveryInput, NewOrderInput, OrderLineInput, OrderStatusInput, PaymentInput,
    RoutedTransaction, StageId, StockLevelInput, TransactionParameters, TransactionTicket,
    INVALID_ITEM_ID, MIN_ORDER_LINES,
};

fn ticket(
    kind: TransactionKind,
    expected_rollback: Option<bool>,
    stage: StageId,
    client_id: u16,
    seed: u64,
) -> TransactionTicket {
    let home_warehouse = 1 + (seed % 50) as u16;
    let home_district = 1 + (seed % 10) as u8;
    let customer_warehouse = 1 + ((seed + 7) % 50) as u16;
    let parameters = match kind {
        TransactionKind::NewOrder => {
            let rollback = expected_rollback.unwrap();
            let count = 5 + (seed % 11) as u8;
            let lines: Vec<OrderLineInput> = (1..=count)
                .map(|number| OrderLineInput {
                    number,
                    item_id: if rollback && number == count {
                        INVALID_ITEM_ID
                    } else {
                        100 * u32::from(number) + seed as u32
                    },
                    supply_warehouse: if number == 2 {
                        1 + home_warehouse % 50
                    } else {
                        home_warehouse
                    },
                    quantity: 1 + number % 10,
                })
                .collect();
            TransactionParameters::NewOrder(NewOrderInput {
                customer_id: 1 + (seed % 3_000) as u16,
                lines,
                expected_rollback: rollback,
                all_local: false,
            })
        }
        TransactionKind::Payment => TransactionParameters::Payment(PaymentInput {
            customer_warehouse,
            customer_district: 3,
            customer: CustomerSelector::Id(42),
            amount_cents: 12_345,
            amount_bits: 123.45_f32.to_bits(),
        }),
        TransactionKind::OrderStatus => TransactionParameters::OrderStatus(OrderStatusInput {
            customer: CustomerSelector::Id(7),
        }),
        TransactionKind::Delivery => {
            TransactionParameters::Delivery(DeliveryInput { carrier_id: 4 })
        }
        TransactionKind::StockLevel => {
            TransactionParameters::StockLevel(StockLevelInput { threshold: 15 })
        }
    };
    TransactionTicket {
        route: RoutedTransaction {
            kind,
            stage,
            client_id,
            txn_no: seed,
            home_warehouse,
            home_district,
            payment_customer_warehouse: customer_warehouse,
        },
        parameters,
        parameter_fingerprint: 0x9e37_79b9_7f4a_7c15_u64.wrapping_mul(seed + 1),
    }
}

fn new_order(ticket: &TransactionTicket) -> RankedTransactionOutcome {
    let TransactionParameters::NewOrder(input) = ticket.parameters() else {
        panic!("NewOrder ticket");
    };
    let route = ticket.route();
    let line_amount_bits = input
        .lines
        .iter()
        .enumerate()
        .map(|(index, _)| (index as f32 + 1.0).to_bits())
        .collect();
    RankedTransactionOutcome::Committed(RankedCommit::NewOrder(NewOrderEvidence {
        warehouse_id: route.home_warehouse,
        district_id: route.home_district,
        order_id: 3_001,
        line_count: input.lines.len() as u8,
        remote_line_count: input
            .lines
            .iter()
            .filter(|line| line.supply_warehouse != route.home_warehouse)
            .count() as u8,
        stock_ytd_delta: input
            .lines
            .iter()
            .map(|line| u32::from(line.quantity))
            .sum(),
        line_amount_bits,
        entry_timestamp: b"2026-07-29 10:20:30".to_vec(),
        recovery_lines: Vec::new(),
    }))
}

fn payment(ticket: &TransactionTicket) -> RankedTransactionOutcome {
    let TransactionParameters::Payment(input) = ticket.parameters() else {
        panic!("Payment ticket");
    };
    let customer_id = match &input.customer {
        CustomerSelector::Id(id) => i32::from(*id),
        CustomerSelector::LastName(_) => 42,
    };
    let amount = f32::from_bits(input.amount_bits);
    let warehouse_before = 1_000.0_f32;
    let district_before = 2_000.0_f32;
    let customer_balance_before = -10.0_f32;
    let customer_ytd_before = 10.0_f32;
    RankedTransactionOutcome::Committed(RankedCommit::Payment(PaymentEvidence {
        warehouse_id: ticket.route().home_warehouse,
        district_id: ticket.route().home_district,
        customer_warehouse_id: input.customer_warehouse,
        customer_district_id: input.customer_district,
        customer_id,
        amount_bits: input.amount_bits,
        warehouse_before_bits: warehouse_before.to_bits(),
        warehouse_after_bits: (warehouse_before + amount).to_bits(),
        district_before_bits: district_before.to_bits(),
        district_after_bits: (district_before + amount).to_bits(),
        customer_balance_before_bits: customer_balance_before.to_bits(),
        customer_balance_after_bits: (customer_balance_before - amount).to_bits(),
        customer_ytd_before_bits: customer_ytd_before.to_bits(),
        customer_ytd_after_bits: (customer_ytd_before + amount).to_bits(),
        customer_version_before: CustomerVersion {
            payment_count: 1,
            delivery_count: 0,
        },
        customer_version_after: CustomerVersion {
            payment_count: 2,
            delivery_count: 0,
        },
        history_timestamp: b"2026-07-29 10:20:30".to_vec(),
        history_data: b"W D".to_vec(),
        customer_is_bad_credit: false,
        customer_data_before: Vec::new(),
        customer_data_after: Vec::new(),
    }))
}

fn delivery(ticket: &TransactionTicket) -> RankedTransactionOutcome {
    let amount = 99.25_f32;
    let customer_balance_before = 10.0_f32;
    RankedTransactionOutcome::Committed(RankedCommit::Delivery(vec![DeliveredOrderEvidence {
        warehouse_id: ticket.route().home_warehouse,
        district_id: 1,
        order_id: 2_101,
        customer_id: 7,
        line_count: 6,
        amount_bits: amount.to_bits(),
        customer_balance_before_bits: customer_balance_before.to_bits(),
        customer_balance_after_bits: (customer_balance_before + amount).to_bits(),
        customer_version_before: CustomerVersion {
            payment_count: 1,
            delivery_count: 0,
        },
        customer_version_after: CustomerVersion {
            payment_count: 1,
            delivery_count: 1,
        },
        delivery_timestamp: b"2026-07-29 10:20:30".to_vec(),
        line_amount_bits: vec![
            10.0_f32.to_bits(),
            20.0_f32.to_bits(),
            30.0_f32.to_bits(),
            19.0_f32.to_bits(),
            10.0_f32.to_bits(),
            10.25_f32.to_bits(),
        ],
    }]))
}

fn exact_sum(amounts: &[u32]) -> NonNegativeF32Accumulator {
    let mut sum = NonNegativeF32Accumulator::new();
    sum.extend_bits(amounts).unwrap();
    sum
}

#[test]
fn matches_run_ledger_on_synthetic_nine_class_load() {
    let warmup_new = ticket(
        TransactionKind::NewOrder,
        Some(false),
        StageId::warmup(),
        0,
        10,
    );
    let ranked_payment = ticket(
        TransactionKind::Payment,
        None,
        StageId::measurement(0),
        1,
        11,
    );
    let ranked_delivery = ticket(
        TransactionKind::Delivery,
        None,
        StageId::measurement(1),
        2,
        12,
    );
    let ranked_status = ticket(
        TransactionKind::OrderStatus,
        None,
        StageId::measurement(2),
        3,
        13,
    );
    let warmup_rollback = ticket(
        TransactionKind::NewOrder,
        Some(true),
        StageId::warmup(),
        4,
        14,
    );
    let tail_stock = ticket(
        TransactionKind::StockLevel,
        None,
        StageId::measurement(0),
        5,
        15,
    );
    let tail_payment = ticket(
        TransactionKind::Payment,
        None,
        StageId::measurement(1),
        6,
        16,
    );
    let tail_new = ticket(
        TransactionKind::NewOrder,
        Some(false),
        StageId::measurement(2),
        7,
        17,
    );
    let nonranked_delivery = ticket(TransactionKind::Delivery, None, StageId::custom(4), 8, 18);

    let cases = vec![
        (
            LedgerClass::Warmup,
            warmup_new.clone(),
            new_order(&warmup_new),
        ),
        (
            LedgerClass::RankedWindow(0),
            ranked_payment.clone(),
            payment(&ranked_payment),
        ),
        (
            LedgerClass::RankedWindow(1),
            ranked_delivery.clone(),
            delivery(&ranked_delivery),
        ),
        (
            LedgerClass::RankedWindow(2),
            ranked_status,
            RankedTransactionOutcome::Committed(RankedCommit::OrderStatus),
        ),
        (
            LedgerClass::WarmupTail,
            warmup_rollback,
            RankedTransactionOutcome::ExpectedRollback,
        ),
        (
            LedgerClass::RankedTail(0),
            tail_stock,
            RankedTransactionOutcome::Committed(RankedCommit::StockLevel {
                low_stock_count: 7,
            }),
        ),
        (
            LedgerClass::RankedTail(1),
            tail_payment.clone(),
            payment(&tail_payment),
        ),
        (
            LedgerClass::RankedTail(2),
            tail_new.clone(),
            new_order(&tail_new),
        ),
        (
            LedgerClass::NonRanked,
            nonranked_delivery.clone(),
            delivery(&nonranked_delivery),
        ),
    ];

    let mut old = RunLedger::default();
    let mut bounded = BoundedPhysicalStats::default();
    for (class, ticket, outcome) in &cases {
        old.record_as(*class, ticket, outcome).unwrap();
        bounded.offer_terminal(*class, ticket, outcome).unwrap();
    }
    bounded.validate().unwrap();

    let total = bounded.totals().unwrap();
    assert_eq!(total.new_order_commits, old.new_orders() as u64);
    assert_eq!(total.new_orders, old.new_orders() as u64);
    assert_eq!(total.new_order_lines, old.new_order_lines() as u64);
    assert_eq!(
        total.remote_new_order_lines,
        old.remote_new_order_lines() as u64
    );
    assert_eq!(total.stock_quantity_delta, old.stock_ytd_delta() as u64);
    assert_eq!(total.payment_commits, old.payments() as u64);
    assert_eq!(total.delivery_commits, old.delivery_commits() as u64);
    assert_eq!(total.delivered_orders, old.delivered_orders() as u64);
    assert_eq!(
        total.delivered_order_lines,
        old.delivered_order_lines() as u64
    );
    assert_eq!(
        total.order_status_commits,
        old.order_status_commits() as u64
    );
    assert_eq!(total.stock_level_commits, old.stock_level_commits() as u64);
    assert_eq!(total.expected_rollbacks, old.expected_rollbacks() as u64);

    for ((warehouse_id, district_id), actual) in bounded.partition_totals_iter() {
        let expected = old.partition_delta(warehouse_id, district_id).unwrap();
        assert_eq!(actual.new_orders, expected.new_orders as u64);
        assert_eq!(actual.new_order_lines, expected.new_order_lines as u64);
        assert_eq!(actual.delivered_orders, expected.delivered_orders as u64);
        assert_eq!(
            actual.delivered_order_lines,
            expected.delivered_order_lines as u64
        );
    }

    assert_eq!(
        bounded.new_order_line_amounts().unwrap(),
        exact_sum(old.new_order_line_amount_bits())
    );
    assert_eq!(
        bounded.payment_history_amounts().unwrap(),
        exact_sum(old.payment_amount_bits())
    );
    assert_eq!(
        bounded.delivery_customer_amounts().unwrap(),
        exact_sum(old.delivery_customer_amount_bits())
    );

    for class in [
        LedgerClass::Warmup,
        LedgerClass::RankedWindow(0),
        LedgerClass::RankedWindow(1),
        LedgerClass::RankedWindow(2),
        LedgerClass::WarmupTail,
        LedgerClass::RankedTail(0),
        LedgerClass::RankedTail(1),
        LedgerClass::RankedTail(2),
        LedgerClass::NonRanked,
    ] {
        let totals = bounded.class_totals(class).unwrap();
        let terminal_count = totals.new_order_commits
            + totals.payment_commits
            + totals.order_status_commits
            + totals.delivery_commits
            + totals.stock_level_commits
            + totals.expected_rollbacks;
        assert_eq!(terminal_count, 1);
    }
}

#[test]
fn merge_is_canonical_across_worker_permutations() {
    let new_ticket = ticket(
        TransactionKind::NewOrder,
        Some(false),
        StageId::measurement(0),
        0,
        21,
    );
    let payment_ticket = ticket(
        TransactionKind::Payment,
        None,
        StageId::measurement(1),
        1,
        22,
    );
    let delivery_ticket = ticket(
        TransactionKind::Delivery,
        None,
        StageId::measurement(2),
        2,
        23,
    );

    let mut workers = [
        BoundedPhysicalStats::default(),
        BoundedPhysicalStats::default(),
        BoundedPhysicalStats::default(),
    ];
    workers[0]
        .offer_terminal(
            LedgerClass::RankedWindow(0),
            &new_ticket,
            &new_order(&new_ticket),
        )
        .unwrap();
    workers[1]
        .offer_terminal(
            LedgerClass::RankedWindow(1),
            &payment_ticket,
            &payment(&payment_ticket),
        )
        .unwrap();
    workers[2]
        .offer_terminal(
            LedgerClass::RankedWindow(2),
            &delivery_ticket,
            &delivery(&delivery_ticket),
        )
        .unwrap();

    let permutations = [
        [0, 1, 2],
        [0, 2, 1],
        [1, 0, 2],
        [1, 2, 0],
        [2, 0, 1],
        [2, 1, 0],
    ];
    let mut expected = None;
    for permutation in permutations {
        let merged =
            BoundedPhysicalStats::merge_all(&permutation.map(|index| workers[index]).to_vec())
                .unwrap();
        merged.validate().unwrap();
        if let Some(expected) = &expected {
            assert_eq!(&merged, expected);
        } else {
            expected = Some(merged);
        }
    }
}

#[test]
fn validation_and_overflow_failures_are_atomic() {
    let payment_ticket = ticket(TransactionKind::Payment, None, StageId::warmup(), 0, 31);
    let mut invalid = payment(&payment_ticket);
    let RankedTransactionOutcome::Committed(RankedCommit::Payment(evidence)) = &mut invalid
    else {
        unreachable!();
    };
    evidence.warehouse_after_bits ^= 1;

    let mut stats = BoundedPhysicalStats::default();
    let before = stats.clone();
    assert!(stats
        .offer_terminal(
            LedgerClass::RankedWindow(0),
            &payment_ticket,
            &payment(&payment_ticket),
        )
        .is_err());
    assert_eq!(stats, before);
    assert!(stats
        .offer_terminal(LedgerClass::Warmup, &payment_ticket, &invalid,)
        .is_err());
    assert_eq!(stats, before);

    stats.classes[0].payment_commits = u64::MAX;
    let before = stats.clone();
    assert!(matches!(
        stats.offer_terminal(
            LedgerClass::Warmup,
            &payment_ticket,
            &payment(&payment_ticket),
        ),
        Err(BoundedStatsError::Overflow("payment_commits"))
    ));
    assert_eq!(stats, before);

    let mut saturated = BoundedPhysicalStats::default();
    saturated.classes[0].payment_commits = 1_u64 << 53;
    saturated.payment_history_amounts[0]
        .add_repeated_bits(1.0_f32.to_bits(), 1_u64 << 53)
        .unwrap();
    saturated.validate().unwrap();
    let before = saturated.clone();
    assert!(matches!(
        saturated.offer_terminal(
            LedgerClass::Warmup,
            &payment_ticket,
            &payment(&payment_ticket),
        ),
        Err(BoundedStatsError::Float {
            field: "Payment/history amount",
            ..
        })
    ));
    assert_eq!(saturated, before);

    let mut one = BoundedPhysicalStats::default();
    one.offer_terminal(
        LedgerClass::Warmup,
        &payment_ticket,
        &payment(&payment_ticket),
    )
    .unwrap();
    let before = saturated.clone();
    assert!(saturated.merge(&one).is_err());
    assert_eq!(saturated, before);

    let delivery_ticket = ticket(TransactionKind::Delivery, None, StageId::warmup(), 1, 32);
    let mut empty_delivery = BoundedPhysicalStats::default();
    empty_delivery
        .offer_terminal(
            LedgerClass::Warmup,
            &delivery_ticket,
            &RankedTransactionOutcome::Committed(RankedCommit::Delivery(Vec::new())),
        )
        .unwrap();
    empty_delivery.validate().unwrap();
    let totals = empty_delivery.class_totals(LedgerClass::Warmup).unwrap();
    assert_eq!(totals.delivery_commits, 1);
    assert_eq!(totals.delivered_orders, 0);

    // A worker-local shard may observe deliveries of orders created by a
    // different worker. Queue availability is therefore a final global
    // invariant, not a structural per-shard validation rule.
    PartitionTotals {
        delivered_orders: 901,
        delivered_order_lines: 901 * u64::from(MIN_ORDER_LINES),
        ..PartitionTotals::none()
    }
    .validate()
    .unwrap();
}

#[test]
fn delivery_validates_exact_line_sum_without_a_false_amount_ceiling() {
    let delivery_ticket = ticket(TransactionKind::Delivery, None, StageId::warmup(), 1, 37);
    let mut high_amount = delivery(&delivery_ticket);
    let RankedTransactionOutcome::Committed(RankedCommit::Delivery(orders)) = &mut high_amount
    else {
        unreachable!();
    };
    let order = &mut orders[0];
    order.line_amount_bits = vec![9_999.99_f32.to_bits(); usize::from(order.line_count)];
    order.amount_bits = sum_f32_as_f64_once(&order.line_amount_bits).unwrap();
    assert!(f32::from_bits(order.amount_bits) > 15_000.0);
    order.customer_balance_after_bits = (f32::from_bits(order.customer_balance_before_bits)
        + f32::from_bits(order.amount_bits))
    .to_bits();

    let mut stats = BoundedPhysicalStats::default();
    stats
        .offer_terminal(LedgerClass::Warmup, &delivery_ticket, &high_amount)
        .unwrap();

    let before = stats.clone();
    let mut missing_lines = high_amount.clone();
    let RankedTransactionOutcome::Committed(RankedCommit::Delivery(orders)) =
        &mut missing_lines
    else {
        unreachable!();
    };
    orders[0].line_amount_bits.clear();
    assert!(matches!(
        stats.offer_terminal(LedgerClass::Warmup, &delivery_ticket, &missing_lines),
        Err(BoundedStatsError::InvalidEvidence(
            "Delivery amount-bit count differs from line_count"
        ))
    ));
    assert_eq!(stats, before);

    let mut wrong_sum = high_amount;
    let RankedTransactionOutcome::Committed(RankedCommit::Delivery(orders)) = &mut wrong_sum
    else {
        unreachable!();
    };
    orders[0].line_amount_bits[0] = 1.0_f32.to_bits();
    assert!(matches!(
        stats.offer_terminal(LedgerClass::Warmup, &delivery_ticket, &wrong_sum),
        Err(BoundedStatsError::InvalidEvidence(
            "Delivery customer amount differs from exact order-line sum"
        ))
    ));
    assert_eq!(stats, before);
}

#[test]
fn million_hot_terminals_keep_the_storage_shape_constant() {
    let payment_ticket = ticket(
        TransactionKind::Payment,
        None,
        StageId::measurement(0),
        0,
        41,
    );
    let outcome = payment(&payment_ticket);
    let mut stats = BoundedPhysicalStats::default();
    stats
        .offer_terminal(LedgerClass::RankedWindow(0), &payment_ticket, &outcome)
        .unwrap();

    let fixed_bytes = size_of::<BoundedPhysicalStats>();
    let expected_fixed_bytes = size_of::<[ClassTotals; LEDGER_CLASS_COUNT]>()
        + size_of::<[PartitionTotals; PHYSICAL_PARTITION_COUNT]>()
        + 3 * size_of::<[NonNegativeF32Accumulator; LEDGER_CLASS_COUNT]>();
    assert_eq!(fixed_bytes, expected_fixed_bytes);
    assert!(fixed_bytes < 20 * 1024);

    let initial_words = [
        stats
            .payment_history_amounts_for(LedgerClass::RankedWindow(0))
            .unwrap()
            .to_words()
            .1
            .len(),
        stats
            .new_order_line_amounts_for(LedgerClass::RankedWindow(0))
            .unwrap()
            .to_words()
            .1
            .len(),
        stats
            .delivery_customer_amounts_for(LedgerClass::RankedWindow(0))
            .unwrap()
            .to_words()
            .1
            .len(),
    ];
    // Reuse one already-validated shape only to stress bounded storage;
    // production callers must still honor offer_terminal's exactly-once
    // terminal identity contract.
    for _ in 1..1_000_000 {
        stats
            .offer_terminal(LedgerClass::RankedWindow(0), &payment_ticket, &outcome)
            .unwrap();
    }
    stats.validate().unwrap();

    assert_eq!(
        stats
            .class_totals(LedgerClass::RankedWindow(0))
            .unwrap()
            .payment_commits,
        1_000_000
    );
    assert_eq!(
        stats
            .payment_history_amounts_for(LedgerClass::RankedWindow(0),)
            .unwrap()
            .term_count(),
        1_000_000
    );
    assert_eq!(
        [
            stats
                .payment_history_amounts_for(LedgerClass::RankedWindow(0),)
                .unwrap()
                .to_words()
                .1
                .len(),
            stats
                .new_order_line_amounts_for(LedgerClass::RankedWindow(0),)
                .unwrap()
                .to_words()
                .1
                .len(),
            stats
                .delivery_customer_amounts_for(LedgerClass::RankedWindow(0),)
                .unwrap()
                .to_words()
                .1
                .len(),
        ],
        initial_words
    );
}

#[test]
fn sums_round_trip_through_their_words() {
    let mut sum = NonNegativeF32Accumulator::new();
    sum.extend_bits(&[1.5_f32.to_bits(), f32::MAX.to_bits(), 1_u32]).unwrap();
    let (terms, words) = sum.to_words();
    assert_eq!(terms, 3);
    assert_eq!(NonNegativeF32Accumulator::from_words(terms, &words), Ok(sum));
    let mut longer = words.clone();
    longer.push(0);
    assert_eq!(
        NonNegativeF32Accumulator::from_words(terms, &longer),
        Err(FloatError::InvalidWords)
    );
    assert_eq!(
        NonNegativeF32Accumulator::from_words(0, &[1]),
        Err(FloatError::InvalidWords)
    );
    assert_eq!(
        NonNegativeF32Accumulator::from_words((1_u64 << 53) + 1, &[]),
        Err(FloatError::TermLimit)
    );
}

#[test]
fn sums_join_in_any_order() {
    let amounts: Vec<u32> = (1..200_u32).map(|n| (n as f32 * 0.37).to_bits()).collect();
    let mut forward = NonNegativeF32Accumulator::new();
    forward.extend_bits(&amounts).unwrap();
    let mut backward = NonNegativeF32Accumulator::new();
    for bits in amounts.iter().rev() {
        backward.add_bits(*bits).unwrap();
    }
    assert_eq!(forward, backward);
    let mut left = NonNegativeF32Accumulator::new();
    left.extend_bits(&amounts[..70]).unwrap();
    let mut right = NonNegativeF32Accumulator::new();
    right.extend_bits(&amounts[70..]).unwrap();
    left.merge(&right).unwrap();
    assert_eq!(left, forward);
}

#[test]
fn refused_amounts_are_named() {
    let mut sum = NonNegativeF32Accumulator::new();
    assert_eq!(
        sum.add_bits(f32::NAN.to_bits()),
        Err(FloatError::NonFinite { bits: f32::NAN.to_bits() })
    );
    assert_eq!(
        sum.add_bits((-1.0_f32).to_bits()),
        Err(FloatError::Negative { bits: (-1.0_f32).to_bits() })
    );
    assert_eq!(sum, NonNegativeF32Accumulator::new());
    assert_eq!(
        sum_f32_as_f64_once(&[f32::MAX.to_bits(), f32::MAX.to_bits()]),
        Err(FloatError::Overflow)
    );
    assert_eq!(
        BoundedStatsError::InvalidPartitionKey { warehouse_id: 51, district_id: -1 }.message(),
        "partition key is outside the final 50x10 domain: (51, -1)"
    );
}

#[test]
fn merged_accounts_match_merged_ledgers() {
    let order = ticket(
        TransactionKind::NewOrder,
        Some(false),
        StageId::measurement(0),
        0,
        21,
    );
    let paid = ticket(
        TransactionKind::Payment,
        None,
        StageId::measurement(0),
        1,
        22,
    );
    let mut first_ledger = RunLedger::default();
    let mut first_stats = BoundedPhysicalStats::default();
    first_ledger.record(&order, &new_order(&order)).unwrap();
    first_stats
        .offer_terminal(LedgerClass::RankedWindow(0), &order, &new_order(&order))
        .unwrap();
    let mut second_ledger = RunLedger::default();
    let mut second_stats = BoundedPhysicalStats::default();
    second_ledger.record(&paid, &payment(&paid)).unwrap();
    second_stats
        .offer_terminal(LedgerClass::RankedWindow(0), &paid, &payment(&paid))
        .unwrap();
    first_ledger.merge(&second_ledger).unwrap();
    first_stats.merge(&second_stats).unwrap();
    let totals = first_stats.totals().unwrap();
    assert_eq!(totals.new_orders, first_ledger.new_orders() as u64);
    assert_eq!(totals.payment_commits, first_ledger.payments() as u64);
    assert_eq!(totals.new_orders + totals.payment_commits, 2);
    assert_eq!(
        first_stats.payment_history_amounts().unwrap(),
        exact_sum(first_ledger.payment_amount_bits())
    );
    assert_eq!(
        first_stats.new_order_line_amounts().unwrap(),
        exact_sum(first_ledger.new_order_line_amount_bits())
    );
}
