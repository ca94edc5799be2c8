use tpcc_ranking::profile::TransactionKind;
use tpcc_ranking::ranking::ledger::{
    checked_add, CommittedLedger, LedgerError, LedgerEvent, PartitionDelta,
};
use tpcc_ranking::ranking::run_ledger::RunLedger;
use tpcc_ranking::ranking::runner::{
    CustomerVersion, DeliveredOrderEvidence, NewOrderEvidence, PaymentEvidence, RankedCommit,
    RankedTransactionOutcome,
};
use tpcc_ranking::workload::{
    CustomerSelector, DeliveryInput, NewOrderInput, OrderLineInput, OrderStatusInput, PaymentInput,
    RoutedTransaction, StageId, StockLevelInput, TransactionParameters, TransactionTicket,
    INVALID_ITEM_ID,
};

fn ticket(
    kind: TransactionKind,
    expected_rollback: Option<bool>,
    stage: StageId,
    client_id: u16,
    seed: u64,
) -> TransactionTicket {
    let home_warehouse = 1 + (seed % 50) as u16;
    let home_district = 1 + (seed % 10) as u8;
    let customer_warehouse = 1 + ((seed + 7) % 50) as u16;
    let parameters = match kind {
        TransactionKind::NewOrder => {
            let rollback = expected_rollback.unwrap();
            let count = 5 + (seed % 11) as u8;
            let lines: Vec<OrderLineInput> = (1..=count)
                .map(|number| OrderLineInput {
                    number,
                    item_id: if rollback && number == count {
                        INVALID_ITEM_ID
                    } else {
                        100 * u32::from(number) + seed as u32
                    },
                    supply_warehouse: if number == 2 {
                        1 + home_warehouse % 50
                    } else {
                        home_warehouse
                    },
                    quantity: 1 + number % 10,
                })
                .collect();
            TransactionParameters::NewOrder(NewOrderInput {
                customer_id: 1 + (seed % 3_000) as u16,
                lines,
                expected_rollback: rollback,
                all_local: false,
            })
        }
        TransactionKind::Payment => TransactionParameters::Payment(PaymentInput {
            customer_warehouse,
            customer_district: 3,
            customer: CustomerSelector::Id(42),
            amount_cents: 12_345,
            amount_bits: 123.45_f32.to_bits(),
        }),
        TransactionKind::OrderStatus => TransactionParameters::OrderStatus(OrderStatusInput {
            customer: CustomerSelector::Id(7),
        }),
        TransactionKind::Delivery => {
            TransactionParameters::Delivery(DeliveryInput { carrier_id: 4 })
        }
        TransactionKind::StockLevel => {
            TransactionParameters::StockLevel(StockLevelInput { threshold: 15 })
        }
    };
    TransactionTicket {
        route: RoutedTransaction {
            kind,
            stage,
            client_id,
            txn_no: seed,
            home_warehouse,
            home_district,
            payment_customer_warehouse: customer_warehouse,
        },
        parameters,
        parameter_fingerprint: 0x9e37_79b9_7f4a_7c15_u64.wrapping_mul(seed + 1),
    }
}

fn new_order(ticket: &TransactionTicket) -> RankedTransactionOutcome {
    let TransactionParameters::NewOrder(input) = ticket.parameters() else {
        panic!("NewOrder ticket");
    };
    let route = ticket.route();
    let amount_bits: Vec<_> = input
        .lines
        .iter()
        .enumerate()
        .map(|(index, _)| (index as f32 + 1.0).to_bits())
        .collect();
    RankedTransactionOutcome::Committed(RankedCommit::NewOrder(NewOrderEvidence {
        warehouse_id: route.home_warehouse,
        district_id: route.home_district,
        order_id: 3_001,
        line_count: input.lines.len() as u8,
        remote_line_count: input
            .lines
            .iter()
            .filter(|line| line.supply_warehouse != route.home_warehouse)
            .count() as u8,
        stock_ytd_delta: input
            .lines
            .iter()
            .map(|line| u32::from(line.quantity))
            .sum(),
        line_amount_bits: amount_bits,
        entry_timestamp: b"2026-07-29 10:20:30".to_vec(),
        recovery_lines: Vec::new(),
    }))
}

fn payment(ticket: &TransactionTicket) -> RankedTransactionOutcome {
    let TransactionParameters::Payment(input) = ticket.parameters() else {
        panic!("Payment ticket");
    };
    let customer_id = match &input.customer {
        CustomerSelector::Id(id) => i32::from(*id),
        CustomerSelector::LastName(_) => 42,
    };
    let amount = f32::from_bits(input.amount_bits);
    let warehouse_before = 1_000.0_f32;
    let district_before = 2_000.0_f32;
    let customer_balance_before = -10.0_f32;
    let customer_ytd_before = 10.0_f32;
    RankedTransactionOutcome::Committed(RankedCommit::Payment(PaymentEvidence {
        warehouse_id: ticket.route().home_warehouse,
        district_id: ticket.route().home_district,
        customer_warehouse_id: input.customer_warehouse,
        customer_district_id: input.customer_district,
        customer_id,
        amount_bits: input.amount_bits,
        warehouse_before_bits: warehouse_before.to_bits(),
        warehouse_after_bits: (warehouse_before + amount).to_bits(),
        district_before_bits: district_before.to_bits(),
        district_after_bits: (district_before + amount).to_bits(),
        customer_balance_before_bits: customer_balance_before.to_bits(),
        customer_balance_after_bits: (customer_balance_before - amount).to_bits(),
        customer_ytd_before_bits: customer_ytd_before.to_bits(),
        customer_ytd_after_bits: (customer_ytd_before + amount).to_bits(),
        customer_version_before: CustomerVersion {
            payment_count: 1,
            delivery_count: 0,
        },
        customer_version_after: CustomerVersion {
            payment_count: 2,
            delivery_count: 0,
        },
        history_timestamp: b"2026-07-29 10:20:30".to_vec(),
        history_data: b"W D".to_vec(),
        customer_is_bad_credit: false,
        customer_data_before: Vec::new(),
        customer_data_after: Vec::new(),
    }))
}

fn delivery(ticket: &TransactionTicket) -> RankedTransactionOutcome {
    let amount = 99.25_f32;
    let customer_balance_before = 10.0_f32;
    RankedTransactionOutcome::Committed(RankedCommit::Delivery(vec![DeliveredOrderEvidence {
        warehouse_id: ticket.route().home_warehouse,
        district_id: 1,
        order_id: 2_101,
        customer_id: 7,
        line_count: 6,
        amount_bits: amount.to_bits(),
        customer_balance_before_bits: customer_balance_before.to_bits(),
        customer_balance_after_bits: (customer_balance_before + amount).to_bits(),
        customer_version_before: CustomerVersion {
            payment_count: 1,
            delivery_count: 0,
        },
        customer_version_after: CustomerVersion {
            payment_count: 1,
            delivery_count: 1,
        },
        delivery_timestamp: b"2026-07-29 10:20:30".to_vec(),
        line_amount_bits: vec![
            10.0_f32.to_bits(),
            20.0_f32.to_bits(),
            30.0_f32.to_bits(),
            19.0_f32.to_bits(),
            10.0_f32.to_bits(),
            10.25_f32.to_bits(),
        ],
    }]))
}

#[test]
fn records_exact_ticket_evidence_and_separates_physical_from_ranked() {
    let warmup_new = ticket(
        TransactionKind::NewOrder,
        Some(false),
        StageId::warmup(),
        0,
        10,
    );
    let ranked_payment = ticket(
        TransactionKind::Payment,
        None,
        StageId::measurement(0),
        1,
        11,
    );
    let tail_delivery = ticket(
        TransactionKind::Delivery,
        None,
        StageId::measurement(0),
        2,
        12,
    );
    let ranked_order_status = ticket(
        TransactionKind::OrderStatus,
        None,
        StageId::measurement(1),
        3,
        13,
    );
    let ranked_stock = ticket(
        TransactionKind::StockLevel,
        None,
        StageId::measurement(2),
        4,
        14,
    );
    let rollback = ticket(
        TransactionKind::NewOrder,
        Some(true),
        StageId::measurement(0),
        5,
        15,
    );

    let mut ledger = RunLedger::default();
    ledger.record(&warmup_new, &new_order(&warmup_new)).unwrap();
    ledger
        .record(&ranked_payment, &payment(&ranked_payment))
        .unwrap();
    ledger
        .record_grace_tail(&tail_delivery, &delivery(&tail_delivery))
        .unwrap();
    ledger
        .record(
            &ranked_order_status,
            &RankedTransactionOutcome::Committed(RankedCommit::OrderStatus),
        )
        .unwrap();
    ledger
        .record(
            &ranked_stock,
            &RankedTransactionOutcome::Committed(RankedCommit::StockLevel {
                low_stock_count: 9,
            }),
        )
        .unwrap();
    ledger
        .record(&rollback, &RankedTransactionOutcome::ExpectedRollback)
        .unwrap();

    assert_eq!(ledger.new_orders(), 1);
    let TransactionParameters::NewOrder(new_input) = warmup_new.parameters() else {
        unreachable!();
    };
    assert_eq!(ledger.new_order_lines(), new_input.lines.len() as i64);
    assert_eq!(ledger.payments(), 1);
    assert_eq!(ledger.delivery_commits(), 1);
    assert_eq!(ledger.delivered_orders(), 1);
    assert_eq!(ledger.delivered_order_lines(), 6);
    assert_eq!(ledger.order_status_commits(), 1);
    assert_eq!(ledger.stock_level_commits(), 1);
    assert_eq!(ledger.expected_rollbacks(), 1);
    let TransactionParameters::Payment(payment_input) = ranked_payment.parameters() else {
        unreachable!();
    };
    assert_eq!(ledger.payment_amount_bits(), &[payment_input.amount_bits]);
    assert_eq!(
        ledger.delivery_customer_amount_bits(),
        &[99.25_f32.to_bits()]
    );
    assert_eq!(ledger.events().len(), 6);
    let LedgerEvent::NewOrder(delta) = &ledger.events()[0] else {
        panic!("NewOrder event");
    };
    assert_eq!(delta.customer_id, new_input.customer_id);
    assert_eq!(delta.lines[0].item_id, new_input.lines[0].item_id);
    assert_eq!(
        delta.lines[0].supply_warehouse,
        new_input.lines[0].supply_warehouse
    );
    assert_eq!(delta.lines[0].quantity, new_input.lines[0].quantity);

    let ranked = ledger.to_ranked_committed_ledger().unwrap();
    assert_eq!(ranked.new_orders, 0);
    assert_eq!(ranked.payments, 1);
    assert_eq!(ranked.delivered_orders, 0);
    assert_eq!(ledger.partition_deltas().len(), 500);
}

#[test]
fn merge_combines_worker_ledgers_and_consistency_counts() {
    let first_new = ticket(
        TransactionKind::NewOrder,
        Some(false),
        StageId::measurement(0),
        0,
        21,
    );
    let second_new = ticket(
        TransactionKind::NewOrder,
        Some(false),
        StageId::measurement(0),
        1,
        22,
    );
    let payment_ticket = ticket(
        TransactionKind::Payment,
        None,
        StageId::measurement(0),
        2,
        23,
    );
    let delivery_ticket = ticket(
        TransactionKind::Delivery,
        None,
        StageId::measurement(0),
        3,
        24,
    );
    let mut worker_zero = RunLedger::default();
    worker_zero
        .record(&first_new, &new_order(&first_new))
        .unwrap();
    worker_zero
        .record(&payment_ticket, &payment(&payment_ticket))
        .unwrap();

    let mut worker_one = RunLedger::default();
    worker_one
        .record(&second_new, &new_order(&second_new))
        .unwrap();
    worker_one
        .record(&delivery_ticket, &delivery(&delivery_ticket))
        .unwrap();

    let merged = RunLedger::merge_all(vec![worker_zero, worker_one]).unwrap();
    assert_eq!(merged.new_orders(), 2);
    assert_eq!(merged.payments(), 1);
    assert_eq!(merged.delivered_orders(), 1);
    assert_eq!(merged.events().len(), 4);
    assert_eq!(merged.to_committed_ledger().delivered_order_lines, 6);
}

#[test]
fn merge_rejects_duplicate_terminal_identity_atomically() {
    let payment_ticket = ticket(
        TransactionKind::Payment,
        None,
        StageId::measurement(0),
        0,
        25,
    );
    let mut first = RunLedger::default();
    first
        .record(&payment_ticket, &payment(&payment_ticket))
        .unwrap();
    let duplicate = first.clone();
    let before = first.clone();
    assert!(matches!(
        first.merge(&duplicate),
        Err(LedgerError::Inconsistent(message))
            if message.contains("duplicate terminal event identity")
    ));
    assert_eq!(first, before);
}

#[test]
fn versioned_text_round_trip_preserves_raw_bits_and_all_partitions() {
    let new_ticket = ticket(
        TransactionKind::NewOrder,
        Some(false),
        StageId::measurement(0),
        0,
        31,
    );
    let payment_ticket = ticket(
        TransactionKind::Payment,
        None,
        StageId::measurement(1),
        1,
        32,
    );
    let delivery_ticket = ticket(
        TransactionKind::Delivery,
        None,
        StageId::measurement(2),
        2,
        33,
    );
    let mut ledger = RunLedger::default();
    ledger.record(&new_ticket, &new_order(&new_ticket)).unwrap();
    ledger
        .record(&payment_ticket, &payment(&payment_ticket))
        .unwrap();
    ledger
        .record_grace_tail(&delivery_ticket, &delivery(&delivery_ticket))
        .unwrap();

    let encoded = ledger.encode();
    assert!(encoded.starts_with("RMDB_TPCC_RUN_LEDGER_V2\n"));
    assert!(encoded.contains("event_count=3\n"));
    assert!(encoded.contains("event.0=N|"));
    assert!(encoded.contains("event.1=P|"));
    assert!(encoded.contains("event.2=D|"));
    assert_eq!(RunLedger::decode(&encoded).unwrap(), ledger);
    assert_eq!(RunLedger::decode(&encoded).unwrap().encode(), encoded);

    let old_header = encoded.replacen("RMDB_TPCC_RUN_LEDGER_V2", "RMDB_TPCC_RUN_LEDGER_V1", 1);
    assert!(matches!(
        RunLedger::decode(&old_header),
        Err(LedgerError::UnsupportedVersion(header))
            if header == "RMDB_TPCC_RUN_LEDGER_V1"
    ));
}

#[test]
fn decode_rejects_duplicate_unknown_missing_and_bad_bits() {
    let new_ticket = ticket(
        TransactionKind::NewOrder,
        Some(false),
        StageId::measurement(0),
        0,
        41,
    );
    let mut ledger = RunLedger::default();
    ledger.record(&new_ticket, &new_order(&new_ticket)).unwrap();
    let encoded = ledger.encode();

    let duplicate = format!("{encoded}new_orders=1\n");
    assert!(matches!(
        RunLedger::decode(&duplicate),
        Err(LedgerError::DuplicateField(field)) if field == "new_orders"
    ));

    let unknown = encoded.replacen("new_orders=1", "mystery=1", 1);
    assert!(matches!(
        RunLedger::decode(&unknown),
        Err(LedgerError::UnknownField(field)) if field == "mystery"
    ));

    let missing = encoded.replacen("payments=0\n", "", 1);
    assert!(matches!(
        RunLedger::decode(&missing),
        Err(LedgerError::MissingField(field)) if field == "payments"
    ));

    let bad_bits = encoded.replacen(",3f800000", ",7f800000", 1);
    assert!(matches!(
        RunLedger::decode(&bad_bits),
        Err(LedgerError::InvalidFloatBits { .. })
    ));

    let missing_event = encoded
        .lines()
        .filter(|line| !line.starts_with("event.0="))
        .collect::<Vec<_>>()
        .join("\n");
    assert!(RunLedger::decode(&missing_event).is_err());

    let missing_partition = encoded.replacen("partition.50.10=0,0,0,0\n", "", 1);
    assert!(matches!(
        RunLedger::decode(&missing_partition),
        Err(LedgerError::MissingField(field)) if field == "partition.50.10"
    ));
}

#[test]
fn invalid_outcome_is_rejected_without_partial_mutation() {
    let payment_ticket = ticket(
        TransactionKind::Payment,
        None,
        StageId::measurement(0),
        0,
        51,
    );
    let mut ledger = RunLedger::default();
    let before = ledger.clone();
    let invalid = RankedTransactionOutcome::Committed(RankedCommit::OrderStatus);
    assert!(ledger.record(&payment_ticket, &invalid).is_err());
    assert_eq!(ledger, before);
}

#[test]
fn rejects_inexact_payment_and_delivery_relative_edges() {
    let payment_ticket = ticket(
        TransactionKind::Payment,
        None,
        StageId::measurement(0),
        0,
        52,
    );
    let mut invalid_payment = payment(&payment_ticket);
    let RankedTransactionOutcome::Committed(RankedCommit::Payment(evidence)) =
        &mut invalid_payment
    else {
        unreachable!();
    };
    evidence.warehouse_after_bits ^= 1;
    assert!(matches!(
        RunLedger::default().record(&payment_ticket, &invalid_payment),
        Err(LedgerError::Inconsistent(message))
            if message.contains("warehouse w_ytd")
    ));

    let mut invalid_payment_version = payment(&payment_ticket);
    let RankedTransactionOutcome::Committed(RankedCommit::Payment(evidence)) =
        &mut invalid_payment_version
    else {
        unreachable!();
    };
    evidence.customer_version_after.delivery_count += 1;
    assert!(matches!(
        RunLedger::default().record(&payment_ticket, &invalid_payment_version),
        Err(LedgerError::Inconsistent(message))
            if message.contains("c_delivery_cnt")
    ));

    let delivery_ticket = ticket(
        TransactionKind::Delivery,
        None,
        StageId::measurement(0),
        1,
        53,
    );
    let mut invalid_delivery = delivery(&delivery_ticket);
    let RankedTransactionOutcome::Committed(RankedCommit::Delivery(orders)) =
        &mut invalid_delivery
    else {
        unreachable!();
    };
    orders[0].customer_version_after.delivery_count = 2;
    assert!(matches!(
        RunLedger::default().record(&delivery_ticket, &invalid_delivery),
        Err(LedgerError::Inconsistent(message))
            if message.contains("c_delivery_cnt")
    ));

    let mut invalid_delivery_version = delivery(&delivery_ticket);
    let RankedTransactionOutcome::Committed(RankedCommit::Delivery(orders)) =
        &mut invalid_delivery_version
    else {
        unreachable!();
    };
    orders[0].customer_version_after.payment_count += 1;
    assert!(matches!(
        RunLedger::default().record(&delivery_ticket, &invalid_delivery_version),
        Err(LedgerError::Inconsistent(message))
            if message.contains("c_payment_cnt")
    ));
}

#[test]
fn counter_and_partition_arithmetic_reject_overflow() {
    assert!(matches!(
        checked_add(i64::MAX, 1, "test"),
        Err(LedgerError::Overflow("test"))
    ));
    assert!(matches!(
        PartitionDelta {
            new_orders: i64::MAX,
            ..PartitionDelta::default()
        }
        .checked_add(PartitionDelta {
            new_orders: 1,
            ..PartitionDelta::default()
        }),
        Err(LedgerError::Overflow("partition new_orders"))
    ));

    let encoded =
        RunLedger::default()
            .encode()
            .replacen("payments=0", "payments=9223372036854775808", 1);
    assert!(matches!(
        RunLedger::decode(&encoded),
        Err(LedgerError::Malformed(message))
            if message.contains("supported counter range")
    ));
}

#[test]
fn refused_texts_are_quoted() {
    assert_eq!(
        RunLedger::decode("V\t9\n").unwrap_err().message(),
        "unsupported ledger version/header: \"V\\t9\""
    );
    let encoded = RunLedger::default().encode();
    assert_eq!(
        RunLedger::decode(&format!("{encoded}loose \"line\"\n")).unwrap_err().message(),
        "malformed ledger: missing '=' in \"loose \\\"line\\\"\""
    );
    assert_eq!(
        RunLedger::decode(&format!("{encoded}a\u{80}b\n")).unwrap_err().message(),
        "malformed ledger: missing '=' in \"a\\u{80}b\""
    );
}

#[test]
fn committed_counts_come_from_a_ledger() {
    let frozen = ticket(
        TransactionKind::NewOrder,
        Some(false),
        StageId::measurement(0),
        0,
        21,
    );
    let mut ledger = RunLedger::default();
    ledger.record(&frozen, &new_order(&frozen)).unwrap();
    let counts = CommittedLedger::from(&ledger);
    assert_eq!(counts, ledger.to_committed_ledger());
    assert_eq!(counts.new_orders, 1);
    assert_eq!(counts.payments, 0);
}

#[test]
fn only_the_written_text_of_an_event_is_read() {
    let frozen = ticket(
        TransactionKind::StockLevel,
        None,
        StageId::measurement(0),
        0,
        21,
    );
    let outcome =
        RankedTransactionOutcome::Committed(RankedCommit::StockLevel { low_stock_count: 7 });
    let mut ledger = RunLedger::default();
    ledger.record(&frozen, &outcome).unwrap();
    let text = ledger.encode();
    assert!(text.ends_with("|7\n"));
    assert_eq!(RunLedger::decode(&text).unwrap().encode(), text);
    let padded = text.replace("|7\n", "|07\n");
    assert!(matches!(
        RunLedger::decode(&padded),
        Err(LedgerError::Malformed(_))
    ));
}

#[test]
fn projecting_twice_changes_nothing() {
    let ranked = ticket(
        TransactionKind::NewOrder,
        Some(false),
        StageId::measurement(0),
        0,
        21,
    );
    let warmup = ticket(
        TransactionKind::NewOrder,
        Some(false),
        StageId::warmup(),
        1,
        22,
    );
    let mut ledger = RunLedger::default();
    ledger.record(&warmup, &new_order(&warmup)).unwrap();
    ledger.record(&ranked, &new_order(&ranked)).unwrap();
    let once = ledger.ranked_projection().unwrap();
    assert_eq!(once.new_orders(), 1);
    assert_eq!(once.ranked_projection().unwrap(), once);
    assert_eq!(once.ranked_partition_deltas().unwrap(), once.partition_deltas());
}

#[test]
fn a_text_is_laid_out_line_by_line() {
    let frozen = ticket(
        TransactionKind::Payment,
        None,
        StageId::measurement(0),
        0,
        21,
    );
    let mut ledger = RunLedger::default();
    ledger.record(&frozen, &payment(&frozen)).unwrap();
    let text = ledger.encode();
    let lines: Vec<&str> = text.lines().collect();
    assert_eq!(lines.len(), 517);
    assert_eq!(lines[0], "RMDB_TPCC_RUN_LEDGER_V2");
    assert_eq!(
        lines[14],
        format!("payment_amount_bits={:08x}", ledger.payment_amount_bits()[0])
    );
    assert!(lines[16].starts_with("partition.1.1="));
    assert!(lines[515].starts_with("partition.50.10="));
    assert!(lines[516].starts_with("event.0=P|"));
}
