use tpcc_ranking::profile::TransactionKind;
use tpcc_ranking::ranking::dispatch::{transaction_type, FrozenTransaction};
use tpcc_ranking::transaction::TransactionType;
use tpcc_ranking::workload::{
    DeliveryInput, NewOrderInput, RoutedTransaction, StageId, TransactionParameters,
    TransactionTicket,
};

fn delivery_ticket(stage: StageId, client_id: u16, seed: u64) -> TransactionTicket {
    TransactionTicket {
        route: RoutedTransaction {
            kind: TransactionKind::Delivery,
            stage,
            client_id,
            txn_no: 1,
            home_warehouse: 5,
            home_district: 6,
            payment_customer_warehouse: 5,
        },
        parameters: TransactionParameters::Delivery(DeliveryInput { carrier_id: 3 }),
        parameter_fingerprint: 0x9e37_79b9_7f4a_7c15_u64.wrapping_mul(seed),
    }
}

#[test]
fn frozen_retry_keeps_selection_timestamp_and_identity() {
    let ticket = delivery_ticket(StageId::measurement(0), 7, 2026);
    let retry = ticket.clone();

    let left = FrozenTransaction::new(ticket, "2026-07-29 17:30:00".to_owned()).unwrap();
    let right = FrozenTransaction::new(retry, "2026-07-29 17:30:00".to_owned()).unwrap();

    assert_eq!(left.ticket(), right.ticket());
    assert_eq!(left.timestamp(), right.timestamp());
    assert_eq!(left.fingerprint(), right.fingerprint());
}

#[test]
fn timestamp_is_part_of_the_scheduler_identity() {
    let ticket = delivery_ticket(StageId::warmup(), 0, 9);

    let left = FrozenTransaction::new(ticket.clone(), "2026-07-29 17:30:00".to_owned()).unwrap();
    let right = FrozenTransaction::new(ticket, "2026-07-29 17:30:01".to_owned()).unwrap();
    assert_ne!(left.fingerprint(), right.fingerprint());
}

#[test]
fn timestamps_that_do_not_fit_are_refused() {
    let text = "ranked timestamp must be a nonempty, NUL-free CHAR(30) value";
    for timestamp in ["", "0123456789012345678901234567890", "a\0b"] {
        let ticket = delivery_ticket(StageId::warmup(), 0, 1);
        assert_eq!(
            FrozenTransaction::new(ticket, timestamp.to_owned()).unwrap_err(),
            text
        );
    }
}

#[test]
fn fingerprint_folds_seed_and_bytes() {
    let mut ticket = delivery_ticket(StageId::warmup(), 0, 1);
    ticket.parameter_fingerprint = 0;
    let frozen = FrozenTransaction::new(ticket, "a".to_owned()).unwrap();
    assert_eq!(frozen.fingerprint(), 0xaf63_dc4c_8601_ec8c);
    assert_eq!(frozen.transaction_type(), TransactionType::Delivery);
    assert!(!frozen.expects_business_rollback());
}

#[test]
fn only_a_planned_new_order_expects_a_rollback() {
    for rollback in [false, true] {
        let mut ticket = delivery_ticket(StageId::warmup(), 0, 1);
        ticket.route.kind = TransactionKind::NewOrder;
        ticket.parameters = TransactionParameters::NewOrder(NewOrderInput {
            customer_id: 1,
            lines: Vec::new(),
            expected_rollback: rollback,
            all_local: true,
        });
        let frozen = FrozenTransaction::new(ticket, "2026".to_owned()).unwrap();
        assert_eq!(frozen.expects_business_rollback(), rollback);
    }
    assert_eq!(
        transaction_type(TransactionKind::StockLevel),
        TransactionType::StockLevel
    );
}
