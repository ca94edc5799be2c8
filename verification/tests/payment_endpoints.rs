use tpcc_ranking::ranking::payment_endpoints::{
    PaymentEndpointCollector, PaymentEndpointError, PaymentFloatEdge, PaymentTerminalEvidence,
    DISTRICT_YTD_ROOT_BITS, WAREHOUSE_YTD_ROOT_BITS,
};

fn edge(before: f32, amount: f32) -> PaymentFloatEdge {
    PaymentFloatEdge {
        before_bits: before.to_bits(),
        after_bits: (before + amount).to_bits(),
        amount_bits: amount.to_bits(),
    }
}

fn terminal(
    warehouse_id: u16,
    district_id: u8,
    warehouse_before: f32,
    district_before: f32,
    amount: f32,
) -> PaymentTerminalEvidence {
    PaymentTerminalEvidence {
        warehouse_id,
        district_id,
        warehouse: edge(warehouse_before, amount),
        district: edge(district_before, amount),
    }
}

#[test]
fn out_of_order_edges_join_one_common_rooted_order() {
    let mut collector = PaymentEndpointCollector::new(50, 4).unwrap();
    let w0 = f32::from_bits(WAREHOUSE_YTD_ROOT_BITS);
    let d0 = f32::from_bits(DISTRICT_YTD_ROOT_BITS);
    let w1 = w0 + 2.0;
    let d1 = d0 + 2.0;
    let w2 = w1 + 3.0;
    let d2 = d1 + 3.0;

    collector
        .record_terminal(terminal(1, 1, w2, d2, 4.0))
        .unwrap();
    collector
        .record_terminal(terminal(1, 1, w1, d1, 3.0))
        .unwrap();
    collector
        .record_terminal(terminal(1, 1, w0, d0, 2.0))
        .unwrap();

    let sealed = collector.seal().unwrap();
    assert_eq!(sealed.terminal_count(), 3);
    assert_eq!(sealed.warehouse_edge_count(), 3);
    assert_eq!(sealed.district_edge_count(), 3);
    assert_eq!(sealed.warehouse_update_count(1), Some(3));
    assert_eq!(sealed.district_update_count(1, 1), Some(3));
    assert_eq!(
        sealed.warehouse_endpoint_bits(1),
        Some((w2 + 4.0).to_bits())
    );
    assert_eq!(
        sealed.district_endpoint_bits(1, 1),
        Some((d2 + 4.0).to_bits())
    );
    assert_eq!(sealed.warehouse_update_count(50), Some(0));
    assert_eq!(sealed.district_update_count(50, 10), Some(0));
}

#[test]
fn contradictory_warehouse_and_district_orders_are_rejected() {
    let mut collector = PaymentEndpointCollector::new(1, 2).unwrap();
    let w0 = f32::from_bits(WAREHOUSE_YTD_ROOT_BITS);
    let d0 = f32::from_bits(DISTRICT_YTD_ROOT_BITS);
    collector
        .record_terminal(terminal(1, 1, w0, d0 + 2.0, 1.0))
        .unwrap();
    collector
        .record_terminal(terminal(1, 1, w0 + 1.0, d0, 2.0))
        .unwrap();
    assert_eq!(
        collector.seal(),
        Err(PaymentEndpointError::Disconnected { pending_edges: 4 })
    );
}

#[test]
fn late_self_loop_inside_reorder_bound_is_counted() {
    let mut collector = PaymentEndpointCollector::new(1, 2).unwrap();
    let w0 = f32::from_bits(WAREHOUSE_YTD_ROOT_BITS);
    let d0 = f32::from_bits(DISTRICT_YTD_ROOT_BITS);
    let large = 33_554_432.0_f32;
    collector
        .record_terminal(terminal(1, 1, w0, d0, large))
        .unwrap();
    let w1 = w0 + large;
    let d1 = d0 + large;
    collector
        .record_terminal(terminal(1, 1, w1, d1, 4.0))
        .unwrap();
    let late_loop = terminal(1, 1, w1, d1, 1.0);
    assert_eq!(
        late_loop.warehouse.before_bits,
        late_loop.warehouse.after_bits
    );
    assert_eq!(
        late_loop.district.before_bits,
        late_loop.district.after_bits
    );
    collector.record_terminal(late_loop).unwrap();

    let sealed = collector.seal().unwrap();
    assert_eq!(sealed.warehouse_update_count(1), Some(3));
    assert_eq!(sealed.district_update_count(1, 1), Some(3));
    assert_eq!(
        sealed.warehouse_endpoint_bits(1),
        Some((w1 + 4.0).to_bits())
    );
    assert_eq!(
        sealed.district_endpoint_bits(1, 1),
        Some((d1 + 4.0).to_bits())
    );
}

#[test]
fn visible_forward_fork_poison_is_sticky() {
    let mut collector = PaymentEndpointCollector::new(1, 3).unwrap();
    let w0 = f32::from_bits(WAREHOUSE_YTD_ROOT_BITS);
    let d0 = f32::from_bits(DISTRICT_YTD_ROOT_BITS);
    collector
        .record_terminal(terminal(1, 1, w0 + 10.0, d0 + 10.0, 2.0))
        .unwrap();
    assert!(matches!(
        collector.record_terminal(terminal(1, 1, w0 + 10.0, d0 + 10.0, 3.0)),
        Err(PaymentEndpointError::Fork { .. })
    ));
    assert_eq!(
        collector.record_terminal(terminal(1, 1, w0, d0, 10.0)),
        Err(PaymentEndpointError::Poisoned)
    );
    assert_eq!(collector.seal(), Err(PaymentEndpointError::Poisoned));
}

#[test]
fn gap_is_rejected_at_seal() {
    let mut collector = PaymentEndpointCollector::new(1, 1).unwrap();
    let w0 = f32::from_bits(WAREHOUSE_YTD_ROOT_BITS);
    let d0 = f32::from_bits(DISTRICT_YTD_ROOT_BITS);
    collector
        .record_terminal(terminal(1, 1, w0 + 5.0, d0 + 5.0, 1.0))
        .unwrap();
    assert_eq!(
        collector.seal(),
        Err(PaymentEndpointError::Disconnected { pending_edges: 2 })
    );
}

#[test]
fn wrong_rne_bit_poison_does_not_mutate_state() {
    let mut collector = PaymentEndpointCollector::new(1, 1).unwrap();
    let w0 = f32::from_bits(WAREHOUSE_YTD_ROOT_BITS);
    let d0 = f32::from_bits(DISTRICT_YTD_ROOT_BITS);
    let mut bad = terminal(1, 1, w0, d0, 2.0);
    bad.warehouse.after_bits ^= 1;
    let before = collector.storage();
    assert_eq!(
        collector.record_terminal(bad),
        Err(PaymentEndpointError::FloatMismatch {
            domain: "warehouse.w_ytd"
        })
    );
    assert_eq!(collector.storage(), before);
}

#[test]
fn paired_amount_mismatch_and_signed_zero_root_are_raw() {
    let mut mismatch = PaymentEndpointCollector::new(1, 1).unwrap();
    let w0 = f32::from_bits(WAREHOUSE_YTD_ROOT_BITS);
    let d0 = f32::from_bits(DISTRICT_YTD_ROOT_BITS);
    let mut evidence = terminal(1, 1, w0, d0, 2.0);
    evidence.district.amount_bits = 3.0_f32.to_bits();
    assert_eq!(
        mismatch.record_terminal(evidence),
        Err(PaymentEndpointError::PairedAmountMismatch)
    );

    let mut signed_zero = PaymentEndpointCollector::new(1, 1).unwrap();
    let bad_root = PaymentTerminalEvidence {
        warehouse_id: 1,
        district_id: 1,
        warehouse: edge(-0.0, 1.0),
        district: edge(d0, 1.0),
    };
    assert_eq!(
        signed_zero.record_terminal(bad_root),
        Err(PaymentEndpointError::StaleInterval {
            domain: "warehouse.w_ytd"
        })
    );
}

#[test]
fn pending_overflow_is_atomic_and_sticky() {
    let mut collector = PaymentEndpointCollector::new(1, 1).unwrap();
    let w0 = f32::from_bits(WAREHOUSE_YTD_ROOT_BITS);
    let d0 = f32::from_bits(DISTRICT_YTD_ROOT_BITS);
    collector
        .record_terminal(terminal(1, 1, w0 + 10.0, d0 + 10.0, 1.0))
        .unwrap();
    let before = collector.storage();

    assert_eq!(
        collector.record_terminal(terminal(1, 2, w0 + 20.0, d0 + 20.0, 1.0)),
        Err(PaymentEndpointError::PendingLimit {
            actual: 4,
            limit: 2
        })
    );
    assert_eq!(collector.storage(), before);
    assert_eq!(
        collector.record_terminal(terminal(1, 1, w0, d0, 10.0)),
        Err(PaymentEndpointError::Poisoned)
    );
}

#[test]
fn district_fork_does_not_commit_valid_warehouse_scratch() {
    let mut collector = PaymentEndpointCollector::new(1, 2).unwrap();
    let w0 = f32::from_bits(WAREHOUSE_YTD_ROOT_BITS);
    let d0 = f32::from_bits(DISTRICT_YTD_ROOT_BITS);
    collector
        .record_terminal(terminal(1, 1, w0 + 10.0, d0 + 20.0, 1.0))
        .unwrap();
    let before = collector.storage();
    let warehouse_before = collector.warehouse_chains[0];

    assert_eq!(
        collector.record_terminal(terminal(1, 1, w0, d0 + 20.0, 1.0)),
        Err(PaymentEndpointError::Fork {
            domain: "district.d_ytd"
        })
    );
    assert_eq!(collector.storage(), before);
    assert_eq!(
        collector.warehouse_chains[0].endpoint_bits,
        warehouse_before.endpoint_bits
    );
    assert_eq!(
        collector.warehouse_chains[0].update_count,
        warehouse_before.update_count
    );
}

#[test]
fn persistent_reorder_capacity_never_grows() {
    let mut collector = PaymentEndpointCollector::new(1, 2).unwrap();
    let w0 = f32::from_bits(WAREHOUSE_YTD_ROOT_BITS);
    let d0 = f32::from_bits(DISTRICT_YTD_ROOT_BITS);
    let capacity = collector.storage().pending_capacity;
    collector
        .record_terminal(terminal(1, 1, w0, d0, 1.0))
        .unwrap();
    collector
        .record_terminal(terminal(1, 1, w0 + 1.0, d0 + 1.0, 1.0))
        .unwrap();
    collector
        .record_terminal(terminal(1, 1, w0 + 2.0, d0 + 2.0, 1.0))
        .unwrap();
    assert_eq!(collector.storage().pending_edges, 4);
    assert_eq!(collector.storage().pending_capacity, capacity);
}

#[test]
fn one_million_updates_keep_fixed_collector_shape() {
    let mut collector = PaymentEndpointCollector::new(50, 32).unwrap();
    let initial = collector.storage();
    let mut warehouse = f32::from_bits(WAREHOUSE_YTD_ROOT_BITS);
    let mut district = f32::from_bits(DISTRICT_YTD_ROOT_BITS);
    for _ in 0..1_000_000 {
        collector
            .record_terminal(terminal(1, 1, warehouse, district, 1.0))
            .unwrap();
        warehouse += 1.0;
        district += 1.0;
    }
    let final_storage = collector.storage();
    assert_eq!(final_storage.warehouse_slots, initial.warehouse_slots);
    assert_eq!(final_storage.district_slots, initial.district_slots);
    assert_eq!(final_storage.pending_capacity, initial.pending_capacity);
    assert_eq!(final_storage.pending_edges, initial.pending_capacity);
    assert_eq!(final_storage.terminal_count, 1_000_000);

    let sealed = collector.seal().unwrap();
    assert_eq!(sealed.terminal_count(), 1_000_000);
    assert_eq!(sealed.warehouse_update_count(1), Some(1_000_000));
    assert_eq!(sealed.district_update_count(1, 1), Some(1_000_000));
}

#[test]
fn arrival_order_does_not_change_what_is_sealed() {
    let w0 = f32::from_bits(WAREHOUSE_YTD_ROOT_BITS);
    let d0 = f32::from_bits(DISTRICT_YTD_ROOT_BITS);
    let list = [
        terminal(1, 1, w0, d0, 2.0),
        terminal(1, 2, w0 + 2.0, d0, 3.0),
        terminal(1, 1, w0 + 5.0, d0 + 2.0, 4.0),
        terminal(2, 1, w0, d0, 9.0),
    ];
    let orders = [[0, 1, 2, 3], [3, 2, 1, 0], [2, 0, 3, 1], [1, 3, 0, 2]];
    let mut sealed = Vec::new();
    for order in orders {
        let mut collector = PaymentEndpointCollector::new(2, 4).unwrap();
        for index in order {
            collector.record_terminal(list[index]).unwrap();
        }
        sealed.push(collector.seal().unwrap());
    }
    for other in &sealed[1..] {
        assert_eq!(other, &sealed[0]);
    }
    assert_eq!(sealed[0].warehouses(), 2);
    assert_eq!(sealed[0].warehouse_update_count(1), Some(3));
    assert_eq!(sealed[0].warehouse_update_count(3), None);
    assert_eq!(sealed[0].district_update_count(1, 11), None);
    assert_eq!(sealed[0].district_endpoint_bits(1, 2), Some((d0 + 3.0).to_bits()));
}

#[test]
fn refused_payments_are_named() {
    let w0 = f32::from_bits(WAREHOUSE_YTD_ROOT_BITS);
    let d0 = f32::from_bits(DISTRICT_YTD_ROOT_BITS);
    assert_eq!(
        PaymentEndpointCollector::new(51, 1).unwrap_err(),
        PaymentEndpointError::InvalidConfiguration("warehouse count must be in 1..=50")
    );
    assert_eq!(
        PaymentEndpointCollector::new(1, 0).unwrap_err(),
        PaymentEndpointError::InvalidConfiguration("client count must be positive")
    );
    let refused = |evidence: PaymentTerminalEvidence| {
        PaymentEndpointCollector::new(1, 1)
            .unwrap()
            .record_terminal(evidence)
            .unwrap_err()
    };
    assert_eq!(
        refused(terminal(2, 1, w0, d0, 1.0)).message(),
        "invalid Payment endpoint key: warehouse 2, district None"
    );
    assert_eq!(
        refused(terminal(1, 11, w0, d0, 1.0)).message(),
        "invalid Payment endpoint key: warehouse 1, district Some(11)"
    );
    assert_eq!(
        refused(terminal(1, 1, w0, d0, -1.0)),
        PaymentEndpointError::NonPositiveAmount { domain: "warehouse.w_ytd" }
    );
    assert_eq!(
        refused(terminal(1, 1, f32::NAN, d0, 1.0)),
        PaymentEndpointError::NonFinite { domain: "warehouse.w_ytd", field: "before" }
    );
}

#[test]
fn payments_with_a_serial_order_are_sealed_however_they_arrive() {
    let w0 = f32::from_bits(WAREHOUSE_YTD_ROOT_BITS);
    let d0 = f32::from_bits(DISTRICT_YTD_ROOT_BITS);
    let serial = [
        terminal(1, 1, w0, d0, 2.0),
        terminal(1, 2, w0 + 2.0, d0, 3.0),
        terminal(1, 1, w0 + 5.0, d0 + 2.0, 1.0),
    ];
    for order in [[0, 1, 2], [2, 1, 0], [1, 2, 0], [2, 0, 1]] {
        let mut collector = PaymentEndpointCollector::new(1, 3).unwrap();
        for place in order {
            collector.record_terminal(serial[place]).unwrap();
        }
        let sealed = collector.seal().unwrap();
        assert_eq!(sealed.warehouse_endpoint_bits(1), Some((w0 + 6.0).to_bits()));
        assert_eq!(sealed.district_endpoint_bits(1, 1), Some((d0 + 3.0).to_bits()));
        assert_eq!(sealed.district_endpoint_bits(1, 2), Some((d0 + 3.0).to_bits()));
    }
}
