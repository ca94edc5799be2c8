use tpcc_ranking::consistency::{
    CustomerLogicalVersion, CustomerUpdateEndpoint, CustomerUpdateEvidence, CustomerUpdateKind,
};
use tpcc_ranking::ranking::customer_chain::CustomerKey;
use tpcc_ranking::ranking::evidence_collector::{CollectorStorage, IntervalCollector};
use tpcc_ranking::ranking::interval_pending::CollectorError;
use tpcc_ranking::ranking::runner::StockVersion;
use tpcc_ranking::ranking::stock_chain::StockKey;

/// Rearranges a list, the same way for the same seed.
fn shuffle<T>(list: &mut [T], seed: u64) {
    let mut state = seed;
    for last in (1..list.len()).rev() {
        state = state
            .wrapping_mul(6_364_136_223_846_793_005)
            .wrapping_add(1_442_695_040_888_963_407);
        list.swap(last, (state >> 33) as usize % (last + 1));
    }
}

fn customer_version(payment_count: i32, delivery_count: i32) -> CustomerLogicalVersion {
    CustomerLogicalVersion {
        payment_count,
        delivery_count,
    }
}

fn payment_edge(
    before_version: CustomerLogicalVersion,
    before_balance: f32,
    before_ytd: f32,
    amount: f32,
) -> CustomerUpdateEvidence {
    CustomerUpdateEvidence {
        kind: CustomerUpdateKind::Payment,
        before_version,
        after_version: customer_version(
            before_version.payment_count + 1,
            before_version.delivery_count,
        ),
        amount_bits: amount.to_bits(),
        balance_before_bits: before_balance.to_bits(),
        balance_after_bits: (before_balance - amount).to_bits(),
        ytd_payment_before_bits: Some(before_ytd.to_bits()),
        ytd_payment_after_bits: Some((before_ytd + amount).to_bits()),
    }
}

fn delivery_edge(
    before_version: CustomerLogicalVersion,
    before_balance: f32,
    amount: f32,
) -> CustomerUpdateEvidence {
    CustomerUpdateEvidence {
        kind: CustomerUpdateKind::Delivery,
        before_version,
        after_version: customer_version(
            before_version.payment_count,
            before_version.delivery_count + 1,
        ),
        amount_bits: amount.to_bits(),
        balance_before_bits: before_balance.to_bits(),
        balance_after_bits: (before_balance + amount).to_bits(),
        ytd_payment_before_bits: None,
        ytd_payment_after_bits: None,
    }
}

fn stock_after(
    before: &StockVersion,
    ordered_quantity: u8,
    remote_increment: u8,
) -> StockVersion {
    let quantity = i32::from(ordered_quantity);
    StockVersion {
        quantity: if before.quantity >= quantity + 10 {
            before.quantity - quantity
        } else {
            before.quantity + 91 - quantity
        },
        ytd_bits: (f32::from_bits(before.ytd_bits) + f32::from(ordered_quantity)).to_bits(),
        order_count: before.order_count + 1,
        remote_count: before.remote_count + i32::from(remote_increment),
    }
}

#[test]
fn customer_intervals_join_in_arbitrary_response_order() {
    let key = CustomerKey {
        warehouse_id: 1,
        district_id: 1,
        customer_id: 7,
    };
    let payment = payment_edge(customer_version(1, 0), -10.0, 10.0, 2.0);
    let delivery = delivery_edge(customer_version(2, 0), -12.0, 5.0);
    let later_payment = payment_edge(customer_version(2, 1), -7.0, 12.0, 3.0);

    let mut ordered = IntervalCollector::new(50, 32, 91).unwrap();
    for edge in [payment, delivery, later_payment] {
        ordered.record_customer(key, edge).unwrap();
    }
    let expected = ordered.seal().unwrap();

    let mut shuffled = IntervalCollector::new(50, 32, 91).unwrap();
    for edge in [later_payment, delivery, payment] {
        shuffled.record_customer(key, edge).unwrap();
    }
    assert_eq!(shuffled.seal().unwrap(), expected);
    assert_eq!(expected.customer_update_count().unwrap(), 3);
    assert_eq!(
        expected.customers[0].endpoint,
        CustomerUpdateEndpoint {
            version: customer_version(3, 1),
            balance_bits: (-10.0_f32).to_bits(),
            ytd_payment_bits: 15.0_f32.to_bits(),
        }
    );
}

#[test]
fn customer_rejects_duplicate_fork_disconnect_and_one_bit_float() {
    let key = CustomerKey {
        warehouse_id: 1,
        district_id: 1,
        customer_id: 1,
    };
    let first = payment_edge(customer_version(1, 0), -10.0, 10.0, 2.0);

    let mut duplicate = IntervalCollector::new(50, 32, 1).unwrap();
    duplicate.record_customer(key, first).unwrap();
    assert!(matches!(
        duplicate.record_customer(key, first),
        Err(CollectorError::DuplicatePredecessor {
            domain: "customer",
            ..
        })
    ));

    let mut fork = IntervalCollector::new(50, 32, 1).unwrap();
    fork.record_customer(key, first).unwrap();
    let stale = delivery_edge(customer_version(1, 0), -10.0, 1.0);
    assert!(matches!(
        fork.record_customer(key, stale),
        Err(CollectorError::DuplicatePredecessor {
            domain: "customer",
            ..
        })
    ));

    let mut disconnected = IntervalCollector::new(50, 32, 1).unwrap();
    disconnected
        .record_customer(key, payment_edge(customer_version(3, 0), -14.0, 14.0, 1.0))
        .unwrap();
    assert!(matches!(
        disconnected.seal(),
        Err(CollectorError::Disconnected {
            domain: "collector",
            ..
        })
    ));

    let mut wrong = payment_edge(customer_version(1, 0), -10.0, 10.0, 2.0);
    *wrong.ytd_payment_after_bits.as_mut().unwrap() ^= 1;
    let mut one_bit = IntervalCollector::new(50, 32, 1).unwrap();
    assert!(matches!(
        one_bit.record_customer(key, wrong),
        Err(CollectorError::FloatMismatch("customer YTD"))
    ));
}

#[test]
fn stock_intervals_join_and_reject_stale_or_corrupt_edges() {
    let key = StockKey {
        warehouse_id: 2,
        item_id: 17,
    };
    let first = StockVersion {
        quantity: 20,
        ytd_bits: 0.0_f32.to_bits(),
        order_count: 0,
        remote_count: 0,
    };
    let second = stock_after(&first, 4, 0);
    let third = stock_after(&second, 8, 1);
    let fourth = stock_after(&third, 3, 0);

    let mut collector = IntervalCollector::new(50, 32, 44).unwrap();
    collector
        .record_stock(key, 3, 0, third.clone(), fourth.clone())
        .unwrap();
    collector
        .record_stock(key, 8, 1, second.clone(), third.clone())
        .unwrap();
    collector
        .record_stock(key, 4, 0, first.clone(), second.clone())
        .unwrap();
    let sealed = collector.seal().unwrap();
    assert_eq!(sealed.stock_update_count().unwrap(), 3);
    assert_eq!(sealed.stocks[0].initial, first);
    assert_eq!(sealed.stocks[0].endpoint, fourth);

    let mut stale = IntervalCollector::new(50, 32, 44).unwrap();
    stale
        .record_stock(key, 4, 0, first.clone(), second.clone())
        .unwrap();
    assert!(matches!(
        stale.record_stock(key, 4, 0, first.clone(), second.clone()),
        Err(CollectorError::DuplicatePredecessor {
            domain: "stock",
            ..
        })
    ));

    let mut corrupt_after = second;
    corrupt_after.ytd_bits ^= 1;
    let mut corrupt = IntervalCollector::new(50, 32, 44).unwrap();
    assert!(matches!(
        corrupt.record_stock(key, 4, 0, first, corrupt_after),
        Err(CollectorError::FloatMismatch("stock YTD"))
    ));
}

#[test]
fn thirty_two_worker_shuffled_chain_is_canonical() {
    let key = StockKey {
        warehouse_id: 1,
        item_id: 42,
    };
    let mut versions = vec![StockVersion {
        quantity: 100,
        ytd_bits: 0.0_f32.to_bits(),
        order_count: 0,
        remote_count: 0,
    }];
    for index in 0..512 {
        let before = versions.last().unwrap();
        versions.push(stock_after(
            before,
            (index % 10 + 1) as u8,
            (index % 7 == 0) as u8,
        ));
    }
    let mut edges = (0..512)
        .map(|index| {
            (
                (index % 32) as u16,
                (index % 10 + 1) as u8,
                (index % 7 == 0) as u8,
                versions[index].clone(),
                versions[index + 1].clone(),
            )
        })
        .collect::<Vec<_>>();
    shuffle(&mut edges, 7);

    let mut collector = IntervalCollector::new(50, 32, 123).unwrap();
    for (_worker, quantity, remote, before, after) in edges {
        collector
            .record_stock(key, quantity, remote, before, after)
            .unwrap();
    }
    let sealed = collector.seal().unwrap();
    assert_eq!(sealed.stocks[0].update_count, 512);
    assert_eq!(sealed.stocks[0].endpoint, versions[512]);
}

#[test]
fn one_million_hot_key_updates_keep_constant_collector_shape() {
    let key = StockKey {
        warehouse_id: 1,
        item_id: 1,
    };
    let mut collector = IntervalCollector::new(50, 32, 0xfeed).unwrap();
    let mut before = StockVersion {
        quantity: 100,
        ytd_bits: 0.0_f32.to_bits(),
        order_count: 0,
        remote_count: 0,
    };
    for index in 0..1_000_000 {
        let quantity = (index % 10 + 1) as u8;
        let remote = (index % 11 == 0) as u8;
        let after = stock_after(&before, quantity, remote);
        collector
            .record_stock(key, quantity, remote, before, after.clone())
            .unwrap();
        before = after;
    }
    assert_eq!(
        collector.storage(),
        CollectorStorage {
            customer_keys: 0,
            stock_keys: 1,
            pending_intervals: 0,
        }
    );
    let sealed = collector.seal().unwrap();
    assert_eq!(sealed.stocks.len(), 1);
    assert_eq!(sealed.stocks[0].update_count, 1_000_000);
}

#[test]
fn refused_evidence_is_named() {
    let mut collector = IntervalCollector::new(2, 1, 5).unwrap();
    let error = collector
        .record_customer(
            CustomerKey { warehouse_id: 3, district_id: 1, customer_id: 1 },
            payment_edge(customer_version(1, 0), -10.0, 10.0, 2.0),
        )
        .unwrap_err();
    assert!(matches!(error, CollectorError::InvalidKey(_)));
    assert!(error.message().starts_with("invalid evidence key: "));
    assert!(matches!(
        IntervalCollector::new(0, 1, 5),
        Err(CollectorError::InvalidConfiguration("warehouse count must be positive"))
    ));
}

#[test]
fn audit_digest_depends_on_the_seed_only_through_the_digest() {
    let key = StockKey { warehouse_id: 1, item_id: 9 };
    let first = StockVersion { quantity: 50, ytd_bits: 0, order_count: 0, remote_count: 0 };
    let second = stock_after(&first, 3, 0);
    let mut sealed = Vec::new();
    for seed in [1, 2] {
        let mut collector = IntervalCollector::new(1, 1, seed).unwrap();
        collector.record_stock(key, 3, 0, first, second).unwrap();
        sealed.push(collector.seal().unwrap());
    }
    assert_eq!(sealed[0].stocks[0].endpoint, sealed[1].stocks[0].endpoint);
    assert_ne!(sealed[0].stocks[0].audit_digest, sealed[1].stocks[0].audit_digest);
}
