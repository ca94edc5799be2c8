use tpcc_ranking::profile::TransactionKind;
use tpcc_ranking::ranking::common::{accept_batch, BatchResults};
use tpcc_ranking::ranking::new_order::{
    build_stage_one, validate_input, LinePlan, ValidatedInput,
};
use tpcc_ranking::ranking::new_order_rows::{
    multiply_f32_bits, MaterializedLine, MaterializedOrder,
};
use tpcc_ranking::ranking::new_order_writes::{
    build_stage_two, validate_stage_two_stock_readbacks, StageTwoPlan,
};
use tpcc_ranking::ranking::runner::StockVersion;
use tpcc_ranking::ranking::statement_id::StatementId;
use tpcc_ranking::wire::{BatchResponse, Operation, WireValue};
use tpcc_ranking::workload::{
    NewOrderInput, OrderLineInput, RoutedTransaction, StageId, INVALID_ITEM_ID,
};

fn line(
    number: u8,
    supply_warehouse: i32,
    item_id: i32,
    quantity: i32,
    invalid_item: bool,
) -> LinePlan {
    LinePlan {
        number,
        item_id,
        supply_warehouse,
        quantity,
        invalid_item,
    }
}

fn input(lines: Vec<LinePlan>, expected_rollback: bool) -> ValidatedInput {
    ValidatedInput {
        warehouse_id: 2,
        district_id: 3,
        customer_id: 17,
        timestamp: b"2026-07-29 10:20:30".to_vec(),
        all_local: 0,
        expected_rollback,
        lines,
    }
}

fn line_read(plan: LinePlan, stock: i32, amount: f32) -> MaterializedLine {
    MaterializedLine {
        plan,
        initial_stock: StockVersion {
            quantity: stock,
            ytd_bits: 0.0_f32.to_bits(),
            order_count: 0,
            remote_count: 0,
        },
        amount_bits: amount.to_bits(),
        district_info: b"district".to_vec(),
    }
}

fn ids(operations: &[Operation]) -> Vec<u16> {
    operations
        .iter()
        .map(|operation| operation.statement_id)
        .collect()
}

#[test]
fn stage_one_locks_sorted_unique_before_ordered_line_reads() {
    let input = input(
        vec![
            line(1, 9, 80, 3, false),
            line(2, 1, 70, 4, false),
            line(3, 9, 80, 5, false),
        ],
        false,
    );
    let plan = build_stage_one(&input);

    assert_eq!(
        ids(&plan.operations),
        vec![
            StatementId::Begin.wire_id(),
            StatementId::NewOrderHome.wire_id(),
            StatementId::NewOrderLockStock.wire_id(),
            StatementId::NewOrderLockStock.wire_id(),
            StatementId::NewOrderItem.wire_id(),
            StatementId::NewOrderStock.wire_id(),
            StatementId::NewOrderItem.wire_id(),
            StatementId::NewOrderStock.wire_id(),
            StatementId::NewOrderItem.wire_id(),
            StatementId::NewOrderStock.wire_id(),
        ]
    );
    assert_eq!(
        plan.operations[2].parameters,
        vec![WireValue::Int32(1), WireValue::Int32(70)]
    );
    assert_eq!(
        plan.operations[3].parameters,
        vec![WireValue::Int32(9), WireValue::Int32(80)]
    );
    assert_eq!(plan.operations[4].parameters, vec![WireValue::Int32(80)]);
    assert_eq!(plan.operations[6].parameters, vec![WireValue::Int32(70)]);
    assert_eq!(plan.operations[8].parameters, vec![WireValue::Int32(80)]);
}

#[test]
fn invalid_item_batch_writes_valid_prefix_then_aborts() {
    let first = line(1, 2, 10, 4, false);
    let second = line(2, 7, 20, 6, false);
    let invalid = line(3, 2, INVALID_ITEM_ID as i32, 2, true);
    let input = input(vec![first, second, invalid], true);
    let materialized = MaterializedOrder {
        order_id: 3001,
        lines: vec![line_read(first, 90, 8.0), line_read(second, 12, 15.0)],
    };

    let stage = build_stage_two(&input, &materialized).unwrap();
    assert_eq!(
        ids(&stage.operations),
        vec![
            StatementId::NewOrderAdvanceDistrict.wire_id(),
            StatementId::NewOrderInsertOrder.wire_id(),
            StatementId::NewOrderInsertQueue.wire_id(),
            StatementId::NewOrderUpdateStockNormal.wire_id(),
            StatementId::NewOrderInsertLine.wire_id(),
            StatementId::NewOrderUpdateStockWrapped.wire_id(),
            StatementId::NewOrderInsertLine.wire_id(),
            StatementId::Abort.wire_id(),
        ]
    );
    assert!(!stage
        .operations
        .iter()
        .any(|operation| operation.statement_id == StatementId::Commit.wire_id()));
    assert_eq!(stage.stock_ytd_delta, 10);
    assert_eq!(stage.remote_line_count, 1);
    assert_eq!(
        stage.operations[1].parameters[6],
        WireValue::Int32(3),
        "rolled-back header still describes the complete attempted order"
    );
}

#[test]
fn successful_batch_ends_in_commit_and_uses_relative_float_delta() {
    let only = line(1, 2, 10, 7, false);
    let input = input(vec![only], false);
    let materialized = MaterializedOrder {
        order_id: 3001,
        lines: vec![line_read(only, 100, 14.0)],
    };

    let stage = build_stage_two(&input, &materialized).unwrap();
    assert_eq!(
        stage.operations.last().unwrap().statement_id,
        StatementId::Commit.wire_id()
    );
    assert_eq!(
        stage.operations[3].parameters,
        vec![
            WireValue::Int32(7),
            WireValue::Float32(7.0_f32.to_bits()),
            WireValue::Int32(0),
            WireValue::Int32(2),
            WireValue::Int32(10),
            WireValue::Int32(17),
        ]
    );
}

#[test]
fn repeated_stock_keys_choose_updates_from_simulated_relative_state() {
    let first = line(1, 2, 10, 8, false);
    let second = line(2, 2, 10, 8, false);
    let input = input(vec![first, second], false);
    let materialized = MaterializedOrder {
        order_id: 3001,
        lines: vec![line_read(first, 25, 8.0), line_read(second, 25, 8.0)],
    };

    let stage = build_stage_two(&input, &materialized).unwrap();
    assert_eq!(
        stage.operations[3].statement_id,
        StatementId::NewOrderUpdateStockNormal.wire_id()
    );
    assert_eq!(
        stage.operations[5].statement_id,
        StatementId::NewOrderUpdateStockWrapped.wire_id()
    );
    assert_eq!(
        stage.operations[5].parameters,
        vec![
            WireValue::Int32(8),
            WireValue::Float32(8.0_f32.to_bits()),
            WireValue::Int32(0),
            WireValue::Int32(2),
            WireValue::Int32(10),
            WireValue::Int32(18),
        ],
        "wrapped stock binds quantity and the public branch threshold"
    );
    assert_eq!(stage.recovery_lines.len(), 2);
    assert_eq!(stage.recovery_lines[0].stock_before.quantity, 25);
    assert_eq!(stage.recovery_lines[0].stock_after.quantity, 17);
    assert_eq!(
        stage.recovery_lines[0].stock_after.ytd_bits,
        8.0_f32.to_bits()
    );
    assert_eq!(stage.recovery_lines[0].stock_after.order_count, 1);
    assert_eq!(stage.recovery_lines[1].stock_before.quantity, 17);
    assert_eq!(stage.recovery_lines[1].stock_after.quantity, 100);
    assert_eq!(
        stage.recovery_lines[1].stock_after.ytd_bits,
        16.0_f32.to_bits()
    );
    assert_eq!(stage.recovery_lines[1].stock_after.order_count, 2);
}

fn readback_results(stage: &StageTwoPlan, _versions: &[StockVersion]) -> BatchResults {
    assert!(
        stage.stock_after_results.is_empty(),
        "no per-line stock read-backs are issued"
    );
    let results = Vec::new();
    accept_batch(
        BatchResponse::Complete {
            executed_operations: stage.operations.len() as u16,
            results,
        },
        &stage.operations,
    )
    .unwrap()
}

fn one_line_stage() -> StageTwoPlan {
    let only = line(1, 2, 10, 7, false);
    let input = input(vec![only], false);
    let materialized = MaterializedOrder {
        order_id: 3001,
        lines: vec![line_read(only, 100, 14.0)],
    };
    build_stage_two(&input, &materialized).unwrap()
}

#[test]
fn stock_readback_skipped_when_none_issued() {
    let stage = one_line_stage();
    assert!(stage.stock_after_results.is_empty());
    assert!(
        validate_stage_two_stock_readbacks(&readback_results(&stage, &[]), &stage).is_ok()
    );
}

#[test]
fn stock_readback_skipped_even_with_pending_versions() {
    let stage = one_line_stage();
    assert!(stage.stock_after_results.is_empty());
    let stale = stage.recovery_lines[0].stock_before;
    // No read-backs are issued, so any supplied read-back set is ignored
    // and validation trivially passes.
    assert!(
        validate_stage_two_stock_readbacks(&readback_results(&stage, &[stale]), &stage).is_ok()
    );
}

#[test]
fn amount_uses_one_finite_binary32_multiplication() {
    let price = f32::from_bits(1.0_f32.to_bits() + 1);
    assert_eq!(
        multiply_f32_bits(price.to_bits(), 7).unwrap(),
        (price * 7.0_f32).to_bits()
    );
    assert!(multiply_f32_bits(f32::INFINITY.to_bits(), 7).is_err());
    assert!(multiply_f32_bits(f32::MAX.to_bits(), 10).is_err());
}

fn route() -> RoutedTransaction {
    RoutedTransaction {
        kind: TransactionKind::NewOrder,
        stage: StageId::measurement(0),
        client_id: 1,
        txn_no: 1,
        home_warehouse: 2,
        home_district: 3,
        payment_customer_warehouse: 2,
    }
}

fn order(count: u8) -> NewOrderInput {
    NewOrderInput {
        customer_id: 17,
        lines: (1..=count)
            .map(|number| OrderLineInput {
                number,
                item_id: u32::from(number),
                supply_warehouse: 2,
                quantity: 5,
            })
            .collect(),
        expected_rollback: false,
        all_local: true,
    }
}

#[test]
fn input_is_checked_before_anything_is_sent() {
    let accepted = validate_input(&route(), &order(5), "2026-07-29").unwrap();
    assert_eq!(accepted.lines.len(), 5);
    assert_eq!(accepted.all_local, 1);
    assert_eq!(accepted.timestamp, b"2026-07-29");

    assert!(validate_input(&route(), &order(4), "2026-07-29").is_err());
    assert!(validate_input(&route(), &order(16), "2026-07-29").is_err());
    let mut other = route();
    other.kind = TransactionKind::Payment;
    assert!(validate_input(&other, &order(5), "2026-07-29").is_err());
    let mut remote = order(5);
    remote.lines[4].supply_warehouse = 9;
    assert!(validate_input(&route(), &remote, "2026-07-29").is_err());
    let mut unexpected = order(5);
    unexpected.lines[4].item_id = INVALID_ITEM_ID;
    assert!(validate_input(&route(), &unexpected, "2026-07-29").is_err());
    assert!(validate_input(&route(), &order(5), "").is_err());
}

#[test]
fn first_batch_places_are_where_the_reads_stand() {
    let accepted = validate_input(&route(), &order(6), "2026-07-29").unwrap();
    let plan = build_stage_one(&accepted);
    assert_eq!(
        plan.operations[plan.home_result].statement_id,
        StatementId::NewOrderHome.wire_id()
    );
    for (line, places) in accepted.lines.iter().zip(&plan.line_results) {
        assert_eq!(
            plan.operations[places.item].parameters,
            vec![WireValue::Int32(line.item_id)]
        );
        assert_eq!(
            plan.operations[places.stock].parameters,
            vec![WireValue::Int32(line.supply_warehouse), WireValue::Int32(line.item_id)]
        );
    }
}
