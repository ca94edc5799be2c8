use std::collections::BTreeSet;

use tpcc_ranking::ranking::catalog::final2026_catalog;
use tpcc_ranking::ranking::catalog_checks::{validate_catalog, validate_runtime_catalog};
use tpcc_ranking::ranking::runtime_catalog::{runtime_catalog, RuntimeCatalog};
use tpcc_ranking::ranking::sql_text::parameter_ordinals;
use tpcc_ranking::ranking::stage_templates::{
    delivery_empty_stage, delivery_stages, new_order_expected_rollback_stage, new_order_stages,
    order_status_stages, payment_stages, stock_level_stages, Multiplicity,
};
use tpcc_ranking::ranking::statement_id::StatementId;
use tpcc_ranking::runtime_schema::{LogicalTable, RuntimeSchema};
use tpcc_ranking::wire::StatementKind;

#[test]
fn wrapped_stock_matches_public_conditional_shape() {
    let statement = final2026_catalog()
        .into_iter()
        .find(|statement| statement.id == StatementId::NewOrderUpdateStockWrapped.wire_id())
        .unwrap();

    assert_eq!(statement.param_types.len(), 6);
    assert!(statement.sql.contains("s_quantity = s_quantity - $1 + 91"));
    assert!(statement.sql.contains("s_quantity < $6"));
    assert_eq!(
        parameter_ordinals(&statement.sql).unwrap(),
        vec![1, 2, 3, 4, 5, 6]
    );
}

#[test]
fn stock_level_binds_both_order_bounds_without_sql_arithmetic() {
    let statement = final2026_catalog()
        .into_iter()
        .find(|statement| statement.id == StatementId::StockLevelCount.wire_id())
        .unwrap();

    assert_eq!(statement.param_types.len(), 5);
    assert!(statement.sql.contains("ol_o_id >= $3"));
    assert!(statement.sql.contains("ol_o_id < $4"));
    assert!(statement.sql.contains("s_quantity < $5"));
    assert!(!statement.sql.contains("$3 - 20"));
    assert_eq!(
        parameter_ordinals(&statement.sql).unwrap(),
        vec![1, 2, 3, 4, 5]
    );
}

#[test]
fn opaque_catalog_is_seed_specific_and_stable_across_32_sessions() {
    let first = RuntimeSchema::opaque(73).unwrap();
    let second = RuntimeSchema::opaque(74).unwrap();
    let first_catalog = runtime_catalog(&first).unwrap();
    let second_catalog = runtime_catalog(&second).unwrap();
    assert_ne!(
        first_catalog
            .iter()
            .map(|statement| statement.id)
            .collect::<Vec<_>>(),
        second_catalog
            .iter()
            .map(|statement| statement.id)
            .collect::<Vec<_>>()
    );

    for schema in [&first, &second] {
        let expected = runtime_catalog(schema).unwrap();
        let ids = expected
            .iter()
            .map(|statement| statement.id)
            .collect::<BTreeSet<_>>();
        assert_eq!(ids.len(), StatementId::all().len());
        assert!(!ids.contains(&0));
        for session in 0..32 {
            assert_eq!(
                runtime_catalog(schema).unwrap(),
                expected,
                "session {session} diverged from its run catalogue"
            );
        }
    }
}

#[test]
fn opaque_catalog_renders_sql_and_declared_aliases_together() {
    let schema = RuntimeSchema::opaque(2026).unwrap();
    let runtime = RuntimeCatalog::from_schema(&schema).unwrap();
    let catalog = runtime.statements();
    let payment_id = schema
        .statements()
        .id(StatementId::PaymentWarehouse.key())
        .unwrap();
    let payment = catalog
        .iter()
        .find(|statement| statement.id == payment_id)
        .unwrap();
    assert_eq!(payment.id, payment_id);
    assert!(payment.sql.contains(schema.table(LogicalTable::Warehouse)));
    assert!(!payment.sql.contains(" FROM warehouse "));
    validate_runtime_catalog(&catalog, &schema).unwrap();
    assert_eq!(runtime.schema_fingerprint(), schema.fingerprint());
    assert_eq!(runtime.statement_layout(), schema.statements());
}

#[test]
fn logical_catalogue_is_valid_and_complete() {
    let catalog = final2026_catalog();
    assert_eq!(catalog.len(), 42);
    validate_catalog(&catalog).unwrap();
    for (statement, id) in catalog.iter().zip(StatementId::all()) {
        assert_eq!(statement.id, id.wire_id());
    }
}

#[test]
fn catalogue_checks_name_what_is_wrong() {
    let mut repeated = final2026_catalog();
    repeated[1].id = 1;
    assert_eq!(
        validate_catalog(&repeated).unwrap_err().message(),
        "duplicate statement id 1"
    );
    let mut reserved = final2026_catalog();
    reserved[0].id = 0;
    assert_eq!(
        validate_catalog(&reserved).unwrap_err().message(),
        "statement id 0 is reserved"
    );
    let mut absent = final2026_catalog();
    absent.pop();
    assert_eq!(
        validate_catalog(&absent).unwrap_err().message(),
        "stage references absent statement 90"
    );
    let mut sparse = final2026_catalog();
    sparse[3].sql = sparse[3].sql.replace("$2", "$5");
    assert_eq!(
        validate_catalog(&sparse).unwrap_err().message(),
        "statement 10 parameter markers {1, 3, 5} do not match dense schema {1, 2, 3}"
    );
    let mut output = final2026_catalog();
    output[0].sql = "set output_file off;".to_owned();
    assert_eq!(
        validate_catalog(&output).unwrap_err().message(),
        "statement 1 changes output-file state"
    );
    let mut alias = final2026_catalog();
    if let StatementKind::Query { columns } = &mut alias[3].kind {
        columns[0].name = "discount".to_owned();
    }
    assert_eq!(
        validate_catalog(&alias).unwrap_err().message(),
        "query statement 10 does not project fixed alias discount"
    );
    assert_eq!(
        validate_catalog(&[]).unwrap_err().message(),
        "catalogue must contain between 1 and 256 statements"
    );
}

#[test]
fn parameter_markers_are_numbers_from_one_on() {
    assert_eq!(parameter_ordinals("$2 $1 $2 $10").unwrap(), vec![1, 2, 10]);
    assert_eq!(parameter_ordinals("no marker").unwrap(), Vec::<usize>::new());
    assert_eq!(
        parameter_ordinals("a $").unwrap_err().message(),
        "invalid parameter marker at byte 2"
    );
    assert_eq!(
        parameter_ordinals("$0").unwrap_err().message(),
        "$0 is not a valid parameter marker"
    );
    assert_eq!(
        parameter_ordinals("x$99999999999999999999999").unwrap_err().message(),
        "parameter marker at byte 1 overflows"
    );
}

#[test]
fn rendering_renames_identifiers_and_nothing_else() {
    let schema = RuntimeSchema::opaque(5).unwrap();
    let warehouse = schema.table(LogicalTable::Warehouse).to_owned();
    assert_eq!(
        schema.render_sql("SELECT x FROM warehouse, warehouses WHERE 'é';"),
        format!("SELECT x FROM {warehouse}, warehouses WHERE 'é';")
    );
    assert_eq!(
        schema.statements().id("no.such").unwrap_err().message(),
        "unknown statement key no.such"
    );
    let mut broken = schema.clone();
    broken.layout.ids[7] = broken.layout.ids[6];
    assert!(runtime_catalog(&broken)
        .unwrap_err()
        .message()
        .starts_with("invalid runtime schema: duplicate statement id "));
}

#[test]
fn plans_begin_and_end_their_transactions() {
    for stages in [
        new_order_stages(),
        payment_stages(),
        order_status_stages(),
        delivery_stages(),
        stock_level_stages(),
    ] {
        assert_eq!(stages[0].steps[0].alternatives, vec![StatementId::Begin]);
        let last = stages.last().unwrap();
        assert_eq!(last.round_trip as usize, stages.len());
        assert_eq!(last.steps.last().unwrap().alternatives, vec![StatementId::Commit]);
    }
    assert_eq!(
        new_order_expected_rollback_stage().steps[0].alternatives,
        vec![StatementId::Abort]
    );
    assert_eq!(delivery_empty_stage().steps[0].multiplicity, Multiplicity::Once);
}
