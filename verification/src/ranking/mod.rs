//! Ranked transactions: statements, runners and the evidence they leave.
pub mod account_history_law;
pub mod account_law;
pub mod audit_digest;
pub mod batch_law;
pub mod bounded_laws;
pub mod bounded_merge_law;
pub mod bounded_stats;
pub mod bounded_terminal;
pub mod bounded_totals;
pub mod canonical;
pub mod canonical_hex;
pub mod catalog;
pub mod catalog_checks;
pub mod collector_edge_law;
pub mod collector_order_law;
pub mod collector_seal_law;
pub mod common;
pub mod core_artifact_codec;
pub mod core_artifact_law;
pub mod customer_chain;
pub mod customer_order_law;
pub mod delivery;
pub mod delivery_commit;
pub mod delivery_flow;
pub mod delivery_law;
pub mod delivery_locks;
pub mod delivery_read_law;
pub mod delivery_rows;
pub mod delivery_store_law;
pub mod dispatch;
pub mod event_lines;
pub mod evidence_collector;
pub mod failure_texts;
pub mod flow;
pub mod flow_laws;
pub mod identity_set;
pub mod interval_pending;
pub mod interval_restore;
pub mod interval_runs;
pub mod interval_sections;
pub mod interval_sections_law;
pub mod ledger;
pub mod ledger_decode;
pub mod ledger_event_canon;
pub mod ledger_event_law;
pub mod ledger_event_text;
pub mod ledger_events;
pub mod ledger_layout_law;
pub mod ledger_merge_law;
pub mod ledger_rules;
pub mod ledger_text;
pub mod ledger_text_law;
pub mod ledger_totals_law;
pub mod new_order;
pub mod new_order_evidence_law;
pub mod new_order_flow;
pub mod new_order_read_law;
pub mod new_order_rows;
pub mod new_order_store_law;
pub mod new_order_writes;
pub mod order_status;
pub mod order_status_flow;
pub mod order_status_store_law;
pub mod payment;
pub mod payment_completion_law;
pub mod payment_data_law;
pub mod payment_endpoints;
pub mod payment_flow;
pub mod payment_law;
pub mod payment_order_law;
pub mod payment_seal_law;
pub mod payment_store_law;
pub mod payment_serial_law;
pub mod plan_law;
pub mod projection_law;
pub mod row_checks;
pub mod run_ledger;
pub mod runner;
pub mod runtime_catalog;
pub mod section_end_law;
pub mod section_layout_law;
pub mod sql_law;
pub mod sql_text;
pub mod stage_templates;
pub mod statement_id;
pub mod statement_law;
pub mod stats_ledger_law;
pub mod stock_chain;
pub mod stock_order_law;
pub mod store_model;
pub mod store_queries;
pub mod terminal_law;
