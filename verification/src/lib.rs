//! Scheduling, execution rules and evidence of the ranked TPC-C benchmark.
pub mod accumulator;
pub mod binary32;
pub mod binary32_law;
pub mod checks;
pub mod consistency;
pub mod fields;
pub mod keyed;
pub mod measurement;
pub mod phase_history;
pub mod phase_laws;
pub mod phase_messages;
pub mod phase_model;
pub mod phase_promises;
pub mod phase_scheduler;
pub mod phase_time_law;
pub mod phases;
pub mod profile;
pub mod profile_law;
pub mod ranking;
pub mod render_law;
pub mod runtime_schema;
pub mod text;
pub mod time;
pub mod transaction;
pub mod window_end_law;
pub mod window_law;
pub mod window_record_law;
pub mod wire;
pub mod workload;
