use vstd::prelude::*;

pub mod fee_point;
pub mod fee_stats;
pub mod text;
pub mod str_map;
pub mod clock;
pub mod sort;
pub mod error_tracker;
pub mod duplicate_removal;
pub mod gap_interpolation;
pub mod inspect;
pub mod convert;
pub mod log_rotation;
pub mod execution_timer;
pub mod timer_utility;
pub mod benchmark_overhead;
pub mod trace_context;
pub mod health_check;
pub mod metrics_collector;
pub mod monitoring_module;
pub mod analysis_instrumentation;
pub mod analysis_metrics;
pub mod simulation_metrics;
pub mod quality_json_report;
pub mod quality_text_report;
pub mod repair_subcommand;
pub mod compare_subcommand;
pub mod simulation_instrumentation;
