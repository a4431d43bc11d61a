//! WebSocket load-testing library: configuration parsing, metric aggregation,
//! SLO gating and report rendering, with their contracts proved by Verus.

pub mod binary64;
pub mod cli;
pub mod config;
pub mod error;
pub mod hdr;
pub mod headers;
pub mod metrics;
pub mod numeric;
pub mod rate;
pub mod ratio;
pub mod report;
pub mod runner;
pub mod tables;
pub mod terminal;
pub mod text;
pub mod time;
pub mod tui;
pub mod worker;

pub use cli::{Cli, OutputFormat, TestMode};
pub use config::{LoadTestConfig, PayloadConfig, SloThresholds};
pub use error::{ConfigError, ErrorCategory, WorkerError, WsBlastError};
pub use metrics::{AggregatedMetrics, LatencyStats, LiveMetrics, LiveSnapshot, WorkerMetrics};
pub use report::{evaluate_slos, render_report, SloCheck, SloEvaluation};
pub use runner::Runner;
pub use tui::TuiApp;
pub use worker::WorkerSession;

use vstd::prelude::*;

verus! {

} // verus!
