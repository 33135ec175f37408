//! Windowed analysis of log records: time windows, counts, message
//! patterns, frequency anomalies, error clusters, and the combination of two
//! record streams.
pub mod aggregate;
pub mod analyze;
pub mod combine;
pub mod config;
pub mod anomaly;
pub mod cli;
pub mod error;
pub mod export;
pub mod filter;
pub mod group;
pub mod models;
pub mod parser;
pub mod pattern;
pub mod ratio;
pub mod record;
pub mod tally;
pub mod text;
pub mod transform;
pub mod utils;
pub mod window;

pub use aggregate::LogAggregator;
pub use analyze::LogAnalyzer;
pub use cli::{Cli, Commands};
pub use combine::LogCombiner;
pub use config::LogifyConfig;
pub use error::LogifyError;
pub use filter::LogFilter;
pub use record::LogEntry;
pub use transform::LogTransformer;
