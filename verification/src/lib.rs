//! Decoding and aggregation of editor session logs.
//!
//! A log is a sequence of lines written by an instrumented editor. Each line
//! is read into a [`LogEntry`] whose [`LogEvent`] is decoded from a
//! dot-separated identifier and a payload. Entries are grouped by [`Task`]
//! into a [`LogFile`]; each task's [`Log`] can be summarized into a
//! [`Summary`], and the summaries of two tasks can be laid side by side.

pub mod compare;
pub mod decimal;
pub mod event;
pub mod log;
pub mod log_file;
pub mod record;
pub mod summary;
pub mod task;
pub mod text;

pub use compare::{compare, zip_option};
pub use event::LogEvent;
pub use log::{Log, LogEntry};
pub use log_file::{LogFile, Report, TaskLog};
pub use record::parse_line;
pub use summary::{AggregationError, CallRow, Ratio, Summary};
pub use task::Task;
