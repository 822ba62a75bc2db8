//! Turning the text that `git status` and `git log` print into typed records.

pub mod error;
pub mod log;
pub mod log_laws;
pub mod status;
pub mod status_laws;
pub mod status_table;

pub use error::GuitParseError;
pub use log::{parse_log_output, Commit, CommitView, LogOutput};
pub use status::{parse_status_output, Path, StatusOutput, StatusPath, StatusPathView};
pub use status_table::StatusTable;
