//! Verified core of a tool that backs up and exports Zsh `EXTENDED_HISTORY`
//! files: reading history headers, choosing what an export keeps, checking
//! archive labels, naming archives, working out paths, and the text of logs
//! and reports.
pub mod archive;
pub mod config;
pub mod date;
pub mod history;
pub mod logging;
pub mod name;
pub mod paths;
pub mod text;

pub use archive::ArchiveReport;
pub use config::AppConfig;
pub use date::{parse_date, CalendarDate};
pub use history::{parse_extended_history_timestamp, ExportScan};
pub use name::{clean_log_value, parse_name};
pub use paths::AppPaths;
