use vstd::prelude::*;

use crate::name::{clean_log_text, clean_log_value};
use crate::text::{push_char, push_str};

verus! {

/// The operations the tool performs, as the log names them.
#[derive(Clone, Copy, Debug, PartialEq, Eq, Structural)]
pub enum Operation {
    Backup,
    Export,
}

/// The name of an operation in the log.
pub open spec fn operation_text(op: Operation) -> Seq<char> {
    match op {
        Operation::Backup => "backup"@,
        Operation::Export => "export"@,
    }
}

impl Operation {
    /// `backup` or `export`.
    pub fn operation_name(&self) -> (s: &'static str)
        ensures
            s@ == operation_text(*self),
    {
        match self {
            Operation::Backup => "backup",
            Operation::Export => "export",
        }
    }
}

/// One line of the log: timestamp, level, operation and message, separated
/// by tabs.
pub open spec fn log_line_text(timestamp: Seq<char>, level: Seq<char>, operation: Seq<char>, message: Seq<char>) -> Seq<char> {
    timestamp + seq!['\t'] + level + seq!['\t'] + operation + seq!['\t'] + message
}

/// The line that `append` writes to the log (without its newline).
pub fn log_line(timestamp: &str, level: &str, operation: &str, message: &str) -> (s: String)
    ensures
        s@ == log_line_text(timestamp@, level@, operation@, message@),
{
    let mut s = String::new();
    push_str(&mut s, timestamp);
    push_char(&mut s, '\t');
    push_str(&mut s, level);
    push_char(&mut s, '\t');
    push_str(&mut s, operation);
    push_char(&mut s, '\t');
    push_str(&mut s, message);
    assert(s@ =~= log_line_text(timestamp@, level@, operation@, message@));
    s
}

/// The log message of a failed run: the history file and the error, the
/// error put on one line.
pub open spec fn error_log_text(source: Seq<char>, error: Seq<char>) -> Seq<char> {
    "source="@ + source + " error="@ + clean_log_text(error)
}

/// The log message of a failed run (see `error_log_text`).
pub fn error_log_message(source: &str, error: &str) -> (s: String)
    ensures
        s@ == error_log_text(source@, error@),
{
    let mut s = String::new();
    push_str(&mut s, "source=");
    push_str(&mut s, source);
    push_str(&mut s, " error=");
    let cleaned = clean_log_value(error);
    push_str(&mut s, cleaned.as_str());
    assert(s@ =~= error_log_text(source@, error@));
    s
}

/// The message when an archive was made but its log line could not be written.
pub open spec fn log_update_failure_text(output: Seq<char>) -> Seq<char> {
    "archive was created at "@ + output + ", but the log could not be updated"@
}

/// The message when an archive was made but its log line could not be
/// written (see `log_update_failure_text`); `output` is the archive.
pub fn log_update_failure_message(output: &str) -> (s: String)
    ensures
        s@ == log_update_failure_text(output@),
{
    let mut s = String::new();
    push_str(&mut s, "archive was created at ");
    push_str(&mut s, output);
    push_str(&mut s, ", but the log could not be updated");
    assert(s@ =~= log_update_failure_text(output@));
    s
}

} // verus!
