use zsh_history_backup::logging::{error_log_message, log_line, log_update_failure_message, Operation};

#[test]
fn log_lines_are_tab_separated() {
    assert_eq!(
        log_line("2026-09-06T00:00:00+07:00", "INFO", "backup", "source=/h"),
        "2026-09-06T00:00:00+07:00\tINFO\tbackup\tsource=/h"
    );
}

#[test]
fn operations_have_log_names() {
    assert_eq!(Operation::Backup.operation_name(), "backup");
    assert_eq!(Operation::Export.operation_name(), "export");
}

#[test]
fn error_messages_are_logged_on_one_line() {
    assert_eq!(
        error_log_message("/h", "failed to open /h\nCaused by:\n\tNo such file"),
        "source=/h error=failed to open /h Caused by:  No such file"
    );
}

#[test]
fn log_failure_names_the_archive() {
    assert_eq!(
        log_update_failure_message("/s/b/x.zsh-history.gz"),
        "archive was created at /s/b/x.zsh-history.gz, but the log could not be updated"
    );
}
