use zsh_history_backup::archive::{
    archive_file_name, backup_stem, decide_after_attempt, export_stem, verify_complete_read,
    ArchiveError, ArchiveKind, ArchiveReport, PublishAttempt, PublishDecision,
};
use zsh_history_backup::date::CalendarDate;

fn export_report() -> ArchiveReport {
    ArchiveReport::Export {
        output: "/s/exports/2026-09-06_sunday.zsh-history.gz".to_string(),
        target_date: CalendarDate { year: 2026, month: 9, day: 6 },
        selected_entries: 3,
        timestamped_entries: 120,
        source_bytes: 4096,
    }
}

#[test]
fn backup_log_message() {
    let r = ArchiveReport::Backup { output: "/s/b/x.zsh-history.gz".to_string(), source_bytes: 1234 };
    assert_eq!(
        r.log_message("/home/u/.zsh_history"),
        "source=/home/u/.zsh_history output=/s/b/x.zsh-history.gz source_bytes=1234"
    );
    assert_eq!(r.output_path(), "/s/b/x.zsh-history.gz");
    assert_eq!(
        r.report_lines(),
        vec!["backup created: /s/b/x.zsh-history.gz".to_string(), "source bytes: 1234".to_string()]
    );
}

#[test]
fn export_log_message() {
    let r = export_report();
    assert_eq!(
        r.log_message("/h"),
        "source=/h output=/s/exports/2026-09-06_sunday.zsh-history.gz date=2026-09-06 selected_entries=3 timestamped_entries=120 source_bytes=4096"
    );
    assert_eq!(r.output_path(), "/s/exports/2026-09-06_sunday.zsh-history.gz");
    assert_eq!(
        r.report_lines(),
        vec![
            "export created: /s/exports/2026-09-06_sunday.zsh-history.gz".to_string(),
            "date: 2026-09-06".to_string(),
            "entries exported: 3".to_string(),
            "timestamped entries scanned: 120".to_string(),
            "source bytes scanned: 4096".to_string(),
        ]
    );
}

#[test]
fn zero_and_large_counts_are_written_in_decimal() {
    let r = ArchiveReport::Backup { output: "o".to_string(), source_bytes: 0 };
    assert_eq!(r.log_message("s"), "source=s output=o source_bytes=0");
    let r = ArchiveReport::Backup { output: "o".to_string(), source_bytes: u64::MAX };
    assert_eq!(r.log_message("s"), "source=s output=o source_bytes=18446744073709551615");
}

#[test]
fn stems() {
    assert_eq!(backup_stem("2026-09-06_00-00-00", None), "2026-09-06_00-00-00_full");
    assert_eq!(
        backup_stem("2026-09-06_00-00-00", Some("before-upgrade")),
        "2026-09-06_00-00-00_before-upgrade"
    );
    let d = CalendarDate { year: 2026, month: 9, day: 6 };
    assert_eq!(export_stem(&d, None), "2026-09-06_history");
    assert_eq!(export_stem(&d, Some("sunday")), "2026-09-06_sunday");
}

#[test]
fn archive_names_never_repeat() {
    assert_eq!(archive_file_name("s", 0), "s.zsh-history.gz");
    assert_eq!(archive_file_name("s", 1), "s-1.zsh-history.gz");
    assert_eq!(archive_file_name("s", 9999), "s-9999.zsh-history.gz");
    let mut seen = std::collections::HashSet::new();
    for i in 0..200u32 {
        assert!(seen.insert(archive_file_name("stem", i)));
    }
}

#[test]
fn publishing_tries_the_next_name_until_the_limit() {
    assert_eq!(decide_after_attempt(0, PublishAttempt::Published), PublishDecision::Finished);
    assert_eq!(decide_after_attempt(0, PublishAttempt::NameTaken), PublishDecision::TryNext(1));
    assert_eq!(decide_after_attempt(41, PublishAttempt::NameTaken), PublishDecision::TryNext(42));
    assert_eq!(decide_after_attempt(9998, PublishAttempt::NameTaken), PublishDecision::TryNext(9999));
    assert_eq!(decide_after_attempt(9999, PublishAttempt::NameTaken), PublishDecision::GiveUp);
    assert_eq!(decide_after_attempt(3, PublishAttempt::Failed), PublishDecision::Abort);
}

#[test]
fn incomplete_reads_are_not_published() {
    assert_eq!(verify_complete_read(ArchiveKind::Backup, 10, 10), Ok(()));
    let e = verify_complete_read(ArchiveKind::Backup, 10, 7).unwrap_err();
    assert_eq!(
        e.message("/h"),
        "/h changed while it was being read; no backup was published (expected 10 bytes, read 7)"
    );
    let e = ArchiveError::SourceChanged { kind: ArchiveKind::Export, expected: 5, read: 9 };
    assert_eq!(
        e.message("/h"),
        "/h changed while it was being read; no export was published (expected 5 bytes, read 9)"
    );
}

#[test]
fn other_error_messages() {
    assert_eq!(
        ArchiveError::NoTimestamps.message("/h"),
        "no EXTENDED_HISTORY timestamps were found in /h; no export was published"
    );
    assert_eq!(
        ArchiveError::NoUniqueName.message("/s/b"),
        "could not choose a unique archive name in /s/b"
    );
}
