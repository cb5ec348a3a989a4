use chrono::{Datelike, Local, TimeZone};
use zsh_history_backup::archive::ArchiveError;
use zsh_history_backup::archive::ArchiveKind;
use zsh_history_backup::date::CalendarDate;
use zsh_history_backup::history::{parse_extended_history_timestamp, ExportScan};

#[test]
fn header_timestamp_is_read() {
    assert_eq!(parse_extended_history_timestamp(b": 1700000000:0;ls -la\n"), Some(1700000000));
    assert_eq!(parse_extended_history_timestamp(b": 1700000000:12;"), Some(1700000000));
    assert_eq!(parse_extended_history_timestamp(b": 0:0;echo"), Some(0));
    assert_eq!(parse_extended_history_timestamp(b": 007:3;x"), Some(7));
}

#[test]
fn negative_timestamps_are_read() {
    assert_eq!(parse_extended_history_timestamp(b": -42:0;cmd"), Some(-42));
    assert_eq!(parse_extended_history_timestamp(b": -0:0;cmd"), Some(0));
    assert_eq!(
        parse_extended_history_timestamp(b": -9223372036854775808:0;cmd"),
        Some(i64::MIN)
    );
}

#[test]
fn timestamps_beyond_i64_are_not_headers() {
    assert_eq!(
        parse_extended_history_timestamp(b": 9223372036854775807:0;cmd"),
        Some(i64::MAX)
    );
    assert_eq!(parse_extended_history_timestamp(b": 9223372036854775808:0;cmd"), None);
    assert_eq!(parse_extended_history_timestamp(b": -9223372036854775809:0;cmd"), None);
    assert_eq!(
        parse_extended_history_timestamp(b": 99999999999999999999999:0;cmd"),
        None
    );
}

#[test]
fn malformed_headers_are_not_headers() {
    assert_eq!(parse_extended_history_timestamp(b"ls -la"), None);
    assert_eq!(parse_extended_history_timestamp(b""), None);
    assert_eq!(parse_extended_history_timestamp(b":"), None);
    assert_eq!(parse_extended_history_timestamp(b":1700000000:0;ls"), None);
    assert_eq!(parse_extended_history_timestamp(b": 1700000000;ls"), None);
    assert_eq!(parse_extended_history_timestamp(b": :0;ls"), None);
    assert_eq!(parse_extended_history_timestamp(b": -:0;ls"), None);
    assert_eq!(parse_extended_history_timestamp(b": 1-2:0;ls"), None);
    assert_eq!(parse_extended_history_timestamp(b": +5:0;ls"), None);
    assert_eq!(parse_extended_history_timestamp(b": 17:;ls"), None);
    assert_eq!(parse_extended_history_timestamp(b": 17:1a;ls"), None);
    assert_eq!(parse_extended_history_timestamp(b": 17:-1;ls"), None);
    assert_eq!(parse_extended_history_timestamp(b": 17:5"), None);
}

#[test]
fn header_with_raw_non_utf8_command_is_read() {
    assert_eq!(parse_extended_history_timestamp(b": 12:0;\xff\xfe\n"), Some(12));
}

#[test]
fn written_header_reads_back() {
    for t in [0i64, 1, 9, 10, 1700000000, -1, -1700000000, i64::MAX, i64::MIN] {
        let line = format!(": {t}:17;echo {t}\n");
        assert_eq!(parse_extended_history_timestamp(line.as_bytes()), Some(t));
    }
}

fn day(year: i32, month: u32, day: u32) -> CalendarDate {
    CalendarDate { year, month, day }
}

#[test]
fn scan_keeps_entries_of_the_target_date_with_their_continuation_lines() {
    let target = day(2026, 9, 6);
    let mut scan = ExportScan::new(target);
    assert!(!scan.advance(5, None));
    assert!(scan.advance(20, Some(Some(target))));
    assert!(scan.advance(7, None));
    assert!(!scan.advance(20, Some(Some(day(2026, 9, 5)))));
    assert!(!scan.advance(3, None));
    assert!(!scan.advance(20, Some(None)));
    assert!(scan.advance(20, Some(Some(target))));
    assert_eq!(scan.source_bytes_read, 95);
    assert_eq!(scan.timestamped_entries, 4);
    assert_eq!(scan.selected_entries, 2);
    assert!(scan.include_current_entry);
    assert_eq!(scan.target_date, target);
}

#[test]
fn scan_line_uses_the_local_date_of_the_timestamp() {
    let timestamp: i64 = 1_700_000_000;
    let local = Local.timestamp_opt(timestamp, 0).single().unwrap().date_naive();
    let target = day(local.year(), local.month(), local.day());
    let mut scan = ExportScan::new(target);
    let header = format!(": {timestamp}:0;make test\n");
    assert!(scan.scan_line(header.as_bytes()));
    assert!(scan.scan_line(b"continued line\n"));
    let other = format!(": {}:0;ls\n", timestamp + 3 * 86_400);
    assert!(!scan.scan_line(other.as_bytes()));
    assert!(!scan.scan_line(b"plain\n"));
    assert_eq!(scan.timestamped_entries, 2);
    assert_eq!(scan.selected_entries, 1);
    assert_eq!(
        scan.source_bytes_read as usize,
        header.len() + 15 + other.len() + 6
    );
}

#[test]
fn scan_finish_checks_size_and_headers() {
    let target = day(2026, 9, 6);
    let mut scan = ExportScan::new(target);
    scan.advance(10, None);
    assert_eq!(scan.finish(10), Err(ArchiveError::NoTimestamps));
    assert_eq!(
        scan.finish(11),
        Err(ArchiveError::SourceChanged { kind: ArchiveKind::Export, expected: 11, read: 10 })
    );
    scan.advance(10, Some(Some(day(2020, 1, 1))));
    assert_eq!(scan.finish(20), Ok(()));
    assert_eq!(scan.selected_entries, 0);
}

#[test]
fn scanning_a_header_at_the_end_of_the_date_range_does_not_panic() {
    let mut scan = ExportScan::new(day(262142, 12, 31));
    scan.scan_line(b": 8210266876799:0;x\n");
    scan.scan_line(b": 9223372036854775807:0;x\n");
    assert_eq!(scan.timestamped_entries, 2);
}
