use chrono::{Datelike, NaiveDate};
use zsh_history_backup::date::{
    backup_timestamp, export_target_date, local_date_of_timestamp, parse_date, CalendarDate,
    DateSelector,
};

fn d(year: i32, month: u32, day: u32) -> CalendarDate {
    CalendarDate { year, month, day }
}

#[test]
fn date_text_matches_chrono() {
    assert_eq!(d(2026, 9, 6).to_text(), "2026-09-06");
    assert_eq!(d(5, 1, 31).to_text(), "0005-01-31");
    assert_eq!(d(-1, 12, 1).to_text(), "-0001-12-01");
    assert_eq!(d(10000, 2, 29).to_text(), "+10000-02-29");
    for (y, m, dd) in [(2026, 9, 6), (0, 1, 1), (9999, 12, 31), (-44, 3, 15), (12345, 6, 7), (-262143, 1, 1)] {
        let n = NaiveDate::from_ymd_opt(y, m, dd).unwrap();
        assert_eq!(d(y, m, dd).to_text(), n.to_string());
    }
}

#[test]
fn date_arguments() {
    assert_eq!(parse_date("2026-09-06"), Ok(d(2026, 9, 6)));
    assert_eq!(parse_date("2026-9-6"), Ok(d(2026, 9, 6)));
    assert_eq!(parse_date("2026/09/06"), Err("date must use YYYY-MM-DD format".to_string()));
    assert_eq!(parse_date("2026-02-30"), Err("date must use YYYY-MM-DD format".to_string()));
    assert_eq!(parse_date(""), Err("date must use YYYY-MM-DD format".to_string()));
}

#[test]
fn target_dates() {
    let today = d(2026, 3, 1);
    assert_eq!(export_target_date(DateSelector::DaysAgo(0), today), Ok(today));
    assert_eq!(export_target_date(DateSelector::DaysAgo(1), today), Ok(d(2026, 2, 28)));
    assert_eq!(export_target_date(DateSelector::DaysAgo(3), today), Ok(d(2026, 2, 26)));
    assert_eq!(export_target_date(DateSelector::Date(d(2020, 1, 1)), today), Ok(d(2020, 1, 1)));
    assert_eq!(
        export_target_date(DateSelector::DaysAgo(u32::MAX), today),
        Err("days-ago is outside the supported date range".to_string())
    );
    let expected = NaiveDate::from_ymd_opt(2026, 3, 1)
        .unwrap()
        .checked_sub_days(chrono::Days::new(400))
        .unwrap();
    assert_eq!(
        export_target_date(DateSelector::DaysAgo(400), today),
        Ok(d(expected.year(), expected.month(), expected.day()))
    );
}

#[test]
fn backup_timestamps() {
    assert_eq!(backup_timestamp(&d(2026, 9, 6), 0, 0, 0), "2026-09-06_00-00-00");
    assert_eq!(backup_timestamp(&d(2026, 12, 31), 23, 5, 9), "2026-12-31_23-05-09");
    let n = NaiveDate::from_ymd_opt(2026, 1, 2).unwrap().and_hms_opt(3, 4, 5).unwrap();
    assert_eq!(
        backup_timestamp(&d(2026, 1, 2), 3, 4, 5),
        n.format("%Y-%m-%d_%H-%M-%S").to_string()
    );
}

#[test]
fn local_dates_stay_near_the_utc_date() {
    let utc = chrono::DateTime::from_timestamp(1_700_000_000, 0).unwrap().date_naive();
    let local = local_date_of_timestamp(1_700_000_000).unwrap();
    let local = NaiveDate::from_ymd_opt(local.year, local.month, local.day).unwrap();
    assert!((local - utc).num_days().abs() <= 1);
}

#[test]
fn local_dates_at_the_edge_of_the_range_do_not_panic() {
    let last = local_date_of_timestamp(8_210_266_876_799);
    if let Some(date) = last {
        assert!(NaiveDate::from_ymd_opt(date.year, date.month, date.day).is_some());
    }
    assert_eq!(local_date_of_timestamp(i64::MAX), None);
    assert_eq!(local_date_of_timestamp(i64::MIN), None);
}
