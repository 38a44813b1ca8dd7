use data_tracker::db::queries::{
    get_app_daily_breakdown_month, get_app_hourly_breakdown, get_daily_app_breakdown,
    get_daily_breakdown_for_month, get_daily_usage, get_hourly_breakdown, get_monthly_app_breakdown,
    get_monthly_usage, get_monthly_usage_rate, get_peak_hours_data, get_settings,
    get_today_usage_rate, get_usage_history, insert_app_usage, insert_snapshot, update_settings,
    upsert_app_daily_usage, upsert_app_monthly_usage, upsert_daily_usage, upsert_monthly_usage,
    DbError, Period, SnapshotRecord, TotalsRecord, UsageStore,
};

const BIG: u64 = 9_223_372_036_854_775_807;

#[test]
fn new_store_has_default_settings() {
    let store = UsageStore::new();
    let s = get_settings(&store).unwrap();
    assert_eq!(s.daily_limit_bytes, 0);
    assert_eq!(s.monthly_limit_bytes, 0);
    assert_eq!(s.warning_threshold_pct, 80);
    assert_eq!(s.danger_threshold_pct, 95);
    assert!(s.notifications_enabled);
    assert!(!s.sound_alerts_enabled);
    assert!(s.auto_start_enabled);
    assert!(s.minimize_to_tray);
    assert_eq!(s.theme, "auto");
    assert_eq!(s.data_retention_days, 90);
    assert_eq!(s.selected_adapter, "");
    assert!(!s.daily_summary_enabled);
    assert_eq!(s.daily_summary_time, "20:00");
}

#[test]
fn update_settings_replaces_only_given_values() {
    let mut store = UsageStore::new();
    let s = update_settings(
        &mut store,
        Some(1000),
        None,
        Some(70),
        None,
        Some(false),
        None,
        None,
        None,
        Some("dark".to_string()),
        None,
        None,
        Some(true),
        Some("21:30".to_string()),
    )
    .unwrap();
    assert_eq!(s.daily_limit_bytes, 1000);
    assert_eq!(s.monthly_limit_bytes, 0);
    assert_eq!(s.warning_threshold_pct, 70);
    assert_eq!(s.danger_threshold_pct, 95);
    assert!(!s.notifications_enabled);
    assert_eq!(s.theme, "dark");
    assert!(s.daily_summary_enabled);
    assert_eq!(s.daily_summary_time, "21:30");
    let again = get_settings(&store).unwrap();
    assert_eq!(again.daily_limit_bytes, 1000);
    assert_eq!(again.theme, "dark");
}

#[test]
fn daily_usage_reads_back_what_was_added() {
    let mut store = UsageStore::new();
    upsert_daily_usage(&mut store, "2024-05-01", "eth0", 100, 200, 10, 20).unwrap();
    let d = get_daily_usage(&store, "2024-05-01").unwrap();
    assert_eq!(d.date, "2024-05-01");
    assert_eq!(d.upload_bytes, 100);
    assert_eq!(d.download_bytes, 200);
    assert_eq!(d.total_bytes, 300);
    assert_eq!(d.peak_upload_speed, 10);
    assert_eq!(d.peak_download_speed, 20);
}

#[test]
fn upserting_twice_adds_bytes_and_keeps_peaks() {
    let mut store = UsageStore::new();
    upsert_daily_usage(&mut store, "2024-05-01", "eth0", 100, 200, 10, 50).unwrap();
    upsert_daily_usage(&mut store, "2024-05-01", "eth0", 1, 2, 30, 5).unwrap();
    let d = get_daily_usage(&store, "2024-05-01").unwrap();
    assert_eq!(d.upload_bytes, 101);
    assert_eq!(d.download_bytes, 202);
    assert_eq!(d.total_bytes, 303);
    assert_eq!(d.peak_upload_speed, 30);
    assert_eq!(d.peak_download_speed, 50);
    assert_eq!(store.daily_records().len(), 1);
}

#[test]
fn daily_usage_sums_adapters_and_ignores_other_days() {
    let mut store = UsageStore::new();
    upsert_daily_usage(&mut store, "2024-05-01", "eth0", 100, 200, 10, 20).unwrap();
    upsert_daily_usage(&mut store, "2024-05-01", "wlan0", 1, 2, 40, 3).unwrap();
    upsert_daily_usage(&mut store, "2024-05-02", "eth0", 1000, 1000, 99, 99).unwrap();
    let d = get_daily_usage(&store, "2024-05-01").unwrap();
    assert_eq!(d.total_bytes, 303);
    assert_eq!(d.peak_upload_speed, 40);
    assert_eq!(d.peak_download_speed, 20);
    let empty = get_daily_usage(&store, "2024-06-01").unwrap();
    assert_eq!(empty.total_bytes, 0);
    assert_eq!(empty.peak_upload_speed, 0);
}

#[test]
fn monthly_usage_reads_back() {
    let mut store = UsageStore::new();
    upsert_monthly_usage(&mut store, 2024, 5, "eth0", 5, 7, 1, 1).unwrap();
    upsert_monthly_usage(&mut store, 2024, 5, "wlan0", 1, 1, 1, 1).unwrap();
    upsert_monthly_usage(&mut store, 2024, 6, "eth0", 100, 100, 1, 1).unwrap();
    let m = get_monthly_usage(&store, 2024, 5).unwrap();
    assert_eq!(m.year, 2024);
    assert_eq!(m.month, 5);
    assert_eq!(m.upload_bytes, 6);
    assert_eq!(m.download_bytes, 8);
    assert_eq!(m.total_bytes, 14);
}

#[test]
fn out_of_range_values_are_refused() {
    let mut store = UsageStore::new();
    assert_eq!(upsert_daily_usage(&mut store, "2024-05-01", "eth0", BIG + 1, 0, 0, 0), Err(DbError::ValueOutOfRange));
    assert_eq!(store.daily_records().len(), 0);
    assert_eq!(insert_snapshot(&mut store, "2024-05-01 10:00:00", "eth0", BIG, 1, 0, 0), Err(DbError::ValueOutOfRange));
    assert_eq!(store.snapshot_records().len(), 0);
    assert_eq!(insert_app_usage(&mut store, "2024-05-01 10:00:00", "a", "", BIG, 1), Err(DbError::ValueOutOfRange));
    assert_eq!(DbError::ValueOutOfRange.message(), "out of range integral type conversion attempted");
}

#[test]
fn overflowing_sums_are_errors() {
    let mut store = UsageStore::new();
    upsert_daily_usage(&mut store, "2024-05-01", "eth0", BIG / 2, BIG / 2, 0, 0).unwrap();
    assert_eq!(upsert_daily_usage(&mut store, "2024-05-01", "eth0", 10, 0, 0, 0), Err(DbError::IntegerOverflow));
    upsert_daily_usage(&mut store, "2024-05-01", "wlan0", BIG / 2, BIG / 2, 0, 0).unwrap();
    assert_eq!(get_daily_usage(&store, "2024-05-01").err(), Some(DbError::IntegerOverflow));
    assert_eq!(DbError::IntegerOverflow.message(), "integer overflow");
}

#[test]
fn hourly_breakdown_groups_snapshots_by_hour() {
    let mut store = UsageStore::new();
    insert_snapshot(&mut store, "2024-05-01 09:15:00", "eth0", 10, 20, 0, 0).unwrap();
    insert_snapshot(&mut store, "2024-05-01 09:45:00", "eth0", 1, 2, 0, 0).unwrap();
    insert_snapshot(&mut store, "2024-05-01 13:00:00", "eth0", 5, 5, 0, 0).unwrap();
    insert_snapshot(&mut store, "2024-05-02 09:00:00", "eth0", 100, 100, 0, 0).unwrap();
    let rows = get_hourly_breakdown(&store, "2024-05-01").unwrap();
    assert_eq!(rows.len(), 2);
    assert_eq!((rows[0].hour, rows[0].download_bytes, rows[0].upload_bytes), (9, 22, 11));
    assert_eq!((rows[1].hour, rows[1].download_bytes, rows[1].upload_bytes), (13, 5, 5));
}

#[test]
fn app_hourly_breakdown_for_one_app() {
    let mut store = UsageStore::new();
    insert_app_usage(&mut store, "2024-05-01 08:10:00", "chrome.exe", "", 3, 4).unwrap();
    insert_app_usage(&mut store, "2024-05-01 08:50:00", "chrome.exe", "", 1, 1).unwrap();
    insert_app_usage(&mut store, "2024-05-01 08:20:00", "steam.exe", "", 100, 100).unwrap();
    let rows = get_app_hourly_breakdown(&store, "chrome.exe", "2024-05-01").unwrap();
    assert_eq!(rows.len(), 1);
    assert_eq!(rows[0].hour, 8);
    assert_eq!(rows[0].upload_bytes, 4);
    assert_eq!(rows[0].download_bytes, 5);
    assert_eq!(rows[0].total_bytes, 9);
}

#[test]
fn peak_hours_by_weekday_and_hour() {
    let mut store = UsageStore::new();
    // 2024-05-05 is a Sunday, 2024-05-06 a Monday.
    insert_snapshot(&mut store, "2024-05-05 10:00:00", "eth0", 1, 1, 0, 0).unwrap();
    insert_snapshot(&mut store, "2024-05-06 23:59:59", "eth0", 2, 3, 0, 0).unwrap();
    insert_snapshot(&mut store, "2024-05-12 10:30:00", "eth0", 4, 4, 0, 0).unwrap();
    insert_snapshot(&mut store, "2024-06-01 10:30:00", "eth0", 50, 50, 0, 0).unwrap();
    let cells = get_peak_hours_data(&store, "2024-05-01", "2024-06-01").unwrap();
    assert_eq!(cells.len(), 2);
    assert_eq!((cells[0].day_of_week, cells[0].hour, cells[0].total_bytes), (0, 10, 10));
    assert_eq!((cells[1].day_of_week, cells[1].hour, cells[1].total_bytes), (1, 23, 5));
}

#[test]
fn usage_history_is_inclusive_and_ordered() {
    let mut store = UsageStore::new();
    upsert_daily_usage(&mut store, "2024-05-03", "eth0", 1, 1, 0, 0).unwrap();
    upsert_daily_usage(&mut store, "2024-05-01", "eth0", 2, 2, 0, 0).unwrap();
    upsert_daily_usage(&mut store, "2024-05-01", "wlan0", 3, 3, 0, 0).unwrap();
    upsert_daily_usage(&mut store, "2024-05-09", "eth0", 9, 9, 0, 0).unwrap();
    let rows = get_usage_history(&store, "2024-05-01", "2024-05-03").unwrap();
    assert_eq!(rows.len(), 2);
    assert_eq!((rows[0].date.as_str(), rows[0].total_bytes), ("2024-05-01", 10));
    assert_eq!((rows[1].date.as_str(), rows[1].total_bytes), ("2024-05-03", 2));
}

#[test]
fn daily_breakdown_for_month() {
    let mut store = UsageStore::new();
    upsert_daily_usage(&mut store, "2024-02-29", "eth0", 1, 2, 0, 0).unwrap();
    upsert_daily_usage(&mut store, "2024-02-03", "eth0", 10, 20, 0, 0).unwrap();
    upsert_daily_usage(&mut store, "2024-02-03", "wlan0", 1, 1, 0, 0).unwrap();
    upsert_daily_usage(&mut store, "2024-03-01", "eth0", 7, 7, 0, 0).unwrap();
    let rows = get_daily_breakdown_for_month(&store, 2024, 2).unwrap();
    assert_eq!(rows.len(), 2);
    assert_eq!((rows[0].day, rows[0].download_bytes, rows[0].upload_bytes, rows[0].total_bytes), (3, 21, 11, 32));
    assert_eq!((rows[1].day, rows[1].download_bytes, rows[1].upload_bytes, rows[1].total_bytes), (29, 2, 1, 3));
}

#[test]
fn december_breakdown_ends_at_next_year() {
    let mut store = UsageStore::new();
    upsert_daily_usage(&mut store, "2023-12-31", "eth0", 1, 1, 0, 0).unwrap();
    upsert_daily_usage(&mut store, "2024-01-01", "eth0", 5, 5, 0, 0).unwrap();
    let rows = get_daily_breakdown_for_month(&store, 2023, 12).unwrap();
    assert_eq!(rows.len(), 1);
    assert_eq!(rows[0].day, 31);
}

#[test]
fn app_daily_breakdown_for_month() {
    let mut store = UsageStore::new();
    upsert_app_daily_usage(&mut store, "2024-05-02", "chrome.exe", 5, 6).unwrap();
    upsert_app_daily_usage(&mut store, "2024-05-02", "steam.exe", 50, 60).unwrap();
    upsert_app_daily_usage(&mut store, "2024-05-07", "chrome.exe", 1, 1).unwrap();
    let rows = get_app_daily_breakdown_month(&store, "chrome.exe", 2024, 5).unwrap();
    assert_eq!(rows.len(), 2);
    assert_eq!((rows[0].day, rows[0].download_bytes, rows[0].upload_bytes, rows[0].total_bytes), (2, 6, 5, 11));
    assert_eq!((rows[1].day, rows[1].total_bytes), (7, 2));
}

#[test]
fn app_breakdowns_sorted_by_total() {
    let mut store = UsageStore::new();
    upsert_app_daily_usage(&mut store, "2024-05-02", "a.exe", 1, 1).unwrap();
    upsert_app_daily_usage(&mut store, "2024-05-02", "b.exe", 10, 10).unwrap();
    upsert_app_daily_usage(&mut store, "2024-05-02", "c.exe", 5, 0).unwrap();
    upsert_app_daily_usage(&mut store, "2024-05-03", "d.exe", 99, 99).unwrap();
    let rows = get_daily_app_breakdown(&store, "2024-05-02").unwrap();
    let names: Vec<&str> = rows.iter().map(|r| r.app_name.as_str()).collect();
    assert_eq!(names, vec!["b.exe", "c.exe", "a.exe"]);
    assert_eq!(rows[0].total_bytes, 20);
    assert!(rows.iter().all(|r| r.period_total_bytes == 27));
    assert_eq!(rows.iter().map(|r| r.total_bytes).sum::<u64>(), 27);

    upsert_app_monthly_usage(&mut store, 2024, 5, "x.exe", 3, 3).unwrap();
    upsert_app_monthly_usage(&mut store, 2024, 5, "y.exe", 30, 3).unwrap();
    let rows = get_monthly_app_breakdown(&store, 2024, 5).unwrap();
    assert_eq!(rows.len(), 2);
    assert_eq!(rows[0].app_name, "y.exe");
    assert_eq!(rows[0].upload_bytes, 30);
    assert_eq!(rows[0].download_bytes, 3);
    assert_eq!(rows[1].app_name, "x.exe");
    assert_eq!(rows[0].period_total_bytes, 39);
}

#[test]
fn today_usage_rate_spans_first_to_last_minute() {
    let mut store = UsageStore::new();
    insert_snapshot(&mut store, "2024-05-01 09:15:00", "eth0", 10, 20, 0, 0).unwrap();
    insert_snapshot(&mut store, "2024-05-01 13:45:30", "eth0", 1, 2, 0, 0).unwrap();
    insert_snapshot(&mut store, "2024-05-02 01:00:00", "eth0", 100, 2, 0, 0).unwrap();
    let r = get_today_usage_rate(&store, "2024-05-01").unwrap();
    assert_eq!(r.total_bytes, 33);
    assert_eq!(r.first, Some(9 * 60 + 15));
    assert_eq!(r.last, Some(13 * 60 + 45));
    let none = get_today_usage_rate(&store, "2024-05-09").unwrap();
    assert_eq!(none.total_bytes, 0);
    assert_eq!(none.first, None);
    assert_eq!(none.last, None);
}

#[test]
fn monthly_usage_rate_spans_first_to_last_day() {
    let mut store = UsageStore::new();
    upsert_daily_usage(&mut store, "2024-05-04", "eth0", 1, 1, 0, 0).unwrap();
    upsert_daily_usage(&mut store, "2024-05-20", "eth0", 2, 2, 0, 0).unwrap();
    upsert_daily_usage(&mut store, "2024-06-01", "eth0", 50, 50, 0, 0).unwrap();
    let r = get_monthly_usage_rate(&store, 2024, 5).unwrap();
    assert_eq!(r.total_bytes, 6);
    assert_eq!(r.first, Some(4));
    assert_eq!(r.last, Some(20));
}

fn totals(period: Period, name: &str, up: u64, down: u64) -> TotalsRecord {
    TotalsRecord {
        period,
        name: name.to_string(),
        upload_bytes: up,
        download_bytes: down,
        total_bytes: up + down,
        peak_upload_speed: 0,
        peak_download_speed: 0,
    }
}

#[test]
fn from_tables_loads_valid_tables() {
    let settings = get_settings(&UsageStore::new()).unwrap();
    let daily = vec![
        totals(Period::Day("2024-05-01".to_string()), "eth0", 1, 2),
        totals(Period::Day("2024-05-01".to_string()), "wlan0", 3, 4),
    ];
    let snaps = vec![SnapshotRecord {
        timestamp: "2024-05-01 10:00:00".to_string(),
        adapter_name: "eth0".to_string(),
        upload_bytes: 1,
        download_bytes: 2,
        total_bytes: 3,
        upload_speed_bps: 0,
        download_speed_bps: 0,
    }];
    let store = UsageStore::from_tables(settings, snaps, vec![], daily, vec![], vec![], vec![]).unwrap();
    assert_eq!(get_daily_usage(&store, "2024-05-01").unwrap().total_bytes, 10);
    assert_eq!(store.snapshot_records().len(), 1);
}

#[test]
fn from_tables_refuses_duplicate_keys_and_big_values() {
    let settings = get_settings(&UsageStore::new()).unwrap();
    let dup = vec![
        totals(Period::Month(2024, 5), "eth0", 1, 2),
        totals(Period::Month(2024, 5), "eth0", 3, 4),
    ];
    assert!(UsageStore::from_tables(settings, vec![], vec![], vec![], vec![], dup, vec![]).is_none());
    let settings = get_settings(&UsageStore::new()).unwrap();
    let big = vec![totals(Period::Day("2024-05-01".to_string()), "eth0", BIG + 1, 0)];
    assert!(UsageStore::from_tables(settings, vec![], vec![], big, vec![], vec![], vec![]).is_none());
}

#[test]
fn hourly_breakdown_adds_up_to_the_day() {
    let mut store = UsageStore::new();
    for (ts, up, down) in [
        ("2024-05-01 00:00:01", 1u64, 2u64),
        ("2024-05-01 07:30:00", 10, 20),
        ("2024-05-01 07:59:59", 3, 4),
        ("2024-05-01 23:59:59", 5, 6),
        ("2024-05-02 07:30:00", 100, 200),
        ("not a timestamp", 1000, 1000),
    ] {
        insert_snapshot(&mut store, ts, "eth0", up, down, 0, 0).unwrap();
    }
    let hours = get_hourly_breakdown(&store, "2024-05-01").unwrap();
    let down: u64 = hours.iter().map(|h| h.download_bytes).sum();
    let up: u64 = hours.iter().map(|h| h.upload_bytes).sum();
    assert_eq!((up, down), (19, 32));
    assert_eq!(get_today_usage_rate(&store, "2024-05-01").unwrap().total_bytes, up + down);
}

#[test]
fn hourly_breakdown_reads_every_time_form() {
    let mut store = UsageStore::new();
    insert_snapshot(&mut store, "2024-05-01T09:15", "eth0", 1, 2, 0, 0).unwrap();
    insert_snapshot(&mut store, "2024-05-01 09:45:10.5", "eth0", 10, 20, 0, 0).unwrap();
    insert_snapshot(&mut store, "2024-05-01 12:00:00+02:00", "eth0", 100, 200, 0, 0).unwrap();
    insert_snapshot(&mut store, "2024-05-01 24:00:00", "eth0", 7, 7, 0, 0).unwrap();
    insert_snapshot(&mut store, "2024-05-01 9:00:00", "eth0", 1000, 1000, 0, 0).unwrap();
    let rows = get_hourly_breakdown(&store, "2024-05-01").unwrap();
    assert_eq!(rows.len(), 3);
    assert_eq!((rows[0].hour, rows[0].download_bytes, rows[0].upload_bytes), (9, 22, 11));
    assert_eq!((rows[1].hour, rows[1].download_bytes, rows[1].upload_bytes), (10, 200, 100));
    assert_eq!((rows[2].hour, rows[2].download_bytes, rows[2].upload_bytes), (24, 7, 7));
}

#[test]
fn daily_breakdown_reads_days_past_month_end() {
    let mut store = UsageStore::new();
    upsert_daily_usage(&mut store, "2024-02-30", "eth0", 1, 2, 0, 0).unwrap();
    upsert_daily_usage(&mut store, "2024-02-03", "eth0", 10, 20, 0, 0).unwrap();
    let rows = get_daily_breakdown_for_month(&store, 2024, 2).unwrap();
    assert_eq!(rows.len(), 2);
    assert_eq!((rows[0].day, rows[0].total_bytes), (1, 3));
    assert_eq!((rows[1].day, rows[1].total_bytes), (3, 30));
}

#[test]
fn peak_hours_take_the_weekday_of_the_instant() {
    let mut store = UsageStore::new();
    // 2024-05-05 is a Sunday; at 24:00 the instant is Monday's midnight.
    insert_snapshot(&mut store, "2024-05-05 24:00:00", "eth0", 1, 1, 0, 0).unwrap();
    let cells = get_peak_hours_data(&store, "2024-05-01", "2024-06-01").unwrap();
    assert_eq!(cells.len(), 1);
    assert_eq!((cells[0].day_of_week, cells[0].hour, cells[0].total_bytes), (1, 24, 2));
}
