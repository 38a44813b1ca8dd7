use data_tracker::clock::{ClockReading, LocalPeriod};
use data_tracker::db::queries::{get_settings, update_settings, upsert_daily_usage, upsert_monthly_usage, UsageStore};
use data_tracker::monitor::alerts::{
    check_daily_summary, check_limits, crossed, evaluate_limits, parse_summary_time, summary_due,
    AlertState, Level,
};

fn at(year: i32, month: u32, day: u32, hour: u32, minute: u32) -> LocalPeriod {
    let clock = ClockReading { year, month, day, hour, minute, second: 0 };
    LocalPeriod {
        clock,
        date: clock.date(),
        timestamp: clock.timestamp(),
        month_key: clock.month_key(),
        year,
        month,
    }
}

#[test]
fn crossed_levels() {
    assert_eq!(crossed(1000, 1000, 80, 95), Some(Level::Limit));
    assert_eq!(crossed(1500, 1000, 80, 95), Some(Level::Limit));
    assert_eq!(crossed(950, 1000, 80, 95), Some(Level::Danger));
    assert_eq!(crossed(949, 1000, 80, 95), Some(Level::Warning));
    assert_eq!(crossed(800, 1000, 80, 95), Some(Level::Warning));
    assert_eq!(crossed(799, 1000, 80, 95), None);
    assert_eq!(crossed(0, 1000, 80, 95), None);
}

#[test]
fn crossed_thresholds_round_down() {
    // 999 * 95 / 100 = 949 and 999 * 80 / 100 = 799 in integer arithmetic.
    assert_eq!(crossed(949, 999, 80, 95), Some(Level::Danger));
    assert_eq!(crossed(799, 999, 80, 95), Some(Level::Warning));
    assert_eq!(crossed(798, 999, 80, 95), None);
}

#[test]
fn new_alert_state_is_empty() {
    let s = AlertState::new();
    assert_eq!(s.day_key, "");
    assert_eq!(s.month_key, "");
    assert_eq!(s.summary_date, "");
    assert!(!s.day_warning_sent && !s.day_danger_sent && !s.day_limit_sent);
    assert!(!s.month_warning_sent && !s.month_danger_sent && !s.month_limit_sent);
}

fn limits(daily: i64, monthly: i64, sound: bool) -> data_tracker::db::UserSettings {
    let mut store = UsageStore::new();
    update_settings(
        &mut store,
        Some(daily),
        Some(monthly),
        None,
        None,
        None,
        Some(sound),
        None,
        None,
        None,
        None,
        None,
        None,
        None,
    )
    .unwrap()
}

#[test]
fn each_level_alerts_once_per_day() {
    let settings = limits(1000, 0, true);
    let mut s = AlertState::new();
    let r = evaluate_limits(&mut s, "2024-05-01", "2024-05", &settings, 850, 0);
    assert_eq!(r.daily, Some(Level::Warning));
    assert_eq!(r.monthly, None);
    assert!(r.play_sound);
    let r = evaluate_limits(&mut s, "2024-05-01", "2024-05", &settings, 860, 0);
    assert_eq!(r.daily, None);
    assert!(!r.play_sound);
    let r = evaluate_limits(&mut s, "2024-05-01", "2024-05", &settings, 1200, 0);
    assert_eq!(r.daily, Some(Level::Limit));
    let r = evaluate_limits(&mut s, "2024-05-01", "2024-05", &settings, 1300, 0);
    assert_eq!(r.daily, None);
    // A new day clears the flags.
    let r = evaluate_limits(&mut s, "2024-05-02", "2024-05", &settings, 1300, 0);
    assert_eq!(r.daily, Some(Level::Limit));
    assert_eq!(s.day_key, "2024-05-02");
    assert!(s.day_limit_sent && !s.day_warning_sent);
}

#[test]
fn monthly_alerts_and_no_sound_when_off() {
    let settings = limits(0, 10_000, false);
    let mut s = AlertState::new();
    let r = evaluate_limits(&mut s, "2024-05-01", "2024-05", &settings, 999_999, 9_600);
    assert_eq!(r.daily, None);
    assert_eq!(r.monthly, Some(Level::Danger));
    assert!(!r.play_sound);
    let r = evaluate_limits(&mut s, "2024-05-02", "2024-05", &settings, 0, 9_700);
    assert_eq!(r.monthly, None);
    let r = evaluate_limits(&mut s, "2024-06-01", "2024-06", &settings, 0, 9_700);
    assert_eq!(r.monthly, Some(Level::Danger));
}

#[test]
fn summary_time_parsing() {
    assert_eq!(parse_summary_time("20:00"), Some((20, 0)));
    assert_eq!(parse_summary_time(" 7 : 05 "), Some((7, 5)));
    assert_eq!(parse_summary_time("20"), None);
    assert_eq!(parse_summary_time("20:00:00"), None);
    assert_eq!(parse_summary_time("ab:00"), None);
    assert_eq!(parse_summary_time("-1:00"), None);
}

#[test]
fn summary_is_due_once_per_day_after_its_time() {
    let mut store = UsageStore::new();
    let settings = update_settings(
        &mut store,
        None,
        None,
        None,
        None,
        None,
        None,
        None,
        None,
        None,
        None,
        None,
        Some(true),
        Some("20:30".to_string()),
    )
    .unwrap();
    let mut s = AlertState::new();
    assert!(!summary_due(&mut s, "2024-05-01", &settings, 20 * 60 + 29));
    assert!(summary_due(&mut s, "2024-05-01", &settings, 20 * 60 + 30));
    assert_eq!(s.summary_date, "2024-05-01");
    assert!(!summary_due(&mut s, "2024-05-01", &settings, 23 * 60));
    assert!(summary_due(&mut s, "2024-05-02", &settings, 21 * 60));
}

#[test]
fn summary_off_by_default() {
    let settings = get_settings(&UsageStore::new()).unwrap();
    let mut s = AlertState::new();
    assert!(!summary_due(&mut s, "2024-05-01", &settings, 23 * 60));
    assert_eq!(s.summary_date, "");
}

#[test]
fn check_limits_reads_the_store() {
    let mut store = UsageStore::new();
    update_settings(&mut store, Some(1000), Some(100_000), None, None, None, None, None, None, None, None, None, None, None)
        .unwrap();
    upsert_daily_usage(&mut store, "2024-05-01", "eth0", 500, 460, 0, 0).unwrap();
    upsert_monthly_usage(&mut store, 2024, 5, "eth0", 500, 460, 0, 0).unwrap();
    let mut s = AlertState::new();
    let now = at(2024, 5, 1, 12, 0);
    let c = check_limits(&store, &mut s, &now).unwrap();
    assert_eq!(c.day_total, 960);
    assert_eq!(c.month_total, 960);
    assert_eq!(c.daily_limit_bytes, 1000);
    assert_eq!(c.alerts.daily, Some(Level::Danger));
    assert_eq!(c.alerts.monthly, None);
    assert!(!c.alerts.play_sound);
    assert_eq!(s.day_key, "2024-05-01");
    assert_eq!(s.month_key, "2024-05");
    let c = check_limits(&store, &mut s, &now).unwrap();
    assert_eq!(c.alerts.daily, None);
}

#[test]
fn check_limits_silent_when_notifications_off() {
    let mut store = UsageStore::new();
    update_settings(&mut store, Some(10), None, None, None, Some(false), None, None, None, None, None, None, None, None)
        .unwrap();
    upsert_daily_usage(&mut store, "2024-05-01", "eth0", 500, 460, 0, 0).unwrap();
    let mut s = AlertState::new();
    assert!(check_limits(&store, &mut s, &at(2024, 5, 1, 12, 0)).is_none());
    assert_eq!(s.day_key, "");
}

#[test]
fn daily_summary_text() {
    let mut store = UsageStore::new();
    update_settings(&mut store, None, None, None, None, None, Some(true), None, None, None, None, None, Some(true), Some("20:00".to_string()))
        .unwrap();
    upsert_daily_usage(&mut store, "2024-05-01", "eth0", 1024, 1536, 0, 0).unwrap();
    let mut s = AlertState::new();
    assert!(check_daily_summary(&store, &mut s, &at(2024, 5, 1, 19, 59)).is_none());
    let d = check_daily_summary(&store, &mut s, &at(2024, 5, 1, 20, 0)).unwrap();
    assert_eq!(d.body, "Downloaded 1.50 KB · Uploaded 1.00 KB · Total 2.50 KB today");
    assert!(d.play_sound);
    assert!(check_daily_summary(&store, &mut s, &at(2024, 5, 1, 21, 0)).is_none());
}
