use data_tracker::commands::network::{get_adapters, get_app_usage_realtime, NetworkSpeed};
use data_tracker::commands::settings::{get_settings, update_settings};
use data_tracker::commands::theme::{get_system_theme, theme_info_for, ColorScheme};
use data_tracker::commands::usage::{
    get_app_daily_breakdown_month, get_app_hourly_breakdown, get_daily_breakdown, get_daily_usage,
    get_hourly_breakdown, get_monthly_usage, get_peak_hours_heatmap, get_usage_history,
};
use data_tracker::db::queries::{
    insert_app_usage, insert_snapshot, upsert_app_daily_usage, upsert_daily_usage,
    upsert_monthly_usage, UsageStore,
};
use data_tracker::monitor::adapter::{InterfaceRow, IF_OPER_STATUS_UP};

#[test]
fn theme_follows_scheme() {
    let d = theme_info_for(ColorScheme::Dark);
    assert_eq!((d.theme.as_str(), d.is_dark), ("dark", true));
    let l = theme_info_for(ColorScheme::Light);
    assert_eq!((l.theme.as_str(), l.is_dark), ("light", false));
    let n = theme_info_for(ColorScheme::Default);
    assert_eq!((n.theme.as_str(), n.is_dark), ("light", false));
    let t = get_system_theme().unwrap();
    assert_eq!(t.theme, if t.is_dark { "dark" } else { "light" });
}

#[test]
fn settings_round_trip() {
    let mut store = UsageStore::new();
    let s = get_settings(&store).unwrap();
    assert_eq!(s.warning_threshold_pct, 80);
    assert_eq!(s.theme, "auto");
    let s = update_settings(
        &mut store,
        None,
        Some(5_000_000),
        None,
        Some(90),
        None,
        Some(true),
        Some(false),
        None,
        None,
        Some(30),
        Some("eth0".to_string()),
        Some(true),
        Some("21:15".to_string()),
    )
    .unwrap();
    assert!(s.daily_summary_enabled);
    assert_eq!(s.daily_summary_time, "21:15");
    assert_eq!(s.monthly_limit_bytes, 5_000_000);
    assert_eq!(s.danger_threshold_pct, 90);
    assert!(s.sound_alerts_enabled);
    assert!(!s.auto_start_enabled);
    assert_eq!(s.data_retention_days, 30);
    assert_eq!(s.selected_adapter, "eth0");
    let again = get_settings(&store).unwrap();
    assert_eq!(again.selected_adapter, "eth0");
    assert!(again.daily_summary_enabled);
    assert_eq!(again.daily_summary_time, "21:15");
    let s = update_settings(&mut store, None, None, None, None, None, None, None, None, None, None, None, None, None)
        .unwrap();
    assert_eq!(s.daily_summary_time, "21:15");
    assert_eq!(s.monthly_limit_bytes, 5_000_000);
}

#[test]
fn network_commands() {
    let sp = NetworkSpeed::new();
    assert_eq!((sp.download_speed, sp.upload_speed, sp.total_download, sp.total_upload), (0, 0, 0, 0));
    assert_eq!(sp.adapter_name, "");
    assert!(get_app_usage_realtime().unwrap().is_empty());
    let rows = vec![
        InterfaceRow {
            luid: 0,
            oper_status: IF_OPER_STATUS_UP,
            in_octets: 0,
            out_octets: 0,
            transmit_link_speed: 0,
            alias: vec![65, 0],
            description: vec![66, 0],
        },
        InterfaceRow {
            luid: 7,
            oper_status: IF_OPER_STATUS_UP,
            in_octets: 0,
            out_octets: 0,
            transmit_link_speed: 100,
            alias: "Ethernet".encode_utf16().collect(),
            description: "Intel(R) Ethernet".encode_utf16().chain([0, 0]).collect(),
        },
    ];
    let list = get_adapters(&rows).unwrap();
    assert_eq!(list.len(), 1);
    assert_eq!(list[0].name, "Ethernet");
    assert_eq!(list[0].description, "Intel(R) Ethernet");
    assert!(list[0].is_connected);
    assert_eq!(list[0].speed, 100);
}

#[test]
fn usage_commands() {
    let mut store = UsageStore::new();
    upsert_daily_usage(&mut store, "2024-05-05", "eth0", 10, 20, 3, 4).unwrap();
    upsert_monthly_usage(&mut store, 2024, 5, "eth0", 10, 20, 3, 4).unwrap();
    insert_snapshot(&mut store, "2024-05-05 07:10:00", "eth0", 10, 20, 3, 4).unwrap();
    insert_app_usage(&mut store, "2024-05-05 07:10:00", "a.exe", "", 1, 2).unwrap();
    upsert_app_daily_usage(&mut store, "2024-05-05", "a.exe", 1, 2).unwrap();

    let d = get_daily_usage(&store, "2024-05-05").unwrap();
    assert_eq!((d.date.as_str(), d.total_bytes, d.peak_upload_speed), ("2024-05-05", 30, 3));
    let m = get_monthly_usage(&store, 2024, 5).unwrap();
    assert_eq!((m.year, m.month, m.total_bytes), (2024, 5, 30));
    let h = get_hourly_breakdown(&store, "2024-05-05").unwrap();
    assert_eq!((h[0].hour, h[0].upload_bytes, h[0].download_bytes), (7, 10, 20));
    let ah = get_app_hourly_breakdown(&store, "a.exe", "2024-05-05").unwrap();
    assert_eq!((ah[0].hour, ah[0].total_bytes), (7, 3));
    let hist = get_usage_history(&store, "2024-05-01", "2024-05-31").unwrap();
    assert_eq!((hist[0].date.as_str(), hist[0].total_bytes), ("2024-05-05", 30));
    let db = get_daily_breakdown(&store, 2024, 5).unwrap();
    assert_eq!((db[0].day, db[0].total_bytes), (5, 30));
    let adb = get_app_daily_breakdown_month(&store, "a.exe", 2024, 5).unwrap();
    assert_eq!((adb[0].day, adb[0].upload_bytes, adb[0].download_bytes), (5, 1, 2));
    let heat = get_peak_hours_heatmap(&store, 2024, 5).unwrap();
    assert_eq!(heat.len(), 1);
    assert_eq!((heat[0].day_of_week, heat[0].hour, heat[0].total_bytes), (0, 7, 30));
    assert!(get_peak_hours_heatmap(&store, 2024, 6).unwrap().is_empty());
}

#[test]
fn usage_command_errors_carry_the_message() {
    let mut store = UsageStore::new();
    let half = 9_223_372_036_854_775_807u64 / 2;
    upsert_daily_usage(&mut store, "2024-05-05", "eth0", half, half, 0, 0).unwrap();
    upsert_daily_usage(&mut store, "2024-05-05", "wlan0", half, half, 0, 0).unwrap();
    assert_eq!(get_daily_usage(&store, "2024-05-05").err(), Some("integer overflow".to_string()));
}
