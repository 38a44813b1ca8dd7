use data_tracker::clock::{ClockReading, LocalPeriod};
use data_tracker::db::queries::{
    get_daily_app_breakdown, get_daily_usage, get_monthly_usage, get_hourly_breakdown, UsageStore,
};
use data_tracker::monitor::adapter::{
    get_adapter_stats, get_network_adapters, interface_text, AdapterStats, InterfaceRow,
    IF_OPER_STATUS_UP,
};
use data_tracker::monitor::app_usage::{
    insert_sample, is_tracked_row, key_pid, AppUsageSample, AppUsageTracker, ConnKey, ConnSample,
    ESTABLISHED,
};
use data_tracker::monitor::{app_samples_total, save_session, MonitorState, SessionTotals};

fn wide(s: &str, pad: usize) -> Vec<u16> {
    let mut v: Vec<u16> = s.encode_utf16().collect();
    v.extend(std::iter::repeat(0).take(pad));
    v
}

fn row(luid: u64, up: bool, inb: u64, outb: u64, name: &str) -> InterfaceRow {
    InterfaceRow {
        luid,
        oper_status: if up { IF_OPER_STATUS_UP } else { 2 },
        in_octets: inb,
        out_octets: outb,
        transmit_link_speed: 1_000_000_000,
        alias: wide(name, 3),
        description: wide(&format!("{} adapter", name), 1),
    }
}

#[test]
fn interface_text_stops_at_nul() {
    assert_eq!(interface_text(&vec![72, 105, 0, 88, 89]), "Hi");
    assert_eq!(interface_text(&vec![0, 72]), "");
    assert_eq!(interface_text(&wide("Wi-Fi", 0)), "Wi-Fi");
    assert_eq!(interface_text(&wide("Ethernet ü", 4)), "Ethernet ü");
    assert_eq!(interface_text(&vec![0xD800, 0x41, 0]), "\u{FFFD}A");
    assert_eq!(interface_text(&wide("a\u{1F600}b", 2)), "a\u{1F600}b");
    assert_eq!(interface_text(&vec![0xDC00, 0x42]), "\u{FFFD}B");
    assert_eq!(interface_text(&vec![0x41, 0xD83D]), "A\u{FFFD}");
}

#[test]
fn busiest_connected_adapter_is_tracked() {
    let rows = vec![
        row(0, true, 10_000, 10_000, "ghost"),
        row(1, false, 9_000, 9_000, "down"),
        row(2, true, 100, 200, "eth0"),
        row(3, true, 250, 50, "wlan0"),
        row(4, true, 10, 10, "vpn"),
    ];
    let s = get_adapter_stats(&rows).unwrap();
    assert_eq!(s.name, "eth0");
    assert_eq!(s.bytes_received, 100);
    assert_eq!(s.bytes_sent, 200);
    assert_eq!(s.speed, 1_000_000_000);
    assert!(s.is_connected);
}

#[test]
fn no_active_adapter_is_an_error() {
    let rows = vec![row(0, true, 5, 5, "ghost"), row(1, false, 5, 5, "down"), row(2, true, 0, 0, "idle")];
    assert_eq!(get_adapter_stats(&rows).err(), Some("No active network adapter found".to_string()));
    assert_eq!(get_adapter_stats(&vec![]).err(), Some("No active network adapter found".to_string()));
}

#[test]
fn adapters_listed_in_order() {
    let rows = vec![row(0, true, 1, 1, "ghost"), row(1, false, 5, 5, "down"), row(2, true, 0, 0, "eth0")];
    let list = get_network_adapters(&rows);
    assert_eq!(list.len(), 2);
    assert_eq!(list[0].name, "down");
    assert_eq!(list[0].description, "down adapter");
    assert!(!list[0].is_connected);
    assert_eq!(list[1].name, "eth0");
    assert!(list[1].is_connected);
}

fn stats(name: &str, rx: u64, tx: u64) -> AdapterStats {
    AdapterStats { name: name.to_string(), bytes_received: rx, bytes_sent: tx, speed: 0, is_connected: true }
}

#[test]
fn ticks_measure_growth_from_the_second_reading() {
    let mut m = MonitorState::new();
    let s1 = m.tick(&stats("eth0", 1000, 500));
    assert_eq!((s1.download_speed, s1.upload_speed, s1.total_download, s1.total_upload), (0, 0, 0, 0));
    let s2 = m.tick(&stats("eth0", 1300, 600));
    assert_eq!((s2.download_speed, s2.upload_speed, s2.total_download, s2.total_upload), (300, 100, 300, 100));
    assert_eq!(s2.adapter_name, "eth0");
    // A counter that goes back counts as no traffic.
    let s3 = m.tick(&stats("eth0", 200, 700));
    assert_eq!((s3.download_speed, s3.upload_speed, s3.total_download, s3.total_upload), (0, 100, 300, 200));
    assert_eq!((m.session_in, m.session_out), (300, 200));
}

#[test]
fn take_session_resets_unsaved_traffic() {
    let mut m = MonitorState::new();
    assert!(m.take_session().is_none());
    m.tick(&stats("eth0", 0, 0));
    m.tick(&stats("eth0", 40, 2));
    let t = m.take_session().unwrap();
    assert_eq!(t.adapter_name, "eth0");
    assert_eq!((t.download_bytes, t.upload_bytes, t.adapter_total), (40, 2, 42));
    assert_eq!((t.peak_download_speed, t.peak_upload_speed), (40, 2));
    assert_eq!((m.session_in, m.session_out), (0, 0));
    assert_eq!((m.total_in, m.total_out), (40, 2));
    assert!(m.take_session().is_none());
}

fn v4(pid: u32, port: u32) -> ConnKey {
    ConnKey::V4 { pid, la: 0x0100007f, lp: port, ra: 0x08080808, rp: 443 }
}

#[test]
fn tracked_rows_and_keys() {
    assert!(is_tracked_row(ESTABLISHED, 10));
    assert!(!is_tracked_row(ESTABLISHED, 0));
    assert!(!is_tracked_row(2, 10));
    assert_eq!(key_pid(&v4(7, 1)), 7);
    assert_eq!(key_pid(&ConnKey::V6 { pid: 9, la: 1, lp: 2, ra: 3, rp: 4 }), 9);
}

#[test]
fn insert_sample_replaces_same_connection() {
    let mut v: Vec<ConnSample> = Vec::new();
    insert_sample(&mut v, (v4(1, 10), 1, 5, 6));
    insert_sample(&mut v, (v4(1, 11), 1, 7, 8));
    insert_sample(&mut v, (v4(1, 10), 1, 50, 60));
    assert_eq!(v, vec![(v4(1, 10), 1, 50, 60), (v4(1, 11), 1, 7, 8)]);
}

#[test]
fn capture_credits_growth_and_flush_hands_it_out() {
    let mut t = AppUsageTracker::new();
    let a = v4(100, 1);
    let b = v4(100, 2);
    let c = v4(200, 3);
    assert!(t.capture(&vec![(a, 100, 1000, 10), (c, 200, 5, 5)], vec![a, c]));
    // Only growth since the previous sample counts; new connections credit nothing.
    assert!(t.capture(&vec![(a, 100, 1500, 30), (b, 100, 70, 70), (c, 200, 5, 5)], vec![a, b, c]));
    assert!(t.capture(&vec![(a, 100, 1600, 30), (b, 100, 80, 75), (c, 200, 4, 9)], vec![a, b, c]));
    assert_eq!(t.connection_count(), 3);
    let mut counts = t.active_pid_counts();
    counts.sort();
    assert_eq!(counts, vec![(100, 2), (200, 1)]);
    let samples = t.flush(&vec![(100, "chrome.exe".to_string())]);
    assert_eq!(samples.len(), 2);
    assert_eq!(samples[0].app_name, "chrome.exe");
    assert_eq!((samples[0].download_bytes, samples[0].upload_bytes), (610, 25));
    assert_eq!(samples[1].app_name, "Unknown");
    assert_eq!((samples[1].download_bytes, samples[1].upload_bytes), (0, 4));
    assert!(t.flush(&vec![]).is_empty());
}

#[test]
fn unchanged_counters_credit_nothing() {
    let mut t = AppUsageTracker::new();
    let a = v4(5, 1);
    let cur = vec![(a, 5, 77, 88)];
    assert!(t.capture(&cur, vec![a]));
    assert!(t.capture(&cur, vec![a]));
    assert!(t.flush(&vec![(5, "x".to_string())]).is_empty());
}

#[test]
fn capture_refuses_overflowing_credit() {
    let mut t = AppUsageTracker::new();
    let a = v4(5, 1);
    assert!(t.capture(&vec![(a, 5, 0, 0)], vec![a]));
    assert!(t.capture(&vec![(a, 5, u64::MAX - 10, 0)], vec![a]));
    // Ten more bytes received and twenty sent would no longer add up within a u64.
    assert!(!t.capture(&vec![(a, 5, u64::MAX, 20)], vec![]));
    assert_eq!(t.connection_count(), 1);
    let s = t.flush(&vec![]);
    assert_eq!(s.len(), 1);
    assert_eq!(s[0].download_bytes, u64::MAX - 10);
}

fn sample(name: &str, up: u64, down: u64) -> AppUsageSample {
    AppUsageSample { app_name: name.to_string(), upload_bytes: up, download_bytes: down }
}

#[test]
fn sample_totals() {
    assert_eq!(app_samples_total(&vec![]), Some(0));
    assert_eq!(app_samples_total(&vec![sample("a", 1, 2), sample("b", 3, 4)]), Some(10));
    assert_eq!(app_samples_total(&vec![sample("a", u64::MAX, 0), sample("b", 1, 0)]), None);
}

#[test]
fn saving_a_session_writes_every_table() {
    let mut store = UsageStore::new();
    let clock = ClockReading { year: 2024, month: 5, day: 1, hour: 10, minute: 30, second: 0 };
    let now = LocalPeriod {
        clock,
        date: clock.date(),
        timestamp: clock.timestamp(),
        month_key: clock.month_key(),
        year: 2024,
        month: 5,
    };
    let t = SessionTotals {
        adapter_name: "eth0".to_string(),
        upload_bytes: 100,
        download_bytes: 900,
        peak_upload_speed: 5,
        peak_download_speed: 50,
        adapter_total: 1000,
    };
    save_session(&mut store, &now, &t, &vec![sample("chrome.exe", 60, 500), sample("steam.exe", 40, 400)]);
    let d = get_daily_usage(&store, "2024-05-01").unwrap();
    assert_eq!((d.upload_bytes, d.download_bytes, d.peak_download_speed), (100, 900, 50));
    assert_eq!(get_monthly_usage(&store, 2024, 5).unwrap().total_bytes, 1000);
    let h = get_hourly_breakdown(&store, "2024-05-01").unwrap();
    assert_eq!((h[0].hour, h[0].download_bytes), (10, 900));
    let apps = get_daily_app_breakdown(&store, "2024-05-01").unwrap();
    assert_eq!(apps.len(), 2);
    assert_eq!(apps[0].app_name, "chrome.exe");
    assert_eq!(apps[0].total_bytes, 560);
    assert_eq!(store.app_usage_records().len(), 2);
    assert_eq!(store.app_usage_records()[0].app_path, "");
}

#[test]
fn tick_fit_check() {
    let mut m = MonitorState::new();
    // The first tick counts nothing, whatever the counters.
    assert!(data_tracker::monitor::tick_would_fit(&m, u64::MAX, u64::MAX));
    m.tick(&stats("eth0", 0, 0));
    assert!(data_tracker::monitor::tick_would_fit(&m, u64::MAX, 5));
    m.tick(&stats("eth0", u64::MAX, 0));
    assert_eq!(m.total_in, u64::MAX);
    // No growth, nothing to add.
    assert!(data_tracker::monitor::tick_would_fit(&m, u64::MAX, 0));
    m.prev_in = Some(0);
    assert!(!data_tracker::monitor::tick_would_fit(&m, 1, 0));
}

#[test]
fn totals_are_the_counter_growth() {
    let mut m = MonitorState::new();
    let readings: [u64; 5] = [5_000, 5_000, 7_500, 9_000, 123_456];
    for r in readings {
        m.tick(&stats("eth0", r, r / 2));
    }
    assert_eq!(m.total_in, 123_456 - 5_000);
    assert_eq!(m.total_out, 123_456 / 2 - 5_000 / 2);
}

#[test]
fn live_growth_leaves_credits_alone() {
    let mut t = AppUsageTracker::new();
    let a = v4(100, 1);
    let c = v4(200, 3);
    assert!(t.capture(&vec![(a, 100, 1000, 10), (c, 200, 5, 5)], vec![a, c]));
    let next = vec![(a, 100, 1500, 30), (c, 200, 5, 9)];
    assert_eq!(t.live_growth(&next), Some(vec![(100, 500, 20), (200, 0, 4)]));
    // Nothing was credited by looking.
    assert!(t.flush(&vec![]).is_empty());
    assert!(t.capture(&next, vec![a, c]));
    assert_eq!(t.live_growth(&next), Some(vec![]));
    let s = t.flush(&vec![]);
    assert_eq!(s.len(), 2);
}

#[test]
fn counters_over_a_run_with_saves() {
    let mut m = MonitorState::new();
    let mut saved_in = 0u64;
    let mut saved_out = 0u64;
    for (k, (rx, tx)) in [(10u64, 1u64), (50, 2), (40, 9), (100, 20), (130, 21)].iter().enumerate() {
        m.tick(&stats("eth0", *rx, *tx));
        if k % 2 == 1 {
            if let Some(t) = m.take_session() {
                saved_in += t.download_bytes;
                saved_out += t.upload_bytes;
            }
        }
    }
    // Growth counted: 40, 0 (went back), 60, 30 received; 1, 7, 11, 1 sent.
    assert_eq!((m.total_in, m.total_out), (130, 20));
    assert_eq!(saved_in + m.session_in, m.total_in);
    assert_eq!(saved_out + m.session_out, m.total_out);
}
