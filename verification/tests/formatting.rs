use data_tracker::monitor::aggregator::{aggregate_snapshot, format_bytes, format_speed, GB, KB, MB};

fn float_text(bytes: u64) -> String {
    let b = bytes as f64;
    if bytes >= 1073741824 {
        format!("{:.2} GB", b / 1073741824.0)
    } else if bytes >= 1048576 {
        format!("{:.2} MB", b / 1048576.0)
    } else if bytes >= 1024 {
        format!("{:.2} KB", b / 1024.0)
    } else {
        format!("{} B", bytes)
    }
}

#[test]
fn format_bytes_below_a_kilobyte() {
    assert_eq!(format_bytes(0), "0 B");
    assert_eq!(format_bytes(1), "1 B");
    assert_eq!(format_bytes(1023), "1023 B");
}

#[test]
fn format_bytes_unit_boundaries() {
    assert_eq!(format_bytes(KB), "1.00 KB");
    assert_eq!(format_bytes(MB), "1.00 MB");
    assert_eq!(format_bytes(GB), "1.00 GB");
    assert_eq!(format_bytes(MB - 1), "1024.00 KB");
    assert_eq!(format_bytes(GB - 1), "1024.00 MB");
}

#[test]
fn format_bytes_two_decimals() {
    assert_eq!(format_bytes(1536), "1.50 KB");
    assert_eq!(format_bytes(5 * MB + 512 * KB), "5.50 MB");
    assert_eq!(format_bytes(1160), "1.13 KB");
}

#[test]
fn format_bytes_ties_round_to_even() {
    // 1152 / 1024 = 1.125 and 3456 / 1024 = 3.375, both exact halves.
    assert_eq!(format_bytes(1152), "1.12 KB");
    assert_eq!(format_bytes(3456), "3.38 KB");
}

#[test]
fn format_bytes_matches_float_formatting() {
    let samples: [u64; 16] = [
        0,
        999,
        1024,
        1025,
        1152,
        10_000,
        123_456,
        1_048_575,
        1_048_577,
        987_654_321,
        1_073_741_823,
        5_000_000_000,
        9_007_199_254_740_993,
        123_456_789_012_345_678,
        u64::MAX - 1,
        u64::MAX,
    ];
    for b in samples {
        assert_eq!(format_bytes(b), float_text(b), "bytes {}", b);
    }
    let mut x: u64 = 1;
    for _ in 0..2000 {
        x = x.wrapping_mul(6364136223846793005).wrapping_add(1442695040888963407);
        for b in [x, x >> 20, x >> 35, x >> 45, x >> 54] {
            assert_eq!(format_bytes(b), float_text(b), "bytes {}", b);
        }
    }
}

#[test]
fn format_speed_appends_per_second() {
    assert_eq!(format_speed(0), "0 B/s");
    assert_eq!(format_speed(2048), "2.00 KB/s");
    assert_eq!(format_speed(3 * GB), "3.00 GB/s");
}

#[test]
fn aggregate_snapshot_keeps_values_and_stamps_time() {
    let d = aggregate_snapshot(10, 20, 30, 40, "eth0");
    assert_eq!(d.download_speed, 10);
    assert_eq!(d.upload_speed, 20);
    assert_eq!(d.total_download, 30);
    assert_eq!(d.total_upload, 40);
    assert_eq!(d.adapter_name, "eth0");
    let ts: Vec<char> = d.timestamp.chars().collect();
    assert_eq!(ts.len(), 19);
    assert_eq!(ts[4], '-');
    assert_eq!(ts[7], '-');
    assert_eq!(ts[10], ' ');
    assert_eq!(ts[13], ':');
    assert_eq!(ts[16], ':');
    assert!(d.timestamp.starts_with("20"));
}
