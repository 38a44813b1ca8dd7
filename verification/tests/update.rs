use data_tracker::commands::update::{
    check_release, latest_release_url, parse_semver, release_asset_url, staged_file_name,
    update_script, version_gt, UPDATE_EXE_NAME, UPDATE_REPO,
};

#[test]
fn parse_semver_accepts_three_numbers() {
    assert_eq!(parse_semver("1.2.8"), Some((1, 2, 8)));
    assert_eq!(parse_semver("0.0.0"), Some((0, 0, 0)));
    assert_eq!(parse_semver("10.20.30"), Some((10, 20, 30)));
    assert_eq!(parse_semver("+1.2.3"), Some((1, 2, 3)));
    assert_eq!(parse_semver("18446744073709551615.0.1"), Some((u64::MAX, 0, 1)));
}

#[test]
fn parse_semver_rejects_other_shapes() {
    assert_eq!(parse_semver("1.2"), None);
    assert_eq!(parse_semver("1.2.3.4"), None);
    assert_eq!(parse_semver("v1.2.3"), None);
    assert_eq!(parse_semver("1.2.x"), None);
    assert_eq!(parse_semver(""), None);
    assert_eq!(parse_semver("1..3"), None);
    assert_eq!(parse_semver(" 1.2.3"), None);
    assert_eq!(parse_semver("18446744073709551616.0.0"), None);
    assert_eq!(parse_semver("-1.2.3"), None);
}

#[test]
fn version_gt_compares_in_order() {
    assert!(version_gt("1.2.9", "1.2.8"));
    assert!(version_gt("1.3.0", "1.2.8"));
    assert!(version_gt("2.0.0", "1.99.99"));
    assert!(version_gt("1.10.0", "1.9.0"));
    assert!(!version_gt("1.2.8", "1.2.8"));
    assert!(!version_gt("1.2.7", "1.2.8"));
    assert!(!version_gt("garbage", "1.2.8"));
    assert!(!version_gt("1.2.9", "garbage"));
}

#[test]
fn check_release_reports_newer_tag() {
    let info = check_release("1.2.8".to_string(), true, "200 OK", Some("v1.3.0".to_string())).unwrap();
    assert_eq!(info.current, "1.2.8");
    assert_eq!(info.latest, Some("1.3.0".to_string()));
}

#[test]
fn check_release_same_or_older_is_none() {
    let info = check_release("1.2.8".to_string(), true, "200 OK", Some("v1.2.8".to_string())).unwrap();
    assert_eq!(info.latest, None);
    let info = check_release("1.2.8".to_string(), true, "200 OK", Some("1.0.0".to_string())).unwrap();
    assert_eq!(info.latest, None);
    let info = check_release("1.2.8".to_string(), true, "200 OK", Some("latest".to_string())).unwrap();
    assert_eq!(info.latest, None);
}

#[test]
fn check_release_tag_without_prefix() {
    let info = check_release("1.2.8".to_string(), true, "200 OK", Some("2.0.0".to_string())).unwrap();
    assert_eq!(info.latest, Some("2.0.0".to_string()));
}

#[test]
fn check_release_errors() {
    let e = check_release("1.2.8".to_string(), false, "404 Not Found", None).err().unwrap();
    assert_eq!(e, "Update server returned HTTP 404 Not Found (no releases yet?)");
    let e = check_release("1.2.8".to_string(), true, "200 OK", None).err().unwrap();
    assert_eq!(e, "Update server returned an unexpected URL");
}

#[test]
fn release_urls() {
    assert_eq!(
        latest_release_url(UPDATE_REPO),
        "https://github.com/chamarawickramarathne-spec/Data-tracker/releases/latest"
    );
    assert_eq!(
        release_asset_url(UPDATE_REPO, "1.3.0"),
        "https://github.com/chamarawickramarathne-spec/Data-tracker/releases/download/v1.3.0/data-tracker.exe"
    );
}

#[test]
fn staged_name_appends_new() {
    assert_eq!(staged_file_name(Some("app.exe")), "app.exe.new");
    assert_eq!(staged_file_name(None), format!("{}.new", UPDATE_EXE_NAME));
}

#[test]
fn update_script_text() {
    let s = update_script("C:\\a\\app.exe", "C:\\a\\app.exe.new", "C:\\t\\u.bat");
    let expected = "@echo off\r\ntimeout /t 2 /nobreak >nul\r\n:wait\r\ndel /q \"C:\\a\\app.exe\" >nul 2>&1\r\nif exist \"C:\\a\\app.exe\" ( timeout /t 1 /nobreak >nul & goto wait )\r\nmove /y \"C:\\a\\app.exe.new\" \"C:\\a\\app.exe\" >nul\r\nstart \"\" \"C:\\a\\app.exe\"\r\ndel /q \"C:\\t\\u.bat\" >nul 2>&1\r\n";
    assert_eq!(s, expected);
}

#[test]
fn written_versions_read_back() {
    let mut x: u64 = 7;
    for _ in 0..500 {
        x = x.wrapping_mul(6364136223846793005).wrapping_add(1442695040888963407);
        let (a, b, c) = (x >> 40, x % 1000, x);
        assert_eq!(parse_semver(&format!("{}.{}.{}", a, b, c)), Some((a, b, c)));
    }
    assert_eq!(parse_semver(&format!("{}.{}.{}", u64::MAX, 0, u64::MAX)), Some((u64::MAX, 0, u64::MAX)));
}
