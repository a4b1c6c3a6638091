use exsync::log::{action_line, format_unix_secs, log_record, resolve_log_path};

#[test]
fn timestamp_epoch_zero_is_utc_midnight() {
    assert_eq!(format_unix_secs(0), "1970-01-01 00:00:00");
}

#[test]
fn timestamp_format_is_19_chars() {
    let ts = format_unix_secs(0);
    assert_eq!(ts.len(), 19);
    let b = ts.as_bytes();
    assert_eq!(b[4], b'-');
    assert_eq!(b[7], b'-');
    assert_eq!(b[10], b' ');
    assert_eq!(b[13], b':');
    assert_eq!(b[16], b':');
}

#[test]
fn action_line_has_five_fields() {
    let line = action_line("OK", "entry", "file", 123, "reason");
    assert_eq!(line, "OK entry file 123 reason");
    assert_eq!(line.split(' ').count(), 5);
}

#[test]
fn timestamps_across_leap_years() {
    assert_eq!(format_unix_secs(951_782_400), "2000-02-29 00:00:00");
    assert_eq!(format_unix_secs(1_757_000_000), "2025-09-04 15:33:20");
    assert_eq!(format_unix_secs(253_402_300_799), "9999-12-31 23:59:59");
    assert_eq!(format_unix_secs(4_107_542_400), "2100-03-01 00:00:00");
}

#[test]
fn february_has_29_days_only_in_leap_years() {
    assert_eq!(format_unix_secs(4_107_456_000 + 86_399), "2100-02-28 23:59:59");
    assert_eq!(format_unix_secs(4_107_456_000 + 86_400), "2100-03-01 00:00:00");
    assert_eq!(format_unix_secs(13_574_563_200), "2400-02-29 00:00:00");
    assert_eq!(format_unix_secs(1_709_164_800), "2024-02-29 00:00:00");
    assert_eq!(format_unix_secs(1_677_628_800 - 1), "2023-02-28 23:59:59");
}

#[test]
fn log_record_layout() {
    assert_eq!(log_record(0, "OK run"), "1970-01-01 00:00:00 exsync: OK run\n");
}

#[test]
fn log_path_resolution() {
    assert_eq!(resolve_log_path(Some("/tmp/x.log"), Some("/h")), Some("/tmp/x.log".to_string()));
    assert_eq!(resolve_log_path(Some(""), Some("/h")), Some("/h/Library/Logs/exsync.log".to_string()));
    assert_eq!(resolve_log_path(None, Some("")), None);
    assert_eq!(resolve_log_path(None, None), None);
}

#[test]
fn action_line_splits_back_into_its_fields() {
    let line = action_line("FAIL", "audio", "sub/a.wav", 1024, "collision");
    assert_eq!(line.split(' ').collect::<Vec<_>>(), vec!["FAIL", "audio", "sub/a.wav", "1024", "collision"]);
}
