use exsync::manifest::{format_manifest_ts, manifest_file, manifest_file_name, manifest_line, manifest_lists};

fn valid_ts(s: &str) -> bool {
    let b = s.as_bytes();
    if s.len() != 20 {
        return false;
    }
    if (b[4], b[7], b[10], b[13], b[16], b[19]) != (b'-', b'-', b'T', b':', b':', b'Z') {
        return false;
    }
    s.chars()
        .enumerate()
        .all(|(i, c)| [4, 7, 10, 13, 16, 19].contains(&i) || c.is_ascii_digit())
}

#[test]
fn manifest_timestamps_are_utc() {
    assert_eq!(format_manifest_ts(1_757_000_000), "2025-09-04T15:33:20Z");
    assert_eq!(format_manifest_ts(0), "1970-01-01T00:00:00Z");
    assert_eq!(format_manifest_ts(951_782_400), "2000-02-29T00:00:00Z");
    assert_eq!(format_manifest_ts(253_402_300_799), "9999-12-31T23:59:59Z");
}

#[test]
fn manifest_file_is_named_after_the_entry() {
    assert_eq!(manifest_file_name("meter"), ".exsync-manifest.meter");
    assert_eq!(manifest_file("/Volumes/K/audio", "handy"), "/Volumes/K/audio/.exsync-manifest.handy");
}

#[test]
fn manifest_lines_hold_name_size_timestamp_only() {
    let mut content = String::new();
    content.push_str(&manifest_line("meter", 5, 1_757_000_000));
    content.push_str(&manifest_line("meter", 7, 1_757_000_060));
    assert_eq!(
        content,
        "meter\t5\t2025-09-04T15:33:20Z\nmeter\t7\t2025-09-04T15:34:20Z\n"
    );
    let lines: Vec<&str> = content.lines().collect();
    assert_eq!(lines.len(), 2);
    for line in &lines {
        let fields: Vec<&str> = line.split('\t').collect();
        assert_eq!(fields.len(), 3);
        fields[1].parse::<u64>().expect("size parses as u64");
        assert!(valid_ts(fields[2]), "timestamp: {}", fields[2]);
        assert!(!line.contains(".exsync-manifest"));
    }
    assert!(manifest_lists(&content, "meter"));
    assert!(!manifest_lists(&content, "absent"));
}

#[test]
fn a_written_line_is_read_back() {
    let prev = "a.wav\t3\t2025-09-04T15:33:20Z\n";
    assert!(!manifest_lists(prev, "sub/b.wav"));
    let mut content = prev.to_string();
    content.push_str(&manifest_line("sub/b.wav", 10, 0));
    assert!(manifest_lists(&content, "sub/b.wav"));
    assert!(manifest_lists(&content, "a.wav"));
}

#[test]
fn a_line_appended_to_an_unterminated_one_joins_it() {
    let mut content = "unterminated".to_string();
    content.push_str(&manifest_line("b.wav", 10, 0));
    assert!(!manifest_lists(&content, "b.wav"));
    assert!(manifest_lists(&content, "unterminatedb.wav"));
}

#[test]
fn lists_matches_whole_first_fields() {
    assert!(manifest_lists("x\r\n", "x"));
    assert!(manifest_lists("x", "x"));
    assert!(!manifest_lists("xy\t1\tT\n", "x"));
    assert!(!manifest_lists("", ""));
    assert!(manifest_lists("\n", ""));
    assert!(!manifest_lists("a\tb\n", "b"));
}
