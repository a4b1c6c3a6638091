use exsync::notify::{dry_run_line, escape, notification_script};

#[test]
fn escape_quotes_and_backslashes() {
    assert_eq!(escape("a\"b\\c"), "a\\\"b\\\\c");
    assert_eq!(escape("plain"), "plain");
}

#[test]
fn dry_run_line_contains_title_and_body() {
    let title = "UT07Title-abc123";
    let body = "UT07Body-def456";
    let line = dry_run_line(title, body);
    assert!(!line.is_empty());
    assert!(line.contains(title));
    assert!(line.contains(body));
    assert_eq!(line, format!("NOTIFY {title}: {body}"));
}

#[test]
fn script_escapes_both_parts() {
    assert_eq!(
        notification_script("t\"", "b\\"),
        "display notification \"b\\\\\" with title \"t\\\"\""
    );
}
