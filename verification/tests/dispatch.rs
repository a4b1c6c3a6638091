use exsync::dispatch::{
    config_failure_line, config_path, count_mounted, exit_code, home_is_missing, reason_token,
    run_line, volumes_root,
};

#[test]
fn reason_token_replaces_whitespace() {
    assert_eq!(reason_token("file failures"), "file-failures");
    assert_eq!(reason_token("not implemented"), "not-implemented");
    assert_eq!(reason_token("a\tb\nc  d"), "a-b-c--d");
    assert_eq!(reason_token("no\u{00a0}break"), "no-break");
    assert_eq!(reason_token("unmanaged-destination"), "unmanaged-destination");
}

#[test]
fn empty_reason_becomes_error() {
    assert_eq!(reason_token(""), "error");
    assert_eq!(reason_token(" "), "-");
}

#[test]
fn config_path_prefers_the_variable() {
    assert_eq!(config_path(Some("/tmp/c.toml"), Some("/Users/u")), "/tmp/c.toml");
    assert_eq!(
        config_path(Some(""), Some("/Users/u")),
        "/Users/u/Library/Application Support/exsync/exsync.toml"
    );
    assert_eq!(
        config_path(None, None),
        "/Users/Library/Application Support/exsync/exsync.toml"
    );
}

#[test]
fn volumes_root_defaults_to_volumes() {
    assert_eq!(volumes_root(Some("/tmp/vols")), "/tmp/vols");
    assert_eq!(volumes_root(Some("")), "/Volumes");
    assert_eq!(volumes_root(None), "/Volumes");
}

#[test]
fn home_counts_as_missing_when_empty() {
    assert!(home_is_missing(None));
    assert!(home_is_missing(Some("")));
    assert!(!home_is_missing(Some("/Users/u")));
}

#[test]
fn run_line_counts_entries_and_mounted_drives() {
    let flags = vec![true, false, true];
    let mounted = count_mounted(&flags);
    assert_eq!(mounted, 2);
    assert_eq!(run_line(flags.len(), mounted), "OK run entries=3 mounted=2");
    assert_eq!(run_line(0, count_mounted(&vec![])), "OK run entries=0 mounted=0");
}

#[test]
fn config_failure_is_logged_as_one_token() {
    assert_eq!(
        config_failure_line("expected version = 1, found 2"),
        "FAIL config - 0 expected-version-=-1,-found-2"
    );
}

#[test]
fn exit_code_is_one_only_after_a_failure() {
    assert_eq!(exit_code(true), 1);
    assert_eq!(exit_code(false), 0);
}

use exsync::dispatch::{dispatch_next, dispatch_start, DispatchAction, DispatchEvent, DispatchState};

/// Drive a run with every entry succeeding except those listed in
/// `failing`; returns the actions in order.
fn drive(mounted: &[bool], failing: &[usize]) -> Vec<DispatchAction> {
    let flags = mounted.to_vec();
    let (mut s, mut a) = dispatch_start(&flags);
    let mut seen = vec![a.clone()];
    loop {
        let e = match &a {
            DispatchAction::LogSkip(_) | DispatchAction::LogFailure(_, _) | DispatchAction::LogRunLine(_) => {
                DispatchEvent::Logged
            }
            DispatchAction::RunEntry(i) => DispatchEvent::Ran(if failing.contains(i) {
                Err("file failures".to_string())
            } else {
                Ok(())
            }),
            DispatchAction::Exit(_) | DispatchAction::Wait => break,
        };
        let (ns, na) = dispatch_next(&flags, s, e);
        s = ns;
        a = na;
        seen.push(a.clone());
    }
    seen
}

#[test]
fn nothing_mounted_logs_one_run_line_and_exits_zero() {
    let acts = drive(&[false, false], &[]);
    assert_eq!(
        acts,
        vec![DispatchAction::LogRunLine("OK run entries=2 mounted=0".into()), DispatchAction::Exit(0)]
    );
}

#[test]
fn mounted_entries_run_in_order_and_others_are_skipped() {
    let acts = drive(&[true, false, true], &[]);
    assert_eq!(
        acts,
        vec![
            DispatchAction::RunEntry(0),
            DispatchAction::LogSkip(1),
            DispatchAction::RunEntry(2),
            DispatchAction::LogRunLine("OK run entries=3 mounted=2".into()),
            DispatchAction::Exit(0),
        ]
    );
}

#[test]
fn a_failed_entry_is_logged_and_exits_one() {
    let acts = drive(&[true, true], &[0]);
    assert_eq!(
        acts,
        vec![
            DispatchAction::RunEntry(0),
            DispatchAction::LogFailure(0, "file-failures".into()),
            DispatchAction::RunEntry(1),
            DispatchAction::LogRunLine("OK run entries=2 mounted=2".into()),
            DispatchAction::Exit(1),
        ]
    );
}

#[test]
fn no_entries_at_all() {
    assert_eq!(
        drive(&[], &[]),
        vec![DispatchAction::LogRunLine("OK run entries=0 mounted=0".into()), DispatchAction::Exit(0)]
    );
    let (s, a) = dispatch_next(&vec![], DispatchState::Done, DispatchEvent::Logged);
    assert_eq!((s, a), (DispatchState::Done, DispatchAction::Wait));
}
