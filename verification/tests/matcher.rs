use exsync::config::{Entry, Mode, Verify};
use exsync::matcher::{decide_selected, glob_match, is_excluded_by_default, old_enough, passes_filters, MatchError};
use exsync::order::path_order;

#[test]
fn test_glob_patterns() {
    // basic *
    assert!(glob_match("*.wav", "a.wav"));
    assert!(!glob_match("*.wav", "a.txt"));
    assert!(!glob_match("*.wav", "a.txt.wav.bak"));

    // basic ?
    assert!(glob_match("?.wav", "a.wav"));
    assert!(!glob_match("?.wav", "aa.wav"));

    // ** crosses /
    assert!(glob_match("**/*.wav", "dir/a.wav"));
    assert!(glob_match("**/*.wav", "dir/subdir/a.wav"));
    assert!(glob_match("*.wav", "dir/a.wav")); // should match filename only

    // * does not cross /
    assert!(glob_match("dir/*.wav", "dir/a.wav"));
    assert!(!glob_match("dir/*.wav", "dir/subdir/a.wav"));

    // / free pattern matches filename only
    assert!(glob_match("*.wav", "dir/a.wav"));
    assert!(glob_match("*.wav", "a.wav"));
    assert!(!glob_match("*.wav", "a.txt"));
}

#[test]
fn glob_edge_cases() {
    assert!(glob_match("", ""));
    assert!(!glob_match("", "a"));
    assert!(glob_match("*", ".DS_Store"));
    assert!(glob_match("**", "a/b/c"));
    assert!(!glob_match("a/*", "a/b/c"));
    assert!(glob_match("a/**", "a/b/c"));
    assert!(!glob_match("?", "/"));
    assert!(glob_match("skip/*", "skip/x.wav"));
    assert!(!glob_match("skip/*", "keep/x.wav"));
    assert!(glob_match("literal.txt", "deep/dir/literal.txt"));
}

const ROOT: &str = "/tmp/exsync-test-root";

fn entry(includes: &[&str], exclude: &[&str], name_re: Option<&str>) -> Entry {
    Entry {
        name: "test".into(),
        mode: Mode::Mirror,
        drive: "disk".into(),
        source: ROOT.into(),
        dest: "dest".into(),
        includes: includes.iter().map(|s| s.to_string()).collect(),
        exclude: exclude.iter().map(|s| s.to_string()).collect(),
        name_re: name_re.map(|s| s.to_string()),
        min_age_minutes: None,
        skip_open: false,
        verify: Verify::Readback,
    }
}

/// The files among `rels` that the content-free checks select, in path order.
fn select(e: &Entry, rels: &[&str]) -> Result<Vec<String>, MatchError> {
    let mut kept = Vec::new();
    for rel in rels {
        let full = format!("{ROOT}/{rel}");
        if passes_filters(e, rel, &full)? {
            kept.push(rel.to_string());
        }
    }
    let order = path_order(&kept);
    Ok(order.into_iter().map(|i| kept[i].clone()).collect())
}

#[test]
fn test_ut04_include() {
    let e = entry(&["*.wav"], &[], None);
    let paths = select(&e, &["a.wav", "a.txt", "a.txt.wav.bak"]).expect("select failed");
    assert_eq!(paths, vec!["a.wav"]);
}

#[test]
fn test_ut05_exclude_wins() {
    let files = ["a.wav", "skip/x.wav", "keep/x.wav", ".DS_Store"];
    let e = entry(&["*.wav"], &["*.wav"], None);
    assert!(select(&e, &files).expect("select failed").is_empty());

    let e_all = entry(&["*"], &[], None);
    let paths = select(&e_all, &files).expect("select failed");
    assert!(!paths.contains(&".DS_Store".to_string()));
    assert_eq!(paths, vec!["a.wav", "keep/x.wav", "skip/x.wav"]);
}

#[test]
fn test_ut05_exclude_paths() {
    let e = entry(&["*.wav"], &["skip/*"], None);
    let paths = select(&e, &["keep/x.wav", "skip/x.wav"]).expect("select failed");
    assert_eq!(paths, vec!["keep/x.wav"]);
}

#[test]
fn test_name_re() {
    let e = entry(&[], &[], Some(r"^[a-c]\.wav$"));
    let paths = select(&e, &["a.wav", "b.txt", "c.wav"]).expect("select failed");
    assert_eq!(paths, vec!["a.wav", "c.wav"]);
}

#[test]
fn name_re_sees_the_file_name_only() {
    let e = entry(&[], &[], Some(r"^a\.wav$"));
    assert!(passes_filters(&e, "dir/a.wav", "/x/dir/a.wav").unwrap());
    assert!(!passes_filters(&e, "dir/ba.wav", "/x/dir/ba.wav").unwrap());
}

#[test]
fn bad_name_re_is_an_error_only_when_reached() {
    let e = entry(&[], &[], Some("(unclosed"));
    assert!(matches!(passes_filters(&e, "a.wav", "/x/a.wav"), Err(MatchError::Regex(_))));
    let gated = entry(&["*.wav"], &[], Some("(unclosed"));
    assert!(matches!(passes_filters(&gated, "a.txt", "/x/a.txt"), Ok(false)));
}

#[test]
fn ds_store_only_when_included_by_name() {
    assert!(is_excluded_by_default("/x/.DS_Store"));
    assert!(is_excluded_by_default(".DS_Store"));
    assert!(!is_excluded_by_default("/x/.DS_Store.bak"));
    let named = entry(&[".DS_Store"], &[], None);
    assert!(decide_selected(&named, "a/.DS_Store", ".DS_Store", true));
    let star = entry(&["*"], &[], None);
    assert!(!decide_selected(&star, "a/.DS_Store", ".DS_Store", true));
    assert!(!decide_selected(&star, "a/b", "b", false));
}

#[test]
fn age_guard_in_minutes() {
    let minute: i128 = 60_000_000_000;
    assert!(old_enough(10 * minute, 5 * minute, 5));
    assert!(!old_enough(10 * minute, 5 * minute + 1, 5));
    assert!(old_enough(0, 0, 0));
    assert!(!old_enough(0, minute, 1));
    assert!(old_enough(0, minute, 0));
    assert!(old_enough(i128::from(u64::MAX) * 1_000_000_000, 0, u64::MAX / 60));
}

#[test]
fn patterns_with_slash_keep_the_depth() {
    assert!(glob_match("a/*/c", "a/b/c"));
    assert!(!glob_match("a/*/c", "a/b/x/c"));
    assert!(!glob_match("a/?/c", "a/b/c/c"));
    assert!(glob_match("a/**/c", "a/b/x/c"));
}
