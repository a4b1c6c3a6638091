use exsync::paths::{clean_path, escapes_root, file_name_of, is_git_rel, join_path, path_starts_with};
use exsync::rules::entry_dest;

#[test]
fn clean_path_resolves_dots_lexically() {
    assert_eq!(clean_path("/Volumes/D/./x/../y"), "/Volumes/D/y");
    assert_eq!(clean_path("/Volumes"), "/Volumes");
    assert_eq!(clean_path("a//b/"), "a/b");
    assert_eq!(clean_path(""), ".");
    assert_eq!(clean_path("./."), ".");
}

#[test]
fn clean_path_keeps_parent_steps_above_the_start() {
    assert_eq!(clean_path(".."), "..");
    assert_eq!(clean_path("/.."), "/..");
    assert_eq!(clean_path("a/../.."), "..");
    assert_eq!(clean_path("../a/.."), "..");
    assert_eq!(clean_path("../.."), ".");
}

#[test]
fn destination_must_be_strictly_below_the_volumes_root() {
    assert!(!escapes_root("/Volumes", "/Volumes/KINGSTON/data"));
    assert!(!escapes_root("/Volumes/", "/Volumes/./KINGSTON"));
    assert!(escapes_root("/Volumes", "/Volumes"));
    assert!(escapes_root("/Volumes", "/Volumes/KINGSTON/.."));
    assert!(escapes_root("/Volumes", "/Volumes/../etc"));
    assert!(escapes_root("/Volumes", "/VolumesX/a"));
    assert!(escapes_root("/Volumes", "Volumes/a"));
}

#[test]
fn entry_destination_joins_like_paths() {
    assert_eq!(entry_dest("/Volumes", "KINGSTON", "backup/notes"), "/Volumes/KINGSTON/backup/notes");
    assert_eq!(entry_dest("/Volumes/", "KINGSTON", "x"), "/Volumes/KINGSTON/x");
    assert_eq!(entry_dest("/Volumes", "KINGSTON", "/etc"), "/etc");
    assert!(escapes_root("/Volumes", &entry_dest("/Volumes", "KINGSTON", "/etc")));
    assert!(escapes_root("/Volumes", &entry_dest("/Volumes", "KINGSTON", "../../etc")));
}

#[test]
fn join_path_replaces_on_absolute_part() {
    assert_eq!(join_path("/home/u", "Library/x.toml"), "/home/u/Library/x.toml");
    assert_eq!(join_path("", "a"), "a");
    assert_eq!(join_path("a/", "b"), "a/b");
    assert_eq!(join_path("a", "/b"), "/b");
}

#[test]
fn file_name_is_the_last_normal_component() {
    assert_eq!(file_name_of("dir/a.wav"), "a.wav");
    assert_eq!(file_name_of("a.wav"), "a.wav");
    assert_eq!(file_name_of("a/b/"), "b");
    assert_eq!(file_name_of("a/."), "a");
    assert_eq!(file_name_of("/"), "");
    assert_eq!(file_name_of(""), "");
    assert_eq!(file_name_of("a/.."), "");
    assert_eq!(file_name_of("."), "");
}

#[test]
fn git_paths_are_recognised_by_their_first_component() {
    assert!(is_git_rel(".git"));
    assert!(is_git_rel(".git/HEAD"));
    assert!(is_git_rel(".git/"));
    assert!(!is_git_rel("a/.git/HEAD"));
    assert!(!is_git_rel("./.git"));
    assert!(!is_git_rel(".gitignore"));
    assert!(!is_git_rel(""));
}

#[test]
fn starts_with_compares_components() {
    assert!(path_starts_with("/a/b", "/a"));
    assert!(!path_starts_with("/ab", "/a"));
    assert!(path_starts_with("/a/./b", "/a/b"));
    assert!(path_starts_with("/a/b/", "/a/b"));
    assert!(path_starts_with("/a", "/a/"));
    assert!(path_starts_with("/x/../y", "/x"));
    assert!(!path_starts_with("a/b", "/a"));
    assert!(!path_starts_with("./a", "a"));
    assert!(path_starts_with("./a", "."));
    assert!(path_starts_with("", ""));
    assert!(!path_starts_with("/a", "/a/b"));
}

#[test]
fn cleaning_twice_changes_nothing() {
    for p in ["/Volumes/D/./x/../y", "../a/..", "/..", "a//b/", "", "./.", "../../x", "/"] {
        let once = clean_path(p);
        assert_eq!(clean_path(&once), once, "path {p:?}");
    }
}
