use exsync::rules::{
    has_manifest_name, is_manifest_name, is_marker_name, is_temp_name, is_special_name, marker_needs_rewrite, mirror_copies,
    mirror_deletes, mirror_refuses, move_refuses, move_step, needs_completion, notice, plan_line,
    MoveStep,
};

fn opt_names(v: &[&str]) -> Vec<Option<String>> {
    v.iter().map(|s| Some(s.to_string())).collect()
}

#[test]
fn both_marker_names_count() {
    assert!(is_marker_name(".exsync-managed"));
    assert!(is_marker_name(".external-sync-managed"));
    assert!(!is_marker_name("exsync-managed"));
}

#[test]
fn special_names_cover_bookkeeping() {
    assert!(is_special_name(".DS_Store"));
    assert!(is_special_name(".exsync-manifest.handy"));
    assert!(is_special_name(".exsync-tmp.a.wav.123"));
    assert!(is_special_name(".exsync-managed"));
    assert!(!is_special_name("a.wav"));
    assert!(!is_special_name(".exsync-manifest"));
}

#[test]
fn marker_is_rewritten_unless_exact() {
    assert!(!marker_needs_rewrite(b"exsync-managed\n"));
    assert!(marker_needs_rewrite(b"exsync-managed"));
    assert!(marker_needs_rewrite(b""));
    assert!(marker_needs_rewrite(b"exsync-managed\n\n"));
    assert!(marker_needs_rewrite(b"Exsync-managed\n"));
}

#[test]
fn mirror_refuses_unmanaged_non_empty_destinations() {
    assert!(!mirror_refuses(true, false, &opt_names(&[])));
    assert!(!mirror_refuses(true, false, &opt_names(&[".DS_Store", ".exsync-managed"])));
    assert!(mirror_refuses(true, false, &opt_names(&["sentinel.txt"])));
    assert!(!mirror_refuses(true, true, &opt_names(&["sentinel.txt"])));
    assert!(mirror_refuses(false, true, &opt_names(&[])));
    assert!(mirror_refuses(true, false, &vec![None]));
    assert!(mirror_refuses(true, false, &opt_names(&[".exsync-manifest.x"])));
}

#[test]
fn move_accepts_a_manifest_as_ownership() {
    assert!(move_refuses(true, false, &opt_names(&["sentinel.txt"])));
    assert!(!move_refuses(true, false, &opt_names(&["sentinel.txt", ".exsync-manifest.handy"])));
    assert!(!move_refuses(true, false, &opt_names(&[".exsync-tmp.x.1", ".DS_Store"])));
    assert!(!move_refuses(true, true, &opt_names(&["sentinel.txt"])));
    assert!(move_refuses(false, true, &opt_names(&[])));
    assert!(move_refuses(true, false, &vec![None]));
    assert!(has_manifest_name(&opt_names(&["a", ".exsync-manifest.x"])));
    assert!(!has_manifest_name(&vec![None]));
}

#[test]
fn mirror_copy_set_leaves_out_markers_and_ds_store() {
    assert!(mirror_copies("hello.txt"));
    assert!(mirror_copies(".git/HEAD"));
    assert!(!mirror_copies("a/.DS_Store"));
    assert!(!mirror_copies(".exsync-managed"));
    assert!(!mirror_copies(".external-sync-managed/inner.txt"));
    assert!(!mirror_copies("a/.exsync-managed/b"));
}

#[test]
fn mirror_deletes_only_orphans() {
    assert!(mirror_deletes("extra.txt", false, false));
    assert!(!mirror_deletes("kept.txt", true, false));
    assert!(!mirror_deletes("failed.txt", false, true));
    assert!(!mirror_deletes(".DS_Store", false, false));
    assert!(!mirror_deletes(".exsync-managed", false, false));
}

#[test]
fn move_step_for_each_destination_state() {
    assert_eq!(move_step(false, false, false), MoveStep::Copy);
    assert_eq!(move_step(true, true, true), MoveStep::Duplicate);
    assert_eq!(move_step(true, true, false), MoveStep::Collision);
    assert_eq!(move_step(true, false, true), MoveStep::Collision);
}

#[test]
fn completion_only_for_unlisted_files_whose_source_is_gone() {
    assert!(needs_completion(Some(false), false));
    assert!(!needs_completion(Some(false), true));
    assert!(!needs_completion(Some(true), false));
    assert!(!needs_completion(None, false));
}

#[test]
fn plan_and_notice_lines() {
    assert_eq!(plan_line("MIRROR", "a/b.txt"), "PLAN MIRROR a/b.txt");
    assert_eq!(notice("dotfiles", "source missing"), "dotfiles: source missing");
}

#[test]
fn manifest_and_temp_names_by_prefix() {
    assert!(is_manifest_name(".exsync-manifest.handy"));
    assert!(is_manifest_name(".exsync-manifest."));
    assert!(!is_manifest_name("exsync-manifest.handy"));
    assert!(is_temp_name(".exsync-tmp.a.wav.99999"));
    assert!(!is_temp_name(".exsync-tmpa"));
}
