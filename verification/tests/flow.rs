use exsync::flow::{entry_start, mirror_entry_next, move_entry_next, DestStatus, EntryAction, EntryEvent, EntryState};

const SRC: &str = "/Users/u/dotfiles";

fn names(v: &[&str]) -> Result<Vec<Option<String>>, String> {
    Ok(v.iter().map(|s| Some(s.to_string())).collect())
}

fn fail(notice: Option<&str>, error: &str) -> EntryAction {
    EntryAction::Fail { notice: notice.map(|s| s.to_string()), error: error.to_string() }
}

#[test]
fn escaping_destination_fails_first() {
    let (s, a) = entry_start("/Volumes", "/Volumes/K/../../etc");
    assert_eq!(s, EntryState::Done);
    assert_eq!(
        a,
        fail(Some("destination escapes volumes root"), "destination escapes volumes root: /Volumes/K/../../etc")
    );
    let (s, a) = entry_start("/Volumes", "/Volumes/K/data");
    assert_eq!((s, a), (EntryState::InspectingSource, EntryAction::InspectSource));
}

#[test]
fn first_mirror_copies_deletes_and_writes_marker() {
    let step = |s, e| mirror_entry_next(false, SRC, s, e);
    let (s, a) = step(EntryState::InspectingSource, EntryEvent::SourceInspected { plain_dir: true });
    assert_eq!(a, EntryAction::InspectDest);
    let (s, a) = step(s, EntryEvent::DestInspected(DestStatus::Absent));
    assert_eq!(a, EntryAction::List);
    let (s, a) = step(s, EntryEvent::Listed(Ok(3)));
    assert_eq!(a, EntryAction::CreateDest);
    let (s, a) = step(s, EntryEvent::Created(Ok(())));
    assert_eq!(a, EntryAction::Transfer);
    let (s, a) = step(s, EntryEvent::Transferred { moved_any: false, failed: false });
    assert_eq!(a, EntryAction::DeleteOrphans);
    let (s, a) = step(s, EntryEvent::Deleted { failed: false });
    assert_eq!(a, EntryAction::ReadMarker);
    let (s, a) = step(s, EntryEvent::MarkerRead(None));
    assert_eq!(a, EntryAction::WriteMarker);
    let (s, a) = step(s, EntryEvent::MarkerWritten(Ok(())));
    assert_eq!((s, a), (EntryState::Done, EntryAction::Succeed));
}

#[test]
fn current_marker_is_left_untouched() {
    let (s, a) = mirror_entry_next(false, SRC, EntryState::ReadingMarker, EntryEvent::MarkerRead(Some(b"exsync-managed\n".to_vec())));
    assert_eq!((s, a), (EntryState::Done, EntryAction::Succeed));
    let (_, a) = mirror_entry_next(false, SRC, EntryState::ReadingMarker, EntryEvent::MarkerRead(Some(b"old".to_vec())));
    assert_eq!(a, EntryAction::WriteMarker);
    let (_, a) = mirror_entry_next(false, SRC, EntryState::WritingMarker, EntryEvent::MarkerWritten(Err("Read-only file system".into())));
    assert_eq!(a, fail(Some("Read-only-file-system"), "cannot write marker: Read-only file system"));
}

#[test]
fn failed_files_fail_the_mirror_without_marker() {
    let (s, a) = mirror_entry_next(false, SRC, EntryState::Transferring, EntryEvent::Transferred { moved_any: false, failed: true });
    assert_eq!((s, a), (EntryState::Deleting { failed: true }, EntryAction::DeleteOrphans));
    let (s, a) = mirror_entry_next(false, SRC, s, EntryEvent::Deleted { failed: false });
    assert_eq!((s, a), (EntryState::Done, fail(Some("file failures"), "file failures")));
    let (_, a) = mirror_entry_next(false, SRC, EntryState::Deleting { failed: false }, EntryEvent::Deleted { failed: true });
    assert_eq!(a, fail(Some("file failures"), "file failures"));
}

#[test]
fn unmanaged_destination_refused_untouched() {
    for dry in [false, true] {
        let d = DestStatus::PlainDir { has_marker: false, names: names(&["sentinel.txt"]) };
        let (s, a) = mirror_entry_next(dry, SRC, EntryState::InspectingDest, EntryEvent::DestInspected(d));
        assert_eq!((s, a), (EntryState::Done, EntryAction::Refuse));
        let d = DestStatus::PlainDir { has_marker: false, names: names(&["sentinel.txt"]) };
        let (s, a) = move_entry_next(dry, SRC, EntryState::InspectingDest, EntryEvent::DestInspected(d));
        assert_eq!((s, a), (EntryState::Done, EntryAction::Refuse));
        let (_, a) = move_entry_next(dry, SRC, EntryState::InspectingDest, EntryEvent::DestInspected(DestStatus::NotPlainDir));
        assert_eq!(a, EntryAction::Refuse);
    }
}

#[test]
fn legacy_marker_destination_is_accepted() {
    let d = DestStatus::PlainDir { has_marker: true, names: names(&[".external-sync-managed", "hello.txt"]) };
    let (s, a) = mirror_entry_next(false, SRC, EntryState::InspectingDest, EntryEvent::DestInspected(d));
    assert_eq!((s, a), (EntryState::Listing, EntryAction::List));
}

#[test]
fn empty_destination_is_accepted() {
    let d = DestStatus::PlainDir { has_marker: false, names: names(&[".DS_Store"]) };
    let (_, a) = mirror_entry_next(false, SRC, EntryState::InspectingDest, EntryEvent::DestInspected(d));
    assert_eq!(a, EntryAction::List);
    let d = DestStatus::PlainDir { has_marker: false, names: names(&[".exsync-tmp.a.1", "x", ".exsync-manifest.e"]) };
    let (_, a) = move_entry_next(false, SRC, EntryState::InspectingDest, EntryEvent::DestInspected(d));
    assert_eq!(a, EntryAction::List);
}

#[test]
fn destination_errors_fail_without_notice() {
    let (_, a) = mirror_entry_next(false, SRC, EntryState::InspectingDest, EntryEvent::DestInspected(DestStatus::Unreadable("denied".into())));
    assert_eq!(a, fail(None, "cannot stat destination: denied"));
    let d = DestStatus::PlainDir { has_marker: true, names: Err("denied".into()) };
    let (_, a) = move_entry_next(false, SRC, EntryState::InspectingDest, EntryEvent::DestInspected(d));
    assert_eq!(a, fail(None, "cannot read destination: denied"));
}

#[test]
fn missing_source_and_listing_errors_fail_with_notice() {
    let (_, a) = move_entry_next(false, SRC, EntryState::InspectingSource, EntryEvent::SourceInspected { plain_dir: false });
    assert_eq!(a, fail(Some("source missing"), "source missing: /Users/u/dotfiles"));
    let (_, a) = mirror_entry_next(false, SRC, EntryState::Listing, EntryEvent::Listed(Err("regex parse error".into())));
    assert_eq!(a, fail(Some("regex-parse-error"), "cannot list source: regex-parse-error"));
    let (_, a) = move_entry_next(false, SRC, EntryState::Creating, EntryEvent::Created(Err("No space".into())));
    assert_eq!(a, fail(Some("No-space"), "cannot create destination: No space"));
}

#[test]
fn dry_run_prints_plan_and_writes_nothing() {
    let (s, a) = mirror_entry_next(true, SRC, EntryState::Listing, EntryEvent::Listed(Ok(2)));
    assert_eq!((s, a), (EntryState::Planning, EntryAction::Plan));
    let (s, a) = mirror_entry_next(true, SRC, s, EntryEvent::Planned);
    assert_eq!((s, a), (EntryState::Done, EntryAction::Succeed));
    let (s, a) = move_entry_next(true, SRC, EntryState::Listing, EntryEvent::Listed(Ok(0)));
    assert_eq!((s, a), (EntryState::Planning, EntryAction::Plan));
}

#[test]
fn move_prepares_then_transfers_then_marks() {
    let step = |s, e| move_entry_next(false, SRC, s, e);
    let (s, a) = step(EntryState::Listing, EntryEvent::Listed(Ok(2)));
    assert_eq!(a, EntryAction::CreateDest);
    let (s, a) = step(s, EntryEvent::Created(Ok(())));
    assert_eq!(a, EntryAction::Prepare);
    let (s, a) = step(s, EntryEvent::Prepared);
    assert_eq!(a, EntryAction::Transfer);
    let (s, a) = step(s, EntryEvent::Transferred { moved_any: true, failed: false });
    assert_eq!((s, a), (EntryState::Marking { failed: false }, EntryAction::EnsureMarker));
    let (s, a) = step(s, EntryEvent::Marked);
    assert_eq!((s, a), (EntryState::Done, EntryAction::Succeed));
}

#[test]
fn move_failures_fail_the_entry_without_notice() {
    let step = |s, e| move_entry_next(false, SRC, s, e);
    let (s, a) = step(EntryState::Transferring, EntryEvent::Transferred { moved_any: false, failed: true });
    assert_eq!(a, EntryAction::LookForManifest);
    let (_, a) = step(s, EntryEvent::ManifestSeen(true));
    assert_eq!(a, EntryAction::EnsureMarker);
    let (s, a) = step(s, EntryEvent::ManifestSeen(false));
    assert_eq!((s, a), (EntryState::Done, fail(None, "file failures")));
}

#[test]
fn empty_source_moves_nothing_and_creates_nothing() {
    let step = |s, e| move_entry_next(false, SRC, s, e);
    let (s, a) = step(EntryState::Listing, EntryEvent::Listed(Ok(0)));
    assert_eq!((s, a), (EntryState::CheckingDest, EntryAction::CheckDest));
    let (s2, a2) = step(s, EntryEvent::DestChecked { plain_dir: false });
    assert_eq!((s2, a2), (EntryState::Done, EntryAction::Succeed));
    let (_, a3) = step(s, EntryEvent::DestChecked { plain_dir: true });
    assert_eq!(a3, EntryAction::CreateDest);
}

#[test]
fn finished_runs_ask_for_nothing() {
    let (s, a) = mirror_entry_next(false, SRC, EntryState::Done, EntryEvent::Planned);
    assert_eq!((s, a), (EntryState::Done, EntryAction::Wait));
    let (s, a) = move_entry_next(false, SRC, EntryState::Listing, EntryEvent::Marked);
    assert_eq!((s, a), (EntryState::Listing, EntryAction::Wait));
}
