use exsync::copy::CopyError;
use exsync::steps::{mirror_next, move_next, FileAction, FileEvent, FileOutcome, FileState};

fn inspected(dest_exists: bool, same_size_mtime: bool, same_bytes: bool) -> FileEvent {
    FileEvent::Inspected { dest_exists, same_size_mtime, same_bytes }
}

#[test]
fn move_goes_copy_commit_unlink_record() {
    let (s, a) = move_next(FileState::Start, inspected(false, false, false));
    assert_eq!((s, a.clone()), (FileState::MakingParent, FileAction::MakeParent));
    let (s, a) = move_next(s, FileEvent::ParentMade(Ok(())));
    assert_eq!((s, a), (FileState::Copying, FileAction::Copy));
    let (s, a) = move_next(s, FileEvent::Copied(Ok(())));
    assert_eq!((s, a), (FileState::Unlinking, FileAction::Unlink));
    let (s, a) = move_next(s, FileEvent::Unlinked(Ok(())));
    assert_eq!((s, a), (FileState::Recording, FileAction::Record));
    let (s, a) = move_next(s, FileEvent::Recorded(Ok(())));
    assert_eq!((s, a), (FileState::Done(FileOutcome::Transferred), FileAction::Stop));
}

#[test]
fn identical_destination_unlinks_without_copy() {
    let (s, a) = move_next(FileState::Start, inspected(true, true, true));
    assert_eq!((s, a), (FileState::Unlinking, FileAction::LogDuplicateAndUnlink));
}

#[test]
fn clash_is_a_collision_that_keeps_the_source() {
    for (meta, bytes) in [(false, false), (true, false), (false, true)] {
        let (s, a) = move_next(FileState::Start, inspected(true, meta, bytes));
        assert_eq!((s, a), (FileState::Done(FileOutcome::Failed), FileAction::ReportCollision));
        let (s2, a2) = move_next(s, FileEvent::Unlinked(Ok(())));
        assert_eq!((s2, a2), (s, FileAction::Stop));
    }
}

#[test]
fn failures_carry_a_reason_token() {
    let (s, a) = move_next(FileState::MakingParent, FileEvent::ParentMade(Err("Permission denied (os error 13)".into())));
    assert_eq!(s, FileState::Done(FileOutcome::Failed));
    assert_eq!(a, FileAction::ReportFailure("Permission-denied-(os-error-13)".into()));

    let (_, a) = move_next(FileState::Copying, FileEvent::Copied(Err(CopyError::VerifyMismatch)));
    assert_eq!(a, FileAction::ReportFailure("verify-mismatch".into()));
    let (_, a) = move_next(
        FileState::Copying,
        FileEvent::Copied(Err(CopyError::DestUnwritable("read only".into()))),
    );
    assert_eq!(a, FileAction::ReportFailure("destination-unwritable:-read-only".into()));
    let (_, a) = move_next(FileState::Unlinking, FileEvent::Unlinked(Err(String::new())));
    assert_eq!(a, FileAction::ReportFailure("error".into()));
    let (s, a) = move_next(FileState::Recording, FileEvent::Recorded(Err("disk full".into())));
    assert_eq!((s, a), (FileState::Done(FileOutcome::Failed), FileAction::ReportFailure("disk-full".into())));
}

#[test]
fn vanished_source_is_skipped() {
    let (s, a) = move_next(FileState::Copying, FileEvent::Copied(Err(CopyError::SourceMissing)));
    assert_eq!((s, a), (FileState::Done(FileOutcome::Skipped), FileAction::Stop));
    let (s, a) = mirror_next(FileState::Copying, FileEvent::Copied(Err(CopyError::SourceMissing)));
    assert_eq!((s, a), (FileState::Done(FileOutcome::Skipped), FileAction::Stop));
}

#[test]
fn an_event_out_of_turn_changes_nothing() {
    let (s, a) = move_next(FileState::Start, FileEvent::Copied(Ok(())));
    assert_eq!((s, a), (FileState::Start, FileAction::Stop));
    let (s, a) = mirror_next(FileState::Copying, FileEvent::Unlinked(Ok(())));
    assert_eq!((s, a), (FileState::Copying, FileAction::Stop));
}

#[test]
fn mirror_copies_unless_size_and_mtime_agree() {
    let (s, a) = mirror_next(FileState::Start, inspected(true, true, false));
    assert_eq!((s, a), (FileState::Done(FileOutcome::Identical), FileAction::LogDuplicate));
    let (s, a) = mirror_next(FileState::Start, inspected(true, false, false));
    assert_eq!((s, a), (FileState::MakingParent, FileAction::MakeParent));
    let (s, a) = mirror_next(s, FileEvent::ParentMade(Ok(())));
    assert_eq!((s, a), (FileState::Copying, FileAction::Copy));
    let (s, a) = mirror_next(s, FileEvent::Copied(Ok(())));
    assert_eq!((s, a), (FileState::Done(FileOutcome::Transferred), FileAction::Stop));
    let (s, a) = mirror_next(FileState::Copying, FileEvent::Copied(Err(CopyError::Io("short read".into()))));
    assert_eq!((s, a), (FileState::Done(FileOutcome::Failed), FileAction::ReportFailure("io-error:-short-read".into())));
}
