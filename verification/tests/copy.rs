use exsync::copy::{after_attempt, temp_name, writable_bits, Attempt, CopyError, NextStep};

#[test]
fn copy_errors_read_as_text() {
    assert_eq!(CopyError::SourceMissing.to_string(), "source missing");
    assert_eq!(
        CopyError::DestUnwritable("permission denied".to_string()).to_string(),
        "destination unwritable: permission denied"
    );
    assert_eq!(CopyError::VerifyMismatch.to_string(), "verify mismatch");
    assert_eq!(CopyError::Io("disk full".to_string()).to_string(), "io error: disk full");
}

#[test]
fn temp_name_carries_file_and_pid() {
    assert_eq!(temp_name("a.wav", 4242), ".exsync-tmp.a.wav.4242");
    assert_eq!(temp_name("x", 0), ".exsync-tmp.x.0");
}

#[test]
fn any_write_bit_makes_a_directory_writable() {
    assert!(writable_bits(0o755));
    assert!(writable_bits(0o020));
    assert!(writable_bits(0o002));
    assert!(!writable_bits(0o555));
    assert!(!writable_bits(0o40555));
}

#[test]
fn one_retry_after_a_mismatch() {
    assert_eq!(after_attempt(0, Attempt::Verified), NextStep::Commit);
    assert_eq!(after_attempt(0, Attempt::Mismatch), NextStep::Retry);
    assert_eq!(after_attempt(1, Attempt::Mismatch), NextStep::GiveUp);
    assert_eq!(after_attempt(1, Attempt::Verified), NextStep::Commit);
    assert_eq!(after_attempt(0, Attempt::Failed), NextStep::GiveUp);
}

use exsync::config::Verify;
use exsync::copy::{copy_next, CopyAction, CopyEvent, CopyState, Leftover, Streamed};

fn streamed(total: u64, written: u64, read_back: u64) -> CopyEvent {
    CopyEvent::Streamed(Ok(Streamed { total, written, read_back }))
}

#[test]
fn readback_copy_streams_commits_and_keeps_mtime() {
    let v = Verify::Readback;
    let (s, a) = copy_next(v, CopyState::Stat, CopyEvent::Stated(Ok(())));
    assert_eq!((s, a), (CopyState::Streaming { attempt: 0 }, CopyAction::Stream));
    let (s, a) = copy_next(v, s, streamed(200_000, 77, 77));
    assert_eq!((s, a), (CopyState::Committing { total: 200_000, hash: 77 }, CopyAction::Commit));
    let (s, a) = copy_next(v, s, CopyEvent::Renamed(Ok(())));
    assert_eq!((s, a), (CopyState::KeepingMtime { total: 200_000, hash: 77 }, CopyAction::KeepMtime));
    let (s, a) = copy_next(v, s, CopyEvent::MtimeKept(Ok(())));
    assert_eq!((s, a), (CopyState::Done, CopyAction::Succeed(200_000)));
}

#[test]
fn full_copy_reads_the_committed_file_again() {
    let v = Verify::Full;
    let s = CopyState::KeepingMtime { total: 5, hash: 9 };
    let (s, a) = copy_next(v, s, CopyEvent::MtimeKept(Ok(())));
    assert_eq!((s, a), (CopyState::Checking { total: 5, hash: 9 }, CopyAction::CheckFinal));
    let (s2, a2) = copy_next(v, s, CopyEvent::FinalHashed(Ok(9)));
    assert_eq!((s2, a2), (CopyState::Done, CopyAction::Succeed(5)));
    let (_, a3) = copy_next(v, s, CopyEvent::FinalHashed(Ok(8)));
    assert_eq!(a3, CopyAction::Abandon(Leftover::Final, CopyError::VerifyMismatch));
    let (_, a4) = copy_next(v, s, CopyEvent::FinalHashed(Err("gone".into())));
    assert_eq!(a4, CopyAction::Abandon(Leftover::Final, CopyError::Io("gone".into())));
}

#[test]
fn readback_mismatch_retries_once_then_fails_closed() {
    let v = Verify::Readback;
    let (s, a) = copy_next(v, CopyState::Streaming { attempt: 0 }, streamed(64, 1, 2));
    assert_eq!((s, a), (CopyState::Streaming { attempt: 1 }, CopyAction::Retry));
    let (s, a) = copy_next(v, s, streamed(64, 1, 2));
    assert_eq!((s, a), (CopyState::Done, CopyAction::Abandon(Leftover::Temp, CopyError::VerifyMismatch)));
    let (s, a) = copy_next(v, CopyState::Streaming { attempt: 1 }, streamed(64, 3, 3));
    assert_eq!((s, a), (CopyState::Committing { total: 64, hash: 3 }, CopyAction::Commit));
}

#[test]
fn copy_failures_name_what_to_remove() {
    let v = Verify::Readback;
    let (_, a) = copy_next(v, CopyState::Stat, CopyEvent::Stated(Err(CopyError::SourceMissing)));
    assert_eq!(a, CopyAction::Abandon(Leftover::Nothing, CopyError::SourceMissing));
    let unwritable = CopyError::DestUnwritable("directory not writable: /d".into());
    let (_, a) = copy_next(v, CopyState::Streaming { attempt: 0 }, CopyEvent::Streamed(Err(unwritable.clone())));
    assert_eq!(a, CopyAction::Abandon(Leftover::Temp, unwritable));
    let (_, a) = copy_next(v, CopyState::Committing { total: 1, hash: 1 }, CopyEvent::Renamed(Err("busy".into())));
    assert_eq!(a, CopyAction::Abandon(Leftover::Temp, CopyError::Io("busy".into())));
    let (_, a) = copy_next(v, CopyState::KeepingMtime { total: 1, hash: 1 }, CopyEvent::MtimeKept(Err("ro".into())));
    assert_eq!(a, CopyAction::Abandon(Leftover::Final, CopyError::Io("ro".into())));
    let (s, a) = copy_next(v, CopyState::Done, CopyEvent::Renamed(Ok(())));
    assert_eq!((s, a), (CopyState::Done, CopyAction::Wait));
}
