//! The verified copy's decisions: its errors, the temporary name it writes
//! under, the writability test on a directory's mode, and the order of its
//! steps as a state machine: stream into the temporary file and read it
//! back (one full retry on a readback mismatch only), commit by rename,
//! keep the source's modification time, and, for full verification, read
//! the committed file once more.

use vstd::prelude::*;
use crate::config::Verify;
use crate::text::{dec, push_dec, push_str};

verus! {

#[derive(Debug, Clone, PartialEq, Eq)]
pub enum CopyError {
    SourceMissing,
    DestUnwritable(String),
    VerifyMismatch,
    Io(String),
}

pub open spec fn copy_error_text(e: CopyError) -> Seq<char> {
    match e {
        CopyError::SourceMissing => "source missing"@,
        CopyError::DestUnwritable(m) => "destination unwritable: "@ + m@,
        CopyError::VerifyMismatch => "verify mismatch"@,
        CopyError::Io(m) => "io error: "@ + m@,
    }
}

impl CopyError {
    /// The error as text.
    pub fn to_string(&self) -> (s: String)
        ensures
            s@ == copy_error_text(*self),
    {
        match self {
            CopyError::SourceMissing => String::from_str("source missing"),
            CopyError::DestUnwritable(m) => {
                let mut s = String::new();
                push_str(&mut s, "destination unwritable: ");
                push_str(&mut s, m.as_str());
                s
            },
            CopyError::VerifyMismatch => String::from_str("verify mismatch"),
            CopyError::Io(m) => {
                let mut s = String::new();
                push_str(&mut s, "io error: ");
                push_str(&mut s, m.as_str());
                s
            },
        }
    }
}

/// The temporary name a copy is written under before it is committed:
/// `.exsync-tmp.<file>.<pid>`.
pub fn temp_name(file_name: &str, pid: u32) -> (s: String)
    ensures
        s@ == ".exsync-tmp."@ + file_name@ + "."@ + dec(pid as nat),
{
    let mut s = String::new();
    push_str(&mut s, ".exsync-tmp.");
    push_str(&mut s, file_name);
    push_str(&mut s, ".");
    push_dec(&mut s, pid as u64);
    assert(s@ =~= ".exsync-tmp."@ + file_name@ + "."@ + dec(pid as nat));
    s
}

/// A directory counts as writable when any of its write permission bits
/// (owner, group, other) is set.
pub fn writable_bits(mode: u32) -> (r: bool)
    ensures
        r == (mode & 0o222 != 0),
{
    mode & 0o222 != 0
}

/// How one streaming attempt ended.
#[derive(Debug, Clone, Copy, PartialEq, Eq, Structural)]
pub enum Attempt {
    /// Copied, synced and read back with the recorded hash.
    Verified,
    /// The read-back hash differs from the recorded one.
    Mismatch,
    /// Any other failure.
    Failed,
}

/// What the copy does next.
#[derive(Debug, Clone, Copy, PartialEq, Eq, Structural)]
pub enum NextStep {
    Commit,
    Retry,
    GiveUp,
}

/// After attempt number `attempt` (from 0).
pub fn after_attempt(attempt: u32, outcome: Attempt) -> (n: NextStep)
    ensures
        n == after_attempt_spec(attempt, outcome),
{
    match outcome {
        Attempt::Verified => NextStep::Commit,
        Attempt::Mismatch => if attempt == 0 {
            NextStep::Retry
        } else {
            NextStep::GiveUp
        },
        Attempt::Failed => NextStep::GiveUp,
    }
}

/// The streaming copy makes at most two attempts: however each ends, the
/// second never leads to another.
pub proof fn lemma_at_most_two_attempts(outcome: Attempt)
    ensures
        after_attempt_spec(1, outcome) != NextStep::Retry,
{
}

/// After attempt number `attempt` (from 0): commit a verified copy, retry
/// once after the first mismatch, and give up otherwise.
pub open spec fn after_attempt_spec(attempt: u32, outcome: Attempt) -> NextStep {
    match outcome {
        Attempt::Verified => NextStep::Commit,
        Attempt::Mismatch => if attempt == 0 {
            NextStep::Retry
        } else {
            NextStep::GiveUp
        },
        Attempt::Failed => NextStep::GiveUp,
    }
}

/// What one streaming attempt produced: the number of bytes copied, the
/// hash of the bytes written, and the hash of the temporary file as read
/// back after it was synced.
#[derive(Debug, Clone, Copy, PartialEq, Eq, Structural)]
pub struct Streamed {
    pub total: u64,
    pub written: u64,
    pub read_back: u64,
}

/// What is left on disk when a copy gives up.
#[derive(Debug, Clone, Copy, PartialEq, Eq, Structural)]
pub enum Leftover {
    /// Nothing was written.
    Nothing,
    /// The temporary file.
    Temp,
    /// The committed file under its final name.
    Final,
}

/// Where a verified copy stands.
#[derive(Debug, Clone, Copy, PartialEq, Eq, Structural)]
pub enum CopyState {
    /// The source is being looked at.
    Stat,
    /// Streaming attempt number `attempt` (from 0) is running.
    Streaming { attempt: u32 },
    /// The verified temporary file, `total` bytes hashing to `hash`, is
    /// being renamed to the final name.
    Committing { total: u64, hash: u64 },
    /// The committed file is getting the source's modification time.
    KeepingMtime { total: u64, hash: u64 },
    /// The committed file is being read back once more.
    Checking { total: u64, hash: u64 },
    /// Nothing more happens.
    Done,
}

/// How the last step went.
#[derive(Debug)]
pub enum CopyEvent {
    /// Looking at the source: its modification time and name are known.
    Stated(Result<(), CopyError>),
    /// One streaming attempt.
    Streamed(Result<Streamed, CopyError>),
    /// The rename; the error's text on failure.
    Renamed(Result<(), String>),
    /// Setting the modification time; the error's text on failure.
    MtimeKept(Result<(), String>),
    /// Reading back the committed file: its hash, or the error's text.
    FinalHashed(Result<u64, String>),
}

/// What the copy does next.
#[derive(Debug, Clone, PartialEq, Eq)]
pub enum CopyAction {
    /// Run a streaming attempt into the temporary file.
    Stream,
    /// Remove the temporary file and stream again.
    Retry,
    /// Rename the temporary file to the final name.
    Commit,
    /// Give the committed file the source's modification time.
    KeepMtime,
    /// Read the committed file back and hash it.
    CheckFinal,
    /// Remove what is left over and fail with this error.
    Abandon(Leftover, CopyError),
    /// The copy is complete: this many bytes.
    Succeed(u64),
    /// The event did not answer the last action: nothing to do.
    Wait,
}

/// One step of the verified copy.
pub open spec fn copy_next_spec(verify: Verify, s: CopyState, e: CopyEvent) -> (CopyState, CopyAction) {
    match (s, e) {
        (CopyState::Stat, CopyEvent::Stated(r)) => match r {
            Ok(_) => (CopyState::Streaming { attempt: 0 }, CopyAction::Stream),
            Err(err) => (CopyState::Done, CopyAction::Abandon(Leftover::Nothing, err)),
        },
        (CopyState::Streaming { attempt }, CopyEvent::Streamed(r)) => match r {
            Ok(st) => if st.written == st.read_back {
                (CopyState::Committing { total: st.total, hash: st.written }, CopyAction::Commit)
            } else if after_attempt_spec(attempt, Attempt::Mismatch) == NextStep::Retry {
                (CopyState::Streaming { attempt: (attempt + 1) as u32 }, CopyAction::Retry)
            } else {
                (CopyState::Done, CopyAction::Abandon(Leftover::Temp, CopyError::VerifyMismatch))
            },
            Err(err) => (CopyState::Done, CopyAction::Abandon(Leftover::Temp, err)),
        },
        (CopyState::Committing { total, hash }, CopyEvent::Renamed(r)) => match r {
            Ok(_) => (CopyState::KeepingMtime { total, hash }, CopyAction::KeepMtime),
            Err(m) => (CopyState::Done, CopyAction::Abandon(Leftover::Temp, CopyError::Io(m))),
        },
        (CopyState::KeepingMtime { total, hash }, CopyEvent::MtimeKept(r)) => match r {
            Ok(_) => if verify == Verify::Full {
                (CopyState::Checking { total, hash }, CopyAction::CheckFinal)
            } else {
                (CopyState::Done, CopyAction::Succeed(total))
            },
            Err(m) => (CopyState::Done, CopyAction::Abandon(Leftover::Final, CopyError::Io(m))),
        },
        (CopyState::Checking { total, hash }, CopyEvent::FinalHashed(r)) => match r {
            Ok(h) => if h == hash {
                (CopyState::Done, CopyAction::Succeed(total))
            } else {
                (CopyState::Done, CopyAction::Abandon(Leftover::Final, CopyError::VerifyMismatch))
            },
            Err(m) => (CopyState::Done, CopyAction::Abandon(Leftover::Final, CopyError::Io(m))),
        },
        _ => (s, CopyAction::Wait),
    }
}

/// The verified copy's next state and action after event `e` in state `s`,
/// with `verify` the entry's verification level.
pub fn copy_next(verify: Verify, s: CopyState, e: CopyEvent) -> (r: (CopyState, CopyAction))
    ensures
        r == copy_next_spec(verify, s, e),
{
    match (s, e) {
        (CopyState::Stat, CopyEvent::Stated(r)) => match r {
            Ok(_) => (CopyState::Streaming { attempt: 0 }, CopyAction::Stream),
            Err(err) => (CopyState::Done, CopyAction::Abandon(Leftover::Nothing, err)),
        },
        (CopyState::Streaming { attempt }, CopyEvent::Streamed(r)) => match r {
            Ok(st) => if st.written == st.read_back {
                (CopyState::Committing { total: st.total, hash: st.written }, CopyAction::Commit)
            } else {
                match after_attempt(attempt, Attempt::Mismatch) {
                    NextStep::Retry => (CopyState::Streaming { attempt: attempt + 1 }, CopyAction::Retry),
                    _ => (CopyState::Done, CopyAction::Abandon(Leftover::Temp, CopyError::VerifyMismatch)),
                }
            },
            Err(err) => (CopyState::Done, CopyAction::Abandon(Leftover::Temp, err)),
        },
        (CopyState::Committing { total, hash }, CopyEvent::Renamed(r)) => match r {
            Ok(_) => (CopyState::KeepingMtime { total, hash }, CopyAction::KeepMtime),
            Err(m) => (CopyState::Done, CopyAction::Abandon(Leftover::Temp, CopyError::Io(m))),
        },
        (CopyState::KeepingMtime { total, hash }, CopyEvent::MtimeKept(r)) => match r {
            Ok(_) => match verify {
                Verify::Full => (CopyState::Checking { total, hash }, CopyAction::CheckFinal),
                Verify::Readback => (CopyState::Done, CopyAction::Succeed(total)),
            },
            Err(m) => (CopyState::Done, CopyAction::Abandon(Leftover::Final, CopyError::Io(m))),
        },
        (CopyState::Checking { total, hash }, CopyEvent::FinalHashed(r)) => match r {
            Ok(h) => if h == hash {
                (CopyState::Done, CopyAction::Succeed(total))
            } else {
                (CopyState::Done, CopyAction::Abandon(Leftover::Final, CopyError::VerifyMismatch))
            },
            Err(m) => (CopyState::Done, CopyAction::Abandon(Leftover::Final, CopyError::Io(m))),
        },
        (s, _) => (s, CopyAction::Wait),
    }
}

/// The state after one step.
pub open spec fn copy_state_after(verify: Verify, s: CopyState, e: CopyEvent) -> CopyState {
    copy_next_spec(verify, s, e).0
}

/// The action after one step.
pub open spec fn copy_action_after(verify: Verify, s: CopyState, e: CopyEvent) -> CopyAction {
    copy_next_spec(verify, s, e).1
}

/// The temporary file is committed only right after an attempt whose
/// read-back hash equals the hash of what was written; that hash is the
/// one the committed file is held to.
pub proof fn lemma_commit_only_verified(verify: Verify, s: CopyState, e: CopyEvent)
    ensures
        copy_action_after(verify, s, e) is Commit ==> {
            &&& s is Streaming
            &&& e matches CopyEvent::Streamed(Ok(st))
            &&& st.written == st.read_back
            &&& copy_state_after(verify, s, e) == (CopyState::Committing { total: st.total, hash: st.written })
        },
{
}

/// At most two streaming attempts: the first starts right after the source
/// was looked at, and the only retry follows the first attempt.
pub proof fn lemma_at_most_two_streams(verify: Verify, s: CopyState, e: CopyEvent)
    ensures
        copy_action_after(verify, s, e) is Stream ==> {
            &&& s == CopyState::Stat
            &&& copy_state_after(verify, s, e) == (CopyState::Streaming { attempt: 0 })
        },
        copy_action_after(verify, s, e) is Retry ==> {
            &&& s == (CopyState::Streaming { attempt: 0 })
            &&& copy_state_after(verify, s, e) == (CopyState::Streaming { attempt: 1 })
        },
{
}

/// A copy succeeds only after its committed file got the source's
/// modification time and then, with full verification, read back with the
/// hash the streaming attempt verified.
pub proof fn lemma_success_is_verified(verify: Verify, s: CopyState, e: CopyEvent)
    ensures
        copy_action_after(verify, s, e) is Succeed ==> {
            ||| {
                &&& verify == Verify::Readback
                &&& s matches CopyState::KeepingMtime { total, hash }
                &&& e matches CopyEvent::MtimeKept(Ok(_))
                &&& copy_action_after(verify, s, e) == CopyAction::Succeed(total)
            }
            ||| {
                &&& s matches CopyState::Checking { total, hash }
                &&& e matches CopyEvent::FinalHashed(Ok(h))
                &&& h == hash
                &&& copy_action_after(verify, s, e) == CopyAction::Succeed(total)
            }
        },
{
}

/// A copy that fails after its commit removes the committed file; one that
/// fails before removes the temporary file (if it got that far). No failed
/// copy leaves a file of its own behind.
pub proof fn lemma_failure_cleans_up(verify: Verify, s: CopyState, e: CopyEvent)
    ensures
        copy_action_after(verify, s, e) matches CopyAction::Abandon(l, _) ==> {
            &&& (l == Leftover::Final <==> (s is KeepingMtime || s is Checking))
            &&& (l == Leftover::Nothing <==> s is Stat)
        },
{
}

} // verus!
