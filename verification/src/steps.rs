//! What happens to one selected file, as a state machine: the caller
//! performs each action and reports how it went, and the machine says what
//! comes next.
//!
//! In move mode a file travels S0 -> S1 -> S2 -> S3: copy to a temporary
//! name and verify, rename into place (source still present), then unlink
//! the source and record the move. The source is unlinked only after its
//! verified copy is committed, or after the destination was found to hold
//! the same bytes already.

use vstd::prelude::*;
use crate::copy::{copy_error_text, CopyError};
use crate::dispatch::{reason_token, reason_token_spec};
use crate::rules::move_step;

verus! {

/// How a file's turn ended.
#[derive(Debug, Clone, Copy, PartialEq, Eq, Structural)]
pub enum FileOutcome {
    /// Mirror: copied. Move: copied (or found identical), unlinked and recorded.
    Transferred,
    /// Mirror: the destination already held a file of the same size and
    /// modification time.
    Identical,
    /// The source vanished before it could be copied; not a failure.
    Skipped,
    /// The file failed; in move mode its source is kept unless it was
    /// already unlinked after a committed copy.
    Failed,
}

/// Where a file stands.
#[derive(Debug, Clone, Copy, PartialEq, Eq, Structural)]
pub enum FileState {
    /// Nothing has happened yet; the destination is inspected first.
    Start,
    /// The destination's parent directory is being created.
    MakingParent,
    /// The verified copy is running.
    Copying,
    /// The destination holds the verified bytes; the source is being unlinked.
    Unlinking,
    /// The source is gone; the manifest line is being written.
    Recording,
    /// Nothing more happens to this file.
    Done(FileOutcome),
}

/// How the last action went.
#[derive(Debug)]
pub enum FileEvent {
    /// What the destination holds under the file's relative path: whether
    /// anything is there, whether it has the source's size and modification
    /// time, and (move mode, checked only when those agree) the same bytes.
    Inspected { dest_exists: bool, same_size_mtime: bool, same_bytes: bool },
    /// Creating the parent directory; the error's text on failure.
    ParentMade(Result<(), String>),
    /// The verified copy.
    Copied(Result<(), CopyError>),
    /// Unlinking the source (a source that already vanished counts as
    /// unlinked); the error's text on failure.
    Unlinked(Result<(), String>),
    /// Appending the manifest line; the error's text on failure.
    Recorded(Result<(), String>),
}

/// What the caller does next.
#[derive(Debug, Clone, PartialEq, Eq)]
pub enum FileAction {
    /// Log the file as a duplicate of what the destination holds.
    LogDuplicate,
    /// Log the file as a duplicate, then unlink the source.
    LogDuplicateAndUnlink,
    /// Log and announce a collision; the source stays.
    ReportCollision,
    /// Create the destination's parent directory.
    MakeParent,
    /// Run the verified copy into that directory.
    Copy,
    /// Unlink the source.
    Unlink,
    /// Append the manifest line for the file.
    Record,
    /// Log (and in move mode announce) a failure with this reason token.
    ReportFailure(String),
    /// Nothing more.
    Stop,
}

/// `FileAction` with its reason as text.
pub enum ActionSpec {
    LogDuplicate,
    LogDuplicateAndUnlink,
    ReportCollision,
    MakeParent,
    Copy,
    Unlink,
    Record,
    ReportFailure(Seq<char>),
    Stop,
}

impl View for FileAction {
    type V = ActionSpec;

    open spec fn view(&self) -> ActionSpec {
        match self {
            FileAction::LogDuplicate => ActionSpec::LogDuplicate,
            FileAction::LogDuplicateAndUnlink => ActionSpec::LogDuplicateAndUnlink,
            FileAction::ReportCollision => ActionSpec::ReportCollision,
            FileAction::MakeParent => ActionSpec::MakeParent,
            FileAction::Copy => ActionSpec::Copy,
            FileAction::Unlink => ActionSpec::Unlink,
            FileAction::Record => ActionSpec::Record,
            FileAction::ReportFailure(r) => ActionSpec::ReportFailure(r@),
            FileAction::Stop => ActionSpec::Stop,
        }
    }
}

/// The failure report for an error's text.
pub open spec fn failure(msg: Seq<char>) -> ActionSpec {
    ActionSpec::ReportFailure(reason_token_spec(msg))
}

/// Move mode, one step.
pub open spec fn move_next_spec(s: FileState, e: FileEvent) -> (FileState, ActionSpec) {
    match (s, e) {
        (FileState::Start, FileEvent::Inspected { dest_exists, same_size_mtime, same_bytes }) => {
            if !dest_exists {
                (FileState::MakingParent, ActionSpec::MakeParent)
            } else if same_size_mtime && same_bytes {
                (FileState::Unlinking, ActionSpec::LogDuplicateAndUnlink)
            } else {
                (FileState::Done(FileOutcome::Failed), ActionSpec::ReportCollision)
            }
        },
        (FileState::MakingParent, FileEvent::ParentMade(r)) => match r {
            Ok(_) => (FileState::Copying, ActionSpec::Copy),
            Err(m) => (FileState::Done(FileOutcome::Failed), failure(m@)),
        },
        (FileState::Copying, FileEvent::Copied(r)) => match r {
            Ok(_) => (FileState::Unlinking, ActionSpec::Unlink),
            Err(CopyError::SourceMissing) => (FileState::Done(FileOutcome::Skipped), ActionSpec::Stop),
            Err(err) => (FileState::Done(FileOutcome::Failed), failure(copy_error_text(err))),
        },
        (FileState::Unlinking, FileEvent::Unlinked(r)) => match r {
            Ok(_) => (FileState::Recording, ActionSpec::Record),
            Err(m) => (FileState::Done(FileOutcome::Failed), failure(m@)),
        },
        (FileState::Recording, FileEvent::Recorded(r)) => match r {
            Ok(_) => (FileState::Done(FileOutcome::Transferred), ActionSpec::Stop),
            Err(m) => (FileState::Done(FileOutcome::Failed), failure(m@)),
        },
        _ => (s, ActionSpec::Stop),
    }
}

/// Mirror mode, one step. Mirror neither unlinks nor records.
pub open spec fn mirror_next_spec(s: FileState, e: FileEvent) -> (FileState, ActionSpec) {
    match (s, e) {
        (FileState::Start, FileEvent::Inspected { dest_exists, same_size_mtime, same_bytes }) => {
            if dest_exists && same_size_mtime {
                (FileState::Done(FileOutcome::Identical), ActionSpec::LogDuplicate)
            } else {
                (FileState::MakingParent, ActionSpec::MakeParent)
            }
        },
        (FileState::MakingParent, FileEvent::ParentMade(r)) => match r {
            Ok(_) => (FileState::Copying, ActionSpec::Copy),
            Err(m) => (FileState::Done(FileOutcome::Failed), failure(m@)),
        },
        (FileState::Copying, FileEvent::Copied(r)) => match r {
            Ok(_) => (FileState::Done(FileOutcome::Transferred), ActionSpec::Stop),
            Err(CopyError::SourceMissing) => (FileState::Done(FileOutcome::Skipped), ActionSpec::Stop),
            Err(err) => (FileState::Done(FileOutcome::Failed), failure(copy_error_text(err))),
        },
        _ => (s, ActionSpec::Stop),
    }
}

fn failure_exec(msg: &str) -> (a: FileAction)
    ensures
        a@ == failure(msg@),
{
    FileAction::ReportFailure(reason_token(msg))
}

/// Move mode: the next state and action after event `e` in state `s`. An
/// event that does not answer the state's action changes nothing.
pub fn move_next(s: FileState, e: FileEvent) -> (r: (FileState, FileAction))
    ensures
        r.0 == move_next_spec(s, e).0,
        r.1@ == move_next_spec(s, e).1,
{
    match (s, e) {
        (FileState::Start, FileEvent::Inspected { dest_exists, same_size_mtime, same_bytes }) => {
            match move_step(dest_exists, same_size_mtime, same_bytes) {
                crate::rules::MoveStep::Copy => (FileState::MakingParent, FileAction::MakeParent),
                crate::rules::MoveStep::Duplicate => (FileState::Unlinking, FileAction::LogDuplicateAndUnlink),
                crate::rules::MoveStep::Collision => (
                    FileState::Done(FileOutcome::Failed),
                    FileAction::ReportCollision,
                ),
            }
        },
        (FileState::MakingParent, FileEvent::ParentMade(r)) => match r {
            Ok(_) => (FileState::Copying, FileAction::Copy),
            Err(m) => (FileState::Done(FileOutcome::Failed), failure_exec(m.as_str())),
        },
        (FileState::Copying, FileEvent::Copied(r)) => match r {
            Ok(_) => (FileState::Unlinking, FileAction::Unlink),
            Err(CopyError::SourceMissing) => (FileState::Done(FileOutcome::Skipped), FileAction::Stop),
            Err(err) => {
                let text = err.to_string();
                (FileState::Done(FileOutcome::Failed), failure_exec(text.as_str()))
            },
        },
        (FileState::Unlinking, FileEvent::Unlinked(r)) => match r {
            Ok(_) => (FileState::Recording, FileAction::Record),
            Err(m) => (FileState::Done(FileOutcome::Failed), failure_exec(m.as_str())),
        },
        (FileState::Recording, FileEvent::Recorded(r)) => match r {
            Ok(_) => (FileState::Done(FileOutcome::Transferred), FileAction::Stop),
            Err(m) => (FileState::Done(FileOutcome::Failed), failure_exec(m.as_str())),
        },
        (s, _) => (s, FileAction::Stop),
    }
}

/// Mirror mode: the next state and action after event `e` in state `s`. An
/// event that does not answer the state's action changes nothing.
pub fn mirror_next(s: FileState, e: FileEvent) -> (r: (FileState, FileAction))
    ensures
        r.0 == mirror_next_spec(s, e).0,
        r.1@ == mirror_next_spec(s, e).1,
{
    match (s, e) {
        (FileState::Start, FileEvent::Inspected { dest_exists, same_size_mtime, same_bytes: _ }) => {
            if dest_exists && same_size_mtime {
                (FileState::Done(FileOutcome::Identical), FileAction::LogDuplicate)
            } else {
                (FileState::MakingParent, FileAction::MakeParent)
            }
        },
        (FileState::MakingParent, FileEvent::ParentMade(r)) => match r {
            Ok(_) => (FileState::Copying, FileAction::Copy),
            Err(m) => (FileState::Done(FileOutcome::Failed), failure_exec(m.as_str())),
        },
        (FileState::Copying, FileEvent::Copied(r)) => match r {
            Ok(_) => (FileState::Done(FileOutcome::Transferred), FileAction::Stop),
            Err(CopyError::SourceMissing) => (FileState::Done(FileOutcome::Skipped), FileAction::Stop),
            Err(err) => {
                let text = err.to_string();
                (FileState::Done(FileOutcome::Failed), failure_exec(text.as_str()))
            },
        },
        (s, _) => (s, FileAction::Stop),
    }
}

/// How far a file has got; every state lies further than the one before.
pub open spec fn rank(s: FileState) -> int {
    match s {
        FileState::Start => 0,
        FileState::MakingParent => 1,
        FileState::Copying => 2,
        FileState::Unlinking => 3,
        FileState::Recording => 4,
        FileState::Done(_) => 5,
    }
}

/// A step never moves a file back, and every step that asks for an action
/// moves it strictly forward: no action is asked twice for one file, so its
/// source is unlinked, and its move recorded, at most once.
pub proof fn lemma_steps_move_forward(s: FileState, e: FileEvent)
    ensures
        rank(move_next_spec(s, e).0) >= rank(s),
        !(move_next_spec(s, e).1 is Stop) ==> rank(move_next_spec(s, e).0) > rank(s),
        rank(mirror_next_spec(s, e).0) >= rank(s),
        !(mirror_next_spec(s, e).1 is Stop) ==> rank(mirror_next_spec(s, e).0) > rank(s),
{
}

/// The source is unlinked only right after its verified copy was
/// committed, or when the destination was found to hold a file of the same
/// size, modification time and bytes.
pub proof fn lemma_unlink_only_after_commit(s: FileState, e: FileEvent)
    ensures
        move_next_spec(s, e).1 is Unlink ==> s == FileState::Copying && e matches FileEvent::Copied(Ok(_)),
        move_next_spec(s, e).1 is LogDuplicateAndUnlink ==> s == FileState::Start && e matches FileEvent::Inspected {
            dest_exists: true,
            same_size_mtime: true,
            same_bytes: true,
        },
{
}

/// A move is recorded only right after its source was unlinked, and a file
/// counts as moved only once its record is written.
pub proof fn lemma_record_only_after_unlink(s: FileState, e: FileEvent)
    ensures
        move_next_spec(s, e).1 is Record ==> s == FileState::Unlinking && e matches FileEvent::Unlinked(Ok(_)),
        move_next_spec(s, e).0 == FileState::Done(FileOutcome::Transferred) && s != FileState::Done(
            FileOutcome::Transferred,
        ) ==> s == FileState::Recording && e matches FileEvent::Recorded(Ok(_)),
{
}

/// A name clash with different content is a failure that keeps the source:
/// the file is finished, and a finished file gets no further action.
pub proof fn lemma_collision_keeps_source(same_size_mtime: bool, same_bytes: bool, o: FileOutcome, e: FileEvent)
    requires
        !(same_size_mtime && same_bytes),
    ensures
        move_next_spec(
            FileState::Start,
            FileEvent::Inspected { dest_exists: true, same_size_mtime, same_bytes },
        ) == (FileState::Done(FileOutcome::Failed), ActionSpec::ReportCollision),
        move_next_spec(FileState::Done(o), e) == (FileState::Done(o), ActionSpec::Stop),
        mirror_next_spec(FileState::Done(o), e) == (FileState::Done(o), ActionSpec::Stop),
{
}

/// Mirror mode never unlinks a source and never writes a manifest line.
pub proof fn lemma_mirror_keeps_sources(s: FileState, e: FileEvent)
    ensures
        !(mirror_next_spec(s, e).1 is Unlink),
        !(mirror_next_spec(s, e).1 is LogDuplicateAndUnlink),
        !(mirror_next_spec(s, e).1 is Record),
{
}

/// A second mirror run over an unchanged tree copies nothing: a file whose
/// destination counterpart has the same size and modification time is
/// only logged as a duplicate.
pub proof fn lemma_mirror_rerun_copies_nothing(same_bytes: bool)
    ensures
        mirror_next_spec(
            FileState::Start,
            FileEvent::Inspected { dest_exists: true, same_size_mtime: true, same_bytes },
        ) == (FileState::Done(FileOutcome::Identical), ActionSpec::LogDuplicate),
{
}

/// In either mode, a copy that ends in any error other than a vanished
/// source finishes the file as failed, with a failure report that names the
/// error; and a file is skipped only when its source vanished while it was
/// being copied.
pub proof fn lemma_copy_errors_fail_the_file(e: CopyError, s: FileState, ev: FileEvent)
    ensures
        !(e is SourceMissing) ==> move_next_spec(FileState::Copying, FileEvent::Copied(Err(e)))
            == (FileState::Done(FileOutcome::Failed), failure(copy_error_text(e))),
        !(e is SourceMissing) ==> mirror_next_spec(FileState::Copying, FileEvent::Copied(Err(e)))
            == (FileState::Done(FileOutcome::Failed), failure(copy_error_text(e))),
        !(s is Done) && move_next_spec(s, ev).0 == FileState::Done(FileOutcome::Skipped) ==> s
            == FileState::Copying && ev == FileEvent::Copied(Err(CopyError::SourceMissing)),
        !(s is Done) && mirror_next_spec(s, ev).0 == FileState::Done(FileOutcome::Skipped) ==> s
            == FileState::Copying && ev == FileEvent::Copied(Err(CopyError::SourceMissing)),
{
}

/// Every file operation that reports an error fails the file with a
/// failure report that names the error: creating the parent directory (in
/// either mode), unlinking the source and writing the manifest line (in
/// move mode). A mirror copy counts as transferred only once its verified
/// copy succeeded.
pub proof fn lemma_operation_errors_fail_the_file(m: String, s: FileState, ev: FileEvent)
    ensures
        move_next_spec(FileState::MakingParent, FileEvent::ParentMade(Err(m))) == (
            FileState::Done(FileOutcome::Failed),
            failure(m@),
        ),
        mirror_next_spec(FileState::MakingParent, FileEvent::ParentMade(Err(m))) == (
            FileState::Done(FileOutcome::Failed),
            failure(m@),
        ),
        move_next_spec(FileState::Unlinking, FileEvent::Unlinked(Err(m))) == (
            FileState::Done(FileOutcome::Failed),
            failure(m@),
        ),
        move_next_spec(FileState::Recording, FileEvent::Recorded(Err(m))) == (
            FileState::Done(FileOutcome::Failed),
            failure(m@),
        ),
        !(s is Done) && mirror_next_spec(s, ev).0 == FileState::Done(FileOutcome::Transferred) ==> s
            == FileState::Copying && ev matches FileEvent::Copied(Ok(_)),
{
}

} // verus!
