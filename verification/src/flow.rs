//! The course of one entry's run in mirror or move mode, as a state
//! machine: the caller performs each action and reports what it found, and
//! the machine says what comes next.
//!
//! Both modes first make sure the destination stays below the volumes
//! root, the source is a directory, and an existing destination is one of
//! ours; then they list the selected files. A dry run only prints its plan.
//! Otherwise the destination is created and the files are transferred
//! (see `steps`). Mirror then deletes what the source no longer has and,
//! when nothing failed, writes its marker; move keeps its marker current.

use vstd::prelude::*;
use crate::dispatch::{reason_token, reason_token_spec};
use crate::paths::{escapes_root, escapes_root_spec};
use crate::rules::{
    marker_content, marker_needs_rewrite, mirror_refuses, mirror_refuses_spec, move_refuses,
    move_refuses_spec, opt_names_view,
};
use crate::text::push_str;

verus! {

/// What the destination turned out to be.
#[derive(Debug)]
pub enum DestStatus {
    /// Nothing is there.
    Absent,
    /// Something is there but could not be looked at; the error's text.
    Unreadable(String),
    /// A file, a symlink, or anything else that is not a plain directory.
    NotPlainDir,
    /// A plain directory: whether either marker file is in it, and the
    /// names of its entries (`None` for a name that is not valid Unicode),
    /// or the error's text when it could not be listed.
    PlainDir { has_marker: bool, names: Result<Vec<Option<String>>, String> },
}

/// Where an entry's run stands.
#[derive(Debug, Clone, Copy, PartialEq, Eq, Structural)]
pub enum EntryState {
    /// The source is being looked at.
    InspectingSource,
    /// The destination is being looked at.
    InspectingDest,
    /// The selected files are being listed.
    Listing,
    /// A dry run is printing its plan.
    Planning,
    /// Move: nothing was selected; does the destination exist?
    CheckingDest,
    /// The destination directory is being created.
    Creating,
    /// Move: the marker is being kept current and leftover temporary files
    /// removed.
    Preparing,
    /// The files are being copied or moved.
    Transferring,
    /// Mirror: files the source no longer has are being deleted.
    Deleting { failed: bool },
    /// Move: is there a manifest in the destination?
    LookingForManifest { failed: bool },
    /// Move: the marker is being kept current.
    Marking { failed: bool },
    /// Mirror: the marker file is being read.
    ReadingMarker,
    /// Mirror: the marker file is being written.
    WritingMarker,
    /// Nothing more happens.
    Done,
}

/// What the last action found.
#[derive(Debug)]
pub enum EntryEvent {
    /// Whether the source is a plain directory.
    SourceInspected { plain_dir: bool },
    /// What the destination is.
    DestInspected(DestStatus),
    /// How many files were selected, or the text of the listing error.
    Listed(Result<usize, String>),
    /// The plan was printed.
    Planned,
    /// Whether the destination is a plain directory.
    DestChecked { plain_dir: bool },
    /// Creating the destination; the error's text on failure.
    Created(Result<(), String>),
    /// The destination was prepared.
    Prepared,
    /// The transfer pass ended: whether some file was moved (move mode)
    /// and whether some file failed.
    Transferred { moved_any: bool, failed: bool },
    /// The delete pass ended: whether some deletion failed.
    Deleted { failed: bool },
    /// Whether the destination holds a manifest.
    ManifestSeen(bool),
    /// The marker was kept current.
    Marked,
    /// The marker file's content, or `None` when it could not be read.
    MarkerRead(Option<Vec<u8>>),
    /// Writing the marker file; the error's text on failure.
    MarkerWritten(Result<(), String>),
}

/// What the caller does next.
#[derive(Debug, Clone, PartialEq, Eq)]
pub enum EntryAction {
    /// Look at the source.
    InspectSource,
    /// Look at the destination.
    InspectDest,
    /// List the selected files.
    List,
    /// Print the plan (a dry run).
    Plan,
    /// Move: look whether the destination is a plain directory.
    CheckDest,
    /// Create the destination directory.
    CreateDest,
    /// Move: keep the marker current and remove leftover temporary files.
    Prepare,
    /// Run the transfer pass over the selected files.
    Transfer,
    /// Mirror: delete the destination files the source no longer has.
    DeleteOrphans,
    /// Move: look for a manifest in the destination.
    LookForManifest,
    /// Move: keep the marker current.
    EnsureMarker,
    /// Mirror: read the marker file.
    ReadMarker,
    /// Mirror: write the marker file.
    WriteMarker,
    /// Log and announce that the destination is not ours; the entry fails
    /// with `unmanaged-destination`.
    Refuse,
    /// The entry fails with `error`, after announcing `notice` if there is one.
    Fail { notice: Option<String>, error: String },
    /// The entry succeeded.
    Succeed,
    /// The event did not answer the last action: nothing to do.
    Wait,
}

/// `EntryAction` with its texts as character sequences.
pub enum EntryActionSpec {
    InspectSource,
    InspectDest,
    List,
    Plan,
    CheckDest,
    CreateDest,
    Prepare,
    Transfer,
    DeleteOrphans,
    LookForManifest,
    EnsureMarker,
    ReadMarker,
    WriteMarker,
    Refuse,
    Fail { notice: Option<Seq<char>>, error: Seq<char> },
    Succeed,
    Wait,
}

pub open spec fn opt_view(o: Option<String>) -> Option<Seq<char>> {
    match o {
        Some(s) => Some(s@),
        None => None,
    }
}

impl View for EntryAction {
    type V = EntryActionSpec;

    open spec fn view(&self) -> EntryActionSpec {
        match self {
            EntryAction::InspectSource => EntryActionSpec::InspectSource,
            EntryAction::InspectDest => EntryActionSpec::InspectDest,
            EntryAction::List => EntryActionSpec::List,
            EntryAction::Plan => EntryActionSpec::Plan,
            EntryAction::CheckDest => EntryActionSpec::CheckDest,
            EntryAction::CreateDest => EntryActionSpec::CreateDest,
            EntryAction::Prepare => EntryActionSpec::Prepare,
            EntryAction::Transfer => EntryActionSpec::Transfer,
            EntryAction::DeleteOrphans => EntryActionSpec::DeleteOrphans,
            EntryAction::LookForManifest => EntryActionSpec::LookForManifest,
            EntryAction::EnsureMarker => EntryActionSpec::EnsureMarker,
            EntryAction::ReadMarker => EntryActionSpec::ReadMarker,
            EntryAction::WriteMarker => EntryActionSpec::WriteMarker,
            EntryAction::Refuse => EntryActionSpec::Refuse,
            EntryAction::Fail { notice, error } => EntryActionSpec::Fail {
                notice: opt_view(*notice),
                error: error@,
            },
            EntryAction::Succeed => EntryActionSpec::Succeed,
            EntryAction::Wait => EntryActionSpec::Wait,
        }
    }
}

pub open spec fn fail_spec(notice: Option<Seq<char>>, error: Seq<char>) -> EntryActionSpec {
    EntryActionSpec::Fail { notice, error }
}

/// The first step of either mode: a destination that is not strictly below
/// the volumes root fails the entry before anything is looked at.
pub open spec fn entry_start_spec(root: Seq<char>, dest: Seq<char>) -> (EntryState, EntryActionSpec) {
    if escapes_root_spec(root, dest) {
        (
            EntryState::Done,
            fail_spec(
                Some("destination escapes volumes root"@),
                "destination escapes volumes root: "@ + dest,
            ),
        )
    } else {
        (EntryState::InspectingSource, EntryActionSpec::InspectSource)
    }
}

/// Looking at the source, in either mode.
pub open spec fn source_step(source: Seq<char>, plain_dir: bool) -> (EntryState, EntryActionSpec) {
    if plain_dir {
        (EntryState::InspectingDest, EntryActionSpec::InspectDest)
    } else {
        (EntryState::Done, fail_spec(Some("source missing"@), "source missing: "@ + source))
    }
}

/// Looking at the destination, given whether the mode refuses it.
pub open spec fn dest_step(d: DestStatus, refused: bool) -> (EntryState, EntryActionSpec) {
    match d {
        DestStatus::Absent => (EntryState::Listing, EntryActionSpec::List),
        DestStatus::Unreadable(m) => (EntryState::Done, fail_spec(None, "cannot stat destination: "@ + m@)),
        DestStatus::NotPlainDir => (EntryState::Done, EntryActionSpec::Refuse),
        DestStatus::PlainDir { has_marker, names } => match names {
            Err(m) => (EntryState::Done, fail_spec(None, "cannot read destination: "@ + m@)),
            Ok(_) => if refused {
                (EntryState::Done, EntryActionSpec::Refuse)
            } else {
                (EntryState::Listing, EntryActionSpec::List)
            },
        },
    }
}

/// Whether mirror mode refuses the destination described by `d`.
pub open spec fn mirror_refuses_status(d: DestStatus) -> bool {
    match d {
        DestStatus::PlainDir { has_marker, names: Ok(ns) } => mirror_refuses_spec(
            true,
            has_marker,
            opt_names_view(ns@),
        ),
        _ => false,
    }
}

/// Whether move mode refuses the destination described by `d`.
pub open spec fn move_refuses_status(d: DestStatus) -> bool {
    match d {
        DestStatus::PlainDir { has_marker, names: Ok(ns) } => move_refuses_spec(
            true,
            has_marker,
            opt_names_view(ns@),
        ),
        _ => false,
    }
}

/// A listing error fails the entry with its reason token.
pub open spec fn list_failure(m: Seq<char>) -> (EntryState, EntryActionSpec) {
    (
        EntryState::Done,
        fail_spec(Some(reason_token_spec(m)), "cannot list source: "@ + reason_token_spec(m)),
    )
}

/// Creating the destination failed.
pub open spec fn create_failure(m: Seq<char>) -> (EntryState, EntryActionSpec) {
    (EntryState::Done, fail_spec(Some(reason_token_spec(m)), "cannot create destination: "@ + m))
}

/// Mirror mode, one step.
pub open spec fn mirror_entry_next_spec(
    dry_run: bool,
    source: Seq<char>,
    s: EntryState,
    e: EntryEvent,
) -> (EntryState, EntryActionSpec) {
    match (s, e) {
        (EntryState::InspectingSource, EntryEvent::SourceInspected { plain_dir }) => source_step(source, plain_dir),
        (EntryState::InspectingDest, EntryEvent::DestInspected(d)) => dest_step(d, mirror_refuses_status(d)),
        (EntryState::Listing, EntryEvent::Listed(r)) => match r {
            Err(m) => list_failure(m@),
            Ok(_) => if dry_run {
                (EntryState::Planning, EntryActionSpec::Plan)
            } else {
                (EntryState::Creating, EntryActionSpec::CreateDest)
            },
        },
        (EntryState::Planning, EntryEvent::Planned) => (EntryState::Done, EntryActionSpec::Succeed),
        (EntryState::Creating, EntryEvent::Created(r)) => match r {
            Err(m) => create_failure(m@),
            Ok(_) => (EntryState::Transferring, EntryActionSpec::Transfer),
        },
        (EntryState::Transferring, EntryEvent::Transferred { moved_any, failed }) => (
            EntryState::Deleting { failed },
            EntryActionSpec::DeleteOrphans,
        ),
        (EntryState::Deleting { failed }, EntryEvent::Deleted { failed: more }) => if failed || more {
            (EntryState::Done, fail_spec(Some("file failures"@), "file failures"@))
        } else {
            (EntryState::ReadingMarker, EntryActionSpec::ReadMarker)
        },
        (EntryState::ReadingMarker, EntryEvent::MarkerRead(c)) => {
            let current = match c {
                Some(b) => b@ == marker_content(),
                None => false,
            };
            if current {
                (EntryState::Done, EntryActionSpec::Succeed)
            } else {
                (EntryState::WritingMarker, EntryActionSpec::WriteMarker)
            }
        },
        (EntryState::WritingMarker, EntryEvent::MarkerWritten(r)) => match r {
            Ok(_) => (EntryState::Done, EntryActionSpec::Succeed),
            Err(m) => (
                EntryState::Done,
                fail_spec(Some(reason_token_spec(m@)), "cannot write marker: "@ + m@),
            ),
        },
        _ => (s, EntryActionSpec::Wait),
    }
}

/// The end of a move run: it fails when some file failed.
pub open spec fn move_finish(failed: bool) -> (EntryState, EntryActionSpec) {
    if failed {
        (EntryState::Done, fail_spec(None, "file failures"@))
    } else {
        (EntryState::Done, EntryActionSpec::Succeed)
    }
}

/// Move mode, one step.
pub open spec fn move_entry_next_spec(
    dry_run: bool,
    source: Seq<char>,
    s: EntryState,
    e: EntryEvent,
) -> (EntryState, EntryActionSpec) {
    match (s, e) {
        (EntryState::InspectingSource, EntryEvent::SourceInspected { plain_dir }) => source_step(source, plain_dir),
        (EntryState::InspectingDest, EntryEvent::DestInspected(d)) => dest_step(d, move_refuses_status(d)),
        (EntryState::Listing, EntryEvent::Listed(r)) => match r {
            Err(m) => list_failure(m@),
            Ok(n) => if dry_run {
                (EntryState::Planning, EntryActionSpec::Plan)
            } else if n == 0 {
                (EntryState::CheckingDest, EntryActionSpec::CheckDest)
            } else {
                (EntryState::Creating, EntryActionSpec::CreateDest)
            },
        },
        (EntryState::Planning, EntryEvent::Planned) => (EntryState::Done, EntryActionSpec::Succeed),
        (EntryState::CheckingDest, EntryEvent::DestChecked { plain_dir }) => if plain_dir {
            (EntryState::Creating, EntryActionSpec::CreateDest)
        } else {
            (EntryState::Done, EntryActionSpec::Succeed)
        },
        (EntryState::Creating, EntryEvent::Created(r)) => match r {
            Err(m) => create_failure(m@),
            Ok(_) => (EntryState::Preparing, EntryActionSpec::Prepare),
        },
        (EntryState::Preparing, EntryEvent::Prepared) => (EntryState::Transferring, EntryActionSpec::Transfer),
        (EntryState::Transferring, EntryEvent::Transferred { moved_any, failed }) => if moved_any {
            (EntryState::Marking { failed }, EntryActionSpec::EnsureMarker)
        } else {
            (EntryState::LookingForManifest { failed }, EntryActionSpec::LookForManifest)
        },
        (EntryState::LookingForManifest { failed }, EntryEvent::ManifestSeen(seen)) => if seen {
            (EntryState::Marking { failed }, EntryActionSpec::EnsureMarker)
        } else {
            move_finish(failed)
        },
        (EntryState::Marking { failed }, EntryEvent::Marked) => move_finish(failed),
        _ => (s, EntryActionSpec::Wait),
    }
}

fn joined(a: &str, b: &str) -> (r: String)
    ensures
        r@ == a@ + b@,
{
    let mut r = String::new();
    push_str(&mut r, a);
    push_str(&mut r, b);
    r
}

fn fail_action(notice: Option<String>, error: String) -> (a: EntryAction)
    ensures
        a@ == fail_spec(opt_view(notice), error@),
{
    EntryAction::Fail { notice, error }
}

/// The first step of either mode, with `dest` the entry's destination path.
pub fn entry_start(root: &str, dest: &str) -> (r: (EntryState, EntryAction))
    ensures
        r.0 == entry_start_spec(root@, dest@).0,
        r.1@ == entry_start_spec(root@, dest@).1,
{
    if escapes_root(root, dest) {
        let notice = String::from_str("destination escapes volumes root");
        (EntryState::Done, fail_action(Some(notice), joined("destination escapes volumes root: ", dest)))
    } else {
        (EntryState::InspectingSource, EntryAction::InspectSource)
    }
}

fn source_step_exec(source: &str, plain_dir: bool) -> (r: (EntryState, EntryAction))
    ensures
        r.0 == source_step(source@, plain_dir).0,
        r.1@ == source_step(source@, plain_dir).1,
{
    if plain_dir {
        (EntryState::InspectingDest, EntryAction::InspectDest)
    } else {
        let notice = String::from_str("source missing");
        (EntryState::Done, fail_action(Some(notice), joined("source missing: ", source)))
    }
}

fn dest_step_exec(d: DestStatus, mirror: bool) -> (r: (EntryState, EntryAction))
    ensures
        mirror ==> r.0 == dest_step(d, mirror_refuses_status(d)).0,
        mirror ==> r.1@ == dest_step(d, mirror_refuses_status(d)).1,
        !mirror ==> r.0 == dest_step(d, move_refuses_status(d)).0,
        !mirror ==> r.1@ == dest_step(d, move_refuses_status(d)).1,
{
    match d {
        DestStatus::Absent => (EntryState::Listing, EntryAction::List),
        DestStatus::Unreadable(m) => (
            EntryState::Done,
            fail_action(None, joined("cannot stat destination: ", m.as_str())),
        ),
        DestStatus::NotPlainDir => (EntryState::Done, EntryAction::Refuse),
        DestStatus::PlainDir { has_marker, names } => match names {
            Err(m) => (EntryState::Done, fail_action(None, joined("cannot read destination: ", m.as_str()))),
            Ok(ns) => {
                let refused = if mirror {
                    mirror_refuses(true, has_marker, &ns)
                } else {
                    move_refuses(true, has_marker, &ns)
                };
                if refused {
                    (EntryState::Done, EntryAction::Refuse)
                } else {
                    (EntryState::Listing, EntryAction::List)
                }
            },
        },
    }
}

fn list_failure_exec(m: &str) -> (r: (EntryState, EntryAction))
    ensures
        r.0 == list_failure(m@).0,
        r.1@ == list_failure(m@).1,
{
    let reason = reason_token(m);
    let error = joined("cannot list source: ", reason.as_str());
    (EntryState::Done, fail_action(Some(reason), error))
}

fn create_failure_exec(m: &str) -> (r: (EntryState, EntryAction))
    ensures
        r.0 == create_failure(m@).0,
        r.1@ == create_failure(m@).1,
{
    let reason = reason_token(m);
    (EntryState::Done, fail_action(Some(reason), joined("cannot create destination: ", m)))
}

/// Mirror mode: the next state and action after event `e` in state `s`,
/// for a dry run or not, with `source` the entry's source path. An event
/// that does not answer the state's action changes nothing.
pub fn mirror_entry_next(dry_run: bool, source: &str, s: EntryState, e: EntryEvent) -> (r: (
    EntryState,
    EntryAction,
))
    ensures
        r.0 == mirror_entry_next_spec(dry_run, source@, s, e).0,
        r.1@ == mirror_entry_next_spec(dry_run, source@, s, e).1,
{
    match (s, e) {
        (EntryState::InspectingSource, EntryEvent::SourceInspected { plain_dir }) => source_step_exec(source, plain_dir),
        (EntryState::InspectingDest, EntryEvent::DestInspected(d)) => dest_step_exec(d, true),
        (EntryState::Listing, EntryEvent::Listed(r)) => match r {
            Err(m) => list_failure_exec(m.as_str()),
            Ok(_) => if dry_run {
                (EntryState::Planning, EntryAction::Plan)
            } else {
                (EntryState::Creating, EntryAction::CreateDest)
            },
        },
        (EntryState::Planning, EntryEvent::Planned) => (EntryState::Done, EntryAction::Succeed),
        (EntryState::Creating, EntryEvent::Created(r)) => match r {
            Err(m) => create_failure_exec(m.as_str()),
            Ok(_) => (EntryState::Transferring, EntryAction::Transfer),
        },
        (EntryState::Transferring, EntryEvent::Transferred { moved_any: _, failed }) => (
            EntryState::Deleting { failed },
            EntryAction::DeleteOrphans,
        ),
        (EntryState::Deleting { failed }, EntryEvent::Deleted { failed: more }) => if failed || more {
            let notice = String::from_str("file failures");
            let error = String::from_str("file failures");
            (EntryState::Done, fail_action(Some(notice), error))
        } else {
            (EntryState::ReadingMarker, EntryAction::ReadMarker)
        },
        (EntryState::ReadingMarker, EntryEvent::MarkerRead(c)) => {
            let stale = match c {
                Some(b) => marker_needs_rewrite(b.as_slice()),
                None => true,
            };
            if stale {
                (EntryState::WritingMarker, EntryAction::WriteMarker)
            } else {
                (EntryState::Done, EntryAction::Succeed)
            }
        },
        (EntryState::WritingMarker, EntryEvent::MarkerWritten(r)) => match r {
            Ok(_) => (EntryState::Done, EntryAction::Succeed),
            Err(m) => {
                let reason = reason_token(m.as_str());
                (EntryState::Done, fail_action(Some(reason), joined("cannot write marker: ", m.as_str())))
            },
        },
        (s, _) => (s, EntryAction::Wait),
    }
}

fn move_finish_exec(failed: bool) -> (r: (EntryState, EntryAction))
    ensures
        r.0 == move_finish(failed).0,
        r.1@ == move_finish(failed).1,
{
    if failed {
        (EntryState::Done, fail_action(None, String::from_str("file failures")))
    } else {
        (EntryState::Done, EntryAction::Succeed)
    }
}

/// Move mode: the next state and action after event `e` in state `s`, for
/// a dry run or not, with `source` the entry's source path. An event that
/// does not answer the state's action changes nothing.
pub fn move_entry_next(dry_run: bool, source: &str, s: EntryState, e: EntryEvent) -> (r: (
    EntryState,
    EntryAction,
))
    ensures
        r.0 == move_entry_next_spec(dry_run, source@, s, e).0,
        r.1@ == move_entry_next_spec(dry_run, source@, s, e).1,
{
    match (s, e) {
        (EntryState::InspectingSource, EntryEvent::SourceInspected { plain_dir }) => source_step_exec(source, plain_dir),
        (EntryState::InspectingDest, EntryEvent::DestInspected(d)) => dest_step_exec(d, false),
        (EntryState::Listing, EntryEvent::Listed(r)) => match r {
            Err(m) => list_failure_exec(m.as_str()),
            Ok(n) => if dry_run {
                (EntryState::Planning, EntryAction::Plan)
            } else if n == 0 {
                (EntryState::CheckingDest, EntryAction::CheckDest)
            } else {
                (EntryState::Creating, EntryAction::CreateDest)
            },
        },
        (EntryState::Planning, EntryEvent::Planned) => (EntryState::Done, EntryAction::Succeed),
        (EntryState::CheckingDest, EntryEvent::DestChecked { plain_dir }) => if plain_dir {
            (EntryState::Creating, EntryAction::CreateDest)
        } else {
            (EntryState::Done, EntryAction::Succeed)
        },
        (EntryState::Creating, EntryEvent::Created(r)) => match r {
            Err(m) => create_failure_exec(m.as_str()),
            Ok(_) => (EntryState::Preparing, EntryAction::Prepare),
        },
        (EntryState::Preparing, EntryEvent::Prepared) => (EntryState::Transferring, EntryAction::Transfer),
        (EntryState::Transferring, EntryEvent::Transferred { moved_any, failed }) => if moved_any {
            (EntryState::Marking { failed }, EntryAction::EnsureMarker)
        } else {
            (EntryState::LookingForManifest { failed }, EntryAction::LookForManifest)
        },
        (EntryState::LookingForManifest { failed }, EntryEvent::ManifestSeen(seen)) => if seen {
            (EntryState::Marking { failed }, EntryAction::EnsureMarker)
        } else {
            move_finish_exec(failed)
        },
        (EntryState::Marking { failed }, EntryEvent::Marked) => move_finish_exec(failed),
        (s, _) => (s, EntryAction::Wait),
    }
}

// ------------------------------------------------------------------ laws

/// The actions that change the destination.
pub open spec fn writes(a: EntryActionSpec) -> bool {
    ||| a is CreateDest
    ||| a is Prepare
    ||| a is Transfer
    ||| a is DeleteOrphans
    ||| a is EnsureMarker
    ||| a is WriteMarker
}

/// The states a dry run passes through.
pub open spec fn dry_state(s: EntryState) -> bool {
    ||| s is InspectingSource
    ||| s is InspectingDest
    ||| s is Listing
    ||| s is Planning
    ||| s is Done
}

/// The actions of a mirror run from state `s` when `events` come in turn.
pub open spec fn mirror_actions(dry_run: bool, source: Seq<char>, s: EntryState, events: Seq<EntryEvent>) -> Seq<
    EntryActionSpec,
>
    decreases events.len(),
{
    if events.len() == 0 {
        seq![]
    } else {
        let (next, a) = mirror_entry_next_spec(dry_run, source, s, events[0]);
        seq![a] + mirror_actions(dry_run, source, next, events.drop_first())
    }
}

/// The actions of a move run from state `s` when `events` come in turn.
pub open spec fn move_actions(dry_run: bool, source: Seq<char>, s: EntryState, events: Seq<EntryEvent>) -> Seq<
    EntryActionSpec,
>
    decreases events.len(),
{
    if events.len() == 0 {
        seq![]
    } else {
        let (next, a) = move_entry_next_spec(dry_run, source, s, events[0]);
        seq![a] + move_actions(dry_run, source, next, events.drop_first())
    }
}

proof fn lemma_dry_actions(source: Seq<char>, s: EntryState, events: Seq<EntryEvent>)
    requires
        dry_state(s),
    ensures
        forall|i: int|
            0 <= i < mirror_actions(true, source, s, events).len() ==> !writes(
                #[trigger] mirror_actions(true, source, s, events)[i],
            ),
        forall|i: int|
            0 <= i < move_actions(true, source, s, events).len() ==> !writes(
                #[trigger] move_actions(true, source, s, events)[i],
            ),
    decreases events.len(),
{
    if events.len() > 0 {
        let (m, _) = mirror_entry_next_spec(true, source, s, events[0]);
        let (v, _) = move_entry_next_spec(true, source, s, events[0]);
        lemma_dry_actions(source, m, events.drop_first());
        lemma_dry_actions(source, v, events.drop_first());
        let ma = mirror_actions(true, source, s, events);
        let va = move_actions(true, source, s, events);
        assert forall|i: int| 0 <= i < ma.len() implies !writes(#[trigger] ma[i]) by {
            if i > 0 {
                assert(ma[i] == mirror_actions(true, source, m, events.drop_first())[i - 1]);
            }
        }
        assert forall|i: int| 0 <= i < va.len() implies !writes(#[trigger] va[i]) by {
            if i > 0 {
                assert(va[i] == move_actions(true, source, v, events.drop_first())[i - 1]);
            }
        }
    }
}

/// A dry run changes nothing at the destination: whatever the file system
/// reports, from its first step on, a dry run only inspects, lists, prints
/// its plan, refuses or fails.
pub proof fn lemma_dry_run_writes_nothing(
    root: Seq<char>,
    dest: Seq<char>,
    source: Seq<char>,
    events: Seq<EntryEvent>,
)
    ensures
        !writes(entry_start_spec(root, dest).1),
        forall|i: int|
            0 <= i < mirror_actions(true, source, entry_start_spec(root, dest).0, events).len()
                ==> !writes(#[trigger] mirror_actions(true, source, entry_start_spec(root, dest).0, events)[i]),
        forall|i: int|
            0 <= i < move_actions(true, source, entry_start_spec(root, dest).0, events).len()
                ==> !writes(#[trigger] move_actions(true, source, entry_start_spec(root, dest).0, events)[i]),
{
    lemma_dry_actions(source, entry_start_spec(root, dest).0, events);
}

/// A refusal or a failure ends the entry's run: the run is done, and a
/// finished run asks for nothing more.
pub proof fn lemma_refusal_and_failure_end_the_run(
    dry_run: bool,
    source: Seq<char>,
    s: EntryState,
    e: EntryEvent,
    later: EntryEvent,
)
    ensures
        mirror_entry_next_spec(dry_run, source, s, e).1 is Refuse || mirror_entry_next_spec(dry_run, source, s, e).1 is Fail
            ==> mirror_entry_next_spec(dry_run, source, s, e).0 == EntryState::Done,
        move_entry_next_spec(dry_run, source, s, e).1 is Refuse || move_entry_next_spec(dry_run, source, s, e).1 is Fail
            ==> move_entry_next_spec(dry_run, source, s, e).0 == EntryState::Done,
        mirror_entry_next_spec(dry_run, source, EntryState::Done, later) == (EntryState::Done, EntryActionSpec::Wait),
        move_entry_next_spec(dry_run, source, EntryState::Done, later) == (EntryState::Done, EntryActionSpec::Wait),
{
}

/// An existing destination that holds something of someone else's is
/// refused, and files are listed (and so anything written) only after the
/// destination passed this guard.
pub proof fn lemma_unmanaged_destination_refused(
    dry_run: bool,
    source: Seq<char>,
    s: EntryState,
    e: EntryEvent,
    d: DestStatus,
)
    ensures
        mirror_refuses_status(d) ==> mirror_entry_next_spec(dry_run, source, EntryState::InspectingDest, EntryEvent::DestInspected(d))
            == (EntryState::Done, EntryActionSpec::Refuse),
        move_refuses_status(d) ==> move_entry_next_spec(dry_run, source, EntryState::InspectingDest, EntryEvent::DestInspected(d))
            == (EntryState::Done, EntryActionSpec::Refuse),
        d is NotPlainDir ==> mirror_entry_next_spec(dry_run, source, EntryState::InspectingDest, EntryEvent::DestInspected(d))
            == (EntryState::Done, EntryActionSpec::Refuse),
        d is NotPlainDir ==> move_entry_next_spec(dry_run, source, EntryState::InspectingDest, EntryEvent::DestInspected(d))
            == (EntryState::Done, EntryActionSpec::Refuse),
        mirror_entry_next_spec(dry_run, source, s, e).0 is Listing && !(s is Listing) ==> {
            &&& s is InspectingDest
            &&& e matches EntryEvent::DestInspected(found)
            &&& !mirror_refuses_status(found)
            &&& !(found is NotPlainDir)
        },
        move_entry_next_spec(dry_run, source, s, e).0 is Listing && !(s is Listing) ==> {
            &&& s is InspectingDest
            &&& e matches EntryEvent::DestInspected(found)
            &&& !move_refuses_status(found)
            &&& !(found is NotPlainDir)
        },
{
}

/// Mirror deletes only once its copy pass is complete, and writes its
/// marker only after a pass in which no copy and no deletion failed.
pub proof fn lemma_mirror_deletes_last_and_marks_clean_runs(
    dry_run: bool,
    source: Seq<char>,
    s: EntryState,
    e: EntryEvent,
)
    ensures
        mirror_entry_next_spec(dry_run, source, s, e).1 is DeleteOrphans ==> s is Transferring
            && e is Transferred,
        mirror_entry_next_spec(dry_run, source, s, e).1 is WriteMarker ==> s is ReadingMarker,
        mirror_entry_next_spec(dry_run, source, s, e).0 is ReadingMarker && !(s is ReadingMarker) ==> {
            &&& s == (EntryState::Deleting { failed: false })
            &&& e matches EntryEvent::Deleted { failed: false }
        },
{
}

/// Move transfers files only after the destination was prepared: its
/// marker is current and leftover temporary files are gone, so a run killed
/// midway leaves a destination the next run accepts.
pub proof fn lemma_move_prepares_before_transfer(dry_run: bool, source: Seq<char>, s: EntryState, e: EntryEvent)
    ensures
        move_entry_next_spec(dry_run, source, s, e).1 is Transfer ==> s is Preparing && e is Prepared,
        move_entry_next_spec(dry_run, source, s, e).1 is Prepare ==> s is Creating && e matches EntryEvent::Created(
            Ok(_),
        ),
{
}

/// A current marker is left as it is: a mirror run that finds the marker
/// holding `exsync-managed` and a line break writes nothing more.
pub proof fn lemma_current_marker_untouched(dry_run: bool, source: Seq<char>, content: Vec<u8>)
    requires
        content@ == marker_content(),
    ensures
        mirror_entry_next_spec(dry_run, source, EntryState::ReadingMarker, EntryEvent::MarkerRead(Some(content)))
            == (EntryState::Done, EntryActionSpec::Succeed),
{
}

/// What a mirror run sees on a second run over an unchanged tree: a source
/// directory, a destination directory that holds a marker, the same `n`
/// selected files, a destination that needs no creating, a transfer pass
/// and a delete pass without failures, and the current marker.
pub open spec fn unchanged_rerun_events(names: Vec<Option<String>>, n: usize, marker: Vec<u8>) -> Seq<EntryEvent> {
    seq![
        EntryEvent::SourceInspected { plain_dir: true },
        EntryEvent::DestInspected(DestStatus::PlainDir { has_marker: true, names: Ok(names) }),
        EntryEvent::Listed(Ok(n)),
        EntryEvent::Created(Ok(())),
        EntryEvent::Transferred { moved_any: false, failed: false },
        EntryEvent::Deleted { failed: false },
        EntryEvent::MarkerRead(Some(marker)),
    ]
}

/// A second mirror run over an unchanged tree succeeds and writes no
/// marker. With `steps::lemma_mirror_rerun_copies_nothing` (a file whose
/// counterpart has its size and modification time is only logged) and
/// `rules::mirror_deletes` (a file the source still has is never deleted),
/// no file under the destination is created, changed or deleted.
pub proof fn lemma_mirror_rerun_changes_nothing(
    source: Seq<char>,
    names: Vec<Option<String>>,
    n: usize,
    marker: Vec<u8>,
)
    requires
        marker@ == marker_content(),
    ensures
        mirror_actions(false, source, EntryState::InspectingSource, unchanged_rerun_events(names, n, marker))
            == seq![
            EntryActionSpec::InspectDest,
            EntryActionSpec::List,
            EntryActionSpec::CreateDest,
            EntryActionSpec::Transfer,
            EntryActionSpec::DeleteOrphans,
            EntryActionSpec::ReadMarker,
            EntryActionSpec::Succeed,
        ],
{
    reveal_with_fuel(mirror_actions, 8);
    let ev = unchanged_rerun_events(names, n, marker);
    assert(ev.drop_first() =~= ev.subrange(1, 7));
    let acts = mirror_actions(false, source, EntryState::InspectingSource, ev);
    assert(acts =~= seq![
        EntryActionSpec::InspectDest,
        EntryActionSpec::List,
        EntryActionSpec::CreateDest,
        EntryActionSpec::Transfer,
        EntryActionSpec::DeleteOrphans,
        EntryActionSpec::ReadMarker,
        EntryActionSpec::Succeed,
    ]);
}

/// The states of a move run after a transfer pass in which some file
/// failed.
pub open spec fn move_failed_state(s: EntryState) -> bool {
    ||| s == (EntryState::LookingForManifest { failed: true })
    ||| s == (EntryState::Marking { failed: true })
    ||| s is Done
}

/// The states of a mirror run after a copy pass in which some file failed.
pub open spec fn mirror_failed_state(s: EntryState) -> bool {
    ||| s == (EntryState::Deleting { failed: true })
    ||| s is Done
}

proof fn lemma_failed_runs_never_succeed(
    dry_run: bool,
    source: Seq<char>,
    s: EntryState,
    t: EntryState,
    events: Seq<EntryEvent>,
)
    requires
        move_failed_state(s),
        mirror_failed_state(t),
    ensures
        forall|i: int|
            0 <= i < move_actions(dry_run, source, s, events).len() ==> !(
            #[trigger] move_actions(dry_run, source, s, events)[i] is Succeed),
        forall|i: int|
            0 <= i < mirror_actions(dry_run, source, t, events).len() ==> !(
            #[trigger] mirror_actions(dry_run, source, t, events)[i] is Succeed),
    decreases events.len(),
{
    if events.len() > 0 {
        let (v, _) = move_entry_next_spec(dry_run, source, s, events[0]);
        let (m, _) = mirror_entry_next_spec(dry_run, source, t, events[0]);
        lemma_failed_runs_never_succeed(dry_run, source, v, m, events.drop_first());
        let va = move_actions(dry_run, source, s, events);
        let ma = mirror_actions(dry_run, source, t, events);
        assert forall|i: int| 0 <= i < va.len() implies !(#[trigger] va[i] is Succeed) by {
            if i > 0 {
                assert(va[i] == move_actions(dry_run, source, v, events.drop_first())[i - 1]);
            }
        }
        assert forall|i: int| 0 <= i < ma.len() implies !(#[trigger] ma[i] is Succeed) by {
            if i > 0 {
                assert(ma[i] == mirror_actions(dry_run, source, m, events.drop_first())[i - 1]);
            }
        }
    }
}

/// A file failure fails the entry: once a transfer pass has reported that
/// some file failed, whatever the file system reports afterwards, neither a
/// move run nor a mirror run ever succeeds; the failure is carried to the
/// end of the run.
pub proof fn lemma_file_failure_fails_the_entry(
    dry_run: bool,
    source: Seq<char>,
    moved_any: bool,
    events: Seq<EntryEvent>,
)
    ensures
        forall|i: int|
            0 <= i < move_actions(
                dry_run,
                source,
                EntryState::Transferring,
                seq![EntryEvent::Transferred { moved_any, failed: true }] + events,
            ).len() ==> !(#[trigger] move_actions(
                dry_run,
                source,
                EntryState::Transferring,
                seq![EntryEvent::Transferred { moved_any, failed: true }] + events,
            )[i] is Succeed),
        forall|i: int|
            0 <= i < mirror_actions(
                dry_run,
                source,
                EntryState::Transferring,
                seq![EntryEvent::Transferred { moved_any, failed: true }] + events,
            ).len() ==> !(#[trigger] mirror_actions(
                dry_run,
                source,
                EntryState::Transferring,
                seq![EntryEvent::Transferred { moved_any, failed: true }] + events,
            )[i] is Succeed),
{
    let all = seq![EntryEvent::Transferred { moved_any, failed: true }] + events;
    assert(all[0] == EntryEvent::Transferred { moved_any, failed: true });
    assert(all.drop_first() =~= events);
    let (v, _) = move_entry_next_spec(dry_run, source, EntryState::Transferring, all[0]);
    let (m, _) = mirror_entry_next_spec(dry_run, source, EntryState::Transferring, all[0]);
    lemma_failed_runs_never_succeed(dry_run, source, v, m, events);
    let va = move_actions(dry_run, source, EntryState::Transferring, all);
    let ma = mirror_actions(dry_run, source, EntryState::Transferring, all);
    assert forall|i: int| 0 <= i < va.len() implies !(#[trigger] va[i] is Succeed) by {
        if i > 0 {
            assert(va[i] == move_actions(dry_run, source, v, events)[i - 1]);
        }
    }
    assert forall|i: int| 0 <= i < ma.len() implies !(#[trigger] ma[i] is Succeed) by {
        if i > 0 {
            assert(ma[i] == mirror_actions(dry_run, source, m, events)[i - 1]);
        }
    }
}

} // verus!
