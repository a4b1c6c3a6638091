//! Dispatch decisions: where the configuration and the volumes live, which
//! entries run, the single run line, log-safe reasons, and the exit code.
//!
//! One invocation writes exactly one run line
//! (`OK run entries=<n> mounted=<m>`). When no configured drive is mounted,
//! that run line is the only log output; per-entry SKIP lines are emitted
//! only when at least one drive is mounted.

use vstd::prelude::*;
use crate::config_model::path_join;
use crate::log::{opt_str, present};
use crate::text::{dec, is_ws, is_whitespace, push_dec, push_str, string_push, str_chars};

verus! {

/// `msg` with every whitespace character replaced by `-`.
pub open spec fn dash_ws(msg: Seq<char>) -> Seq<char> {
    Seq::new(msg.len(), |i: int| if is_ws(msg[i]) { '-' } else { msg[i] })
}

/// An error message collapsed to one log-safe token: whitespace becomes
/// `-`, and an empty message becomes `error`.
pub open spec fn reason_token_spec(msg: Seq<char>) -> Seq<char> {
    if msg.len() == 0 {
        "error"@
    } else {
        dash_ws(msg)
    }
}

/// Collapse an error message to a single log-safe token.
pub fn reason_token(msg: &str) -> (r: String)
    ensures
        r@ == reason_token_spec(msg@),
{
    let v = str_chars(msg);
    if v.len() == 0 {
        return String::from_str("error");
    }
    let mut out = String::new();
    let mut i: usize = 0;
    while i < v.len()
        invariant
            i <= v.len(),
            v@ == msg@,
            out@ == dash_ws(msg@).subrange(0, i as int),
        decreases v.len() - i,
    {
        if is_whitespace(v[i]) {
            string_push(&mut out, '-');
        } else {
            string_push(&mut out, v[i]);
        }
        i = i + 1;
        assert(out@ =~= dash_ws(msg@).subrange(0, i as int));
    }
    assert(dash_ws(msg@).subrange(0, i as int) =~= dash_ws(msg@));
    out
}

/// A reason is one log field: never empty and free of whitespace.
pub proof fn lemma_reason_is_token(msg: Seq<char>)
    ensures
        reason_token_spec(msg).len() > 0,
        forall|i: int|
            0 <= i < reason_token_spec(msg).len() ==> !is_ws(#[trigger] reason_token_spec(msg)[i]),
{
    reveal_strlit("error");
    if msg.len() > 0 {
        assert forall|i: int| 0 <= i < reason_token_spec(msg).len() implies !is_ws(
            #[trigger] reason_token_spec(msg)[i],
        ) by {
            assert(is_ws('-') == false);
        }
    } else {
        assert("error"@.len() == 5);
        assert forall|i: int| 0 <= i < reason_token_spec(msg).len() implies !is_ws(
            #[trigger] reason_token_spec(msg)[i],
        ) by {
            assert(i < 5);
        }
    }
}

/// The configuration file: `EXSYNC_CONFIG` when set and not empty,
/// otherwise `Library/Application Support/exsync/exsync.toml` under `HOME`
/// (or under `/Users` when `HOME` is unset).
pub open spec fn config_path_spec(exsync_config: Option<Seq<char>>, home: Option<Seq<char>>) -> Seq<
    char,
> {
    if present(exsync_config) {
        exsync_config->0
    } else {
        path_join(
            match home {
                Some(h) => h,
                None => "/Users"@,
            },
            "Library/Application Support/exsync/exsync.toml"@,
        )
    }
}

pub fn config_path(exsync_config: Option<&str>, home: Option<&str>) -> (r: String)
    ensures
        r@ == config_path_spec(opt_str(exsync_config), opt_str(home)),
{
    if let Some(p) = exsync_config {
        if !p.is_empty() {
            return p.to_owned();
        }
    }
    let h = match home {
        Some(h) => h,
        None => "/Users",
    };
    crate::paths::join_path(h, "Library/Application Support/exsync/exsync.toml")
}

/// The directory that holds mounted drives: `EXSYNC_VOLUMES_ROOT` when set
/// and not empty, otherwise `/Volumes`.
pub fn volumes_root(v: Option<&str>) -> (r: String)
    ensures
        r@ == (if present(opt_str(v)) {
            opt_str(v)->0
        } else {
            "/Volumes"@
        }),
{
    if let Some(p) = v {
        if !p.is_empty() {
            return p.to_owned();
        }
    }
    String::from_str("/Volumes")
}

/// A launchd user agent is not guaranteed to export `HOME`.
pub fn home_is_missing(home: Option<&str>) -> (r: bool)
    ensures
        r == !present(opt_str(home)),
{
    match home {
        Some(h) => h.is_empty(),
        None => true,
    }
}

/// The number of `true` flags.
pub open spec fn count_true(flags: Seq<bool>) -> nat
    decreases flags.len(),
{
    if flags.len() == 0 {
        0
    } else {
        count_true(flags.drop_last()) + if flags.last() {
            1nat
        } else {
            0nat
        }
    }
}

/// How many entries have their drive mounted.
pub fn count_mounted(flags: &Vec<bool>) -> (n: usize)
    ensures
        n == count_true(flags@),
{
    let mut n: usize = 0;
    let mut i: usize = 0;
    assert(flags@.subrange(0, 0) =~= Seq::<bool>::empty());
    while i < flags.len()
        invariant
            i <= flags.len(),
            n == count_true(flags@.subrange(0, i as int)),
            n <= i,
        decreases flags.len() - i,
    {
        assert(flags@.subrange(0, i + 1).drop_last() =~= flags@.subrange(0, i as int));
        if flags[i] {
            n = n + 1;
        }
        i = i + 1;
    }
    assert(flags@.subrange(0, i as int) =~= flags@);
    n
}

/// The run line: `OK run entries=<n> mounted=<m>`.
pub fn run_line(entries: usize, mounted: usize) -> (r: String)
    ensures
        r@ == "OK run entries="@ + dec(entries as nat) + " mounted="@ + dec(mounted as nat),
{
    let mut r = String::new();
    push_str(&mut r, "OK run entries=");
    push_dec(&mut r, entries as u64);
    push_str(&mut r, " mounted=");
    push_dec(&mut r, mounted as u64);
    assert(r@ =~= "OK run entries="@ + dec(entries as nat) + " mounted="@ + dec(mounted as nat));
    r
}

/// The log line for a configuration that cannot be loaded.
pub fn config_failure_line(message: &str) -> (r: String)
    ensures
        r@ == "FAIL config - 0 "@ + reason_token_spec(message@),
{
    let mut r = String::new();
    push_str(&mut r, "FAIL config - 0 ");
    let t = reason_token(message);
    push_str(&mut r, t.as_str());
    r
}

/// The exit code of a run: 1 when some entry failed, 0 otherwise.
pub fn exit_code(failed: bool) -> (c: i32)
    ensures
        c == (if failed {
            1i32
        } else {
            0i32
        }),
{
    if failed {
        1
    } else {
        0
    }
}

// ------------------------------------------------------------ the run

/// Where a run over the configured entries stands; `failed` records
/// whether some entry failed so far.
#[derive(Debug, Clone, Copy, PartialEq, Eq, Structural)]
pub enum DispatchState {
    /// The SKIP line of entry `index` is being logged.
    Skipping { index: usize, failed: bool },
    /// Entry `index` is running.
    Running { index: usize, failed: bool },
    /// The FAIL line of entry `index` is being logged.
    Reporting { index: usize },
    /// The run line is being logged.
    Closing { failed: bool },
    /// Nothing more happens.
    Done,
}

/// How the last action went.
#[derive(Debug)]
pub enum DispatchEvent {
    /// A log line was written (or its failure reported).
    Logged,
    /// An entry ran; the error's text when it failed.
    Ran(Result<(), String>),
}

/// What the caller does next.
#[derive(Debug, Clone, PartialEq, Eq)]
pub enum DispatchAction {
    /// Log `SKIP <entry> - 0 drive-not-mounted` for entry `index`.
    LogSkip(usize),
    /// Run entry `index` in its mode.
    RunEntry(usize),
    /// Log `FAIL <entry> - 0 <reason>` for entry `index`.
    LogFailure(usize, String),
    /// Log this run line.
    LogRunLine(String),
    /// End the process with this code.
    Exit(i32),
    /// The event did not answer the last action: nothing to do.
    Wait,
}

/// `DispatchAction` with its texts as character sequences.
pub enum DispatchActionSpec {
    LogSkip(int),
    RunEntry(int),
    LogFailure(int, Seq<char>),
    LogRunLine(Seq<char>),
    Exit(i32),
    Wait,
}

impl View for DispatchAction {
    type V = DispatchActionSpec;

    open spec fn view(&self) -> DispatchActionSpec {
        match self {
            DispatchAction::LogSkip(i) => DispatchActionSpec::LogSkip(*i as int),
            DispatchAction::RunEntry(i) => DispatchActionSpec::RunEntry(*i as int),
            DispatchAction::LogFailure(i, r) => DispatchActionSpec::LogFailure(*i as int, r@),
            DispatchAction::LogRunLine(l) => DispatchActionSpec::LogRunLine(l@),
            DispatchAction::Exit(c) => DispatchActionSpec::Exit(*c),
            DispatchAction::Wait => DispatchActionSpec::Wait,
        }
    }
}

pub open spec fn run_line_spec(entries: nat, mounted: nat) -> Seq<char> {
    "OK run entries="@ + dec(entries) + " mounted="@ + dec(mounted)
}

/// Entry `i` is next, among entries whose drives are `mounted`: it runs
/// when its drive is mounted and is skipped otherwise; after the last
/// entry comes the run line.
pub open spec fn visit(mounted: Seq<bool>, i: int, failed: bool) -> (DispatchState, DispatchActionSpec) {
    if i >= mounted.len() {
        (
            DispatchState::Closing { failed },
            DispatchActionSpec::LogRunLine(run_line_spec(mounted.len(), count_true(mounted))),
        )
    } else if mounted[i] {
        (DispatchState::Running { index: i as usize, failed }, DispatchActionSpec::RunEntry(i))
    } else {
        (DispatchState::Skipping { index: i as usize, failed }, DispatchActionSpec::LogSkip(i))
    }
}

/// The first step of a run whose configuration loaded: with no drive
/// mounted the run line is all there is; otherwise the first entry is next.
pub open spec fn dispatch_start_spec(mounted: Seq<bool>) -> (DispatchState, DispatchActionSpec) {
    if count_true(mounted) == 0 {
        (
            DispatchState::Closing { failed: false },
            DispatchActionSpec::LogRunLine(run_line_spec(mounted.len(), 0)),
        )
    } else {
        visit(mounted, 0, false)
    }
}

/// One step of the run.
pub open spec fn dispatch_next_spec(mounted: Seq<bool>, s: DispatchState, e: DispatchEvent) -> (
    DispatchState,
    DispatchActionSpec,
) {
    match (s, e) {
        (DispatchState::Skipping { index, failed }, DispatchEvent::Logged) => visit(mounted, index + 1, failed),
        (DispatchState::Running { index, failed }, DispatchEvent::Ran(r)) => match r {
            Ok(_) => visit(mounted, index + 1, failed),
            Err(m) => (
                DispatchState::Reporting { index },
                DispatchActionSpec::LogFailure(index as int, reason_token_spec(m@)),
            ),
        },
        (DispatchState::Reporting { index }, DispatchEvent::Logged) => visit(mounted, index + 1, true),
        (DispatchState::Closing { failed }, DispatchEvent::Logged) => (
            DispatchState::Done,
            DispatchActionSpec::Exit(if failed { 1i32 } else { 0i32 }),
        ),
        _ => (s, DispatchActionSpec::Wait),
    }
}

fn visit_exec(mounted: &Vec<bool>, i: usize, failed: bool) -> (r: (DispatchState, DispatchAction))
    requires
        i <= mounted.len(),
    ensures
        r.0 == visit(mounted@, i as int, failed).0,
        r.1@ == visit(mounted@, i as int, failed).1,
{
    if i >= mounted.len() {
        let m = count_mounted(mounted);
        (DispatchState::Closing { failed }, DispatchAction::LogRunLine(run_line(mounted.len(), m)))
    } else if mounted[i] {
        (DispatchState::Running { index: i, failed }, DispatchAction::RunEntry(i))
    } else {
        (DispatchState::Skipping { index: i, failed }, DispatchAction::LogSkip(i))
    }
}

/// The index after `index`, kept within `0..=mounted.len()`.
fn after(mounted: &Vec<bool>, index: usize) -> (n: usize)
    ensures
        n <= mounted.len(),
        visit(mounted@, n as int, true) == visit(mounted@, index + 1, true),
        visit(mounted@, n as int, false) == visit(mounted@, index + 1, false),
{
    if index < mounted.len() {
        index + 1
    } else {
        mounted.len()
    }
}

/// The first step of a run, with `mounted` telling for each configured
/// entry, in order, whether its drive is mounted.
pub fn dispatch_start(mounted: &Vec<bool>) -> (r: (DispatchState, DispatchAction))
    ensures
        r.0 == dispatch_start_spec(mounted@).0,
        r.1@ == dispatch_start_spec(mounted@).1,
{
    if count_mounted(mounted) == 0 {
        (DispatchState::Closing { failed: false }, DispatchAction::LogRunLine(run_line(mounted.len(), 0)))
    } else {
        visit_exec(mounted, 0, false)
    }
}

/// The next state and action of a run after event `e` in state `s`. An
/// event that does not answer the state's action changes nothing.
pub fn dispatch_next(mounted: &Vec<bool>, s: DispatchState, e: DispatchEvent) -> (r: (
    DispatchState,
    DispatchAction,
))
    ensures
        r.0 == dispatch_next_spec(mounted@, s, e).0,
        r.1@ == dispatch_next_spec(mounted@, s, e).1,
{
    match (s, e) {
        (DispatchState::Skipping { index, failed }, DispatchEvent::Logged) => visit_exec(
            mounted,
            after(mounted, index),
            failed,
        ),
        (DispatchState::Running { index, failed }, DispatchEvent::Ran(r)) => match r {
            Ok(_) => visit_exec(mounted, after(mounted, index), failed),
            Err(m) => (DispatchState::Reporting { index }, DispatchAction::LogFailure(index, reason_token(m.as_str()))),
        },
        (DispatchState::Reporting { index }, DispatchEvent::Logged) => visit_exec(
            mounted,
            after(mounted, index),
            true,
        ),
        (DispatchState::Closing { failed }, DispatchEvent::Logged) => (
            DispatchState::Done,
            DispatchAction::Exit(exit_code(failed)),
        ),
        (s, _) => (s, DispatchAction::Wait),
    }
}

// ------------------------------------------------------- laws of a run

/// The actions of a run from state `s` when `events` come in turn.
pub open spec fn dispatch_actions(mounted: Seq<bool>, s: DispatchState, events: Seq<DispatchEvent>) -> Seq<
    DispatchActionSpec,
>
    decreases events.len(),
{
    if events.len() == 0 {
        seq![]
    } else {
        let (next, a) = dispatch_next_spec(mounted, s, events[0]);
        seq![a] + dispatch_actions(mounted, next, events.drop_first())
    }
}

/// The actions of a whole run: its first step, then one per event.
pub open spec fn run_actions(mounted: Seq<bool>, events: Seq<DispatchEvent>) -> Seq<DispatchActionSpec> {
    seq![dispatch_start_spec(mounted).1] + dispatch_actions(mounted, dispatch_start_spec(mounted).0, events)
}

/// The number of run lines among `a`.
pub open spec fn count_run_lines(a: Seq<DispatchActionSpec>) -> nat
    decreases a.len(),
{
    if a.len() == 0 {
        0
    } else {
        (if a[0] is LogRunLine {
            1nat
        } else {
            0nat
        }) + count_run_lines(a.drop_first())
    }
}

/// The entry an action is about: one that is run or skipped.
pub open spec fn visited(a: DispatchActionSpec) -> Option<int> {
    match a {
        DispatchActionSpec::LogSkip(k) => Some(k),
        DispatchActionSpec::RunEntry(k) => Some(k),
        _ => None,
    }
}

pub open spec fn closed(s: DispatchState) -> bool {
    s is Closing || s is Done
}

/// The entry a state is at.
pub open spec fn position(s: DispatchState) -> int {
    match s {
        DispatchState::Skipping { index, failed } => index as int,
        DispatchState::Running { index, failed } => index as int,
        DispatchState::Reporting { index } => index as int,
        _ => -1,
    }
}

proof fn lemma_actions_unfold(mounted: Seq<bool>, s: DispatchState, events: Seq<DispatchEvent>)
    requires
        events.len() > 0,
    ensures
        dispatch_actions(mounted, s, events).len() == events.len(),
        dispatch_actions(mounted, s, events)[0] == dispatch_next_spec(mounted, s, events[0]).1,
        forall|k: int|
            0 < k < events.len() ==> #[trigger] dispatch_actions(mounted, s, events)[k] == dispatch_actions(
                mounted,
                dispatch_next_spec(mounted, s, events[0]).0,
                events.drop_first(),
            )[k - 1],
    decreases events.len(),
{
    lemma_actions_len(mounted, dispatch_next_spec(mounted, s, events[0]).0, events.drop_first());
}

proof fn lemma_actions_len(mounted: Seq<bool>, s: DispatchState, events: Seq<DispatchEvent>)
    ensures
        dispatch_actions(mounted, s, events).len() == events.len(),
    decreases events.len(),
{
    if events.len() > 0 {
        lemma_actions_len(mounted, dispatch_next_spec(mounted, s, events[0]).0, events.drop_first());
    }
}

/// From a closing or finished state nothing but the exit follows.
proof fn lemma_closed_stays_closed(mounted: Seq<bool>, s: DispatchState, events: Seq<DispatchEvent>)
    requires
        closed(s),
    ensures
        count_run_lines(dispatch_actions(mounted, s, events)) == 0,
        forall|k: int|
            0 <= k < dispatch_actions(mounted, s, events).len() ==> {
                let a = #[trigger] dispatch_actions(mounted, s, events)[k];
                !(a is LogRunLine) && !(a is LogSkip) && !(a is RunEntry) && !(a is LogFailure)
            },
    decreases events.len(),
{
    if events.len() > 0 {
        let next = dispatch_next_spec(mounted, s, events[0]).0;
        lemma_closed_stays_closed(mounted, next, events.drop_first());
        lemma_actions_unfold(mounted, s, events);
        assert(dispatch_actions(mounted, s, events).drop_first() =~= dispatch_actions(
            mounted,
            next,
            events.drop_first(),
        ));
    }
}

proof fn lemma_open_one_run_line(mounted: Seq<bool>, s: DispatchState, events: Seq<DispatchEvent>)
    requires
        !closed(s),
    ensures
        count_run_lines(dispatch_actions(mounted, s, events)) <= 1,
        forall|i: int|
            0 <= i < dispatch_actions(mounted, s, events).len() && #[trigger] dispatch_actions(
                mounted,
                s,
                events,
            )[i] is Exit ==> exists|j: int|
                0 <= j < i && #[trigger] dispatch_actions(mounted, s, events)[j] is LogRunLine,
    decreases events.len(),
{
    if events.len() > 0 {
        let (next, a0) = dispatch_next_spec(mounted, s, events[0]);
        let acts = dispatch_actions(mounted, s, events);
        let rest = dispatch_actions(mounted, next, events.drop_first());
        lemma_actions_unfold(mounted, s, events);
        assert(acts.drop_first() =~= rest);
        if closed(next) {
            lemma_closed_stays_closed(mounted, next, events.drop_first());
            assert(a0 is LogRunLine);
            assert forall|i: int| 0 <= i < acts.len() && #[trigger] acts[i] is Exit implies exists|j: int|
                0 <= j < i && #[trigger] acts[j] is LogRunLine by {
                assert(acts[0] is LogRunLine);
                if i == 0 {
                    assert(false);
                }
            }
        } else {
            lemma_open_one_run_line(mounted, next, events.drop_first());
            assert(!(a0 is LogRunLine));
            assert(!(a0 is Exit));
            assert forall|i: int| 0 <= i < acts.len() && #[trigger] acts[i] is Exit implies exists|j: int|
                0 <= j < i && #[trigger] acts[j] is LogRunLine by {
                assert(i > 0);
                assert(rest[i - 1] is Exit);
                let j = choose|j: int| 0 <= j < i - 1 && #[trigger] rest[j] is LogRunLine;
                assert(acts[j + 1] is LogRunLine);
            }
        }
    }
}

/// One invocation whose configuration loaded logs exactly one run line:
/// never more than one, and the process exits only after it.
pub proof fn lemma_one_run_line(mounted: Seq<bool>, events: Seq<DispatchEvent>)
    ensures
        count_run_lines(run_actions(mounted, events)) <= 1,
        forall|i: int|
            0 <= i < run_actions(mounted, events).len() && #[trigger] run_actions(mounted, events)[i] is Exit
                ==> exists|j: int| 0 <= j < i && #[trigger] run_actions(mounted, events)[j] is LogRunLine,
{
    let (s0, a0) = dispatch_start_spec(mounted);
    let acts = run_actions(mounted, events);
    let rest = dispatch_actions(mounted, s0, events);
    lemma_actions_len(mounted, s0, events);
    assert(acts.drop_first() =~= rest);
    assert forall|k: int| 0 < k < acts.len() implies #[trigger] acts[k] == rest[k - 1] by {}
    if closed(s0) {
        lemma_closed_stays_closed(mounted, s0, events);
        assert(acts[0] is LogRunLine);
    } else {
        lemma_open_one_run_line(mounted, s0, events);
        assert(!(a0 is LogRunLine));
        assert forall|i: int| 0 <= i < acts.len() && #[trigger] acts[i] is Exit implies exists|j: int|
            0 <= j < i && #[trigger] acts[j] is LogRunLine by {
            assert(!(acts[0] is Exit));
            assert(rest[i - 1] is Exit);
            let j = choose|j: int| 0 <= j < i - 1 && #[trigger] rest[j] is LogRunLine;
            assert(acts[j + 1] is LogRunLine);
        }
    }
}

/// When no configured drive is mounted, the run line is the only log
/// output: no entry is run, skipped or reported.
pub proof fn lemma_nothing_mounted_logs_only_the_run_line(mounted: Seq<bool>, events: Seq<DispatchEvent>)
    requires
        count_true(mounted) == 0,
    ensures
        run_actions(mounted, events)[0] == DispatchActionSpec::LogRunLine(run_line_spec(mounted.len(), 0)),
        forall|k: int|
            0 <= k < run_actions(mounted, events).len() ==> {
                let a = #[trigger] run_actions(mounted, events)[k];
                !(a is LogSkip) && !(a is RunEntry) && !(a is LogFailure)
            },
{
    let (s0, a0) = dispatch_start_spec(mounted);
    let acts = run_actions(mounted, events);
    let rest = dispatch_actions(mounted, s0, events);
    lemma_actions_len(mounted, s0, events);
    lemma_closed_stays_closed(mounted, s0, events);
    assert forall|k: int| 0 <= k < acts.len() implies {
        let a = #[trigger] acts[k];
        !(a is LogSkip) && !(a is RunEntry) && !(a is LogFailure)
    } by {
        if k > 0 {
            assert(acts[k] == rest[k - 1]);
        }
    }
}

proof fn lemma_visits_in_order(mounted: Seq<bool>, s: DispatchState, events: Seq<DispatchEvent>)
    requires
        mounted.len() <= usize::MAX,
    ensures
        forall|k: int|
            0 <= k < dispatch_actions(mounted, s, events).len() && #[trigger] visited(
                dispatch_actions(mounted, s, events)[k],
            ) is Some ==> {
                let y = visited(dispatch_actions(mounted, s, events)[k])->0;
                &&& !closed(s)
                &&& position(s) < y < mounted.len()
                &&& (dispatch_actions(mounted, s, events)[k] is RunEntry <==> mounted[y])
            },
        forall|j: int, k: int|
            0 <= j < k < dispatch_actions(mounted, s, events).len() && #[trigger] visited(
                dispatch_actions(mounted, s, events)[j],
            ) is Some && #[trigger] visited(dispatch_actions(mounted, s, events)[k]) is Some ==> visited(
                dispatch_actions(mounted, s, events)[j],
            )->0 < visited(dispatch_actions(mounted, s, events)[k])->0,
    decreases events.len(),
{
    if events.len() > 0 {
        let (next, a0) = dispatch_next_spec(mounted, s, events[0]);
        let acts = dispatch_actions(mounted, s, events);
        let rest = dispatch_actions(mounted, next, events.drop_first());
        lemma_actions_unfold(mounted, s, events);
        lemma_visits_in_order(mounted, next, events.drop_first());
        if closed(s) {
            lemma_closed_stays_closed(mounted, s, events);
        }
        if closed(next) {
            lemma_closed_stays_closed(mounted, next, events.drop_first());
        }
        assert(visited(a0) is Some ==> !closed(s) && position(next) == visited(a0)->0 && position(s) < position(next));
        assert(!closed(next) && !closed(s) ==> position(s) <= position(next));
    }
}

/// Entries are visited in configuration order, each at most once: an
/// entry whose drive is mounted is run, one whose drive is not is skipped,
/// and a SKIP line is only ever logged when some drive is mounted.
pub proof fn lemma_entries_in_order(mounted: Seq<bool>, events: Seq<DispatchEvent>)
    requires
        mounted.len() <= usize::MAX,
    ensures
        forall|k: int|
            0 <= k < run_actions(mounted, events).len() && #[trigger] visited(run_actions(mounted, events)[k]) is Some
                ==> {
                let y = visited(run_actions(mounted, events)[k])->0;
                &&& 0 <= y < mounted.len()
                &&& (run_actions(mounted, events)[k] is RunEntry <==> mounted[y])
                &&& count_true(mounted) > 0
            },
        forall|j: int, k: int|
            0 <= j < k < run_actions(mounted, events).len() && #[trigger] visited(run_actions(mounted, events)[j]) is Some
                && #[trigger] visited(run_actions(mounted, events)[k]) is Some ==> visited(
                run_actions(mounted, events)[j],
            )->0 < visited(run_actions(mounted, events)[k])->0,
{
    let (s0, a0) = dispatch_start_spec(mounted);
    let acts = run_actions(mounted, events);
    let rest = dispatch_actions(mounted, s0, events);
    lemma_actions_len(mounted, s0, events);
    lemma_visits_in_order(mounted, s0, events);
    if closed(s0) {
        lemma_closed_stays_closed(mounted, s0, events);
    }
    assert forall|k: int| 0 < k < acts.len() implies #[trigger] acts[k] == rest[k - 1] by {}
    assert(visited(a0) is Some ==> visited(a0)->0 == 0 && position(s0) == 0 && count_true(mounted) > 0);
}

/// Whether some entry has failed by the time the run is in state `s`.
pub open spec fn failed_so_far(s: DispatchState) -> bool {
    match s {
        DispatchState::Skipping { index, failed } => failed,
        DispatchState::Running { index, failed } => failed,
        DispatchState::Reporting { index } => true,
        DispatchState::Closing { failed } => failed,
        DispatchState::Done => false,
    }
}

/// A finished run only waits.
proof fn lemma_done_waits(mounted: Seq<bool>, events: Seq<DispatchEvent>)
    ensures
        forall|k: int|
            0 <= k < dispatch_actions(mounted, DispatchState::Done, events).len() ==> #[trigger] dispatch_actions(
                mounted,
                DispatchState::Done,
                events,
            )[k] is Wait,
    decreases events.len(),
{
    if events.len() > 0 {
        lemma_done_waits(mounted, events.drop_first());
        lemma_actions_unfold(mounted, DispatchState::Done, events);
    }
}

proof fn lemma_exit_follows_failures(mounted: Seq<bool>, s: DispatchState, events: Seq<DispatchEvent>)
    ensures
        forall|i: int|
            0 <= i < dispatch_actions(mounted, s, events).len() ==> (#[trigger] dispatch_actions(
                mounted,
                s,
                events,
            )[i] matches DispatchActionSpec::Exit(c) ==> (c == 0 || c == 1) && (c == 1 <==> (
            failed_so_far(s) || exists|j: int|
                0 <= j < i && #[trigger] dispatch_actions(mounted, s, events)[j] is LogFailure))),
        forall|j: int|
            0 <= j < dispatch_actions(mounted, s, events).len() && #[trigger] dispatch_actions(
                mounted,
                s,
                events,
            )[j] is LogFailure ==> events[j] matches DispatchEvent::Ran(Err(_)),
    decreases events.len(),
{
    if events.len() > 0 {
        let (next, a0) = dispatch_next_spec(mounted, s, events[0]);
        let acts = dispatch_actions(mounted, s, events);
        let rest = dispatch_actions(mounted, next, events.drop_first());
        lemma_actions_unfold(mounted, s, events);
        lemma_exit_follows_failures(mounted, next, events.drop_first());
        if next is Done {
            lemma_done_waits(mounted, events.drop_first());
        }
        assert forall|i: int| 0 <= i < acts.len() implies (#[trigger] acts[i] matches DispatchActionSpec::Exit(
            c,
        ) ==> (c == 0 || c == 1) && (c == 1 <==> (failed_so_far(s) || exists|j: int|
            0 <= j < i && #[trigger] acts[j] is LogFailure))) by {
            if i > 0 && acts[i] is Exit {
                assert(acts[i] == rest[i - 1]);
                assert(!(next is Done));
                assert(failed_so_far(next) == (failed_so_far(s) || a0 is LogFailure));
                if exists|j: int| 0 <= j < i - 1 && #[trigger] rest[j] is LogFailure {
                    let j = choose|j: int| 0 <= j < i - 1 && #[trigger] rest[j] is LogFailure;
                    assert(acts[j + 1] is LogFailure);
                }
                if exists|j: int| 0 <= j < i && #[trigger] acts[j] is LogFailure {
                    let j = choose|j: int| 0 <= j < i && #[trigger] acts[j] is LogFailure;
                    if j > 0 {
                        assert(rest[j - 1] is LogFailure);
                    }
                }
            }
        }
        assert forall|j: int| 0 <= j < acts.len() && #[trigger] acts[j] is LogFailure implies events[j] matches DispatchEvent::Ran(
            Err(_),
        ) by {
            if j > 0 {
                assert(acts[j] == rest[j - 1]);
                assert(events.drop_first()[j - 1] == events[j]);
            }
        }
    }
}

/// The exit code of a run is 1 exactly when some entry was run and failed:
/// whatever the events, every `Exit(c)` of a run has `c` either 0 or 1, and
/// `c == 1` when and only when a FAIL line was logged before it; a FAIL
/// line is logged only in answer to an entry that ran and failed. A failure
/// is not forgotten when SKIP lines or other entries follow it.
pub proof fn lemma_exit_code_reports_failures(mounted: Seq<bool>, events: Seq<DispatchEvent>)
    ensures
        forall|i: int|
            0 <= i < run_actions(mounted, events).len() ==> (#[trigger] run_actions(
                mounted,
                events,
            )[i] matches DispatchActionSpec::Exit(c) ==> (c == 0 || c == 1) && (c == 1 <==> exists|j: int|
                0 <= j < i && #[trigger] run_actions(mounted, events)[j] is LogFailure)),
        forall|j: int|
            0 < j < run_actions(mounted, events).len() && #[trigger] run_actions(mounted, events)[j] is LogFailure
                ==> events[j - 1] matches DispatchEvent::Ran(Err(_)),
        !(run_actions(mounted, events)[0] is LogFailure),
{
    let (s0, a0) = dispatch_start_spec(mounted);
    let acts = run_actions(mounted, events);
    let rest = dispatch_actions(mounted, s0, events);
    lemma_actions_len(mounted, s0, events);
    lemma_exit_follows_failures(mounted, s0, events);
    assert(!failed_so_far(s0));
    assert(!(a0 is LogFailure) && !(a0 is Exit));
    assert forall|k: int| 0 < k < acts.len() implies #[trigger] acts[k] == rest[k - 1] by {}
    assert forall|i: int| 0 <= i < acts.len() implies (#[trigger] acts[i] matches DispatchActionSpec::Exit(
        c,
    ) ==> (c == 0 || c == 1) && (c == 1 <==> exists|j: int|
        0 <= j < i && #[trigger] acts[j] is LogFailure)) by {
        if i > 0 && acts[i] is Exit {
            assert(acts[i] == rest[i - 1]);
            if exists|j: int| 0 <= j < i - 1 && #[trigger] rest[j] is LogFailure {
                let j = choose|j: int| 0 <= j < i - 1 && #[trigger] rest[j] is LogFailure;
                assert(acts[j + 1] is LogFailure);
            }
            if exists|j: int| 0 <= j < i && #[trigger] acts[j] is LogFailure {
                let j = choose|j: int| 0 <= j < i && #[trigger] acts[j] is LogFailure;
                assert(j > 0);
                assert(rest[j - 1] is LogFailure);
            }
        }
    }
    assert forall|j: int| 0 < j < acts.len() && #[trigger] acts[j] is LogFailure implies events[j
        - 1] matches DispatchEvent::Ran(Err(_)) by {
        assert(rest[j - 1] is LogFailure);
    }
}

} // verus!
