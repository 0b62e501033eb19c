//! Watch mode's decisions: debouncing bursts of filesystem events into
//! single sync requests, and the single-flight scheduler that serializes
//! sync passes while never dropping a request. The driver listens for
//! events, sleeps, and runs passes; these machines decide what to do.

use vstd::prelude::*;

use crate::strutil::{find_last_char, lemma_find_last_props, spec_find_last};

verus! {

/// The debouncer: remembers whether anything changed since the last
/// emitted sync request.
#[derive(Clone, Copy, Debug, PartialEq, Eq, Structural)]
pub struct Debouncer {
    pub changed: bool,
}

/// What the debouncer hears: a matching filesystem change, an error from
/// the listener, or a quiet period with no events.
#[derive(Clone, Copy, Debug, PartialEq, Eq, Structural)]
pub enum DebounceEvent {
    Change,
    ListenError,
    Quiet,
}

/// What the debouncer tells the scheduler.
#[derive(Clone, Copy, Debug, PartialEq, Eq, Structural)]
pub enum DebounceOutput {
    /// Nothing to do yet.
    Nothing,
    /// A quiet period followed changes: request one sync.
    EmitSync,
    /// Forward the listener's error immediately, bypassing debouncing.
    EmitError,
}

/// The debouncer's transition: changes only set the flag, errors pass
/// through at once, and a quiet period emits one sync request iff
/// anything changed since the last one.
pub open spec fn spec_debounce_step(d: Debouncer, e: DebounceEvent) -> (Debouncer, DebounceOutput) {
    match e {
        DebounceEvent::Change => (Debouncer { changed: true }, DebounceOutput::Nothing),
        DebounceEvent::ListenError => (d, DebounceOutput::EmitError),
        DebounceEvent::Quiet => if d.changed {
            (Debouncer { changed: false }, DebounceOutput::EmitSync)
        } else {
            (d, DebounceOutput::Nothing)
        },
    }
}

/// A fresh debouncer with nothing pending.
pub fn debounce_new() -> (d: Debouncer)
    ensures
        d == (Debouncer { changed: false }),
{
    Debouncer { changed: false }
}

/// Advances the debouncer by one event.
pub fn debounce_step(d: Debouncer, e: DebounceEvent) -> (r: (Debouncer, DebounceOutput))
    ensures
        r == spec_debounce_step(d, e),
{
    match e {
        DebounceEvent::Change => (Debouncer { changed: true }, DebounceOutput::Nothing),
        DebounceEvent::ListenError => (d, DebounceOutput::EmitError),
        DebounceEvent::Quiet => if d.changed {
            (Debouncer { changed: false }, DebounceOutput::EmitSync)
        } else {
            (d, DebounceOutput::Nothing)
        },
    }
}

/// The debouncer after a sequence of events.
pub open spec fn spec_debounce_run(d: Debouncer, es: Seq<DebounceEvent>) -> Debouncer
    decreases es.len(),
{
    if es.len() == 0 {
        d
    } else {
        spec_debounce_run(spec_debounce_step(d, es[0]).0, es.skip(1))
    }
}

/// How many sync requests a sequence of events makes the debouncer emit.
pub open spec fn spec_sync_signal_count(d: Debouncer, es: Seq<DebounceEvent>) -> int
    decreases es.len(),
{
    if es.len() == 0 {
        0
    } else {
        (if spec_debounce_step(d, es[0]).1 == DebounceOutput::EmitSync {
            1int
        } else {
            0int
        }) + spec_sync_signal_count(spec_debounce_step(d, es[0]).0, es.skip(1))
    }
}

/// Watch coalescing, first half: a burst of changes followed by one quiet
/// period emits exactly one sync request, however many changes the burst
/// held.
pub proof fn lemma_burst_coalesces(d: Debouncer, es: Seq<DebounceEvent>)
    requires
        es.len() >= 1,
        forall|k: int| 0 <= k < es.len() - 1 ==> es[k] == DebounceEvent::Change,
        es.last() == DebounceEvent::Quiet,
        es.len() >= 2 || d.changed,
    ensures
        spec_sync_signal_count(d, es) == 1,
        spec_debounce_run(d, es) == (Debouncer { changed: false }),
    decreases es.len(),
{
    if es.len() == 1 {
        assert(es[0] == DebounceEvent::Quiet);
        assert(es.skip(1) =~= Seq::<DebounceEvent>::empty());
        let d2 = spec_debounce_step(d, es[0]).0;
        assert(spec_sync_signal_count(d2, es.skip(1)) == 0);
        assert(spec_debounce_run(d2, es.skip(1)) == d2);
    } else {
        assert(es[0] == DebounceEvent::Change);
        let tail = es.skip(1);
        assert forall|k: int| 0 <= k < tail.len() - 1 implies tail[k] == DebounceEvent::Change by {
            assert(tail[k] == es[k + 1]);
        }
        assert(tail.last() == es.last());
        assert(spec_debounce_step(d, es[0]).0 == (Debouncer { changed: true }));
        lemma_burst_coalesces(Debouncer { changed: true }, tail);
    }
}

/// The scheduler: idle, or running one sync, possibly with a rerun
/// queued.
#[derive(Clone, Copy, Debug, PartialEq, Eq, Structural)]
pub enum SchedState {
    Idle,
    Running { again: bool },
}

/// What the scheduler hears: the debouncer requested a sync, or the
/// running sync finished.
#[derive(Clone, Copy, Debug, PartialEq, Eq, Structural)]
pub enum SchedEvent {
    SyncRequested,
    SyncFinished,
}

/// What the driver must do.
#[derive(Clone, Copy, Debug, PartialEq, Eq, Structural)]
pub enum SchedAction {
    /// Spawn a sync pass now.
    StartSync,
    /// Nothing to spawn.
    Wait,
}

/// True iff the event can arrive in the state: a finish only while a sync
/// runs.
pub open spec fn spec_sched_event_fits(s: SchedState, e: SchedEvent) -> bool {
    e == SchedEvent::SyncRequested || s is Running
}

/// The scheduler's transition: a request starts a sync only when none is
/// running, and otherwise queues exactly one rerun; a finish starts the
/// queued rerun or goes idle.
pub open spec fn spec_sched_step(s: SchedState, e: SchedEvent) -> (SchedState, SchedAction) {
    match (s, e) {
        (SchedState::Idle, SchedEvent::SyncRequested) => (
            SchedState::Running { again: false },
            SchedAction::StartSync,
        ),
        (SchedState::Running { again: _ }, SchedEvent::SyncRequested) => (
            SchedState::Running { again: true },
            SchedAction::Wait,
        ),
        (SchedState::Running { again: true }, SchedEvent::SyncFinished) => (
            SchedState::Running { again: false },
            SchedAction::StartSync,
        ),
        (SchedState::Running { again: false }, SchedEvent::SyncFinished) => (
            SchedState::Idle,
            SchedAction::Wait,
        ),
        (SchedState::Idle, SchedEvent::SyncFinished) => (SchedState::Idle, SchedAction::Wait),
    }
}

/// The state watch mode starts in.
pub fn sched_new() -> (s: SchedState)
    ensures
        s == SchedState::Idle,
{
    SchedState::Idle
}

/// Advances the scheduler by one event.
pub fn sched_step(s: SchedState, e: SchedEvent) -> (r: (SchedState, SchedAction))
    requires
        spec_sched_event_fits(s, e),
    ensures
        r == spec_sched_step(s, e),
{
    match (s, e) {
        (SchedState::Idle, SchedEvent::SyncRequested) => (
            SchedState::Running { again: false },
            SchedAction::StartSync,
        ),
        (SchedState::Running { again: _ }, SchedEvent::SyncRequested) => (
            SchedState::Running { again: true },
            SchedAction::Wait,
        ),
        (SchedState::Running { again: true }, SchedEvent::SyncFinished) => (
            SchedState::Running { again: false },
            SchedAction::StartSync,
        ),
        (SchedState::Running { again: false }, SchedEvent::SyncFinished) => (
            SchedState::Idle,
            SchedAction::Wait,
        ),
        (SchedState::Idle, SchedEvent::SyncFinished) => (SchedState::Idle, SchedAction::Wait),
    }
}

/// Single flight: the scheduler starts a sync only when no sync is left
/// running — from idle on a request, or the moment the running one
/// finishes with a rerun queued. Sync passes are therefore never
/// concurrent.
pub proof fn lemma_single_flight(s: SchedState, e: SchedEvent)
    ensures
        spec_sched_step(s, e).1 == SchedAction::StartSync ==> (s == SchedState::Idle && e
            == SchedEvent::SyncRequested) || (s == (SchedState::Running { again: true }) && e
            == SchedEvent::SyncFinished),
{
}

/// The scheduler after a sequence of events.
pub open spec fn spec_sched_run(s: SchedState, es: Seq<SchedEvent>) -> SchedState
    decreases es.len(),
{
    if es.len() == 0 {
        s
    } else {
        spec_sched_run(spec_sched_step(s, es[0]).0, es.skip(1))
    }
}

/// How many sync passes a sequence of events makes the scheduler start.
pub open spec fn spec_start_count(s: SchedState, es: Seq<SchedEvent>) -> int
    decreases es.len(),
{
    if es.len() == 0 {
        0
    } else {
        (if spec_sched_step(s, es[0]).1 == SchedAction::StartSync {
            1int
        } else {
            0int
        }) + spec_start_count(spec_sched_step(s, es[0]).0, es.skip(1))
    }
}

/// Watch coalescing, second half: requests arriving while a sync runs
/// start exactly one further pass after the running one completes — not
/// one per request, and none before. The events are the requests, then
/// the running pass's finish, then the rerun's finish.
pub proof fn lemma_rerun_exactly_once(s: SchedState, es: Seq<SchedEvent>)
    requires
        es.len() >= 2,
        forall|k: int| 0 <= k < es.len() - 2 ==> es[k] == SchedEvent::SyncRequested,
        es[es.len() - 2] == SchedEvent::SyncFinished,
        es.last() == SchedEvent::SyncFinished,
        s matches SchedState::Running { again } && (again || es.len() >= 3),
    ensures
        spec_start_count(s, es) == 1,
        spec_sched_run(s, es) == SchedState::Idle,
    decreases es.len(),
{
    if es.len() == 2 {
        assert(s == (SchedState::Running { again: true }));
        assert(es[0] == SchedEvent::SyncFinished);
        let s1 = spec_sched_step(s, es[0]).0;
        let t1 = es.skip(1);
        assert(t1[0] == es[1]);
        assert(t1.skip(1) =~= Seq::<SchedEvent>::empty());
        let s2 = spec_sched_step(s1, t1[0]).0;
        assert(spec_start_count(s2, t1.skip(1)) == 0);
        assert(spec_sched_run(s2, t1.skip(1)) == s2);
        assert(spec_start_count(s1, t1) == 0);
        assert(spec_sched_run(s1, t1) == SchedState::Idle);
    } else {
        assert(es[0] == SchedEvent::SyncRequested);
        let tail = es.skip(1);
        assert forall|k: int| 0 <= k < tail.len() - 2 implies tail[k] == SchedEvent::SyncRequested
            by {
            assert(tail[k] == es[k + 1]);
        }
        assert(tail[tail.len() - 2] == es[es.len() - 2]);
        assert(tail.last() == es.last());
        assert(spec_sched_step(s, es[0]).0 == (SchedState::Running { again: true }));
        lemma_rerun_exactly_once(SchedState::Running { again: true }, tail);
    }
}

/// The glob pattern characters that end the watchable prefix of an input
/// glob.
pub open spec fn spec_is_pattern_char(c: char) -> bool {
    c == '*' || c == '?' || c == '{' || c == '}' || c == '[' || c == ']'
}

/// The first position holding a pattern character.
pub open spec fn spec_first_pattern_index(s: Seq<char>) -> Option<int>
    decreases s.len(),
{
    if s.len() == 0 {
        None
    } else if spec_is_pattern_char(s[0]) {
        Some(0)
    } else {
        match spec_first_pattern_index(s.skip(1)) {
            Some(i) => Some(i + 1),
            None => None,
        }
    }
}

/// The pattern-free prefix of a glob: the whole glob when it holds no
/// pattern character, else its components strictly before the first one
/// that does — what the watcher can watch as a plain directory.
pub open spec fn spec_non_pattern_prefix(s: Seq<char>) -> Seq<char> {
    match spec_first_pattern_index(s) {
        None => s,
        Some(c) => match spec_find_last(s.take(c), '/') {
            Some(k) => s.take(k),
            None => Seq::empty(),
        },
    }
}

/// Computes the pattern-free prefix of a glob.
pub fn get_non_pattern_prefix(glob_path: &str) -> (r: String)
    ensures
        r@ == spec_non_pattern_prefix(glob_path@),
{
    let n = glob_path.unicode_len();
    let mut cut: Option<usize> = None;
    let mut i: usize = 0;
    loop
        invariant_except_break
            cut is None,
        invariant
            n == glob_path@.len(),
            i <= n,
            forall|j: int| 0 <= j < i ==> !spec_is_pattern_char(glob_path@[j]),
        ensures
            match cut {
                Some(c) => c < n && spec_is_pattern_char(glob_path@[c as int]) && forall|j: int|
                    0 <= j < c ==> !spec_is_pattern_char(glob_path@[j]),
                None => forall|j: int| 0 <= j < n ==> !spec_is_pattern_char(glob_path@[j]),
            },
        decreases n - i,
    {
        if i == n {
            break ;
        }
        let c = glob_path.get_char(i);
        if c == '*' || c == '?' || c == '{' || c == '}' || c == '[' || c == ']' {
            proof {
                assert(spec_is_pattern_char(glob_path@[i as int]));
            }
            cut = Some(i);
            break ;
        }
        i = i + 1;
    }
    proof {
        lemma_first_pattern_index_characterizes(glob_path@);
    }
    match cut {
        None => {
            proof {
                assert(spec_first_pattern_index(glob_path@) is None);
            }
            glob_path.to_owned()
        },
        Some(c) => {
            proof {
                assert(spec_first_pattern_index(glob_path@) == Some(c as int));
            }
            let head = glob_path.substring_char(0, c);
            proof {
                assert(head@ =~= glob_path@.take(c as int));
            }
            match find_last_char(head, '/') {
                Some(k) => {
                    proof {
                        lemma_find_last_props(head@, '/');
                    }
                    let p = glob_path.substring_char(0, k);
                    proof {
                        assert(p@ =~= glob_path@.take(k as int));
                    }
                    p.to_owned()
                },
                None => String::new(),
            }
        },
    }
}

/// `spec_first_pattern_index` finds exactly the first pattern character.
pub proof fn lemma_first_pattern_index_characterizes(s: Seq<char>)
    ensures
        match spec_first_pattern_index(s) {
            Some(i) => 0 <= i < s.len() && spec_is_pattern_char(s[i]) && forall|j: int|
                0 <= j < i ==> !spec_is_pattern_char(s[j]),
            None => forall|j: int| 0 <= j < s.len() ==> !spec_is_pattern_char(s[j]),
        },
    decreases s.len(),
{
    if s.len() > 0 && !spec_is_pattern_char(s[0]) {
        lemma_first_pattern_index_characterizes(s.skip(1));
        assert(forall|j: int| 1 <= j < s.len() ==> s[j] == s.skip(1)[j - 1]);
    }
}

} // verus!
