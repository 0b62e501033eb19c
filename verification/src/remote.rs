//! The remote sync strategy's per-asset state machine: create the asset,
//! poll its operation until it resolves, remap decal ids to texture ids,
//! with bounded retries and exponential poll backoff. The driver performs
//! the network calls and feeds every response back as an event.

use vstd::arithmetic::power2::{
    lemma2_to64, lemma2_to64_rest, lemma_pow2_strictly_increases, lemma_pow2_unfold, pow2,
};
use vstd::prelude::*;

use crate::strutil::{spec_is_prefix, str_is_prefix};
use crate::sync::SyncError;

verus! {

/// Extracts the operation id from the path a creation response carries:
/// the part after `operations/`. A missing path or one in another shape
/// is a malformed response, reported as a backend error rather than
/// trusted.
pub fn operation_id_from_path(path: Option<String>) -> (r: Result<String, SyncError>)
    ensures
        match r {
            Ok(id) => match path {
                Some(p) => spec_is_prefix(p@, "operations/"@) && id@ == p@.skip(
                    "operations/"@.len() as int,
                ),
                None => false,
            },
            Err(e) => e matches SyncError::RobloxApi && match path {
                Some(p) => !spec_is_prefix(p@, "operations/"@),
                None => true,
            },
        },
{
    match path {
        Some(p) => {
            let pre = "operations/";
            if str_is_prefix(p.as_str(), pre) {
                let pn = pre.unicode_len();
                let n = p.as_str().unicode_len();
                let id = p.as_str().substring_char(pn, n);
                proof {
                    assert(id@ =~= p@.skip("operations/"@.len() as int));
                }
                Ok(id.to_owned())
            } else {
                Err(SyncError::RobloxApi)
            }
        },
        None => Err(SyncError::RobloxApi),
    }
}

/// The canonical reference recorded for a remotely synced asset.
pub fn remote_asset_ref(asset_id: &str) -> (r: String)
    ensures
        r@ == "rbxassetid://"@ + asset_id@,
{
    let mut r = "rbxassetid://".to_owned();
    r.append(asset_id);
    r
}

/// The retry bounds of the remote strategy.
#[derive(Clone, Copy, Debug, PartialEq, Eq, Structural)]
pub struct RemoteLimits {
    /// Attempts at creating the asset before giving up.
    pub max_create_failures: u32,
    /// Consecutive polling errors tolerated before giving up.
    pub max_get_failures: u32,
    /// Attempts at the id-remapping lookup before giving up.
    pub max_remap_failures: u32,
}

pub open spec fn spec_limits_wf(l: RemoteLimits) -> bool {
    l.max_create_failures >= 1 && l.max_get_failures >= 1 && l.max_remap_failures >= 1
}

/// The bounds the strategy runs with.
pub fn default_remote_limits() -> (l: RemoteLimits)
    ensures
        l.max_create_failures == 3,
        l.max_get_failures == 3,
        l.max_remap_failures == 3,
        spec_limits_wf(l),
{
    RemoteLimits { max_create_failures: 3, max_get_failures: 3, max_remap_failures: 3 }
}

/// Where one asset's upload stands.
#[derive(Clone, Debug)]
pub enum RemoteStep {
    /// The creation request is being attempted; `attempt` requests have
    /// already failed.
    Creating { attempt: u32 },
    /// The asset was created and its operation is being polled; `polls`
    /// polls have been made, `failures` of them ending in an error — a
    /// pending reply is no failure.
    Polling { operation_id: String, polls: u32, failures: u32 },
    /// The upload resolved to an asset id that still needs remapping to a
    /// type-specific runtime id; `attempt` lookups have already failed.
    Remapping { asset_id: String, attempt: u32 },
    /// The upload resolved; this id is what the target records.
    Done { asset_id: String },
    /// The upload ran out of retries.
    Failed,
}

/// What the backend answered.
#[derive(Clone, Debug)]
pub enum RemoteEvent {
    CreateOk { operation_id: String },
    CreateErr,
    PollDone { asset_id: String },
    PollPending,
    PollErr,
    RemapOk { image_id: String },
    RemapErr,
}

/// What the driver must do next.
#[derive(Clone, Debug)]
pub enum RemoteAction {
    /// Wait `delay_secs`, then send the creation request.
    Create { delay_secs: u64 },
    /// Wait `delay_secs`, then poll the operation.
    Poll { delay_secs: u64 },
    /// Perform the id-remapping lookup.
    Remap,
    /// Record the asset as synced under this id.
    Record { asset_id: String },
    /// Record the asset as failed.
    GiveUp,
    /// Nothing; the machine has already finished.
    Idle,
}

/// The poll backoff exponent: one per poll already made, plus one, capped
/// so the delay fits comfortably in seconds.
pub open spec fn spec_poll_exp(next_poll: u32) -> nat {
    if next_poll <= 32 {
        next_poll as nat
    } else {
        32
    }
}

/// The delay before poll number `next_poll`: `2 ^ next_poll` seconds.
pub open spec fn spec_backoff_secs(next_poll: u32) -> u64 {
    pow2(spec_poll_exp(next_poll)) as u64
}

/// `polls` incremented without overflowing.
pub open spec fn spec_inc_sat(n: u32) -> u32 {
    if n < 0xffff_ffffu32 {
        (n + 1) as u32
    } else {
        n
    }
}

/// True iff the event is an answer the state's pending action can get.
pub open spec fn spec_event_fits(s: RemoteStep, e: RemoteEvent) -> bool {
    match (s, e) {
        (RemoteStep::Creating { .. }, RemoteEvent::CreateOk { .. }) => true,
        (RemoteStep::Creating { .. }, RemoteEvent::CreateErr) => true,
        (RemoteStep::Polling { .. }, RemoteEvent::PollDone { .. }) => true,
        (RemoteStep::Polling { .. }, RemoteEvent::PollPending) => true,
        (RemoteStep::Polling { .. }, RemoteEvent::PollErr) => true,
        (RemoteStep::Remapping { .. }, RemoteEvent::RemapOk { .. }) => true,
        (RemoteStep::Remapping { .. }, RemoteEvent::RemapErr) => true,
        _ => false,
    }
}

/// The machine's invariant: failure counters stay under their bounds.
pub open spec fn spec_step_wf(s: RemoteStep, l: RemoteLimits) -> bool {
    match s {
        RemoteStep::Creating { attempt } => attempt < l.max_create_failures,
        RemoteStep::Polling { failures, .. } => failures < l.max_get_failures,
        RemoteStep::Remapping { attempt, .. } => attempt < l.max_remap_failures,
        _ => true,
    }
}

/// The transition relation. A pending poll reply keeps polling without
/// counting a failure; errors count against their bound and reaching a
/// bound fails the asset; a resolved poll either records the id or, for
/// assets that need it, moves on to the remapping lookup.
pub open spec fn spec_remote_step(
    s: RemoteStep,
    e: RemoteEvent,
    l: RemoteLimits,
    needs_remap: bool,
) -> (RemoteStep, RemoteAction) {
    match (s, e) {
        (RemoteStep::Creating { attempt }, RemoteEvent::CreateOk { operation_id }) => (
            RemoteStep::Polling { operation_id, polls: 0, failures: 0 },
            RemoteAction::Poll { delay_secs: spec_backoff_secs(1) },
        ),
        (RemoteStep::Creating { attempt }, RemoteEvent::CreateErr) => {
            if attempt + 1 == l.max_create_failures {
                (RemoteStep::Failed, RemoteAction::GiveUp)
            } else {
                (
                    RemoteStep::Creating { attempt: (attempt + 1) as u32 },
                    RemoteAction::Create { delay_secs: 3 },
                )
            }
        },
        (RemoteStep::Polling { operation_id, polls, failures }, RemoteEvent::PollDone { asset_id })
            => {
            if needs_remap {
                (RemoteStep::Remapping { asset_id, attempt: 0 }, RemoteAction::Remap)
            } else {
                (
                    RemoteStep::Done { asset_id: asset_id },
                    RemoteAction::Record { asset_id: asset_id },
                )
            }
        },
        (RemoteStep::Polling { operation_id, polls, failures }, RemoteEvent::PollPending) => {
            let next = spec_inc_sat(polls);
            (
                RemoteStep::Polling { operation_id, polls: next, failures },
                RemoteAction::Poll { delay_secs: spec_backoff_secs(spec_inc_sat(next)) },
            )
        },
        (RemoteStep::Polling { operation_id, polls, failures }, RemoteEvent::PollErr) => {
            if failures + 1 == l.max_get_failures {
                (RemoteStep::Failed, RemoteAction::GiveUp)
            } else {
                let next = spec_inc_sat(polls);
                (
                    RemoteStep::Polling {
                        operation_id,
                        polls: next,
                        failures: (failures + 1) as u32,
                    },
                    RemoteAction::Poll { delay_secs: spec_backoff_secs(spec_inc_sat(next)) },
                )
            }
        },
        (RemoteStep::Remapping { asset_id, attempt }, RemoteEvent::RemapOk { image_id }) => (
            RemoteStep::Done { asset_id: image_id },
            RemoteAction::Record { asset_id: image_id },
        ),
        (RemoteStep::Remapping { asset_id, attempt }, RemoteEvent::RemapErr) => {
            if attempt + 1 == l.max_remap_failures {
                (RemoteStep::Failed, RemoteAction::GiveUp)
            } else {
                (
                    RemoteStep::Remapping { asset_id, attempt: (attempt + 1) as u32 },
                    RemoteAction::Remap,
                )
            }
        },
        (s0, _) => (s0, RemoteAction::Idle),
    }
}

/// The state and action a remote upload starts with.
pub fn remote_start() -> (r: (RemoteStep, RemoteAction))
    ensures
        r.0 == (RemoteStep::Creating { attempt: 0u32 }),
        r.1 == (RemoteAction::Create { delay_secs: 0u64 }),
{
    (RemoteStep::Creating { attempt: 0 }, RemoteAction::Create { delay_secs: 0 })
}

/// Computes `2 ^ e`.
fn pow2_u64(e: u32) -> (r: u64)
    requires
        e <= 33,
    ensures
        r == pow2(e as nat),
{
    proof {
        lemma2_to64();
        lemma2_to64_rest();
    }
    let mut r: u64 = 1;
    let mut k: u32 = 0;
    while k < e
        invariant
            k <= e <= 33,
            r == pow2(k as nat),
        decreases e - k,
    {
        proof {
            lemma_pow2_unfold((k + 1) as nat);
            if k + 1 < 34 {
                lemma_pow2_strictly_increases((k + 1) as nat, 34);
            }
            lemma2_to64();
            lemma2_to64_rest();
        }
        r = r * 2;
        k = k + 1;
    }
    r
}

/// Computes the delay before poll number `next_poll`.
fn backoff_secs(next_poll: u32) -> (r: u64)
    ensures
        r == spec_backoff_secs(next_poll),
{
    if next_poll <= 32 {
        pow2_u64(next_poll)
    } else {
        pow2_u64(32)
    }
}

/// Advances one asset's upload by one backend answer.
pub fn remote_step(s: RemoteStep, e: RemoteEvent, l: &RemoteLimits, needs_remap: bool) -> (r: (
    RemoteStep,
    RemoteAction,
))
    requires
        spec_limits_wf(*l),
        spec_step_wf(s, *l),
        spec_event_fits(s, e),
    ensures
        r == spec_remote_step(s, e, *l, needs_remap),
        spec_step_wf(r.0, *l),
{
    match (s, e) {
        (RemoteStep::Creating { attempt: _ }, RemoteEvent::CreateOk { operation_id }) => {
            let delay = backoff_secs(1);
            (
                RemoteStep::Polling { operation_id, polls: 0, failures: 0 },
                RemoteAction::Poll { delay_secs: delay },
            )
        },
        (RemoteStep::Creating { attempt }, RemoteEvent::CreateErr) => {
            if attempt + 1 == l.max_create_failures {
                (RemoteStep::Failed, RemoteAction::GiveUp)
            } else {
                (
                    RemoteStep::Creating { attempt: attempt + 1 },
                    RemoteAction::Create { delay_secs: 3 },
                )
            }
        },
        (
            RemoteStep::Polling { operation_id: _, polls: _, failures: _ },
            RemoteEvent::PollDone { asset_id },
        ) => {
            if needs_remap {
                (RemoteStep::Remapping { asset_id, attempt: 0 }, RemoteAction::Remap)
            } else {
                let id2 = asset_id.clone();
                (RemoteStep::Done { asset_id }, RemoteAction::Record { asset_id: id2 })
            }
        },
        (RemoteStep::Polling { operation_id, polls, failures }, RemoteEvent::PollPending) => {
            let next: u32 = if polls < 0xffff_ffffu32 {
                polls + 1
            } else {
                polls
            };
            let after: u32 = if next < 0xffff_ffffu32 {
                next + 1
            } else {
                next
            };
            let delay = backoff_secs(after);
            (
                RemoteStep::Polling { operation_id, polls: next, failures },
                RemoteAction::Poll { delay_secs: delay },
            )
        },
        (RemoteStep::Polling { operation_id, polls, failures }, RemoteEvent::PollErr) => {
            if failures + 1 == l.max_get_failures {
                (RemoteStep::Failed, RemoteAction::GiveUp)
            } else {
                let next: u32 = if polls < 0xffff_ffffu32 {
                    polls + 1
                } else {
                    polls
                };
                let after: u32 = if next < 0xffff_ffffu32 {
                    next + 1
                } else {
                    next
                };
                let delay = backoff_secs(after);
                (
                    RemoteStep::Polling { operation_id, polls: next, failures: failures + 1 },
                    RemoteAction::Poll { delay_secs: delay },
                )
            }
        },
        (RemoteStep::Remapping { asset_id: _, attempt: _ }, RemoteEvent::RemapOk { image_id }) => {
            let id2 = image_id.clone();
            (RemoteStep::Done { asset_id: image_id }, RemoteAction::Record { asset_id: id2 })
        },
        (RemoteStep::Remapping { asset_id, attempt }, RemoteEvent::RemapErr) => {
            if attempt + 1 == l.max_remap_failures {
                (RemoteStep::Failed, RemoteAction::GiveUp)
            } else {
                (RemoteStep::Remapping { asset_id, attempt: attempt + 1 }, RemoteAction::Remap)
            }
        },
        (s0, _) => {
            proof {
                assert(false);
            }
            (s0, RemoteAction::Idle)
        },
    }
}

/// The machine after a sequence of backend answers.
pub open spec fn spec_run_events(
    s: RemoteStep,
    events: Seq<RemoteEvent>,
    l: RemoteLimits,
    needs_remap: bool,
) -> RemoteStep
    decreases events.len(),
{
    if events.len() == 0 {
        s
    } else {
        spec_run_events(
            spec_remote_step(s, events[0], l, needs_remap).0,
            events.skip(1),
            l,
            needs_remap,
        )
    }
}

/// Remote retry bound, first half: pending replies never count as
/// failures — however many arrive, the machine keeps polling the same
/// operation with its failure count unchanged.
pub proof fn lemma_pending_keeps_polling(
    s: RemoteStep,
    events: Seq<RemoteEvent>,
    l: RemoteLimits,
    needs_remap: bool,
)
    requires
        s is Polling,
        forall|k: int| 0 <= k < events.len() ==> events[k] is PollPending,
    ensures
        match (spec_run_events(s, events, l, needs_remap), s) {
            (
                RemoteStep::Polling { operation_id: op2, failures: f2, .. },
                RemoteStep::Polling { operation_id: op1, failures: f1, .. },
            ) => op2 == op1 && f2 == f1,
            _ => false,
        },
    decreases events.len(),
{
    if events.len() > 0 {
        assert(events[0] is PollPending);
        lemma_pending_keeps_polling(
            spec_remote_step(s, events[0], l, needs_remap).0,
            events.skip(1),
            l,
            needs_remap,
        );
    }
}

/// Remote retry bound, second half: consecutive polling errors accumulate
/// one failure each, and the asset is failed exactly when the bound is
/// reached — never before.
pub proof fn lemma_poll_error_bound(
    s: RemoteStep,
    events: Seq<RemoteEvent>,
    l: RemoteLimits,
    needs_remap: bool,
)
    requires
        spec_limits_wf(l),
        spec_step_wf(s, l),
        s is Polling,
        forall|k: int| 0 <= k < events.len() ==> events[k] is PollErr,
        (s matches RemoteStep::Polling { failures, .. } ==> failures + events.len()
            <= l.max_get_failures),
    ensures
        match (s, spec_run_events(s, events, l, needs_remap)) {
            (RemoteStep::Polling { operation_id: op1, failures: f1, .. }, r) => {
                if f1 + events.len() == l.max_get_failures {
                    r is Failed
                } else {
                    match r {
                        RemoteStep::Polling { operation_id: op2, failures: f2, .. } => op2 == op1
                            && f2 == f1 + events.len(),
                        _ => false,
                    }
                }
            },
            _ => false,
        },
    decreases events.len(),
{
    if events.len() > 0 {
        assert(events[0] is PollErr);
        let (s1, _) = spec_remote_step(s, events[0], l, needs_remap);
        if let RemoteStep::Polling { failures, .. } = s {
            if failures + 1 == l.max_get_failures {
                assert(events.len() == 1);
                assert(s1 is Failed);
                assert(spec_run_events(s1, events.skip(1), l, needs_remap) == s1);
            } else {
                lemma_poll_error_bound(s1, events.skip(1), l, needs_remap);
            }
        }
    }
}

/// Creation retries are bounded the same way: consecutive creation errors
/// fail the asset exactly when their bound is reached.
pub proof fn lemma_create_error_bound(
    s: RemoteStep,
    events: Seq<RemoteEvent>,
    l: RemoteLimits,
    needs_remap: bool,
)
    requires
        spec_limits_wf(l),
        spec_step_wf(s, l),
        s is Creating,
        forall|k: int| 0 <= k < events.len() ==> events[k] is CreateErr,
        (s matches RemoteStep::Creating { attempt } ==> attempt + events.len()
            <= l.max_create_failures),
    ensures
        match (s, spec_run_events(s, events, l, needs_remap)) {
            (RemoteStep::Creating { attempt }, r) => {
                if attempt + events.len() == l.max_create_failures {
                    r is Failed
                } else {
                    r == (RemoteStep::Creating {
                        attempt: (attempt + events.len()) as u32,
                    })
                }
            },
            _ => false,
        },
    decreases events.len(),
{
    if events.len() > 0 {
        assert(events[0] is CreateErr);
        let (s1, _) = spec_remote_step(s, events[0], l, needs_remap);
        if let RemoteStep::Creating { attempt } = s {
            if attempt + 1 == l.max_create_failures {
                assert(events.len() == 1);
                assert(spec_run_events(s1, events.skip(1), l, needs_remap) == s1);
            } else {
                lemma_create_error_bound(s1, events.skip(1), l, needs_remap);
            }
        }
    }
}

} // verus!
