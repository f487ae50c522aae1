//! Accepting a request to delete a file or a whole bucket, as a state
//! machine.
use crate::error::{storage_text, StorageError};
use crate::fence::{fence_reject_response, FencePass, FenceReject};
use crate::mount::{delete_reply, replies, Response};
use vstd::prelude::*;

verus! {

/// What a deletion waits for.
#[derive(Debug)]
pub enum RemovePhase {
    /// The fence, with other writes to the bucket held off.
    Gate,
    /// The deletion, after which the claim is committed.
    Delete(Option<String>),
    Done,
}

/// What to do next for a deletion.
#[derive(Debug)]
pub enum RemoveAction {
    /// Hold off other writes to the bucket and check the fence.
    LockAndCheckFence,
    Delete,
    /// Commit the claim, wake the followers and answer.
    Accept(Option<String>, Response),
    /// Answer.
    Reply(Response),
}

/// What came of an action.
#[derive(Debug)]
pub enum RemoveEvent {
    Fenced(Result<FencePass, FenceReject>),
    Deleted(Result<(), StorageError>),
}

/// A deletion in progress.
#[derive(Debug)]
pub struct RemoveRun {
    /// Whether the whole bucket goes.
    pub all: bool,
    pub phase: RemovePhase,
}

/// Whether a deletion waits for an event of this kind.
pub open spec fn remove_expects(s: RemoveRun, ev: RemoveEvent) -> bool {
    match s.phase {
        RemovePhase::Gate => ev is Fenced,
        RemovePhase::Delete(_) => ev is Deleted,
        RemovePhase::Done => false,
    }
}

/// What a deletion becomes and does next on an event: the state `t` and the
/// action `a`.
pub open spec fn remove_step(s: RemoveRun, ev: RemoveEvent, t: RemoveRun, a: RemoveAction) -> bool {
    &&& t.all == s.all
    &&& match (s.phase, ev) {
        (RemovePhase::Gate, RemoveEvent::Fenced(Ok(pass))) => t.phase == RemovePhase::Delete(
            pass.claim,
        ) && a is Delete,
        (RemovePhase::Gate, RemoveEvent::Fenced(Err(rej))) => t.phase is Done && (a matches RemoveAction::Reply(
            r,
        ) && match rej {
            FenceReject::Conflict(m) => replies(r, 409, m@ + "\n"@),
            FenceReject::Backend(e) => replies(r, 500, "fence: "@ + storage_text(e) + "\n"@),
        }),
        (RemovePhase::Delete(claim), RemoveEvent::Deleted(Ok(_))) => t.phase is Done && (
        a matches RemoveAction::Accept(c, r) && c == claim && replies(r, 200, "deleted\n"@)),
        (RemovePhase::Delete(_), RemoveEvent::Deleted(Err(e))) => t.phase is Done && (
        a matches RemoveAction::Reply(r) && replies(
            r,
            500,
            (if s.all {
                "delete all: "@
            } else {
                "delete: "@
            }) + storage_text(e) + "\n"@,
        )),
        _ => false,
    }
}

impl RemoveRun {
    /// Starts a deletion. The first action is the fence.
    pub fn new(all: bool) -> (r: (RemoveRun, RemoveAction))
        ensures
            r.0 == (RemoveRun { all, phase: RemovePhase::Gate }),
            r.1 is LockAndCheckFence,
    {
        (RemoveRun { all, phase: RemovePhase::Gate }, RemoveAction::LockAndCheckFence)
    }

    /// Takes the event that came of the last action, and tells what to do
    /// next.
    pub fn step(self, ev: RemoveEvent) -> (r: (RemoveRun, RemoveAction))
        requires
            remove_expects(self, ev),
        ensures
            remove_step(self, ev, r.0, r.1),
    {
        let RemoveRun { all, phase } = self;
        match ev {
            RemoveEvent::Fenced(Ok(pass)) => (
                RemoveRun { all, phase: RemovePhase::Delete(pass.claim) },
                RemoveAction::Delete,
            ),
            RemoveEvent::Fenced(Err(rej)) => (
                RemoveRun { all, phase: RemovePhase::Done },
                RemoveAction::Reply(fence_reject_response(&rej)),
            ),
            RemoveEvent::Deleted(result) => {
                let claim = match phase {
                    RemovePhase::Delete(claim) => claim,
                    _ => None,
                };
                let ok = result.is_ok();
                let r = delete_reply(all, result);
                let t = RemoveRun { all, phase: RemovePhase::Done };
                if ok {
                    (t, RemoveAction::Accept(claim, r))
                } else {
                    (t, RemoveAction::Reply(r))
                }
            },
        }
    }
}

/// A deletion claims the bucket only after it was done: one that the fence
/// refused, or that failed, commits nothing.
pub proof fn law_refused_deletion_claims_nothing(
    s: RemoveRun,
    ev: RemoveEvent,
    t: RemoveRun,
    a: RemoveAction,
)
    requires
        remove_expects(s, ev),
        remove_step(s, ev, t, a),
        a is Accept,
    ensures
        s.phase is Delete,
        ev matches RemoveEvent::Deleted(Ok(_)),
{
}

} // verus!
