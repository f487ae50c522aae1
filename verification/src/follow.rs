//! Following a bucket continuously, as a state machine.
//!
//! Rounds of sync alternate with sessions on the backend's live stream, where
//! there is one. Every stream anomaly (gap, reseed, frame that does not
//! continue, corrupt file) routes back through a sync, which owns recovery;
//! following never invents its own. The embedding program performs the action
//! that the machine asks for and reports what came of it.
use crate::error::{error_transient, from_storage, Error, StorageError};
use crate::ltx::{continues, is_contiguous, FileInfo, Txid};
use crate::storage::StreamEvent;
use vstd::prelude::*;

verus! {

/// How long to wait.
#[derive(Clone, Copy, Debug, PartialEq, Eq, Structural)]
pub enum Wait {
    /// The polling interval.
    Poll,
    /// The backoff for so many consecutive failures before.
    Backoff(u32),
}

/// What following waits for.
#[derive(Debug)]
pub enum FollowPhase {
    /// A round is about to begin.
    Top,
    /// The position before the round's sync.
    ReadBefore,
    Sync,
    /// The position after the round's sync.
    ReadAfter,
    OpenStream,
    OpenDb,
    /// A stream session: leave to go on.
    InStream,
    /// The next stream event.
    Next,
    /// The application of a received file.
    Apply(FileInfo),
    /// The recording of the position.
    Record,
    /// The end of a session that was cancelled.
    CloseCancelled,
    /// The end of a session, with the error that ended it if there was one.
    Close(Option<Error>),
    Sleep(Wait),
    Stopped,
}

/// What the embedding program is to do next.
#[derive(Debug)]
pub enum FollowAction {
    /// See whether following was cancelled.
    PollCancel,
    /// Read the recorded position.
    ReadPosition,
    /// Sync by listings.
    Sync,
    /// Open a live stream from this transaction on.
    OpenStream(Txid),
    /// Open the database for application: a restore replaces the file, and a
    /// reseeded bucket may change the page size.
    OpenDb,
    /// Receive the next stream event into a fresh spool.
    NextEvent,
    /// Apply the spooled file.
    Apply,
    /// Record the position.
    Record(Txid),
    /// Drop the stream and the spool.
    CloseStream,
    /// Wait, noticing a cancellation.
    Sleep(Wait),
    /// End with this result.
    Stop(Result<(), Error>),
}

/// What came of an action.
#[derive(Debug)]
pub enum FollowEvent {
    Cancelled(bool),
    Position(Result<Txid, Error>),
    Synced(Result<(), Error>),
    /// Whether the backend streams at all.
    StreamOpened(Result<bool, StorageError>),
    DbOpened(Result<(), Error>),
    Streamed(Result<StreamEvent, Error>),
    Applied(Result<(), Error>),
    Recorded(Result<(), Error>),
    Closed,
    /// Whether the wait was cancelled.
    Slept(bool),
}

/// Following in progress.
#[derive(Debug)]
pub struct Follow {
    /// Whether transient failures are retried.
    pub retry: bool,
    /// Consecutive transient failures; any progress resets it.
    pub attempt: u32,
    /// The position before the current round.
    pub before: Txid,
    /// The position.
    pub position: Txid,
    /// Whether the current round moved the position.
    pub progress: bool,
    pub phase: FollowPhase,
}

/// Whether following waits for an event of this kind.
pub open spec fn expects(s: Follow, ev: FollowEvent) -> bool {
    match s.phase {
        FollowPhase::Top | FollowPhase::InStream => ev is Cancelled,
        FollowPhase::ReadBefore => ev is Position,
        FollowPhase::Sync => ev is Synced,
        FollowPhase::ReadAfter => ev matches FollowEvent::Position(r) && (r matches Ok(t)
            ==> t.0 < u64::MAX),
        FollowPhase::OpenStream => ev is StreamOpened,
        FollowPhase::OpenDb => ev is DbOpened,
        FollowPhase::Next => ev is Streamed,
        FollowPhase::Apply(_) => ev is Applied,
        FollowPhase::Record => ev is Recorded,
        FollowPhase::CloseCancelled | FollowPhase::Close(_) => ev is Closed,
        FollowPhase::Sleep(_) => ev is Slept,
        FollowPhase::Stopped => false,
    }
}

/// Ends with the given result.
pub open spec fn stop(s: Follow, r: Result<(), Error>) -> (Follow, FollowAction) {
    (Follow { phase: FollowPhase::Stopped, ..s }, FollowAction::Stop(r))
}

/// Waits.
pub open spec fn sleep(s: Follow, w: Wait) -> (Follow, FollowAction) {
    (Follow { phase: FollowPhase::Sleep(w), ..s }, FollowAction::Sleep(w))
}

/// Begins a round.
pub open spec fn top(s: Follow) -> (Follow, FollowAction) {
    (Follow { phase: FollowPhase::Top, ..s }, FollowAction::PollCancel)
}

/// Goes on with a stream session.
pub open spec fn in_stream(s: Follow) -> (Follow, FollowAction) {
    (Follow { phase: FollowPhase::InStream, ..s }, FollowAction::PollCancel)
}

/// Ends a stream session.
pub open spec fn close(s: Follow, e: Option<Error>) -> (Follow, FollowAction) {
    (Follow { phase: FollowPhase::Close(e), ..s }, FollowAction::CloseStream)
}

/// A failure: a transient one is waited out if that is wanted, any other
/// ends following.
pub open spec fn retry_or_fail(s: Follow, e: Error) -> (Follow, FollowAction) {
    if error_transient(e) && s.retry {
        sleep(s, Wait::Backoff(s.attempt))
    } else {
        stop(s, Err(e))
    }
}

/// A failure of an operation that can be cancelled: cancellation is a clean
/// stop.
pub open spec fn fail(s: Follow, e: Error) -> (Follow, FollowAction) {
    if e is Cancelled {
        stop(s, Ok(()))
    } else {
        retry_or_fail(s, e)
    }
}

/// What a stream event leads to.
pub open spec fn on_stream_event(s: Follow, ev: StreamEvent) -> (Follow, FollowAction) {
    match ev {
        StreamEvent::Ltx(f) => if f.max_txid.0 <= s.position.0 {
            in_stream(s)
        } else if !continues(s.position, f.min_txid, f.max_txid) {
            close(s, None)
        } else {
            (Follow { phase: FollowPhase::Apply(f), ..s }, FollowAction::Apply)
        },
        StreamEvent::Idle { bucket_max } => match bucket_max {
            Some(m) if m.0 != 0 && m.0 < s.position.0 => close(s, None),
            _ => in_stream(s),
        },
        _ => close(s, None),
    }
}

/// What an event leads to: the next state and the next action.
pub open spec fn follow_step(s: Follow, ev: FollowEvent) -> (Follow, FollowAction) {
    match (s.phase, ev) {
        (FollowPhase::Top, FollowEvent::Cancelled(c)) => if c {
            stop(s, Ok(()))
        } else {
            (Follow { phase: FollowPhase::ReadBefore, ..s }, FollowAction::ReadPosition)
        },
        (FollowPhase::ReadBefore, FollowEvent::Position(r)) => match r {
            Ok(t) => (Follow { before: t, phase: FollowPhase::Sync, ..s }, FollowAction::Sync),
            Err(e) => stop(s, Err(e)),
        },
        (FollowPhase::Sync, FollowEvent::Synced(r)) => match r {
            Ok(_) => (
                Follow { attempt: 0, phase: FollowPhase::ReadAfter, ..s },
                FollowAction::ReadPosition,
            ),
            Err(Error::TxNotAvailable) => sleep(s, Wait::Poll),
            Err(e) => fail(s, e),
        },
        (FollowPhase::ReadAfter, FollowEvent::Position(r)) => match r {
            Ok(t) => (
                Follow {
                    position: t,
                    progress: t.0 > s.before.0,
                    phase: FollowPhase::OpenStream,
                    ..s
                },
                FollowAction::OpenStream(Txid((t.0 + 1) as u64)),
            ),
            Err(e) => stop(s, Err(e)),
        },
        (FollowPhase::OpenStream, FollowEvent::StreamOpened(r)) => match r {
            Ok(streams) => if streams {
                (Follow { phase: FollowPhase::OpenDb, ..s }, FollowAction::OpenDb)
            } else {
                sleep(s, Wait::Poll)
            },
            Err(e) => fail(s, from_storage(e)),
        },
        (FollowPhase::OpenDb, FollowEvent::DbOpened(r)) => match r {
            Ok(_) => in_stream(s),
            Err(e) => retry_or_fail(s, e),
        },
        (FollowPhase::InStream, FollowEvent::Cancelled(c)) => if c {
            (Follow { phase: FollowPhase::CloseCancelled, ..s }, FollowAction::CloseStream)
        } else {
            (Follow { phase: FollowPhase::Next, ..s }, FollowAction::NextEvent)
        },
        (FollowPhase::Next, FollowEvent::Streamed(r)) => match r {
            Ok(e) => on_stream_event(s, e),
            Err(e) => close(s, Some(e)),
        },
        (FollowPhase::Apply(f), FollowEvent::Applied(r)) => match r {
            Ok(_) => (
                Follow { position: f.max_txid, phase: FollowPhase::Record, ..s },
                FollowAction::Record(f.max_txid),
            ),
            Err(e) => if e is Diverged || e is Ltx || e is Storage {
                close(s, None)
            } else {
                close(s, Some(e))
            },
        },
        (FollowPhase::Record, FollowEvent::Recorded(r)) => match r {
            Ok(_) => in_stream(Follow { progress: true, ..s }),
            Err(e) => close(s, Some(e)),
        },
        (FollowPhase::CloseCancelled, FollowEvent::Closed) => stop(s, Ok(())),
        (FollowPhase::Close(failure), FollowEvent::Closed) => {
            let t = if s.progress {
                Follow { attempt: 0, ..s }
            } else {
                s
            };
            match failure {
                Some(e) => fail(t, e),
                None => if s.progress {
                    top(t)
                } else {
                    sleep(t, Wait::Poll)
                },
            }
        },
        (FollowPhase::Sleep(w), FollowEvent::Slept(c)) => if c {
            stop(s, Ok(()))
        } else {
            match w {
                Wait::Poll => top(s),
                Wait::Backoff(_) => top(
                    Follow {
                        attempt: if s.attempt < u32::MAX {
                            (s.attempt + 1) as u32
                        } else {
                            u32::MAX
                        },
                        ..s
                    },
                ),
            }
        },
        _ => (s, FollowAction::PollCancel),
    }
}

impl Follow {
    /// Starts to follow. The first action is to see whether that was
    /// cancelled already.
    pub fn new(retry: bool) -> (r: (Follow, FollowAction))
        ensures
            r.0.retry == retry,
            r.0.attempt == 0,
            r.0.phase is Top,
            r.1 is PollCancel,
    {
        (
            Follow {
                retry,
                attempt: 0,
                before: Txid(0),
                position: Txid(0),
                progress: false,
                phase: FollowPhase::Top,
            },
            FollowAction::PollCancel,
        )
    }

    fn stop(self, r: Result<(), Error>) -> (out: (Follow, FollowAction))
        ensures
            out == stop(self, r),
    {
        (Follow { phase: FollowPhase::Stopped, ..self }, FollowAction::Stop(r))
    }

    fn sleep(self, w: Wait) -> (out: (Follow, FollowAction))
        ensures
            out == sleep(self, w),
    {
        (Follow { phase: FollowPhase::Sleep(w), ..self }, FollowAction::Sleep(w))
    }

    fn top(self) -> (out: (Follow, FollowAction))
        ensures
            out == top(self),
    {
        (Follow { phase: FollowPhase::Top, ..self }, FollowAction::PollCancel)
    }

    fn in_stream(self) -> (out: (Follow, FollowAction))
        ensures
            out == in_stream(self),
    {
        (Follow { phase: FollowPhase::InStream, ..self }, FollowAction::PollCancel)
    }

    fn close(self, e: Option<Error>) -> (out: (Follow, FollowAction))
        ensures
            out == close(self, e),
    {
        (Follow { phase: FollowPhase::Close(e), ..self }, FollowAction::CloseStream)
    }

    fn retry_or_fail(self, e: Error) -> (out: (Follow, FollowAction))
        ensures
            out == retry_or_fail(self, e),
    {
        let attempt = self.attempt;
        if e.is_transient() && self.retry {
            self.sleep(Wait::Backoff(attempt))
        } else {
            self.stop(Err(e))
        }
    }

    fn fail(self, e: Error) -> (out: (Follow, FollowAction))
        ensures
            out == fail(self, e),
    {
        match e {
            Error::Cancelled => self.stop(Ok(())),
            e => self.retry_or_fail(e),
        }
    }

    fn on_stream_event(self, ev: StreamEvent) -> (out: (Follow, FollowAction))
        ensures
            out == on_stream_event(self, ev),
    {
        match ev {
            StreamEvent::Ltx(f) => {
                if f.max_txid.0 <= self.position.0 {
                    // A stale frame, already applied.
                    self.in_stream()
                } else if !is_contiguous(self.position, f.min_txid, f.max_txid) {
                    self.close(None)
                } else {
                    (Follow { phase: FollowPhase::Apply(f), ..self }, FollowAction::Apply)
                }
            },
            StreamEvent::Idle { bucket_max } => match bucket_max {
                // A non-empty bucket that ends below our position is positive
                // evidence of divergence: let a sync confirm and route it.
                Some(m) => if m.0 != 0 && m.0 < self.position.0 {
                    self.close(None)
                } else {
                    self.in_stream()
                },
                None => self.in_stream(),
            },
            _ => self.close(None),
        }
    }

    /// Takes the event that came of the last action, and tells what to do
    /// next.
    pub fn step(self, ev: FollowEvent) -> (out: (Follow, FollowAction))
        requires
            expects(self, ev),
        ensures
            out == follow_step(self, ev),
    {
        let Follow { retry, attempt, before, position, progress, phase } = self;
        let s = Follow { retry, attempt, before, position, progress, phase: FollowPhase::Stopped };
        match (phase, ev) {
            (FollowPhase::Top, FollowEvent::Cancelled(c)) => {
                if c {
                    s.stop(Ok(()))
                } else {
                    (Follow { phase: FollowPhase::ReadBefore, ..s }, FollowAction::ReadPosition)
                }
            },
            (FollowPhase::ReadBefore, FollowEvent::Position(r)) => match r {
                Ok(t) => (Follow { before: t, phase: FollowPhase::Sync, ..s }, FollowAction::Sync),
                Err(e) => s.stop(Err(e)),
            },
            (FollowPhase::Sync, FollowEvent::Synced(r)) => match r {
                Ok(_) => (
                    Follow { attempt: 0, phase: FollowPhase::ReadAfter, ..s },
                    FollowAction::ReadPosition,
                ),
                // The writer has not seeded the bucket yet.
                Err(Error::TxNotAvailable) => s.sleep(Wait::Poll),
                Err(e) => s.fail(e),
            },
            (FollowPhase::ReadAfter, FollowEvent::Position(r)) => match r {
                Ok(t) => (
                    Follow {
                        position: t,
                        progress: t.0 > before.0,
                        phase: FollowPhase::OpenStream,
                        ..s
                    },
                    FollowAction::OpenStream(Txid(t.0 + 1)),
                ),
                Err(e) => s.stop(Err(e)),
            },
            (FollowPhase::OpenStream, FollowEvent::StreamOpened(r)) => match r {
                Ok(streams) => if streams {
                    (Follow { phase: FollowPhase::OpenDb, ..s }, FollowAction::OpenDb)
                } else {
                    s.sleep(Wait::Poll)
                },
                Err(e) => s.fail(Error::from(e)),
            },
            (FollowPhase::OpenDb, FollowEvent::DbOpened(r)) => match r {
                Ok(_) => s.in_stream(),
                Err(e) => s.retry_or_fail(e),
            },
            (FollowPhase::InStream, FollowEvent::Cancelled(c)) => {
                if c {
                    (Follow { phase: FollowPhase::CloseCancelled, ..s }, FollowAction::CloseStream)
                } else {
                    (Follow { phase: FollowPhase::Next, ..s }, FollowAction::NextEvent)
                }
            },
            (FollowPhase::Next, FollowEvent::Streamed(r)) => match r {
                Ok(e) => s.on_stream_event(e),
                Err(e) => s.close(Some(e)),
            },
            (FollowPhase::Apply(f), FollowEvent::Applied(r)) => match r {
                Ok(_) => (
                    Follow { position: f.max_txid, phase: FollowPhase::Record, ..s },
                    FollowAction::Record(f.max_txid),
                ),
                Err(e) => match e {
                    Error::Diverged { .. } => s.close(None),
                    Error::Ltx(_) => s.close(None),
                    Error::Storage(_) => s.close(None),
                    e => s.close(Some(e)),
                },
            },
            (FollowPhase::Record, FollowEvent::Recorded(r)) => match r {
                Ok(_) => Follow { progress: true, ..s }.in_stream(),
                Err(e) => s.close(Some(e)),
            },
            (FollowPhase::CloseCancelled, FollowEvent::Closed) => s.stop(Ok(())),
            (FollowPhase::Close(failure), FollowEvent::Closed) => {
                let t = if progress {
                    Follow { attempt: 0, ..s }
                } else {
                    s
                };
                match failure {
                    Some(e) => t.fail(e),
                    None => if progress {
                        t.top()
                    } else {
                        // The whole round moved nothing: back off, so that a
                        // pruned or stalled bucket cannot cause a hot spin.
                        t.sleep(Wait::Poll)
                    },
                }
            },
            (FollowPhase::Sleep(w), FollowEvent::Slept(c)) => {
                if c {
                    s.stop(Ok(()))
                } else {
                    match w {
                        Wait::Poll => s.top(),
                        Wait::Backoff(_) => Follow { attempt: attempt.saturating_add(1), ..s }.top(),
                    }
                }
            },
            (phase, _) => (Follow { phase, ..s }, FollowAction::PollCancel),
        }
    }
}

/// Cancellation is a clean stop: following never ends with it as an error,
/// and a cancellation that is noticed ends it at once, or once the session is
/// closed.
pub proof fn law_cancellation_is_a_clean_stop(s: Follow, ev: FollowEvent)
    requires
        expects(s, ev),
        ev matches FollowEvent::Position(Err(e)) ==> e !is Cancelled,
        ev matches FollowEvent::DbOpened(Err(e)) ==> e !is Cancelled,
    ensures
        ({
            let (t, a) = follow_step(s, ev);
            &&& a matches FollowAction::Stop(Err(e)) ==> e !is Cancelled
            &&& ev == FollowEvent::Cancelled(true) || ev == FollowEvent::Slept(true)
                || ev == FollowEvent::Synced(Err(Error::Cancelled)) || ev
                == FollowEvent::StreamOpened(Err(StorageError::Cancelled)) ==> a
                == FollowAction::Stop(Ok(())) || t.phase is CloseCancelled
            &&& s.phase is CloseCancelled ==> a == FollowAction::Stop(Ok(()))
            &&& s.phase == FollowPhase::Close(Some(Error::Cancelled)) ==> a == FollowAction::Stop(
                Ok(()),
            )
        }),
{
}

/// Within a round the position moves only by applying a file that continues
/// it, and so never backwards.
pub proof fn law_follow_position_only_advances(s: Follow, ev: FollowEvent)
    requires
        expects(s, ev),
        s.phase matches FollowPhase::Apply(f) ==> continues(s.position, f.min_txid, f.max_txid),
        s.phase !is ReadAfter,
    ensures
        ({
            let (t, _) = follow_step(s, ev);
            &&& t.position.0 >= s.position.0
            &&& t.position != s.position ==> s.phase is Apply && ev is Applied && ev->Applied_0 is Ok
            &&& t.phase matches FollowPhase::Apply(f) ==> continues(
                t.position,
                f.min_txid,
                f.max_txid,
            )
        }),
{
}

/// A file that was applied is recorded before anything else happens.
pub proof fn law_applied_position_is_recorded(s: Follow, f: FileInfo)
    requires
        s.phase == FollowPhase::Apply(f),
    ensures
        follow_step(s, FollowEvent::Applied(Ok(()))).1 == FollowAction::Record(f.max_txid),
{
}

/// A round that moved nothing is followed by a wait, never by the next round
/// at once.
pub proof fn law_no_hot_spin(s: Follow, ev: FollowEvent)
    requires
        expects(s, ev),
        follow_step(s, ev).0.phase is Top,
    ensures
        s.phase is Sleep || (s.phase is Close && s.progress),
{
}

/// A failure is retried only if it is transient and retrying is wanted, and
/// then after the backoff for the failures so far; a failure that ends
/// following is the one that occurred.
pub proof fn law_only_transient_failures_are_retried(s: Follow, e: Error)
    requires
        s.phase is Sync,
        e !is Cancelled,
        e !is TxNotAvailable,
    ensures
        ({
            let (t, a) = follow_step(s, FollowEvent::Synced(Err(e)));
            if s.retry && error_transient(e) {
                a == FollowAction::Sleep(Wait::Backoff(s.attempt)) && t.attempt == s.attempt
            } else {
                a == FollowAction::Stop(Err(e))
            }
        }),
        follow_step(s, FollowEvent::Synced(Ok(()))).0.attempt == 0,
{
}

} // verus!
