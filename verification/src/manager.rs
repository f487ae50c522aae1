//! Replication of many databases, one background worker each: what a worker
//! does next, what control calls change, and what an observer is told.
//!
//! Every registered database has an [`Entry`], which its worker and the
//! control calls share. A worker's storage client belongs to one session.
//! Sleeping cancels the session; resuming starts a fresh one, so a cancelled
//! session can never poison a later one.
use crate::compaction::{on_clock, CLOCK_MIN};
use crate::error::{error_text, error_transient, Error};
use crate::ltx::Txid;
use crate::replica::SyncResult;
use crate::text;
use crate::text::debug_quoted;
use crate::time::{elapsed, span_between, Span};
use crate::writer::PushResult;
use std::collections::VecDeque;
use vstd::prelude::*;

verus! {

/// Whether a registration pushes or follows.
#[derive(Clone, Copy, Debug, PartialEq, Eq, Structural)]
pub enum DbRole {
    Push,
    Follow,
}

/// Lifecycle state of one registered database.
#[derive(Clone, Copy, Debug, PartialEq, Eq, Structural)]
pub enum DbState {
    /// Waiting for the next tick or nudge.
    Idle,
    /// A push or maintenance round or a follow session is in progress.
    Working,
    /// A transient failure is waiting out its backoff delay. `attempt` is
    /// the consecutive-failure count (1 after the first failure).
    BackingOff { until: i128, attempt: u32 },
    /// Slept: session cancelled, no storage traffic until resumed.
    Sleeping,
    /// A fatal error parked the worker. It retries once per nudge or on
    /// resume.
    Failed,
}

/// Point-in-time snapshot of one registered database.
#[derive(Clone, Debug)]
pub struct DbStatus {
    pub id: String,
    pub role: DbRole,
    pub state: DbState,
    /// Replication position: for pushes, the last successful push; for
    /// follows, the position sidecar. Nothing until the first.
    pub position: Option<Txid>,
    /// Most recent error; cleared by the next successful round.
    pub last_error: Option<String>,
    /// When the last push succeeded or the last transaction was applied.
    pub last_activity: Option<i128>,
}

/// What an observer is told.
#[derive(Clone, Debug)]
pub enum ManagerEvent {
    StateChanged { id: String, state: DbState },
    PushCompleted { id: String, result: PushResult },
    SyncCompleted { id: String, result: SyncResult },
    Error { id: String, message: String, transient: bool },
}

/// What the control calls tell a worker; apart from the state that an
/// application sees.
#[derive(Clone, Copy, Debug, PartialEq, Eq, Structural)]
pub enum Ctrl {
    Running,
    Sleeping,
    Shutdown,
}

/// When a worker's next own round is due.
#[derive(Clone, Copy, Debug, PartialEq, Eq, Structural)]
pub enum Due {
    Now,
    /// At this reading of the clock, in nanoseconds.
    At(u128),
    /// Not before a nudge or a control call.
    Never,
}

/// What a waiting worker is to do.
#[derive(Clone, Copy, Debug, PartialEq, Eq, Structural)]
pub enum Action {
    /// Run one round in the current session.
    Round,
    /// Give up the session, then wait on.
    Release,
    /// End the worker.
    Exit,
}

/// What a worker that asks for something to do is told.
#[derive(Clone, Copy, Debug, PartialEq, Eq, Structural)]
pub enum Wake {
    Act(Action),
    /// Wait to be woken.
    Wait,
    /// Wait to be woken, but no longer than this.
    WaitFor(Span),
}

/// What a control call has to do besides.
#[derive(Clone, Copy, Debug, PartialEq, Eq, Structural)]
pub struct Effect {
    /// Cancel the current session's token.
    pub cancel: bool,
    /// Install a fresh token (after cancelling).
    pub fresh: bool,
    /// Wake the worker.
    pub notify: bool,
}

/// An event that waits to be delivered.
#[derive(Debug)]
enum Pending {
    StateChanged(DbState),
    PushCompleted(PushResult),
    Error(String, bool),
}

/// What one registered database's worker and the control calls share.
#[derive(Debug)]
pub struct Entry {
    id: String,
    role: DbRole,
    ctrl: Ctrl,
    /// Run a round now.
    nudged: bool,
    /// Whether the current session was cancelled.
    cancelled: bool,
    state: DbState,
    position: Option<Txid>,
    last_error: Option<String>,
    last_activity: Option<i128>,
    /// Events in the order of the changes they tell of.
    pending: VecDeque<Pending>,
    /// Whether some thread is delivering events.
    emitting: bool,
}

/// An event that waits to be delivered, or was.
pub enum EventModel {
    StateChanged(DbState),
    PushCompleted(PushResult),
    Error(Seq<char>, bool),
}

/// What an [`Entry`] holds.
#[verifier::ext_equal]
pub struct EntryModel {
    pub id: Seq<char>,
    pub role: DbRole,
    pub ctrl: Ctrl,
    pub nudged: bool,
    pub cancelled: bool,
    pub state: DbState,
    pub position: Option<Txid>,
    pub last_error: Option<Seq<char>>,
    pub last_activity: Option<i128>,
    pub pending: Seq<EventModel>,
    pub emitting: bool,
}

spec fn event_model(e: Pending) -> EventModel {
    match e {
        Pending::StateChanged(s) => EventModel::StateChanged(s),
        Pending::PushCompleted(r) => EventModel::PushCompleted(r),
        Pending::Error(m, t) => EventModel::Error(m@, t),
    }
}

spec fn event_models(s: Seq<Pending>) -> Seq<EventModel> {
    Seq::new(s.len(), |i: int| event_model(s[i]))
}

/// The text that is there, if any.
pub open spec fn text_of(o: Option<String>) -> Option<Seq<char>> {
    match o {
        Some(s) => Some(s@),
        None => None,
    }
}

impl View for Entry {
    type V = EntryModel;

    closed spec fn view(&self) -> EntryModel {
        EntryModel {
            id: self.id@,
            role: self.role,
            ctrl: self.ctrl,
            nudged: self.nudged,
            cancelled: self.cancelled,
            state: self.state,
            position: self.position,
            last_error: text_of(self.last_error),
            last_activity: self.last_activity,
            pending: event_models(self.pending@),
            emitting: self.emitting,
        }
    }
}

/// A new registration.
pub open spec fn registered(id: Seq<char>, role: DbRole) -> EntryModel {
    EntryModel {
        id,
        role,
        ctrl: Ctrl::Running,
        nudged: false,
        cancelled: false,
        state: DbState::Idle,
        position: None,
        last_error: None,
        last_activity: None,
        pending: Seq::empty(),
        emitting: false,
    }
}

/// Queues an event.
pub open spec fn queue(m: EntryModel, e: EventModel) -> EntryModel {
    EntryModel { pending: m.pending.push(e), ..m }
}

/// A worker's change of state: it counts only while the entry is running, and
/// only if it is one.
pub open spec fn transitioned(m: EntryModel, state: DbState) -> EntryModel {
    if m.ctrl is Running && m.state != state {
        queue(EntryModel { state, ..m }, EventModel::StateChanged(state))
    } else {
        m
    }
}

/// An error that is reported.
pub open spec fn errored(m: EntryModel, message: Seq<char>, transient: bool) -> EntryModel {
    queue(
        EntryModel { last_error: Some(message), ..m },
        EventModel::Error(message, transient),
    )
}

/// A push that succeeded.
pub open spec fn push_recorded(m: EntryModel, result: PushResult, at: i128) -> EntryModel {
    queue(
        EntryModel {
            position: Some(result.txid),
            last_activity: Some(at),
            last_error: None,
            ..m
        },
        EventModel::PushCompleted(result),
    )
}

/// A database put to sleep. Neither a sleeping one nor one that is being shut
/// down is changed.
pub open spec fn slept(m: EntryModel) -> EntryModel {
    if m.ctrl is Running {
        queue(
            EntryModel { ctrl: Ctrl::Sleeping, cancelled: true, state: DbState::Sleeping, ..m },
            EventModel::StateChanged(DbState::Sleeping),
        )
    } else {
        m
    }
}

/// A database resumed: a sleeping one gets a fresh session and an immediate
/// round; a failed one is nudged.
pub open spec fn resumed(m: EntryModel) -> EntryModel {
    match m.ctrl {
        Ctrl::Shutdown => m,
        Ctrl::Running => if m.state is Failed {
            EntryModel { nudged: true, ..m }
        } else {
            m
        },
        Ctrl::Sleeping => EntryModel {
            ctrl: Ctrl::Running,
            cancelled: false,
            nudged: true,
            state: DbState::Idle,
            ..m
        },
    }
}

/// A round requested; ignored unless running.
pub open spec fn nudged(m: EntryModel) -> EntryModel {
    if m.ctrl is Running {
        EntryModel { nudged: true, ..m }
    } else {
        m
    }
}

/// A database being shut down.
pub open spec fn shut_down(m: EntryModel) -> EntryModel {
    EntryModel { ctrl: Ctrl::Shutdown, cancelled: true, ..m }
}

/// What a worker that asks for something to do is told. Shutting down beats
/// everything; a sleeping worker first gives up its session and then parks;
/// while running, a nudge wins over the park of a failed worker, which wins
/// over the schedule.
pub open spec fn woken(m: EntryModel, session_alive: bool, due: Due, now: u128) -> (
    EntryModel,
    Wake,
) {
    match m.ctrl {
        Ctrl::Shutdown => (m, Wake::Act(Action::Exit)),
        Ctrl::Sleeping => if session_alive {
            (m, Wake::Act(Action::Release))
        } else {
            (m, Wake::Wait)
        },
        Ctrl::Running => if m.nudged {
            (EntryModel { nudged: false, ..m }, Wake::Act(Action::Round))
        } else if m.state is Failed {
            (m, Wake::Wait)
        } else {
            match due {
                Due::Now => (m, Wake::Act(Action::Round)),
                Due::Never => (m, Wake::Wait),
                Due::At(t) => if now >= t {
                    (m, Wake::Act(Action::Round))
                } else {
                    (m, Wake::WaitFor(Span { nanos: (t - now) as u128 }))
                },
            }
        },
    }
}

/// What every entry keeps: a running entry's session is not cancelled, any
/// other's is; and it shows itself as asleep exactly while it sleeps, shutting
/// down aside.
pub open spec fn entry_wf(m: EntryModel) -> bool {
    &&& m.ctrl is Running <==> !m.cancelled
    &&& m.ctrl is Running ==> !(m.state is Sleeping)
    &&& m.ctrl is Sleeping ==> m.state is Sleeping
}

/// An event as an observer gets it.
pub open spec fn delivered(e: ManagerEvent, id: Seq<char>, m: EventModel) -> bool {
    match (e, m) {
        (ManagerEvent::StateChanged { id: i, state }, EventModel::StateChanged(s)) => i@ == id
            && state == s,
        (ManagerEvent::PushCompleted { id: i, result }, EventModel::PushCompleted(r)) => i@ == id
            && result == r,
        (ManagerEvent::Error { id: i, message, transient }, EventModel::Error(t, f)) => i@ == id
            && message@ == t && transient == f,
        _ => false,
    }
}

/// What is said of a nudge for the wrong role.
pub open spec fn role_text(id: Seq<char>, role: DbRole) -> Seq<char> {
    match role {
        DbRole::Follow => debug_quoted(id) + " is a follow registration; use sync_now"@,
        DbRole::Push => debug_quoted(id) + " is a push registration; use push_now"@,
    }
}

impl Entry {
    pub fn new(id: &str, role: DbRole) -> (r: Entry)
        ensures
            r@ == registered(id@, role),
            entry_wf(r@),
    {
        let r = Entry {
            id: id.to_owned(),
            role,
            ctrl: Ctrl::Running,
            nudged: false,
            cancelled: false,
            state: DbState::Idle,
            position: None,
            last_error: None,
            last_activity: None,
            pending: VecDeque::new(),
            emitting: false,
        };
        assert(r@ =~= registered(id@, role));
        r
    }

    fn queue_event(&mut self, e: Pending)
        ensures
            final(self)@ == queue(old(self)@, event_model(e)),
    {
        let ghost before = self.pending@;
        self.pending.push_back(e);
        assert(event_models(self.pending@) =~= event_models(before).push(event_model(e)));
    }

    /// A worker's change of state. It counts only while the entry is running,
    /// so a worker that sees its cancellation late can never repaint a
    /// sleeping entry.
    pub fn transition_running(&mut self, state: DbState)
        requires
            entry_wf(old(self)@),
            !(state is Sleeping),
        ensures
            final(self)@ == transitioned(old(self)@, state),
            entry_wf(final(self)@),
    {
        let running = match self.ctrl {
            Ctrl::Running => true,
            _ => false,
        };
        if !running || self.state == state {
            return;
        }
        self.state = state;
        self.queue_event(Pending::StateChanged(state));
    }

    /// Records an error and queues it for the observer.
    pub fn record_error(&mut self, message: String, transient: bool)
        requires
            entry_wf(old(self)@),
        ensures
            final(self)@ == errored(old(self)@, message@, transient),
            entry_wf(final(self)@),
    {
        self.last_error = Some(message.as_str().to_owned());
        self.queue_event(Pending::Error(message, transient));
    }

    /// Records a push that succeeded.
    pub fn record_push(&mut self, result: PushResult, at: i128)
        requires
            entry_wf(old(self)@),
        ensures
            final(self)@ == push_recorded(old(self)@, result, at),
            entry_wf(final(self)@),
    {
        self.position = Some(result.txid);
        self.last_activity = Some(at);
        self.last_error = None;
        self.queue_event(Pending::PushCompleted(result));
    }

    /// The next event to deliver: the oldest. Nothing if there is none, or if
    /// some thread is delivering one: that thread will take what is left.
    /// After delivery, call [`Entry::event_delivered`] and ask again.
    pub fn next_event(&mut self) -> (r: Option<ManagerEvent>)
        requires
            entry_wf(old(self)@),
        ensures
            entry_wf(final(self)@),
            old(self)@.emitting || old(self)@.pending.len() == 0 ==> r is None && final(self)@ == old(
                self,
            )@,
            !old(self)@.emitting && old(self)@.pending.len() > 0 ==> {
                &&& r matches Some(e) && delivered(e, old(self)@.id, old(self)@.pending[0])
                &&& final(self)@ == (EntryModel {
                    pending: old(self)@.pending.skip(1),
                    emitting: true,
                    ..old(self)@
                })
            },
    {
        if self.emitting {
            return None;
        }
        let ghost before = self.pending@;
        match self.pending.pop_front() {
            Some(e) => {
                self.emitting = true;
                assert(event_models(self.pending@) =~= event_models(before).skip(1));
                let id = self.id.as_str().to_owned();
                match e {
                    Pending::StateChanged(state) => Some(ManagerEvent::StateChanged { id, state }),
                    Pending::PushCompleted(result) => Some(
                        ManagerEvent::PushCompleted { id, result },
                    ),
                    Pending::Error(message, transient) => Some(
                        ManagerEvent::Error { id, message, transient },
                    ),
                }
            },
            None => None,
        }
    }

    /// Reports that the event taken last was delivered, or that its delivery
    /// failed.
    pub fn event_delivered(&mut self)
        requires
            entry_wf(old(self)@),
        ensures
            final(self)@ == (EntryModel { emitting: false, ..old(self)@ }),
            entry_wf(final(self)@),
    {
        self.emitting = false;
    }

    /// What the worker is to do now. `session_alive` tells whether it holds a
    /// session.
    pub fn wait_for_action(&mut self, session_alive: bool, due: Due, now: u128) -> (r: Wake)
        requires
            entry_wf(old(self)@),
        ensures
            (final(self)@, r) == woken(old(self)@, session_alive, due, now),
            entry_wf(final(self)@),
    {
        match self.ctrl {
            Ctrl::Shutdown => Wake::Act(Action::Exit),
            Ctrl::Sleeping => if session_alive {
                Wake::Act(Action::Release)
            } else {
                Wake::Wait
            },
            Ctrl::Running => {
                if self.nudged {
                    self.nudged = false;
                    return Wake::Act(Action::Round);
                }
                if self.state == DbState::Failed {
                    return Wake::Wait;
                }
                match due {
                    Due::Now => Wake::Act(Action::Round),
                    Due::Never => Wake::Wait,
                    Due::At(t) => if now >= t {
                        Wake::Act(Action::Round)
                    } else {
                        Wake::WaitFor(Span { nanos: t - now })
                    },
                }
            },
        }
    }

    /// Puts the database to sleep. Idempotent.
    pub fn sleep(&mut self) -> (r: Effect)
        requires
            entry_wf(old(self)@),
        ensures
            final(self)@ == slept(old(self)@),
            entry_wf(final(self)@),
            r == (Effect {
                cancel: old(self)@.ctrl is Running,
                fresh: false,
                notify: old(self)@.ctrl is Running,
            }),
    {
        match self.ctrl {
            Ctrl::Running => {
                self.ctrl = Ctrl::Sleeping;
                self.cancelled = true;
                self.state = DbState::Sleeping;
                self.queue_event(Pending::StateChanged(DbState::Sleeping));
                Effect { cancel: true, fresh: false, notify: true }
            },
            _ => Effect { cancel: false, fresh: false, notify: false },
        }
    }

    /// Wakes a sleeping database. On a failed one this is a nudge.
    /// Idempotent. No event tells of it: the round that follows does.
    pub fn resume(&mut self) -> (r: Effect)
        requires
            entry_wf(old(self)@),
        ensures
            final(self)@ == resumed(old(self)@),
            entry_wf(final(self)@),
            r == (Effect {
                cancel: false,
                fresh: old(self)@.ctrl is Sleeping,
                notify: old(self)@.ctrl is Sleeping || (old(self)@.ctrl is Running && old(
                    self,
                )@.state is Failed),
            }),
    {
        match self.ctrl {
            Ctrl::Shutdown => Effect { cancel: false, fresh: false, notify: false },
            Ctrl::Running => if self.state == DbState::Failed {
                self.nudged = true;
                Effect { cancel: false, fresh: false, notify: true }
            } else {
                Effect { cancel: false, fresh: false, notify: false }
            },
            Ctrl::Sleeping => {
                self.ctrl = Ctrl::Running;
                self.cancelled = false;
                self.nudged = true;
                self.state = DbState::Idle;
                Effect { cancel: false, fresh: true, notify: true }
            },
        }
    }

    /// Requests a push now. Ignored unless running.
    pub fn push_now(&mut self) -> (r: Result<Effect, Error>)
        requires
            entry_wf(old(self)@),
        ensures
            entry_wf(final(self)@),
            old(self)@.role is Push ==> {
                &&& final(self)@ == nudged(old(self)@)
                &&& r == Ok::<Effect, Error>(
                    Effect { cancel: false, fresh: false, notify: old(self)@.ctrl is Running },
                )
            },
            old(self)@.role is Follow ==> {
                &&& final(self)@ == old(self)@
                &&& r matches Err(Error::Other(m)) && m@ == role_text(
                    old(self)@.id,
                    DbRole::Follow,
                )
            },
    {
        match self.role {
            DbRole::Follow => {
                let mut m = text::quoted(self.id.as_str());
                m.append(" is a follow registration; use sync_now");
                Err(Error::Other(m))
            },
            DbRole::Push => match self.ctrl {
                Ctrl::Running => {
                    self.nudged = true;
                    Ok(Effect { cancel: false, fresh: false, notify: true })
                },
                _ => Ok(Effect { cancel: false, fresh: false, notify: false }),
            },
        }
    }

    /// Requests a resync now, by ending the follow session and starting a
    /// fresh one. Ignored unless running.
    pub fn sync_now(&mut self) -> (r: Result<Effect, Error>)
        requires
            entry_wf(old(self)@),
        ensures
            entry_wf(final(self)@),
            old(self)@.role is Follow ==> {
                &&& final(self)@ == nudged(old(self)@)
                &&& r == Ok::<Effect, Error>(
                    Effect {
                        cancel: old(self)@.ctrl is Running,
                        fresh: old(self)@.ctrl is Running,
                        notify: old(self)@.ctrl is Running,
                    },
                )
            },
            old(self)@.role is Push ==> {
                &&& final(self)@ == old(self)@
                &&& r matches Err(Error::Other(m)) && m@ == role_text(old(self)@.id, DbRole::Push)
            },
    {
        match self.role {
            DbRole::Push => {
                let mut m = text::quoted(self.id.as_str());
                m.append(" is a push registration; use push_now");
                Err(Error::Other(m))
            },
            DbRole::Follow => match self.ctrl {
                Ctrl::Running => {
                    self.nudged = true;
                    Ok(Effect { cancel: true, fresh: true, notify: true })
                },
                _ => Ok(Effect { cancel: false, fresh: false, notify: false }),
            },
        }
    }

    /// Ends the registration.
    pub fn shutdown(&mut self) -> (r: Effect)
        requires
            entry_wf(old(self)@),
        ensures
            final(self)@ == shut_down(old(self)@),
            entry_wf(final(self)@),
            r == (Effect { cancel: true, fresh: false, notify: true }),
    {
        self.ctrl = Ctrl::Shutdown;
        self.cancelled = true;
        Effect { cancel: true, fresh: false, notify: true }
    }

    /// The database's status. A follower's position and activity come from
    /// its sidecar: what was read of it, and when it changed.
    pub fn status(&self, sidecar: Option<Txid>, changed: Option<i128>) -> (r: DbStatus)
        ensures
            r.id@ == self@.id,
            r.role == self@.role,
            r.state == self@.state,
            r.position == match self@.role {
                DbRole::Push => self@.position,
                DbRole::Follow => match sidecar {
                    Some(t) if t.0 != 0 => Some(t),
                    _ => None,
                },
            },
            text_of(r.last_error) == self@.last_error,
            r.last_activity == match self@.role {
                DbRole::Push => self@.last_activity,
                DbRole::Follow => changed,
            },
    {
        let last_error = match &self.last_error {
            Some(m) => Some(m.as_str().to_owned()),
            None => None,
        };
        let (position, last_activity) = match self.role {
            DbRole::Push => (self.position, self.last_activity),
            DbRole::Follow => {
                let position = match sidecar {
                    Some(t) => if t.is_zero() {
                        None
                    } else {
                        Some(t)
                    },
                    None => None,
                };
                (position, changed)
            },
        };
        DbStatus {
            id: self.id.as_str().to_owned(),
            role: self.role,
            state: self.state,
            position,
            last_error,
            last_activity,
        }
    }
}

// ---------------------------------------------------------------------------
// The push worker

/// What a push worker waits for.
#[derive(Clone, Copy, Debug, PartialEq, Eq, Structural)]
pub enum PushPhase {
    Waiting,
    Pushing,
    Maintaining,
    Done,
}

/// What to do next for a push worker.
#[derive(Clone, Copy, Debug, PartialEq, Eq, Structural)]
pub enum PushAction {
    /// Wait for something to do. First drop the writer if told so: that
    /// releases its read transaction and its files.
    Wait { drop_writer: bool, due: Due },
    /// Open the writer if there is none, and push.
    Push,
    Maintain,
    Exit,
}

/// What came of an action.
#[derive(Debug)]
pub enum PushEvent {
    Woken(Action),
    Pushed(Result<PushResult, Error>),
    Maintained(Result<(), Error>),
}

/// A push worker.
#[derive(Clone, Copy, Debug, PartialEq, Eq, Structural)]
pub struct PushWorker {
    /// Push cadence; none means that pushes run only when nudged.
    pub interval: Option<Span>,
    /// How often maintenance is attempted, if at all.
    pub maintain_every: Option<Span>,
    /// Consecutive transient failures.
    pub attempt: u32,
    pub retry_at: Option<u128>,
    pub next_push: Option<u128>,
    pub last_maintain: Option<u128>,
    pub phase: PushPhase,
}

/// When the worker's next round is due. An armed retry supersedes the tick:
/// the retry is the next push.
pub open spec fn push_due(w: PushWorker) -> Due {
    match (w.retry_at, w.next_push) {
        (Some(t), _) => Due::At(t),
        (None, Some(t)) => Due::At(t),
        (None, None) => Due::Never,
    }
}

/// Whether the clocks can show a time that much later.
pub open spec fn time_fits(now: u128, wall: i128, span: Span) -> bool {
    now + span.nanos <= u128::MAX && on_clock(wall) && wall + span.nanos < -CLOCK_MIN
}

/// The worker waits again; the next tick is an interval away.
pub open spec fn push_rests(w: PushWorker, m: EntryModel, now: u128, drop_writer: bool) -> (
    PushWorker,
    EntryModel,
    PushAction,
) {
    let next_push = match w.interval {
        Some(i) => Some((now + i.nanos) as u128),
        None => None,
    };
    let t = PushWorker { phase: PushPhase::Waiting, next_push, ..w };
    (t, m, PushAction::Wait { drop_writer, due: push_due(t) })
}

/// Whether maintenance is to be attempted: the cadence counts attempts, so
/// that one which keeps failing does not turn every push into an attempt.
pub open spec fn maintenance_due(w: PushWorker, now: u128) -> bool {
    match w.maintain_every {
        None => false,
        Some(every) => match w.last_maintain {
            None => true,
            Some(t) => span_between(t, now) >= every.nanos,
        },
    }
}

/// One more, as far as it can be counted.
pub open spec fn one_more(n: u32) -> u32 {
    if n < u32::MAX {
        (n + 1) as u32
    } else {
        n
    }
}

/// What a push worker and its entry become, and what is done next, on an
/// event. `delay` is how long the backoff schedule has it wait now.
pub open spec fn push_next(
    w: PushWorker,
    m: EntryModel,
    ev: PushEvent,
    now: u128,
    wall: i128,
    delay: Span,
) -> (PushWorker, EntryModel, PushAction) {
    match ev {
        PushEvent::Woken(Action::Exit) => (
            PushWorker { phase: PushPhase::Done, ..w },
            m,
            PushAction::Exit,
        ),
        PushEvent::Woken(Action::Release) => (
            w,
            m,
            PushAction::Wait { drop_writer: true, due: push_due(w) },
        ),
        PushEvent::Woken(Action::Round) => (
            PushWorker { retry_at: None, phase: PushPhase::Pushing, ..w },
            transitioned(m, DbState::Working),
            PushAction::Push,
        ),
        PushEvent::Pushed(Ok(result)) => {
            let w1 = PushWorker { attempt: 0, ..w };
            let m1 = push_recorded(m, result, wall);
            if maintenance_due(w1, now) {
                (
                    PushWorker { last_maintain: Some(now), phase: PushPhase::Maintaining, ..w1 },
                    m1,
                    PushAction::Maintain,
                )
            } else {
                push_rests(w1, transitioned(m1, DbState::Idle), now, false)
            }
        },
        PushEvent::Pushed(Err(e)) => if e is Cancelled {
            push_rests(w, m, now, false)
        } else if error_transient(e) {
            let attempt = one_more(w.attempt);
            push_rests(
                PushWorker { attempt, retry_at: Some((now + delay.nanos) as u128), ..w },
                transitioned(
                    errored(m, error_text(e), true),
                    DbState::BackingOff { until: (wall + delay.nanos) as i128, attempt },
                ),
                now,
                false,
            )
        } else {
            push_rests(
                PushWorker { attempt: 0, ..w },
                transitioned(errored(m, error_text(e), false), DbState::Failed),
                now,
                true,
            )
        },
        PushEvent::Maintained(r) => {
            let m1 = match r {
                Err(e) => if e is Cancelled {
                    m
                } else {
                    errored(m, error_text(e), error_transient(e))
                },
                Ok(_) => m,
            };
            push_rests(w, transitioned(m1, DbState::Idle), now, false)
        },
    }
}

/// Whether a push worker waits for an event of this kind.
pub open spec fn push_expects(w: PushWorker, ev: PushEvent) -> bool {
    match w.phase {
        PushPhase::Waiting => ev is Woken,
        PushPhase::Pushing => ev is Pushed,
        PushPhase::Maintaining => ev is Maintained,
        PushPhase::Done => false,
    }
}

impl PushWorker {
    /// A worker that starts now. With an interval the first push is due at
    /// once.
    pub fn new(interval: Option<Span>, maintain_every: Option<Span>, now: u128) -> (r: (
        PushWorker,
        PushAction,
    ))
        ensures
            r.0 == (PushWorker {
                interval,
                maintain_every,
                attempt: 0,
                retry_at: None,
                next_push: if interval is Some {
                    Some(now)
                } else {
                    None
                },
                last_maintain: None,
                phase: PushPhase::Waiting,
            }),
            r.1 == (PushAction::Wait { drop_writer: false, due: push_due(r.0) }),
    {
        let next_push = match interval {
            Some(_) => Some(now),
            None => None,
        };
        let w = PushWorker {
            interval,
            maintain_every,
            attempt: 0,
            retry_at: None,
            next_push,
            last_maintain: None,
            phase: PushPhase::Waiting,
        };
        let due = w.due();
        (w, PushAction::Wait { drop_writer: false, due })
    }

    /// When the next round is due.
    pub fn due(&self) -> (r: Due)
        ensures
            r == push_due(*self),
    {
        match self.retry_at {
            Some(t) => Due::At(t),
            None => match self.next_push {
                Some(t) => Due::At(t),
                None => Due::Never,
            },
        }
    }

    fn rest(self, now: u128, drop_writer: bool) -> (r: (PushWorker, PushAction))
        requires
            self.interval matches Some(i) ==> now + i.nanos <= u128::MAX,
        ensures
            forall|m: EntryModel|
                (r.0, m, r.1) == #[trigger] push_rests(self, m, now, drop_writer),
    {
        let next_push = match self.interval {
            Some(i) => Some(now + i.nanos),
            None => None,
        };
        let w = PushWorker { phase: PushPhase::Waiting, next_push, ..self };
        let due = w.due();
        (w, PushAction::Wait { drop_writer, due })
    }

    /// Takes the event that came of the last action, records in the entry
    /// what has to be, and tells what to do next. Deliver the entry's events
    /// before doing it.
    pub fn step(
        self,
        entry: &mut Entry,
        ev: PushEvent,
        now: u128,
        wall: i128,
        delay: Span,
    ) -> (r: (PushWorker, PushAction))
        requires
            entry_wf(old(entry)@),
            push_expects(self, ev),
            time_fits(now, wall, delay),
            self.interval matches Some(i) ==> now + i.nanos <= u128::MAX,
        ensures
            (r.0, final(entry)@, r.1) == push_next(self, old(entry)@, ev, now, wall, delay),
            entry_wf(final(entry)@),
    {
        match ev {
            PushEvent::Woken(Action::Exit) => (
                PushWorker { phase: PushPhase::Done, ..self },
                PushAction::Exit,
            ),
            PushEvent::Woken(Action::Release) => {
                let due = self.due();
                (self, PushAction::Wait { drop_writer: true, due })
            },
            PushEvent::Woken(Action::Round) => {
                entry.transition_running(DbState::Working);
                (
                    PushWorker { retry_at: None, phase: PushPhase::Pushing, ..self },
                    PushAction::Push,
                )
            },
            PushEvent::Pushed(Ok(result)) => {
                entry.record_push(result, wall);
                let w = PushWorker { attempt: 0, ..self };
                let maintain = match w.maintain_every {
                    None => false,
                    Some(every) => match w.last_maintain {
                        None => true,
                        Some(t) => elapsed(t, now).nanos >= every.nanos,
                    },
                };
                if maintain {
                    (
                        PushWorker {
                            last_maintain: Some(now),
                            phase: PushPhase::Maintaining,
                            ..w
                        },
                        PushAction::Maintain,
                    )
                } else {
                    entry.transition_running(DbState::Idle);
                    w.rest(now, false)
                }
            },
            PushEvent::Pushed(Err(e)) => {
                let cancelled = match e {
                    Error::Cancelled => true,
                    _ => false,
                };
                if cancelled {
                    self.rest(now, false)
                } else if e.is_transient() {
                    let attempt: u32 = if self.attempt < u32::MAX {
                        self.attempt + 1
                    } else {
                        self.attempt
                    };
                    let until: i128 = wall + delay.nanos as i128;
                    entry.record_error(e.message(), true);
                    entry.transition_running(DbState::BackingOff { until, attempt });
                    let w = PushWorker { attempt, retry_at: Some(now + delay.nanos), ..self };
                    w.rest(now, false)
                } else {
                    entry.record_error(e.message(), false);
                    entry.transition_running(DbState::Failed);
                    let w = PushWorker { attempt: 0, ..self };
                    w.rest(now, true)
                }
            },
            PushEvent::Maintained(r) => {
                if let Err(e) = r {
                    let cancelled = match e {
                        Error::Cancelled => true,
                        _ => false,
                    };
                    if !cancelled {
                        entry.record_error(e.message(), e.is_transient());
                    }
                }
                entry.transition_running(DbState::Idle);
                self.rest(now, false)
            },
        }
    }
}

// ---------------------------------------------------------------------------
// The follow worker

/// What a follow worker waits for.
#[derive(Clone, Copy, Debug, PartialEq, Eq, Structural)]
pub enum WorkerPhase {
    Waiting,
    Building,
    Following,
    Done,
}

/// What to do next for a follow worker.
#[derive(Clone, Copy, Debug, PartialEq, Eq, Structural)]
pub enum WorkerAction {
    Wait(Due),
    /// Build a fresh storage client.
    Build,
    /// Follow until the session ends.
    Follow,
    Exit,
}

/// What came of an action.
#[derive(Debug)]
pub enum WorkerEvent {
    Woken(Action),
    Built(Result<(), Error>),
    Followed(Result<(), Error>),
}

/// A follow worker. Transient failures while following are retried within the
/// follow session; only building the client is retried here.
#[derive(Clone, Copy, Debug, PartialEq, Eq, Structural)]
pub struct FollowWorker {
    pub attempt: u32,
    pub retry_at: Option<u128>,
    pub phase: WorkerPhase,
}

/// When the worker's next session is due: always, unless a retry is armed.
pub open spec fn follow_due(w: FollowWorker) -> Due {
    match w.retry_at {
        Some(t) => Due::At(t),
        None => Due::Now,
    }
}

/// The worker waits again.
pub open spec fn follow_rests(w: FollowWorker, m: EntryModel) -> (
    FollowWorker,
    EntryModel,
    WorkerAction,
) {
    (
        FollowWorker { phase: WorkerPhase::Waiting, ..w },
        m,
        WorkerAction::Wait(follow_due(w)),
    )
}

/// What a follow worker and its entry become, and what is done next, on an
/// event. `delay` is how long the backoff schedule has it wait now.
pub open spec fn follow_worker_next(
    w: FollowWorker,
    m: EntryModel,
    ev: WorkerEvent,
    now: u128,
    wall: i128,
    delay: Span,
) -> (FollowWorker, EntryModel, WorkerAction) {
    match ev {
        WorkerEvent::Woken(Action::Exit) => (
            FollowWorker { phase: WorkerPhase::Done, ..w },
            m,
            WorkerAction::Exit,
        ),
        WorkerEvent::Woken(Action::Release) => follow_rests(w, m),
        WorkerEvent::Woken(Action::Round) => (
            FollowWorker { retry_at: None, phase: WorkerPhase::Building, ..w },
            m,
            WorkerAction::Build,
        ),
        WorkerEvent::Built(Ok(_)) => (
            FollowWorker { attempt: 0, phase: WorkerPhase::Following, ..w },
            transitioned(m, DbState::Working),
            WorkerAction::Follow,
        ),
        WorkerEvent::Built(Err(e)) => if e is Cancelled {
            follow_rests(w, m)
        } else if error_transient(e) {
            let attempt = one_more(w.attempt);
            follow_rests(
                FollowWorker { attempt, retry_at: Some((now + delay.nanos) as u128), ..w },
                transitioned(
                    errored(m, error_text(e), true),
                    DbState::BackingOff { until: (wall + delay.nanos) as i128, attempt },
                ),
            )
        } else {
            follow_rests(
                FollowWorker { attempt: 0, ..w },
                transitioned(errored(m, error_text(e), false), DbState::Failed),
            )
        },
        WorkerEvent::Followed(Ok(_)) => follow_rests(w, m),
        WorkerEvent::Followed(Err(e)) => follow_rests(
            w,
            transitioned(errored(m, error_text(e), error_transient(e)), DbState::Failed),
        ),
    }
}

/// Whether a follow worker waits for an event of this kind.
pub open spec fn follow_worker_expects(w: FollowWorker, ev: WorkerEvent) -> bool {
    match w.phase {
        WorkerPhase::Waiting => ev is Woken,
        WorkerPhase::Building => ev is Built,
        WorkerPhase::Following => ev is Followed,
        WorkerPhase::Done => false,
    }
}

impl FollowWorker {
    /// A worker that starts now.
    pub fn new() -> (r: (FollowWorker, WorkerAction))
        ensures
            r.0 == (FollowWorker { attempt: 0, retry_at: None, phase: WorkerPhase::Waiting }),
            r.1 == WorkerAction::Wait(Due::Now),
    {
        (
            FollowWorker { attempt: 0, retry_at: None, phase: WorkerPhase::Waiting },
            WorkerAction::Wait(Due::Now),
        )
    }

    fn rest(self) -> (r: (FollowWorker, WorkerAction))
        ensures
            forall|m: EntryModel| (r.0, m, r.1) == #[trigger] follow_rests(self, m),
    {
        let due = match self.retry_at {
            Some(t) => Due::At(t),
            None => Due::Now,
        };
        (FollowWorker { phase: WorkerPhase::Waiting, ..self }, WorkerAction::Wait(due))
    }

    /// Takes the event that came of the last action, records in the entry
    /// what has to be, and tells what to do next. Deliver the entry's events
    /// before doing it.
    pub fn step(
        self,
        entry: &mut Entry,
        ev: WorkerEvent,
        now: u128,
        wall: i128,
        delay: Span,
    ) -> (r: (FollowWorker, WorkerAction))
        requires
            entry_wf(old(entry)@),
            follow_worker_expects(self, ev),
            time_fits(now, wall, delay),
        ensures
            (r.0, final(entry)@, r.1) == follow_worker_next(
                self,
                old(entry)@,
                ev,
                now,
                wall,
                delay,
            ),
            entry_wf(final(entry)@),
    {
        match ev {
            WorkerEvent::Woken(Action::Exit) => (
                FollowWorker { phase: WorkerPhase::Done, ..self },
                WorkerAction::Exit,
            ),
            WorkerEvent::Woken(Action::Release) => self.rest(),
            WorkerEvent::Woken(Action::Round) => (
                FollowWorker { retry_at: None, phase: WorkerPhase::Building, ..self },
                WorkerAction::Build,
            ),
            WorkerEvent::Built(Ok(_)) => {
                entry.transition_running(DbState::Working);
                (
                    FollowWorker { attempt: 0, phase: WorkerPhase::Following, ..self },
                    WorkerAction::Follow,
                )
            },
            WorkerEvent::Built(Err(e)) => {
                let cancelled = match e {
                    Error::Cancelled => true,
                    _ => false,
                };
                if cancelled {
                    self.rest()
                } else if e.is_transient() {
                    let attempt: u32 = if self.attempt < u32::MAX {
                        self.attempt + 1
                    } else {
                        self.attempt
                    };
                    let until: i128 = wall + delay.nanos as i128;
                    entry.record_error(e.message(), true);
                    entry.transition_running(DbState::BackingOff { until, attempt });
                    let w = FollowWorker { attempt, retry_at: Some(now + delay.nanos), ..self };
                    w.rest()
                } else {
                    entry.record_error(e.message(), false);
                    entry.transition_running(DbState::Failed);
                    let w = FollowWorker { attempt: 0, ..self };
                    w.rest()
                }
            },
            WorkerEvent::Followed(Ok(_)) => self.rest(),
            WorkerEvent::Followed(Err(e)) => {
                entry.record_error(e.message(), e.is_transient());
                entry.transition_running(DbState::Failed);
                self.rest()
            },
        }
    }
}

} // verus!
