//! What holds of registered databases across calls: who wins when a worker
//! and a control call disagree, what an observer can rely on, and how failures
//! are kept apart.
use crate::error::{error_text, error_transient, Error};
use crate::manager::{
    entry_wf, errored, follow_worker_next, maintenance_due, nudged, push_due, push_expects,
    push_next, push_recorded, resumed, shut_down, slept, transitioned, woken, Action, DbState, Due,
    EntryModel, EventModel, FollowWorker, PushAction, PushEvent, PushWorker, Wake, WorkerAction,
    WorkerEvent,
};
use crate::time::Span;
use crate::writer::PushResult;
use vstd::prelude::*;

verus! {

/// A change to an entry.
pub enum Change {
    Transition(DbState),
    Error(Seq<char>, bool),
    Push(PushResult, i128),
    Sleep,
    Resume,
    Nudge,
    Shutdown,
}

/// An entry after a change.
pub open spec fn changed(m: EntryModel, c: Change) -> EntryModel {
    match c {
        Change::Transition(s) => transitioned(m, s),
        Change::Error(t, f) => errored(m, t, f),
        Change::Push(r, at) => push_recorded(m, r, at),
        Change::Sleep => slept(m),
        Change::Resume => resumed(m),
        Change::Nudge => nudged(m),
        Change::Shutdown => shut_down(m),
    }
}

/// The state that the events told of last; idle if they told of none.
pub open spec fn last_state(events: Seq<EventModel>) -> DbState
    decreases events.len(),
{
    if events.len() == 0 {
        DbState::Idle
    } else {
        match events.last() {
            EventModel::StateChanged(s) => s,
            _ => last_state(events.drop_last()),
        }
    }
}

/// Whether the events so far account for the entry's state: the last one told
/// is the state, unless the entry was just resumed, of which no event tells.
pub open spec fn accounted(events: Seq<EventModel>, m: EntryModel) -> bool {
    last_state(events) == m.state || m.state is Idle
}

/// Events are queued in the order of the changes they tell of, behind what is
/// queued already, and once all are delivered the last state told of is the
/// entry's state. `delivered` are the events delivered so far.
pub proof fn law_observer_sees_the_state(delivered: Seq<EventModel>, m: EntryModel, c: Change)
    requires
        accounted(delivered + m.pending, m),
    ensures
        m.pending.len() <= changed(m, c).pending.len(),
        changed(m, c).pending.take(m.pending.len() as int) == m.pending,
        accounted(delivered + changed(m, c).pending, changed(m, c)),
{
    let n = changed(m, c);
    let all = delivered + n.pending;
    if n.pending.len() > m.pending.len() {
        assert(n.pending.len() == m.pending.len() + 1);
        assert(n.pending.take(m.pending.len() as int) =~= m.pending);
        assert(all.drop_last() =~= delivered + m.pending);
        assert(all.last() == n.pending.last());
    } else {
        assert(n.pending =~= m.pending);
        assert(n.pending.take(m.pending.len() as int) =~= m.pending);
    }
}

/// Delivering the oldest event changes nothing of what is told, nor of its
/// order.
pub proof fn law_events_are_delivered_in_order(delivered: Seq<EventModel>, pending: Seq<EventModel>)
    requires
        pending.len() > 0,
    ensures
        delivered.push(pending[0]) + pending.skip(1) == delivered + pending,
{
    assert(delivered.push(pending[0]) + pending.skip(1) =~= delivered + pending);
}

/// Whatever changes an entry keeps it well formed; a worker never puts an
/// entry to sleep by itself.
pub proof fn law_changes_keep_entries_well_formed(m: EntryModel, c: Change)
    requires
        entry_wf(m),
        c matches Change::Transition(s) ==> !(s is Sleeping),
    ensures
        entry_wf(changed(m, c)),
{
}

/// Control calls win: while an entry is not running, nothing a worker reports
/// changes its state or what it is told to do.
pub proof fn law_control_wins(
    w: PushWorker,
    m: EntryModel,
    ev: PushEvent,
    now: u128,
    wall: i128,
    delay: Span,
)
    requires
        !(m.ctrl is Running),
    ensures
        push_next(w, m, ev, now, wall, delay).1.state == m.state,
        push_next(w, m, ev, now, wall, delay).1.ctrl == m.ctrl,
{
}

/// Shutting down is final: no call undoes it, and the worker is told to end.
pub proof fn law_shutdown_is_final(m: EntryModel, c: Change, alive: bool, due: Due, now: u128)
    requires
        m.ctrl is Shutdown,
    ensures
        changed(m, c).ctrl is Shutdown,
        woken(m, alive, due, now).1 == Wake::Act(Action::Exit),
{
}

/// A sleeping database does no work: its worker gives up its session and
/// waits, and only resuming or shutting down ends the sleep.
pub proof fn law_sleeping_does_no_work(m: EntryModel, c: Change, alive: bool, due: Due, now: u128)
    requires
        m.ctrl is Sleeping,
    ensures
        woken(m, alive, due, now).1 == if alive {
            Wake::Act(Action::Release)
        } else {
            Wake::Wait
        },
        changed(m, c).ctrl is Sleeping || c is Resume || c is Shutdown,
{
}

/// A round runs only in a session that is not cancelled: what was slept or
/// shut down never leaks into a later session.
pub proof fn law_rounds_run_in_live_sessions(m: EntryModel, alive: bool, due: Due, now: u128)
    requires
        entry_wf(m),
        woken(m, alive, due, now).1 == Wake::Act(Action::Round),
    ensures
        !m.cancelled,
        m.ctrl is Running,
{
}

/// Sleeping twice is sleeping once, and so is resuming.
pub proof fn law_sleep_and_resume_are_idempotent(m: EntryModel)
    ensures
        slept(slept(m)) == slept(m),
        resumed(resumed(m)) == resumed(m),
{
}

/// Resuming undoes sleeping: the database runs again, in a fresh session, and
/// is due for a round at once.
pub proof fn law_resume_undoes_sleep(m: EntryModel, alive: bool, due: Due, now: u128)
    requires
        m.ctrl is Running,
    ensures
        resumed(slept(m)).ctrl is Running,
        !resumed(slept(m)).cancelled,
        woken(resumed(slept(m)), alive, due, now).1 == Wake::Act(Action::Round),
{
}

/// A failed database waits for a nudge, whatever its schedule; a nudge gives
/// it exactly one round.
pub proof fn law_failed_waits_for_a_nudge(m: EntryModel, alive: bool, due: Due, now: u128)
    requires
        m.ctrl is Running,
        m.state is Failed,
    ensures
        !m.nudged ==> woken(m, alive, due, now) == (m, Wake::Wait),
        woken(nudged(m), alive, due, now) == (
            EntryModel { nudged: false, ..m },
            Wake::Act(Action::Round),
        ),
{
}

/// A push that failed for a passing reason is retried: the retry is armed, and
/// supersedes the tick.
pub proof fn law_transient_failure_is_retried(
    w: PushWorker,
    m: EntryModel,
    e: Error,
    now: u128,
    wall: i128,
    delay: Span,
)
    requires
        error_transient(e),
        now + delay.nanos <= u128::MAX,
    ensures
        ({
            let (t, n, a) = push_next(w, m, PushEvent::Pushed(Err(e)), now, wall, delay);
            &&& push_due(t) == Due::At((now + delay.nanos) as u128)
            &&& a == PushAction::Wait { drop_writer: false, due: push_due(t) }
            &&& n.last_error == Some(error_text(e))
            &&& m.ctrl is Running ==> n.state is BackingOff
        }),
{
}

/// A push that succeeded clears the failures before it.
pub proof fn law_success_clears_failures(
    w: PushWorker,
    m: EntryModel,
    result: PushResult,
    now: u128,
    wall: i128,
    delay: Span,
)
    ensures
        ({
            let (t, n, _) = push_next(w, m, PushEvent::Pushed(Ok(result)), now, wall, delay);
            &&& t.attempt == 0
            &&& n.last_error is None
            &&& n.position == Some(result.txid)
        }),
{
}

/// A push that failed for good parks the database and ends its session.
pub proof fn law_fatal_failure_parks(
    w: PushWorker,
    m: EntryModel,
    e: Error,
    now: u128,
    wall: i128,
    delay: Span,
)
    requires
        !error_transient(e),
        !(e is Cancelled),
        m.ctrl is Running,
    ensures
        ({
            let (t, n, a) = push_next(w, m, PushEvent::Pushed(Err(e)), now, wall, delay);
            &&& n.state is Failed
            &&& a == PushAction::Wait { drop_writer: true, due: push_due(t) }
        }),
{
}

/// A round that was cancelled leaves no trace.
pub proof fn law_cancelled_round_is_silent(
    w: PushWorker,
    m: EntryModel,
    now: u128,
    wall: i128,
    delay: Span,
)
    ensures
        push_next(w, m, PushEvent::Pushed(Err(Error::Cancelled)), now, wall, delay).1 == m,
{
}

/// Maintenance that fails is reported and blocks nothing: the database is idle
/// again, neither failed nor backing off, and the next push stays due.
pub proof fn law_failed_maintenance_blocks_nothing(
    w: PushWorker,
    m: EntryModel,
    r: Result<(), Error>,
    now: u128,
    wall: i128,
    delay: Span,
)
    requires
        m.ctrl is Running,
    ensures
        ({
            let (t, n, a) = push_next(w, m, PushEvent::Maintained(r), now, wall, delay);
            &&& n.state is Idle
            &&& t.attempt == w.attempt
            &&& t.retry_at == w.retry_at
            &&& a == PushAction::Wait { drop_writer: false, due: push_due(t) }
        }),
{
}

/// Maintenance is attempted only after a push that succeeded, and only once
/// the interval has passed since the attempt before, failed or not.
pub proof fn law_maintenance_keeps_its_cadence(
    w: PushWorker,
    m: EntryModel,
    ev: PushEvent,
    now: u128,
    wall: i128,
    delay: Span,
)
    requires
        push_expects(w, ev),
        push_next(w, m, ev, now, wall, delay).2 is Maintain,
    ensures
        ev matches PushEvent::Pushed(Ok(_)),
        maintenance_due(w, now),
        push_next(w, m, ev, now, wall, delay).0.last_maintain == Some(now),
{
}

/// A running database that did not fail goes by its schedule: it works at
/// once if that is due, at the time that is due and not before, or not at all;
/// a nudge gives it a round at once and is used up by it.
pub proof fn law_schedule_is_kept(m: EntryModel, alive: bool, due: Due, now: u128)
    requires
        m.ctrl is Running,
    ensures
        m.nudged ==> woken(m, alive, due, now).1 == Wake::Act(Action::Round)
            && !woken(m, alive, due, now).0.nudged,
        !m.nudged && !(m.state is Failed) ==> {
            let (n, wake) = woken(m, alive, due, now);
            &&& n == m
            &&& due is Now ==> wake == Wake::Act(Action::Round)
            &&& due is Never ==> wake is Wait
            &&& due matches Due::At(t) ==> {
                &&& t <= now ==> wake == Wake::Act(Action::Round)
                &&& t > now ==> wake is WaitFor && now + wake->WaitFor_0.nanos == t
            }
        },
{
}

/// Whatever a push came to, the next one is due an interval later, unless a
/// retry is armed, which then comes instead; without an interval only a retry
/// or a nudge makes it due.
pub proof fn law_pushes_come_at_intervals(
    w: PushWorker,
    m: EntryModel,
    ev: PushEvent,
    now: u128,
    wall: i128,
    delay: Span,
)
    requires
        push_expects(w, ev),
        w.interval matches Some(i) ==> now + i.nanos <= u128::MAX,
        push_next(w, m, ev, now, wall, delay).2 is Wait,
        !(ev is Woken),
    ensures
        ({
            let (t, _, a) = push_next(w, m, ev, now, wall, delay);
            &&& t.phase is Waiting && t.interval == w.interval && t.maintain_every
                == w.maintain_every
            &&& w.interval is Some ==> t.next_push is Some && t.next_push->0 == now
                + w.interval->0.nanos
            &&& w.interval is None ==> t.next_push is None
            &&& t.retry_at is Some ==> a->due == Due::At(t.retry_at->0)
            &&& t.retry_at is None && w.interval is Some ==> a->due == Due::At(t.next_push->0)
            &&& t.retry_at is None && w.interval is None ==> a->due is Never
        }),
{
}

/// After a push that succeeded, maintenance is attempted if it is configured
/// and was never attempted, or its interval has passed since; otherwise the
/// database is idle and waits.
pub proof fn law_maintenance_is_attempted_when_due(
    w: PushWorker,
    m: EntryModel,
    result: PushResult,
    now: u128,
    wall: i128,
    delay: Span,
)
    requires
        m.ctrl is Running,
    ensures
        ({
            let (t, n, a) = push_next(w, m, PushEvent::Pushed(Ok(result)), now, wall, delay);
            let due = w.maintain_every is Some && (w.last_maintain is None || w.last_maintain->0
                + w.maintain_every->0.nanos <= now || w.maintain_every->0.nanos == 0);
            &&& due ==> a is Maintain && t.last_maintain == Some(now) && t.phase is Maintaining
            &&& !due ==> a is Wait && t.last_maintain == w.last_maintain && n.state is Idle
                && !a->drop_writer
            &&& n.last_activity == Some(wall)
            &&& n.pending.len() > m.pending.len() && n.pending[m.pending.len() as int]
                == EventModel::PushCompleted(result)
        }),
{
}

/// A passing failure is reported as one, counts one more attempt, and shows
/// until when the database backs off; the retry is armed for just then.
pub proof fn law_backing_off_is_shown(
    w: PushWorker,
    m: EntryModel,
    e: Error,
    now: u128,
    wall: i128,
    delay: Span,
)
    requires
        error_transient(e),
        m.ctrl is Running,
        now + delay.nanos <= u128::MAX,
        i128::MIN <= wall + delay.nanos <= i128::MAX,
        w.attempt < u32::MAX,
    ensures
        ({
            let (t, n, _) = push_next(w, m, PushEvent::Pushed(Err(e)), now, wall, delay);
            &&& t.attempt == w.attempt + 1
            &&& t.retry_at is Some && t.retry_at->0 == now + delay.nanos
            &&& n.state matches DbState::BackingOff { until, attempt } && until == wall
                + delay.nanos && attempt == w.attempt + 1
            &&& n.pending.len() > m.pending.len() && n.pending[m.pending.len() as int]
                == EventModel::Error(error_text(e), true)
        }),
{
}

/// A worker that is told to work pushes, without a retry left over, and shows
/// itself as working; one that is told to release its session waits on; one
/// that is told to exit ends.
pub proof fn law_push_worker_does_as_told(
    w: PushWorker,
    m: EntryModel,
    now: u128,
    wall: i128,
    delay: Span,
)
    requires
        m.ctrl is Running,
    ensures
        ({
            let (t, n, a) = push_next(
                w,
                m,
                PushEvent::Woken(Action::Round),
                now,
                wall,
                delay,
            );
            a is Push && t.phase is Pushing && t.retry_at is None && n.state is Working
        }),
        push_next(w, m, PushEvent::Woken(Action::Exit), now, wall, delay).2 is Exit,
        ({
            let (t, n, a) = push_next(
                w,
                m,
                PushEvent::Woken(Action::Release),
                now,
                wall,
                delay,
            );
            a is Wait && a->drop_writer && t == w && n == m
        }),
{
}

/// A follow worker that is told to work builds its session and follows, shown
/// as working. What fails to be built is waited out if the failure may pass,
/// and parks the database otherwise; following that ends is begun again at
/// once, and following that fails parks the database.
pub proof fn law_follow_worker_keeps_following(
    w: FollowWorker,
    m: EntryModel,
    e: Error,
    now: u128,
    wall: i128,
    delay: Span,
)
    requires
        m.ctrl is Running,
        !(e is Cancelled),
        now + delay.nanos <= u128::MAX,
        i128::MIN <= wall + delay.nanos <= i128::MAX,
        w.attempt < u32::MAX,
    ensures
        ({
            let (t, n, a) = follow_worker_next(
                w,
                m,
                WorkerEvent::Woken(Action::Round),
                now,
                wall,
                delay,
            );
            a is Build && t.phase is Building && t.retry_at is None && n == m
        }),
        ({
            let (t, n, a) = follow_worker_next(
                w,
                m,
                WorkerEvent::Built(Ok(())),
                now,
                wall,
                delay,
            );
            a is Follow && t.phase is Following && t.attempt == 0 && n.state is Working
        }),
        ({
            let (t, n, a) = follow_worker_next(
                w,
                m,
                WorkerEvent::Built(Err(e)),
                now,
                wall,
                delay,
            );
            &&& n.last_error == Some(error_text(e))
            &&& error_transient(e) ==> a == WorkerAction::Wait(
                Due::At((now + delay.nanos) as u128),
            ) && t.attempt == w.attempt + 1 && (n.state matches DbState::BackingOff {
                until,
                attempt,
            } && until == wall + delay.nanos && attempt == w.attempt + 1)
            &&& !error_transient(e) ==> n.state is Failed && t.attempt == 0
        }),
        ({
            let (t, n, a) = follow_worker_next(
                w,
                m,
                WorkerEvent::Followed(Err(e)),
                now,
                wall,
                delay,
            );
            n.state is Failed && n.last_error == Some(error_text(e)) && a is Wait
        }),
        w.retry_at is None ==> ({
            let (t, n, a) = follow_worker_next(
                w,
                m,
                WorkerEvent::Followed(Ok(())),
                now,
                wall,
                delay,
            );
            a == WorkerAction::Wait(Due::Now) && n == m
        }),
        follow_worker_next(w, m, WorkerEvent::Built(Err(Error::Cancelled)), now, wall, delay).1
            == m,
{
}

/// Putting a running database to sleep cancels its session and is told; a
/// nudge is heard by a running database alone; and a worker's change of state
/// is told exactly if it is one.
pub proof fn law_control_calls_take_effect(m: EntryModel, state: DbState)
    ensures
        m.ctrl is Running ==> {
            let n = slept(m);
            &&& n.ctrl is Sleeping && n.cancelled && n.state is Sleeping
            &&& n.pending == m.pending.push(EventModel::StateChanged(DbState::Sleeping))
        },
        !(m.ctrl is Running) ==> slept(m) == m && nudged(m) == m,
        m.ctrl is Running ==> nudged(m) == (EntryModel { nudged: true, ..m }),
        shut_down(m).ctrl is Shutdown && shut_down(m).cancelled,
        m.ctrl is Running && m.state != state ==> transitioned(m, state).state
            == state && transitioned(m, state).pending == m.pending.push(
            EventModel::StateChanged(state),
        ),
        !(m.ctrl is Running) || m.state == state ==> transitioned(m, state) == m,
{
}

} // verus!
