//! Registered databases: entries, workers and the registry.
use liters::error::{Error, StorageError};
use liters::ltx::Txid;
use liters::manager::{
    Action, DbRole, DbState, Due, Entry, FollowWorker, ManagerEvent, PushAction, PushEvent,
    PushWorker, Wake, WorkerAction, WorkerEvent,
};
use liters::registry::{comes_before, Registry};
use liters::time::Span;
use liters::writer::PushResult;

fn pushed(txid: u64) -> PushResult {
    PushResult {
        txid: Txid(txid),
        synced: true,
        uploaded: 1,
        remote_txid: Txid(txid),
        checkpointed: false,
    }
}

fn transient() -> Error {
    Error::Storage(StorageError::Unavailable("down".into()))
}

fn fatal() -> Error {
    Error::Storage(StorageError::Conflict("injected".into()))
}

fn kinds(entry: &mut Entry) -> Vec<String> {
    let mut out = Vec::new();
    while let Some(ev) = entry.next_event() {
        out.push(match &ev {
            ManagerEvent::StateChanged { id, state } => {
                assert_eq!(id, "o");
                match state {
                    DbState::BackingOff { attempt, .. } => format!("state:BackingOff {attempt}"),
                    s => format!("state:{s:?}"),
                }
            }
            ManagerEvent::PushCompleted { id, .. } => {
                assert_eq!(id, "o");
                "push".into()
            }
            ManagerEvent::SyncCompleted { .. } => "sync".into(),
            ManagerEvent::Error { id, transient, .. } => {
                assert_eq!(id, "o");
                format!("error:{transient}")
            }
        });
        entry.event_delivered();
    }
    out
}

/// Wakes the worker for a round, and hands the push's outcome in.
fn round(
    w: PushWorker,
    e: &mut Entry,
    now: u128,
    outcome: Result<PushResult, Error>,
    delay: Span,
) -> (PushWorker, PushAction) {
    assert_eq!(e.wait_for_action(false, w.due(), now), Wake::Act(Action::Round));
    let zero = Span::from_secs(0);
    let (w, a) = w.step(e, PushEvent::Woken(Action::Round), now, 0, zero);
    assert_eq!(a, PushAction::Push);
    w.step(e, PushEvent::Pushed(outcome), now, 0, delay)
}

#[test]
fn observer_sees_events_in_order() {
    let mut e = Entry::new("o", DbRole::Push);
    let (w, _) = PushWorker::new(None, None, 0);
    e.push_now().unwrap();
    let (w, _) = round(w, &mut e, 0, Ok(pushed(1)), Span::from_secs(0));
    let fx = e.sleep();
    assert!(fx.cancel && fx.notify && !fx.fresh);
    let fx = e.resume();
    assert!(fx.fresh && fx.notify && !fx.cancel);
    let _ = round(w, &mut e, 1, Ok(pushed(1)), Span::from_secs(0));
    assert_eq!(
        kinds(&mut e),
        [
            "state:Working",
            "push",
            "state:Idle",
            "state:Sleeping",
            "state:Working",
            "push",
            "state:Idle",
        ]
    );
}

#[test]
fn one_drainer_delivers_at_a_time() {
    let mut e = Entry::new("o", DbRole::Push);
    e.record_error("a".into(), false);
    e.record_error("b".into(), true);
    assert!(e.next_event().is_some());
    assert!(e.next_event().is_none());
    e.event_delivered();
    assert!(matches!(e.next_event(), Some(ManagerEvent::Error { transient: true, .. })));
}

#[test]
fn failed_entry_retries_on_nudge() {
    let mut e = Entry::new("o", DbRole::Push);
    let (w, _) = PushWorker::new(Some(Span::from_secs(1)), None, 0);
    let (w, a) = round(w, &mut e, 0, Err(fatal()), Span::from_secs(0));
    assert!(matches!(a, PushAction::Wait { drop_writer: true, .. }));
    let status = e.status(None, None);
    assert_eq!(status.state, DbState::Failed);
    assert!(status.last_error.unwrap().contains("conflict"));

    // The schedule does not move it; a nudge does, once.
    let later = Span::from_secs(100).nanos;
    assert_eq!(e.wait_for_action(true, w.due(), later), Wake::Wait);
    e.push_now().unwrap();
    let (_, _) = round(w, &mut e, later, Ok(pushed(1)), Span::from_secs(0));
    let status = e.status(None, None);
    assert_eq!((status.position, status.state), (Some(Txid(1)), DbState::Idle));
    assert!(status.last_error.is_none());
}

#[test]
fn transient_failure_backs_off_and_recovers() {
    let mut e = Entry::new("o", DbRole::Push);
    let (w, _) = PushWorker::new(None, None, 0);
    e.push_now().unwrap();
    let d = Span::from_millis(10);
    let (w, a) = round(w, &mut e, 0, Err(transient()), d);
    assert_eq!(a, PushAction::Wait { drop_writer: false, due: Due::At(d.nanos) });
    assert_eq!(w.attempt, 1);
    assert_eq!(e.wait_for_action(true, w.due(), 0), Wake::WaitFor(d));
    let (w, _) = round(w, &mut e, d.nanos, Err(transient()), d);
    assert_eq!(w.attempt, 2);
    let (w, _) = round(w, &mut e, 2 * d.nanos, Ok(pushed(1)), d);
    assert_eq!((w.attempt, w.due()), (0, Due::Never));
    assert!(e.status(None, None).last_error.is_none());
    assert_eq!(
        kinds(&mut e),
        [
            "state:Working",
            "error:true",
            "state:BackingOff 1",
            "state:Working",
            "error:true",
            "state:BackingOff 2",
            "state:Working",
            "push",
            "state:Idle",
        ]
    );
}

#[test]
fn maintain_failure_reports_but_never_fails_entry() {
    let mut e = Entry::new("o", DbRole::Push);
    let zero = Span::from_secs(0);
    let (mut w, _) = PushWorker::new(None, Some(zero), 0);
    for txid in 1..=2 {
        e.push_now().unwrap();
        let (w2, a) = round(w, &mut e, txid as u128, Ok(pushed(txid)), zero);
        assert_eq!(a, PushAction::Maintain);
        let failed = Error::Other("maintenance".into());
        let (w2, a) = w2.step(&mut e, PushEvent::Maintained(Err(failed)), txid as u128, 0, zero);
        assert!(matches!(a, PushAction::Wait { drop_writer: false, .. }));
        w = w2;
        let s = e.status(None, None);
        assert_eq!((s.position, s.state), (Some(Txid(txid)), DbState::Idle));
        assert!(s.last_error.unwrap().contains("maintenance"));
    }
    let k = kinds(&mut e);
    assert!(!k.contains(&"state:Failed".to_string()), "{k:?}");
    assert_eq!(k.iter().filter(|k| k.starts_with("error")).count(), 2);
    assert_eq!(k.iter().filter(|k| *k == "push").count(), 2);
}

#[test]
fn maintenance_cadence_gates_attempts() {
    let mut e = Entry::new("o", DbRole::Push);
    let zero = Span::from_secs(0);
    let (w, _) = PushWorker::new(None, Some(Span::from_secs(60)), 0);
    e.push_now().unwrap();
    let (w, a) = round(w, &mut e, 0, Ok(pushed(1)), zero);
    assert_eq!(a, PushAction::Maintain);
    let (w, _) = w.step(&mut e, PushEvent::Maintained(Ok(())), 0, 0, zero);
    e.push_now().unwrap();
    let (w, a) = round(w, &mut e, Span::from_secs(59).nanos, Ok(pushed(2)), zero);
    assert!(matches!(a, PushAction::Wait { .. }));
    e.push_now().unwrap();
    let (_, a) = round(w, &mut e, Span::from_secs(60).nanos, Ok(pushed(3)), zero);
    assert_eq!(a, PushAction::Maintain);
}

#[test]
fn an_interval_pushes_at_once_and_then_ticks() {
    let mut e = Entry::new("o", DbRole::Push);
    let i = Span::from_secs(5);
    let (w, a) = PushWorker::new(Some(i), None, 7);
    assert_eq!(a, PushAction::Wait { drop_writer: false, due: Due::At(7) });
    let (w, _) = round(w, &mut e, 7, Ok(pushed(1)), Span::from_secs(0));
    assert_eq!(w.due(), Due::At(7 + i.nanos));
}

#[test]
fn sleeping_wins_over_a_late_worker() {
    let mut e = Entry::new("o", DbRole::Push);
    e.sleep();
    e.transition_running(DbState::Working);
    assert_eq!(e.status(None, None).state, DbState::Sleeping);
    assert_eq!(e.wait_for_action(true, Due::Now, 0), Wake::Act(Action::Release));
    assert_eq!(e.wait_for_action(false, Due::Now, 0), Wake::Wait);
    assert!(!e.push_now().unwrap().notify);
    e.shutdown();
    e.resume();
    assert_eq!(e.wait_for_action(false, Due::Never, 0), Wake::Act(Action::Exit));
}

#[test]
fn cancelled_rounds_are_silent() {
    let mut e = Entry::new("o", DbRole::Push);
    let (w, _) = PushWorker::new(None, None, 0);
    e.push_now().unwrap();
    let (_, _) = round(w, &mut e, 0, Err(Error::Cancelled), Span::from_secs(0));
    assert_eq!(kinds(&mut e), ["state:Working"]);
}

#[test]
fn followers_restart_their_session_on_sync_now() {
    let mut e = Entry::new("o", DbRole::Follow);
    let zero = Span::from_secs(0);
    let (w, a) = FollowWorker::new();
    assert_eq!(a, WorkerAction::Wait(Due::Now));
    assert_eq!(e.wait_for_action(false, Due::Now, 0), Wake::Act(Action::Round));
    let (w, a) = w.step(&mut e, WorkerEvent::Woken(Action::Round), 0, 0, zero);
    assert_eq!(a, WorkerAction::Build);
    let (w, a) = w.step(&mut e, WorkerEvent::Built(Ok(())), 0, 0, zero);
    assert_eq!(a, WorkerAction::Follow);
    let fx = e.sync_now().unwrap();
    assert!(fx.cancel && fx.fresh && fx.notify);
    let (w, a) = w.step(&mut e, WorkerEvent::Followed(Ok(())), 0, 0, zero);
    assert_eq!(a, WorkerAction::Wait(Due::Now));

    let (w, _) = w.step(&mut e, WorkerEvent::Woken(Action::Round), 0, 0, zero);
    let (w, a) = w.step(&mut e, WorkerEvent::Built(Err(transient())), 0, 0, Span::from_secs(3));
    assert_eq!(a, WorkerAction::Wait(Due::At(3_000_000_000)));
    assert_eq!(w.attempt, 1);
    let (w, _) = w.step(&mut e, WorkerEvent::Woken(Action::Round), 0, 0, zero);
    let (w, _) = w.step(&mut e, WorkerEvent::Built(Ok(())), 0, 0, zero);
    let gone = Error::Diverged { local: Txid(5), remote: Txid(3) };
    let (_, a) = w.step(&mut e, WorkerEvent::Followed(Err(gone)), 0, 0, zero);
    assert_eq!(a, WorkerAction::Wait(Due::Now));
    assert_eq!(e.status(None, None).state, DbState::Failed);

    let s = e.status(Some(Txid(0)), Some(9));
    assert_eq!((s.position, s.last_activity), (None, Some(9)));
    assert_eq!(e.status(Some(Txid(4)), None).position, Some(Txid(4)));
}

#[test]
fn duplicate_registrations_rejected() {
    let mut r = Registry::new();
    r.register("x", "app.db", "/t/app.db").unwrap();
    assert_eq!(
        r.register("x", "other.db", "/t/other.db").unwrap_err().message(),
        "db id already registered: \"x\""
    );
    assert_eq!(
        r.register("y", "./app.db", "/t/app.db").unwrap_err().message(),
        "db path \"./app.db\" already registered as \"x\""
    );
    let mut e = Entry::new("x", DbRole::Push);
    assert_eq!(
        e.sync_now().unwrap_err().message(),
        "\"x\" is a push registration; use push_now"
    );
    let mut f = Entry::new("x", DbRole::Follow);
    assert!(f.push_now().is_err());
    assert_eq!(r.get("nope").unwrap_err().message(), "unknown db id: \"nope\"");

    r.unregister("x").unwrap();
    assert!(r.unregister("x").is_err());
    r.register("y", "app.db", "/t/app.db").unwrap();
    r.register("b", "b.db", "/t/b.db").unwrap();
    assert_eq!(r.ids(), ["b", "y"]);
}

#[test]
fn texts_are_ordered_by_their_characters() {
    assert!(comes_before("a", "b"));
    assert!(comes_before("a", "ab"));
    assert!(!comes_before("a", "a"));
    assert!(!comes_before("b", "ab"));
    assert!(comes_before("Z", "a"));
}

#[test]
fn unregister_joins_and_frees_id() {
    let mut r = Registry::new();
    r.register("u", "app.db", "/t/app.db").unwrap();
    let mut e = Entry::new("u", DbRole::Push);
    let fx = e.shutdown();
    assert!(fx.cancel && fx.notify);
    assert_eq!(e.wait_for_action(true, Due::Now, 0), Wake::Act(Action::Exit));

    r.unregister("u").unwrap();
    assert!(r.get("u").is_err());
    assert!(r.unregister("u").is_err(), "double unregister must error");
    r.register("u", "app.db", "/t/app.db").unwrap();
}

#[test]
fn resume_catches_up_after_sleep() {
    let mut e = Entry::new("o", DbRole::Push);
    let (w, _) = PushWorker::new(Some(Span::from_millis(20)), None, 0);
    let (w, _) = round(w, &mut e, 0, Ok(pushed(1)), Span::from_secs(0));
    assert_eq!(e.status(None, None).position, Some(Txid(1)));

    e.sleep();
    let late = Span::from_secs(60).nanos;
    assert_eq!(e.wait_for_action(true, w.due(), late), Wake::Act(Action::Release));
    assert_eq!(e.wait_for_action(false, w.due(), late), Wake::Wait);

    e.resume();
    let _ = round(w, &mut e, late, Ok(pushed(2)), Span::from_secs(0));
    assert_eq!(e.status(None, None).position, Some(Txid(2)));
}
