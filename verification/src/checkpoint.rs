//! The checkpoint protocol, as a state machine. Because the writer's
//! long-running read transaction starves every other checkpointer, the writer
//! must checkpoint the database itself.
//!
//! First everything committed so far is copied out of the log. Then the read
//! lock is released around the checkpoint itself, and a write is forced, so
//! that a restarted log at once has a valid header. If the log did restart,
//! its start is copied too, under SQLite's write lock, which is then rolled
//! back.
use crate::error::{join, Error};
use crate::text::same_text;
use crate::writer::{mode_sql, CheckpointMode};
use vstd::prelude::*;

verus! {

/// The long-running read transaction that pins the log: no checkpointer can
/// restart or truncate the log past it while it is held.
#[derive(Clone, Copy, Debug, PartialEq, Eq, Structural)]
pub struct ReadLock {
    held: bool,
}

impl ReadLock {
    /// Whether the lock is held.
    pub closed spec fn is_held(&self) -> bool {
        self.held
    }

    pub fn new() -> (r: ReadLock)
        ensures
            !r.is_held(),
    {
        ReadLock { held: false }
    }

    /// Whether a transaction must be begun to hold the lock.
    pub fn must_begin(&self) -> (r: bool)
        ensures
            r == !self.is_held(),
    {
        !self.held
    }

    /// Reports whether the transaction's first read took the lock. If it did
    /// not, the transaction is to be rolled back.
    pub fn acquired(&mut self, ok: bool)
        ensures
            final(self).is_held() == (old(self).is_held() || ok),
    {
        if ok {
            self.held = true;
        }
    }

    /// Gives the lock up, and tells whether a transaction must be rolled back
    /// for it.
    pub fn release(&mut self) -> (r: bool)
        ensures
            r == old(self).is_held(),
            !final(self).is_held(),
    {
        let held = self.held;
        self.held = false;
        held
    }
}

/// Creates the bookkeeping tables: one forces writes into the log, the other
/// promotes a transaction to the write lock.
pub const CREATE_TABLES_SQL: &'static str = "CREATE TABLE IF NOT EXISTS _litestream_seq (id INTEGER PRIMARY KEY, seq INTEGER); CREATE TABLE IF NOT EXISTS _litestream_lock (id INTEGER);";

/// Forces at least one frame into the log.
pub const WRITE_SEQ_SQL: &'static str = "INSERT INTO _litestream_seq (id, seq) VALUES (1, 1) ON CONFLICT (id) DO UPDATE SET seq = seq + 1";

/// Takes the write lock; the transaction is always rolled back.
pub const TAKE_WRITE_LOCK_SQL: &'static str = "INSERT INTO _litestream_lock (id) VALUES (1)";

/// The read that takes the read lock.
pub const TAKE_READ_LOCK_SQL: &'static str = "SELECT COUNT(1) FROM _litestream_seq";

/// Switches the database to write-ahead-log mode.
pub const ENABLE_WAL_SQL: &'static str = "PRAGMA journal_mode = wal;";

/// Tells from SQLite's answer whether the switch to write-ahead-log mode took
/// effect.
pub fn enable_wal(mode: &str) -> (r: Result<(), Error>)
    ensures
        mode@ == "wal"@ ==> r is Ok,
        mode@ != "wal"@ ==> (r matches Err(Error::EnableWalFailed(m)) && m@ == mode@),
{
    if same_text(mode, "wal") {
        Ok(())
    } else {
        Err(Error::EnableWalFailed(mode.to_owned()))
    }
}

/// The statement that runs a checkpoint.
pub fn wal_checkpoint(mode: CheckpointMode) -> (r: String)
    ensures
        r@ == "PRAGMA wal_checkpoint("@ + mode_sql(mode) + ");"@,
{
    let mut s = join("PRAGMA wal_checkpoint(", mode.as_sql());
    s.append(");");
    s
}

/// What a checkpoint waits for.
#[derive(Debug)]
pub enum CheckpointPhase {
    HeaderBefore,
    PreCopy,
    Release,
    Checkpoint,
    /// The read lock, after the checkpoint came to this.
    Acquire(Result<(), Error>),
    WriteSeq,
    HeaderAfter,
    Begin,
    WriteLock,
    PostCopy,
    /// The end of the write transaction, in which this failed if anything
    /// did.
    Rollback(Option<Error>),
    Done,
}

/// What to do next for a checkpoint.
#[derive(Debug)]
pub enum CheckpointAction {
    /// Read the log's header.
    ReadHeader,
    /// Copy what is committed out of the log.
    Sync,
    /// Give up the read lock.
    ReleaseReadLock,
    /// Run the checkpoint.
    Run(CheckpointMode),
    /// Take the read lock again.
    AcquireReadLock,
    /// Force a write.
    WriteSeq,
    /// Begin a transaction.
    Begin,
    /// Take SQLite's write lock in it.
    TakeWriteLock,
    /// Roll the transaction back.
    Rollback,
    /// End with this result. On success nothing was synced since the
    /// checkpoint.
    Finish(Result<(), Error>),
}

/// What came of an action.
#[derive(Debug)]
pub enum CheckpointEvent {
    Header(Result<Vec<u8>, Error>),
    Done(Result<(), Error>),
}

/// A checkpoint in progress.
#[derive(Debug)]
pub struct CheckpointRun {
    pub mode: CheckpointMode,
    /// The log's header before the checkpoint.
    pub header: Vec<u8>,
    pub phase: CheckpointPhase,
}

/// Whether a checkpoint waits for an event of this kind.
pub open spec fn checkpoint_expects(s: CheckpointRun, ev: CheckpointEvent) -> bool {
    match s.phase {
        CheckpointPhase::HeaderBefore | CheckpointPhase::HeaderAfter => ev is Header,
        CheckpointPhase::Done => false,
        _ => ev is Done,
    }
}

/// Whether the checkpoint ends with `r`.
pub open spec fn ends_with(
    s: CheckpointRun,
    r: Result<(), Error>,
    t: CheckpointRun,
    a: CheckpointAction,
) -> bool {
    t.phase is Done && a is Finish && match r {
        Ok(_) => a->Finish_0 is Ok,
        Err(e) => a->Finish_0 == Err::<(), Error>(e),
    }
}

/// What a checkpoint becomes and does next on an event: the state `t` and the
/// action `a`.
pub open spec fn checkpoint_step(
    s: CheckpointRun,
    ev: CheckpointEvent,
    t: CheckpointRun,
    a: CheckpointAction,
) -> bool {
    &&& t.mode == s.mode
    &&& match (s.phase, ev) {
        (CheckpointPhase::HeaderBefore, CheckpointEvent::Header(r)) => match r {
            Ok(h) => t.header@ == h@ && t.phase is PreCopy && a is Sync,
            Err(e) => ends_with(s, Err(e), t, a),
        },
        (CheckpointPhase::HeaderAfter, CheckpointEvent::Header(r)) => match r {
            Ok(h) => if h@ == s.header@ {
                ends_with(s, Ok(()), t, a)
            } else {
                t.phase is Begin && a is Begin
            },
            Err(e) => ends_with(s, Err(e), t, a),
        },
        (CheckpointPhase::Checkpoint, CheckpointEvent::Done(r)) => t.header == s.header
            && t.phase == CheckpointPhase::Acquire(r) && a is AcquireReadLock,
        (CheckpointPhase::Acquire(ran), CheckpointEvent::Done(r)) => match (ran, r) {
            (Err(e), _) => ends_with(s, Err(e), t, a),
            (Ok(_), Err(e)) => ends_with(s, Err(e), t, a),
            (Ok(_), Ok(_)) => t.header == s.header && t.phase is WriteSeq && a is WriteSeq,
        },
        (CheckpointPhase::WriteLock, CheckpointEvent::Done(r)) => match r {
            Ok(_) => t.phase is PostCopy && a is Sync,
            Err(e) => t.phase == CheckpointPhase::Rollback(Some(e)) && a is Rollback,
        },
        (CheckpointPhase::PostCopy, CheckpointEvent::Done(r)) => t.phase
            == CheckpointPhase::Rollback(
            match r {
                Ok(_) => None,
                Err(e) => Some(e),
            },
        ) && a is Rollback,
        (CheckpointPhase::Rollback(failed), CheckpointEvent::Done(r)) => match failed {
            Some(e) => ends_with(s, Err(e), t, a),
            None => ends_with(s, r, t, a),
        },
        (phase, CheckpointEvent::Done(Err(e))) => ends_with(s, Err(e), t, a),
        (CheckpointPhase::PreCopy, CheckpointEvent::Done(Ok(_))) => t.header == s.header
            && t.phase is Release && a is ReleaseReadLock,
        (CheckpointPhase::Release, CheckpointEvent::Done(Ok(_))) => t.header == s.header
            && t.phase is Checkpoint && a == CheckpointAction::Run(s.mode),
        (CheckpointPhase::WriteSeq, CheckpointEvent::Done(Ok(_))) => t.header == s.header
            && t.phase is HeaderAfter && a is ReadHeader,
        (CheckpointPhase::Begin, CheckpointEvent::Done(Ok(_))) => t.phase is WriteLock
            && a is TakeWriteLock,
        _ => false,
    }
}

fn same_bytes(a: &Vec<u8>, b: &Vec<u8>) -> (r: bool)
    ensures
        r == (a@ == b@),
{
    if a.len() != b.len() {
        return false;
    }
    let mut i: usize = 0;
    while i < a.len()
        invariant
            a@.len() == b@.len(),
            i <= a@.len(),
            forall|j: int| 0 <= j < i ==> a@[j] == b@[j],
        decreases a@.len() - i,
    {
        if a[i] != b[i] {
            return false;
        }
        i += 1;
    }
    assert(a@ =~= b@);
    true
}

impl CheckpointRun {
    /// Starts a checkpoint. The first action is to read the log's header.
    pub fn new(mode: CheckpointMode) -> (r: (CheckpointRun, CheckpointAction))
        ensures
            r.0.mode == mode,
            r.0.phase is HeaderBefore,
            r.1 is ReadHeader,
    {
        (
            CheckpointRun { mode, header: Vec::new(), phase: CheckpointPhase::HeaderBefore },
            CheckpointAction::ReadHeader,
        )
    }

    fn to(self, phase: CheckpointPhase, action: CheckpointAction) -> (r: (
        CheckpointRun,
        CheckpointAction,
    ))
        ensures
            r.0 == (CheckpointRun { phase, ..self }),
            r.1 == action,
    {
        (CheckpointRun { phase, ..self }, action)
    }

    /// Takes the event that came of the last action, and tells what to do
    /// next.
    pub fn step(self, ev: CheckpointEvent) -> (r: (CheckpointRun, CheckpointAction))
        requires
            checkpoint_expects(self, ev),
        ensures
            checkpoint_step(self, ev, r.0, r.1),
    {
        let CheckpointRun { mode, header, phase } = self;
        match ev {
            CheckpointEvent::Header(Ok(h)) => {
                let before = match phase {
                    CheckpointPhase::HeaderBefore => true,
                    _ => false,
                };
                if before {
                    let s = CheckpointRun { mode, header: h, phase: CheckpointPhase::Done };
                    s.to(CheckpointPhase::PreCopy, CheckpointAction::Sync)
                } else {
                    let same = same_bytes(&h, &header);
                    let s = CheckpointRun { mode, header, phase: CheckpointPhase::Done };
                    if same {
                        s.to(CheckpointPhase::Done, CheckpointAction::Finish(Ok(())))
                    } else {
                        s.to(CheckpointPhase::Begin, CheckpointAction::Begin)
                    }
                }
            },
            CheckpointEvent::Header(Err(e)) => {
                let s = CheckpointRun { mode, header, phase: CheckpointPhase::Done };
                s.to(CheckpointPhase::Done, CheckpointAction::Finish(Err(e)))
            },
            CheckpointEvent::Done(r) => {
                let s = CheckpointRun { mode, header, phase: CheckpointPhase::Done };
                match phase {
                    CheckpointPhase::Checkpoint => s.to(
                        CheckpointPhase::Acquire(r),
                        CheckpointAction::AcquireReadLock,
                    ),
                    CheckpointPhase::Acquire(ran) => match ran {
                        Err(e) => s.to(
                            CheckpointPhase::Done,
                            CheckpointAction::Finish(Err(e)),
                        ),
                        Ok(_) => match r {
                            Err(e) => s.to(
                                CheckpointPhase::Done,
                                CheckpointAction::Finish(Err(e)),
                            ),
                            Ok(_) => s.to(CheckpointPhase::WriteSeq, CheckpointAction::WriteSeq),
                        },
                    },
                    CheckpointPhase::WriteLock => match r {
                        Ok(_) => s.to(CheckpointPhase::PostCopy, CheckpointAction::Sync),
                        Err(e) => s.to(
                            CheckpointPhase::Rollback(Some(e)),
                            CheckpointAction::Rollback,
                        ),
                    },
                    CheckpointPhase::PostCopy => {
                        let failed = match r {
                            Ok(_) => None,
                            Err(e) => Some(e),
                        };
                        s.to(CheckpointPhase::Rollback(failed), CheckpointAction::Rollback)
                    },
                    CheckpointPhase::Rollback(failed) => match failed {
                        Some(e) => s.to(
                            CheckpointPhase::Done,
                            CheckpointAction::Finish(Err(e)),
                        ),
                        None => s.to(CheckpointPhase::Done, CheckpointAction::Finish(r)),
                    },
                    CheckpointPhase::PreCopy => match r {
                        Ok(_) => s.to(CheckpointPhase::Release, CheckpointAction::ReleaseReadLock),
                        Err(e) => s.to(
                            CheckpointPhase::Done,
                            CheckpointAction::Finish(Err(e)),
                        ),
                    },
                    CheckpointPhase::Release => match r {
                        Ok(_) => s.to(CheckpointPhase::Checkpoint, CheckpointAction::Run(mode)),
                        Err(e) => s.to(
                            CheckpointPhase::Done,
                            CheckpointAction::Finish(Err(e)),
                        ),
                    },
                    CheckpointPhase::WriteSeq => match r {
                        Ok(_) => s.to(CheckpointPhase::HeaderAfter, CheckpointAction::ReadHeader),
                        Err(e) => s.to(
                            CheckpointPhase::Done,
                            CheckpointAction::Finish(Err(e)),
                        ),
                    },
                    _ => match r {
                        Ok(_) => s.to(CheckpointPhase::WriteLock, CheckpointAction::TakeWriteLock),
                        Err(e) => s.to(
                            CheckpointPhase::Done,
                            CheckpointAction::Finish(Err(e)),
                        ),
                    },
                }
            },
        }
    }
}

/// The checkpoint itself runs only after everything committed was copied and
/// the read lock was given up; and however it went, the read lock is taken
/// again next.
pub proof fn law_read_lock_is_taken_again(
    s: CheckpointRun,
    ev: CheckpointEvent,
    t: CheckpointRun,
    a: CheckpointAction,
)
    requires
        checkpoint_expects(s, ev),
        checkpoint_step(s, ev, t, a),
    ensures
        a is Run ==> s.phase is Release && ev->Done_0 is Ok,
        a is ReleaseReadLock ==> s.phase is PreCopy && ev->Done_0 is Ok,
        s.phase is Checkpoint ==> a is AcquireReadLock,
{
}

/// Once the write transaction has begun it is rolled back before the
/// checkpoint ends, whatever happens in it.
pub proof fn law_write_lock_is_rolled_back(
    s: CheckpointRun,
    ev: CheckpointEvent,
    t: CheckpointRun,
    a: CheckpointAction,
)
    requires
        checkpoint_expects(s, ev),
        checkpoint_step(s, ev, t, a),
        s.phase is WriteLock || s.phase is PostCopy,
    ensures
        a is Rollback || t.phase is PostCopy,
        a !is Finish,
{
}

/// A checkpoint that restarted the log succeeds only after the log's start
/// was copied under the write lock; one that did not restart it needs no
/// copy.
pub proof fn law_restarted_log_is_copied(
    s: CheckpointRun,
    ev: CheckpointEvent,
    t: CheckpointRun,
    a: CheckpointAction,
)
    requires
        checkpoint_expects(s, ev),
        checkpoint_step(s, ev, t, a),
        a matches CheckpointAction::Finish(Ok(_)),
    ensures
        (s.phase is HeaderAfter && ev->Header_0->Ok_0@ == s.header@) || s.phase
            == CheckpointPhase::Rollback(None),
{
}

} // verus!
