//! The write side: plans for level-0 files, pushes, uploads, checkpoints,
//! compaction and maintenance.
use liters::checkpoint::{
    enable_wal, wal_checkpoint, CheckpointAction, CheckpointEvent, CheckpointRun, ReadLock,
};
use liters::compaction::{
    cascade_deletable, compact_range, compact_seek, expire_snapshots, l0_deletable, level_due,
    page_failure, plan_snapshot, polls_at, MaintenanceOptions, MaintenanceReport,
};
use liters::error::{Error, SqliteCode, SqliteError, StorageError};
use liters::io::{ErrorKind, IoError};
use liters::ltx::{FileInfo, Txid};
use liters::maintenance::{
    CompactAction, CompactEvent, CompactRun, MaintenanceAction, MaintenanceEvent, MaintenanceRun,
    SnapshotAction, SnapshotEvent, SnapshotPhase,
};
use liters::push::{
    PushRun, PushStep, PushStepEvent, UploadAction, UploadEvent, UploadRun,
};
use liters::time::Span;
use liters::wal::{wal_checksum, ReadAt, WalError, WAL_MAGIC_BE, WAL_VERSION};
use liters::writer::{
    check_behind_remote, check_db_page_size, check_exists, checkpoint_if_needed,
    checkpoint_outcome, known_position, opened_state, plan_sync, read_full_at, sync_done, wal_exists,
    wal_path_for, CheckpointMode, PageSource, SyncInfo, SyncOutcome, SyncPlan, SyncState,
    WriterOptions,
};
use std::collections::BTreeMap;

const PAGE: usize = 512;
const FRAME: u64 = 24 + PAGE as u64;

fn info(level: u8, min: u64, max: u64) -> FileInfo {
    FileInfo { level, min_txid: Txid(min), max_txid: Txid(max), ..Default::default() }
}

fn dated(level: u8, min: u64, max: u64, secs: u64) -> FileInfo {
    FileInfo { created_at: Some(secs as i128 * 1_000_000_000), ..info(level, min, max) }
}

fn secs(n: u64) -> i128 {
    n as i128 * 1_000_000_000
}

struct Log {
    bytes: Vec<u8>,
    sums: (u32, u32),
}

impl Log {
    fn new() -> Log {
        let mut h = Vec::new();
        for n in [WAL_MAGIC_BE, WAL_VERSION, PAGE as u32, 0, 1, 2] {
            h.extend_from_slice(&n.to_be_bytes());
        }
        let sums = wal_checksum(true, 0, 0, &h);
        h.extend_from_slice(&sums.0.to_be_bytes());
        h.extend_from_slice(&sums.1.to_be_bytes());
        Log { bytes: h, sums }
    }

    fn frame(&mut self, pgno: u32, commit: u32) {
        let mut h = Vec::new();
        h.extend_from_slice(&pgno.to_be_bytes());
        h.extend_from_slice(&commit.to_be_bytes());
        let data = vec![pgno as u8; PAGE];
        let s = wal_checksum(true, self.sums.0, self.sums.1, &h);
        self.sums = wal_checksum(true, s.0, s.1, &data);
        h.extend_from_slice(&1u32.to_be_bytes());
        h.extend_from_slice(&2u32.to_be_bytes());
        h.extend_from_slice(&self.sums.0.to_be_bytes());
        h.extend_from_slice(&self.sums.1.to_be_bytes());
        self.bytes.extend_from_slice(&h);
        self.bytes.extend_from_slice(&data);
    }
}

fn from_start(snapshotting: bool) -> SyncInfo {
    SyncInfo { offset: 32, salt1: 0, salt2: 0, snapshotting, clear_synced_to_wal_end: false }
}

fn fresh() -> SyncState {
    opened_state(0)
}

#[test]
fn a_sync_takes_committed_pages_in_order() {
    let mut log = Log::new();
    log.frame(3, 0);
    log.frame(1, 3);
    log.frame(2, 0);
    let state = fresh();
    match plan_sync(&&log.bytes[..], 0, PAGE as u32, Txid(7), from_start(false), state).unwrap() {
        SyncPlan::Encode(p) => {
            assert_eq!((p.txid, p.commit), (Txid(8), 3));
            assert!(p.flags.no_checksum);
            assert_eq!((p.wal_offset, p.wal_size), (32, 2 * FRAME));
            assert_eq!(
                p.pages,
                [
                    (1, PageSource::Wal(32 + FRAME + 24)),
                    (3, PageSource::Wal(32 + 24)),
                ]
            );
            let done = sync_done(&p, 32 + 2 * FRAME);
            assert!(done.synced && done.synced_to_wal_end);
            assert_eq!(done.new_wal_size, 32 + 2 * FRAME);
        }
        other => panic!("{other:?}"),
    }
}

#[test]
fn a_full_image_reads_the_rest_from_the_database() {
    let mut log = Log::new();
    log.frame(2, 3);
    let state = fresh();
    match plan_sync(&&log.bytes[..], 0, PAGE as u32, Txid(0), from_start(true), state).unwrap() {
        SyncPlan::Encode(p) => assert_eq!(
            p.pages,
            [
                (1, PageSource::Db(0)),
                (2, PageSource::Wal(32 + 24)),
                (3, PageSource::Db(2 * PAGE as u64)),
            ]
        ),
        other => panic!("{other:?}"),
    }
}

#[test]
fn nothing_new_is_no_file() {
    let log = Log::new();
    let state = fresh();
    let plan = plan_sync(&&log.bytes[..], 0, PAGE as u32, Txid(4), from_start(false), state).unwrap();
    assert!(matches!(plan, SyncPlan::Nothing(_)), "{plan:?}");
}

#[test]
fn pages_are_read_in_full_or_not_at_all() {
    let data = [1u8, 2, 3, 4, 5];
    assert_eq!(read_full_at(&&data[..], 2, 3).unwrap(), [4, 5]);
    match read_full_at(&&data[..], 4, 3) {
        Err(Error::Io(e)) => assert_eq!(e.message, "short read at offset 3"),
        other => panic!("{other:?}"),
    }
}

#[test]
fn snapshots_poll_and_name_short_pages() {
    assert!(polls_at(256) && polls_at(512) && !polls_at(1) && !polls_at(255));
    let short = |source| {
        let e = read_full_at(&&[0u8; 3][..], 4, 0).unwrap_err();
        page_failure(e, source, 7).message()
    };
    assert_eq!(short(PageSource::Wal(0)), "short wal read for page 7");
    assert_eq!(short(PageSource::Db(0)), "short db read for page 7");
    assert!(matches!(page_failure(Error::Cancelled, PageSource::Db(0), 7), Error::Cancelled));
}

/// A log that fails to be read from some offset on.
struct Failing<'a>(&'a [u8], u64);

impl ReadAt for Failing<'_> {
    fn read_at(&self, buf: &mut [u8], offset: u64) -> Result<usize, IoError> {
        if offset >= self.1 {
            return Err(IoError::new(ErrorKind::Other, "bad sector"));
        }
        self.0.read_at(buf, offset)
    }
}

#[test]
fn a_failed_read_is_never_the_end_of_the_log() {
    let mut log = Log::new();
    log.frame(1, 1);
    log.frame(2, 2);
    let wal = Failing(&log.bytes, 32 + FRAME);
    let e = plan_sync(&wal, 0, PAGE as u32, Txid(7), from_start(false), fresh()).unwrap_err();
    assert!(matches!(e, Error::Wal(WalError::Io(_))), "{e:?}");
    let e = plan_snapshot(&wal, 0, PAGE as u32, u64::MAX, Txid(7)).unwrap_err();
    assert!(matches!(e, Error::Wal(WalError::Io(_))), "{e:?}");
    assert!(plan_snapshot(&wal, 0, PAGE as u32, u64::MAX, Txid(0)).unwrap().is_none());
}

#[test]
fn opening_checks_what_it_finds() {
    assert!(check_exists("a.db", true).is_ok());
    assert_eq!(
        check_exists("a.db", false).unwrap_err().message(),
        "database file does not exist: \"a.db\""
    );
    assert_eq!(check_db_page_size(0).unwrap_err().message(), "invalid db page size");
    assert!(check_db_page_size(4096).is_ok());
    assert!(wal_exists(Some(32)) && !wal_exists(Some(31)) && !wal_exists(None));
    assert_eq!(wal_path_for("a.db"), "a.db-wal");
    assert_eq!(check_behind_remote(Txid(3), Some(info(0, 5, 5))), Some(info(0, 5, 5)));
    assert_eq!(check_behind_remote(Txid(5), Some(info(0, 5, 5))), None);
    assert_eq!(check_behind_remote(Txid(0), None), None);
}

// ---------------------------------------------------------------------------
// Pushing

#[test]
fn uploads_go_in_order_and_forget_on_failure() {
    let (u, a) = UploadRun::new(None);
    assert!(matches!(a, UploadAction::FindRemote));
    let (u, a) = u.step(UploadEvent::Newest(Ok(Some(info(0, 2, 2)))));
    assert!(matches!(a, UploadAction::ReadPos));
    let (u, a) = u.step(UploadEvent::Pos(Ok(Txid(4))));
    assert!(matches!(a, UploadAction::Send(Txid(3))));
    let (u, a) = u.step(UploadEvent::Sent(Ok(())));
    assert!(matches!(a, UploadAction::Send(Txid(4))));
    let (done, a) = u.step(UploadEvent::Sent(Ok(())));
    assert!(matches!(a, UploadAction::Finish(Ok((2, Txid(4))))));
    assert_eq!(done.remote, Some(Txid(4)));

    let (u, _) = UploadRun::new(Some(Txid(2)));
    let (u, _) = u.step(UploadEvent::Pos(Ok(Txid(4))));
    let failed = Error::Storage(StorageError::Unavailable("x".into()));
    let (u, a) = u.step(UploadEvent::Sent(Err(failed)));
    assert!(matches!(a, UploadAction::Finish(Err(_))));
    assert_eq!(u.remote, None);

    let (u, _) = UploadRun::new(Some(Txid(9)));
    let (_, a) = u.step(UploadEvent::Pos(Ok(Txid(4))));
    assert!(matches!(a, UploadAction::Finish(Ok((0, Txid(9))))));
}

/// A file of rows: all there were, or those that were added.
#[derive(Clone)]
struct Rows {
    full: bool,
    rows: Vec<String>,
}

/// A writer over a database, its log, local files and a bucket in memory.
struct Device {
    state: SyncState,
    opts: WriterOptions,
    checked: bool,
    rows: Vec<String>,
    /// How many rows the newest local file leads to; nothing if it is not the
    /// log's.
    synced_rows: Option<usize>,
    log_pages: u64,
    local: BTreeMap<u64, Rows>,
    bucket: BTreeMap<u64, Rows>,
    remote: Option<Txid>,
    poisoned: bool,
}

impl Device {
    fn open(opts: WriterOptions, rows: Vec<String>, bucket: BTreeMap<u64, Rows>) -> Device {
        Device {
            state: fresh(),
            opts,
            checked: false,
            log_pages: rows.len() as u64,
            rows,
            synced_rows: None,
            local: BTreeMap::new(),
            bucket,
            remote: None,
            poisoned: false,
        }
    }

    fn insert(&mut self, row: &str) {
        self.rows.push(row.to_string());
        self.log_pages += 1;
    }

    fn pos(&self) -> Txid {
        Txid(self.local.keys().last().copied().unwrap_or(0))
    }

    fn newest(&self) -> Option<FileInfo> {
        self.bucket.keys().last().map(|t| info(0, *t, *t))
    }

    fn restored(&self) -> Vec<String> {
        let mut rows = Vec::new();
        for f in self.bucket.values() {
            if f.full {
                rows.clear();
            }
            rows.extend(f.rows.iter().cloned());
        }
        rows
    }

    fn sync(&mut self) -> SyncOutcome {
        let done = self.synced_rows.unwrap_or(0);
        let fresh = done < self.rows.len();
        if fresh {
            let f = Rows { full: self.synced_rows.is_none(), rows: self.rows[done..].to_vec() };
            self.local.insert(self.pos().0 + 1, f);
            self.synced_rows = Some(self.rows.len());
        }
        SyncOutcome {
            synced: fresh,
            pos: None,
            new_wal_size: 32 + 4120 * self.log_pages,
            synced_to_wal_end: true,
        }
    }

    fn upload(&mut self) -> Result<(u64, Txid), Error> {
        let (mut run, mut action) = UploadRun::new(self.remote);
        let r = loop {
            let ev = match action {
                UploadAction::FindRemote => UploadEvent::Newest(Ok(self.newest())),
                UploadAction::ReadPos => UploadEvent::Pos(Ok(self.pos())),
                UploadAction::Send(t) => UploadEvent::Sent(if self.poisoned {
                    Err(Error::Storage(StorageError::Other("injected failure".into())))
                } else {
                    self.bucket.insert(t.0, self.local[&t.0].clone());
                    Ok(())
                }),
                UploadAction::Finish(r) => break r,
            };
            (run, action) = run.step(ev);
        };
        self.remote = run.remote;
        r
    }

    fn push(&mut self) -> Result<liters::writer::PushResult, Error> {
        let mut state = self.state;
        let (mut run, mut step) = PushRun::new(4096, self.opts, self.checked);
        let r = loop {
            let ev = match step {
                PushStep::CheckLineage => {
                    let known = known_position(None, self.pos());
                    PushStepEvent::Lineage(Ok((known, self.newest())))
                }
                PushStep::Adopt(f) => {
                    let t = f.max_txid.0;
                    self.local = BTreeMap::from([(t, self.bucket[&t].clone())]);
                    self.synced_rows = None;
                    self.remote = Some(f.max_txid);
                    PushStepEvent::Done(Ok(()))
                }
                PushStep::EnsureWal => PushStepEvent::Done(Ok(())),
                PushStep::ReadWalSize => PushStepEvent::Size(Ok(32 + 4120 * self.log_pages)),
                PushStep::Sync => PushStepEvent::Synced(Ok(self.sync())),
                PushStep::Checkpoint(_) => {
                    self.log_pages = 1;
                    PushStepEvent::Done(Ok(()))
                }
                PushStep::Upload => PushStepEvent::Uploaded(self.upload()),
                PushStep::Prune(before) => {
                    let newest = self.pos().0;
                    self.local.retain(|t, _| *t >= before.0 || *t == newest);
                    PushStepEvent::Done(Ok(()))
                }
                PushStep::ReadPos => PushStepEvent::Pos(Ok(self.pos())),
                PushStep::Finish(r) => break r,
            };
            (run, step) = run.step(&mut state, ev);
        };
        self.state = state;
        self.checked = run.checked;
        r
    }
}

#[test]
fn upload_failure_preserves_state_and_recovers() {
    let mut w = Device::open(WriterOptions::default(), Vec::new(), BTreeMap::new());
    w.poisoned = true;
    w.insert("a");
    assert!(w.push().is_err());
    assert_eq!(w.pos(), Txid(1), "the local file must exist despite the failed upload");
    w.insert("b");
    assert!(w.push().is_err());

    w.poisoned = false;
    let r = w.push().unwrap();
    assert_eq!(r.remote_txid, w.pos());
    assert_eq!(r.uploaded, 2);
    assert_eq!(w.bucket.keys().copied().collect::<Vec<u64>>(), [1, 2]);
    assert_eq!(w.restored(), w.rows);
}

#[test]
fn device_restore_rebaselines_from_bucket() {
    let mut w = Device::open(WriterOptions::default(), Vec::new(), BTreeMap::new());
    for i in 0..5 {
        w.insert(&format!("pre-{i}"));
        w.push().unwrap();
    }
    assert_eq!(w.pos(), Txid(5));

    // A device restored from an old backup: the local position is gone while
    // the bucket is at transaction 5.
    let mut rows = w.rows;
    rows.push("post-restore".to_string());
    let mut w = Device::open(WriterOptions::default(), rows, w.bucket);
    assert_eq!(w.pos(), Txid(0));
    let r = w.push().unwrap();
    assert_eq!(r.txid, Txid(5), "first push must rebaseline to the bucket position");
    assert_eq!(r.uploaded, 0, "the rebaselining push uploads nothing");
    assert_eq!((r.synced, r.remote_txid, r.checkpointed), (false, Txid(5), false));
    assert_eq!(w.bucket.len(), 5);

    let r = w.push().unwrap();
    assert!(r.synced);
    assert_eq!(r.txid, Txid(6), "push after rebaseline must continue at remote+1");
    assert_eq!(w.restored(), w.rows);
}

#[test]
fn a_failed_lineage_check_is_made_again() {
    let mut state = fresh();
    let (p, s) = PushRun::new(4096, WriterOptions::default(), false);
    assert!(matches!(s, PushStep::CheckLineage));
    let failed = Error::Storage(StorageError::Unavailable("x".into()));
    let (q, s) = p.step(&mut state, PushStepEvent::Lineage(Err(failed)));
    assert!(matches!(s, PushStep::Finish(Err(_))) && !q.checked);
    let (q, s) = p.step(&mut state, PushStepEvent::Lineage(Ok((Txid(1), Some(info(0, 5, 5))))));
    assert!(matches!(s, PushStep::Adopt(f) if f == info(0, 5, 5)));
    let (q, s) = q.step(&mut state, PushStepEvent::Done(Err(Error::Other("x".into()))));
    assert!(matches!(s, PushStep::Finish(Err(_))) && !q.checked);

    assert_eq!(known_position(Some(Txid(3)), Txid(7)), Txid(3));
    assert_eq!(known_position(None, Txid(7)), Txid(7));
}

fn synced(new_wal_size: u64) -> SyncOutcome {
    SyncOutcome { synced: true, pos: None, new_wal_size, synced_to_wal_end: true }
}

#[test]
fn a_push_syncs_checkpoints_uploads_and_prunes() {
    let mut state = fresh();
    let opts = WriterOptions::default();
    let (p, s) = PushRun::new(4096, opts, true);
    assert!(matches!(s, PushStep::EnsureWal));
    let (p, s) = p.step(&mut state, PushStepEvent::Done(Ok(())));
    assert!(matches!(s, PushStep::ReadWalSize));
    let (p, s) = p.step(&mut state, PushStepEvent::Size(Ok(0)));
    assert!(matches!(s, PushStep::Sync));
    let big = 32 + 4120 * 1000;
    let (p, s) = p.step(&mut state, PushStepEvent::Synced(Ok(synced(big))));
    assert!(matches!(s, PushStep::Checkpoint(CheckpointMode::Passive)));
    assert_eq!(state.last_synced_wal_offset, big);
    assert!(state.synced_since_checkpoint);
    let (p, s) = p.step(&mut state, PushStepEvent::Done(Ok(())));
    assert!(matches!(s, PushStep::Upload));
    let (p, s) = p.step(&mut state, PushStepEvent::Uploaded(Ok((3, Txid(9)))));
    assert!(matches!(s, PushStep::Prune(Txid(9))));
    let (p, s) = p.step(&mut state, PushStepEvent::Done(Ok(())));
    assert!(matches!(s, PushStep::ReadPos));
    let (_, s) = p.step(&mut state, PushStepEvent::Pos(Ok(Txid(9))));
    match s {
        PushStep::Finish(Ok(r)) => {
            assert_eq!((r.txid, r.synced, r.uploaded), (Txid(9), true, 3));
            assert_eq!((r.remote_txid, r.checkpointed), (Txid(9), true));
        }
        other => panic!("{other:?}"),
    }
}

#[test]
fn a_failed_sync_changes_nothing() {
    let mut state = opened_state(500);
    let (p, _) = PushRun::new(4096, WriterOptions::default(), true);
    let (p, s) = p.step(&mut state, PushStepEvent::Done(Ok(())));
    assert!(matches!(s, PushStep::Sync));
    let before = state;
    let (_, s) = p.step(&mut state, PushStepEvent::Synced(Err(Error::Other("x".into()))));
    assert!(matches!(s, PushStep::Finish(Err(_))));
    assert_eq!(state, before);
}

fn busy() -> Error {
    Error::Sqlite(SqliteError { code: SqliteCode::Busy, message: "database is locked".into() })
}

#[test]
fn a_busy_passive_checkpoint_is_no_failure() {
    assert!(matches!(checkpoint_outcome(CheckpointMode::Passive, Err(busy())), Ok(false)));
    assert!(checkpoint_outcome(CheckpointMode::Truncate, Err(busy())).is_err());
    assert!(matches!(checkpoint_outcome(CheckpointMode::Truncate, Ok(())), Ok(true)));
}

#[test]
fn wal_threshold_triggers_checkpoint() {
    let opts = WriterOptions { min_checkpoint_page_n: 4, ..Default::default() };
    let mut w = Device::open(opts, Vec::new(), BTreeMap::new());
    w.insert("x");
    w.push().unwrap();

    let mut checkpointed = false;
    for i in 0..10 {
        for j in 0..20 {
            w.insert(&format!("w-{i}-{j}"));
        }
        let r = w.push().unwrap();
        checkpointed |= r.checkpointed;
    }
    assert!(checkpointed, "no checkpoint ran despite tiny threshold");
    assert_eq!(w.restored(), w.rows);
}

#[test]
fn thresholds_count_log_pages() {
    let o = WriterOptions::default();
    let at = |pages: u64| 32 + (4096 + 24) * pages;
    assert_eq!(checkpoint_if_needed(4096, &o, 0, at(999)), None);
    assert_eq!(checkpoint_if_needed(4096, &o, 0, at(1000)), Some(CheckpointMode::Passive));
    assert_eq!(
        checkpoint_if_needed(4096, &o, at(121_359), 0),
        Some(CheckpointMode::Truncate)
    );
    let off = WriterOptions { truncate_page_n: 0, ..o };
    assert_eq!(checkpoint_if_needed(4096, &off, at(121_359), 0), None);
    assert_eq!(checkpoint_if_needed(0, &o, u64::MAX, u64::MAX), None);
}

// ---------------------------------------------------------------------------
// Checkpoints

fn checkpoint_steps(header_after: u8, checkpoint: Result<(), Error>) -> (Vec<String>, bool) {
    let (mut run, mut action) = CheckpointRun::new(CheckpointMode::Truncate);
    let mut steps = Vec::new();
    let mut headers = vec![vec![header_after], vec![1u8]];
    let mut outcome = Some(checkpoint);
    loop {
        steps.push(format!("{action:?}").split('(').next().unwrap().to_string());
        let ev = match action {
            CheckpointAction::ReadHeader => CheckpointEvent::Header(Ok(headers.pop().unwrap())),
            CheckpointAction::Run(_) => CheckpointEvent::Done(outcome.take().unwrap()),
            CheckpointAction::Finish(r) => return (steps, r.is_ok()),
            _ => CheckpointEvent::Done(Ok(())),
        };
        let (r, a) = run.step(ev);
        run = r;
        action = a;
    }
}

#[test]
fn a_restarted_log_is_copied_under_the_write_lock() {
    let (steps, ok) = checkpoint_steps(2, Ok(()));
    assert!(ok);
    assert_eq!(
        steps,
        [
            "ReadHeader", "Sync", "ReleaseReadLock", "Run", "AcquireReadLock", "WriteSeq",
            "ReadHeader", "Begin", "TakeWriteLock", "Sync", "Rollback", "Finish"
        ]
    );
    let (steps, ok) = checkpoint_steps(1, Ok(()));
    assert!(ok);
    assert_eq!(steps.last().unwrap(), "Finish");
    assert!(!steps.contains(&"Begin".to_string()));
}

#[test]
fn a_failed_checkpoint_takes_the_read_lock_again() {
    let (steps, ok) = checkpoint_steps(2, Err(busy()));
    assert!(!ok);
    assert_eq!(
        steps,
        ["ReadHeader", "Sync", "ReleaseReadLock", "Run", "AcquireReadLock", "Finish"]
    );
}

#[test]
fn the_read_lock_is_taken_once() {
    let mut l = ReadLock::new();
    assert!(l.must_begin());
    l.acquired(false);
    assert!(l.must_begin());
    l.acquired(true);
    assert!(!l.must_begin());
    assert!(l.release());
    assert!(!l.release());
}

#[test]
fn statements_and_modes() {
    assert_eq!(wal_checkpoint(CheckpointMode::Passive), "PRAGMA wal_checkpoint(PASSIVE);");
    assert_eq!(wal_checkpoint(CheckpointMode::Truncate), "PRAGMA wal_checkpoint(TRUNCATE);");
    assert!(enable_wal("wal").is_ok());
    assert_eq!(
        enable_wal("delete").unwrap_err().message(),
        "enable wal failed, mode=\"delete\""
    );
}

// ---------------------------------------------------------------------------
// Compaction and retention

#[test]
fn levels_are_due_by_age() {
    let i = Span::from_secs(30);
    assert!(level_due(None, i, secs(100)));
    assert!(level_due(Some(info(1, 1, 1)), i, secs(100)));
    assert!(level_due(Some(dated(1, 1, 1, 70)), i, secs(100)));
    assert!(!level_due(Some(dated(1, 1, 1, 71)), i, secs(100)));
    assert!(!level_due(Some(dated(1, 1, 1, 200)), i, secs(100)));
}

#[test]
fn compaction_spans_its_sources() {
    assert_eq!(compact_seek(None), Txid(0));
    assert_eq!(compact_seek(Some(info(1, 1, 4))), Txid(5));
    assert_eq!(compact_range(&Vec::new()), None);
    let srcs = vec![info(0, 5, 5), info(0, 6, 8), info(0, 7, 7)];
    assert_eq!(compact_range(&srcs), Some((Txid(5), Txid(8))));
}

#[test]
fn the_newest_snapshot_survives() {
    let day = Span::from_secs(86_400);
    let snaps = vec![dated(9, 1, 2, 0), dated(9, 1, 4, 10), dated(9, 1, 6, 20)];
    let r = expire_snapshots(&snaps, day, secs(1_000_000));
    assert_eq!(r.expired, snaps[..2]);
    assert_eq!(r.floor, Txid(4));
    let r = expire_snapshots(&snaps, day, secs(100));
    assert!(r.expired.is_empty());
    assert_eq!(r.floor, Txid(0));
    let one = vec![dated(9, 1, 6, 20)];
    assert!(expire_snapshots(&one, day, secs(1_000_000)).expired.is_empty());
}

#[test]
fn every_level_keeps_a_file() {
    let files = vec![info(1, 1, 2), info(1, 3, 4), info(1, 5, 6)];
    assert_eq!(cascade_deletable(&files, Txid(4)), [info(1, 1, 2)]);
    assert_eq!(cascade_deletable(&files, Txid(100)), files[..2]);
    assert!(cascade_deletable(&vec![info(1, 1, 2)], Txid(100)).is_empty());
}

#[test]
fn l0_deletion_stops_at_the_first_file_that_stays() {
    let g = Span::from_secs(300);
    let files = vec![dated(0, 1, 1, 0), dated(0, 2, 2, 10), dated(0, 3, 3, 990), dated(0, 4, 4, 0)];
    let now = secs(1000);
    assert_eq!(l0_deletable(&files, Txid(4), g, now), files[..2]);
    assert_eq!(l0_deletable(&files, Txid(1), g, now), files[..1]);
    assert!(l0_deletable(&files, Txid(0), g, now).is_empty());
    let old = vec![dated(0, 1, 1, 0)];
    assert!(l0_deletable(&old, Txid(9), g, now).is_empty());
}

#[test]
fn a_snapshot_ignores_what_came_after_the_sync() {
    let mut log = Log::new();
    log.frame(1, 2);
    let end = log.bytes.len() as u64;
    log.frame(2, 4);
    let p = plan_snapshot(&&log.bytes[..], 0, PAGE as u32, end, Txid(5)).unwrap().unwrap();
    assert_eq!((p.commit, p.min_txid, p.max_txid), (2, Txid(1), Txid(5)));
    assert_eq!(p.pages, [(1, PageSource::Wal(32 + 24)), (2, PageSource::Db(PAGE as u64))]);
    assert!(plan_snapshot(&&log.bytes[..], 0, PAGE as u32, end, Txid(0)).unwrap().is_none());
}

// ---------------------------------------------------------------------------
// Maintenance

/// Runs maintenance over listings in memory; compaction and snapshots only
/// report.
fn maintain(
    files: &mut Vec<FileInfo>,
    opts: MaintenanceOptions,
    now: i128,
) -> (Vec<String>, Result<MaintenanceReport, Error>) {
    let (mut run, mut action) = MaintenanceRun::new(opts, now);
    let mut log = Vec::new();
    loop {
        let level = |l: u8, files: &Vec<FileInfo>| -> Vec<FileInfo> {
            files.iter().filter(|f| f.level == l).copied().collect()
        };
        let ev = match action {
            MaintenanceAction::CheckLineage => MaintenanceEvent::Done(Ok(())),
            MaintenanceAction::Newest(l) => MaintenanceEvent::Newest(Ok(level(l, files)
                .into_iter()
                .max_by_key(|f| f.max_txid.0))),
            MaintenanceAction::Compact(l) => {
                log.push(format!("compact {l}"));
                MaintenanceEvent::Compacted(Ok(l == 1))
            }
            MaintenanceAction::Snapshot => {
                log.push("snapshot".into());
                MaintenanceEvent::Snapshotted(Ok(Some(Txid(9))))
            }
            MaintenanceAction::List(l) => MaintenanceEvent::Listed(Ok(level(l, files))),
            MaintenanceAction::Delete(v) => {
                for f in &v {
                    log.push(format!("delete {} {}", f.level, f.max_txid.0));
                }
                files.retain(|f| !v.contains(f));
                MaintenanceEvent::Done(Ok(()))
            }
            MaintenanceAction::Finish(r) => return (log, r),
        };
        let (r, a) = run.step(ev, false);
        run = r;
        action = a;
    }
}

#[test]
fn maintenance_compacts_snapshots_and_deletes() {
    let mut files = vec![
        dated(0, 1, 1, 0),
        dated(0, 2, 2, 0),
        dated(0, 3, 3, 0),
        dated(1, 1, 2, 0),
        dated(1, 3, 3, 0),
        dated(9, 1, 2, 0),
        dated(9, 1, 3, 0),
    ];
    let (log, r) = maintain(&mut files, MaintenanceOptions::default(), secs(1_000_000));
    let r = r.unwrap();
    assert_eq!(r.compacted_levels, [1]);
    assert_eq!(r.snapshot, Some(Txid(9)));
    assert_eq!(r.deleted, 3);
    assert_eq!(
        log,
        [
            "compact 1",
            "delete 0 1",
            "delete 0 2",
            "compact 2",
            "compact 3",
            "snapshot",
            "delete 9 2"
        ]
    );
    assert!(files.iter().any(|f| f.level == 0) && files.iter().any(|f| f.level == 9));
}

#[test]
fn disabled_retention_deletes_nothing() {
    let mut files = vec![dated(0, 1, 1, 0), dated(1, 1, 1, 0), dated(9, 1, 1, 0), dated(9, 1, 2, 0)];
    let before = files.clone();
    let opts = MaintenanceOptions { retention_enabled: false, ..MaintenanceOptions::default() };
    let (_, r) = maintain(&mut files, opts, secs(1_000_000));
    assert_eq!(r.unwrap().deleted, 0);
    assert_eq!(files, before);
}

#[test]
fn a_cancelled_run_ends_before_the_next_level() {
    let (run, _) = MaintenanceRun::new(MaintenanceOptions::default(), 0);
    let (_, a) = run.step(MaintenanceEvent::Done(Ok(())), true);
    assert!(matches!(a, MaintenanceAction::Finish(Err(Error::Cancelled))));
    let (run, _) = MaintenanceRun::new(MaintenanceOptions::default(), 0);
    let (_, a) = run.step(MaintenanceEvent::Done(Err(Error::Other("lineage".into()))), false);
    assert!(matches!(a, MaintenanceAction::Finish(Err(Error::Other(_)))));
}

#[test]
fn default_cadences() {
    let o = MaintenanceOptions::default();
    assert_eq!(
        o.level_intervals,
        [Span::from_secs(30), Span::from_secs(300), Span::from_secs(3600)]
    );
    assert_eq!(o.snapshot_interval, Span::from_secs(86_400));
    assert_eq!(o.l0_retention, Span::from_secs(300));
    assert!(o.retention_enabled);
    assert_eq!(
        MaintenanceReport::default(),
        MaintenanceReport { compacted_levels: vec![], snapshot: None, deleted: 0 }
    );
}

#[test]
fn a_compaction_opens_every_source_before_it_merges() {
    let (c, a) = CompactRun::new(2);
    assert!(matches!(a, CompactAction::CheckLineage));
    let (c, a) = c.step(CompactEvent::Done(Ok(())), false);
    assert!(matches!(a, CompactAction::Newest(2)));
    let (c, a) = c.step(CompactEvent::Newest(Ok(Some(info(2, 1, 4)))), false);
    assert!(matches!(a, CompactAction::List(1, Txid(5))));
    let srcs = vec![info(1, 5, 6), info(1, 7, 9)];
    let (c, a) = c.step(CompactEvent::Listed(Ok(srcs)), false);
    assert!(matches!(a, CompactAction::Open(f) if f.min_txid == Txid(5)));
    let (c, a) = c.step(CompactEvent::Done(Ok(())), false);
    assert!(matches!(a, CompactAction::Open(f) if f.min_txid == Txid(7)));
    let (c, a) = c.step(CompactEvent::Done(Ok(())), false);
    assert!(matches!(a, CompactAction::Merge(flags) if flags.no_checksum));
    let (c, a) = c.step(CompactEvent::Done(Ok(())), false);
    assert!(matches!(a, CompactAction::Write(2, Txid(5), Txid(9))));
    let (_, a) = c.step(CompactEvent::Done(Ok(())), false);
    assert!(matches!(a, CompactAction::Finish(Ok(true))));

    let (c, _) = CompactRun::new(1);
    let (c, _) = c.step(CompactEvent::Done(Ok(())), false);
    let (c, a) = c.step(CompactEvent::Newest(Ok(None)), false);
    assert!(matches!(a, CompactAction::List(0, Txid(0))));
    let (_, a) = c.step(CompactEvent::Listed(Ok(vec![])), false);
    assert!(matches!(a, CompactAction::Finish(Ok(false))));
}

#[test]
fn a_snapshot_follows_the_upload() {
    let mut phase = SnapshotPhase::start();
    let mut steps = Vec::new();
    loop {
        steps.push(format!("{:?}", phase.1).split('(').next().unwrap().to_string());
        let ev = match phase.1 {
            SnapshotAction::ReadPos => SnapshotEvent::Pos(Ok(Txid(6))),
            SnapshotAction::Write(min, max) => {
                assert_eq!((min, max), (Txid(1), Txid(6)));
                SnapshotEvent::Done(Ok(()))
            }
            SnapshotAction::Finish(r) => {
                assert_eq!(r.unwrap(), Some(Txid(6)));
                break;
            }
            _ => SnapshotEvent::Done(Ok(())),
        };
        phase = phase.0.step(ev, false);
    }
    assert_eq!(
        steps,
        ["CheckLineage", "Sync", "Upload", "ReadPos", "Plan", "Encode", "Write", "Finish"]
    );
    let (_, a) = SnapshotPhase::Pos.step(SnapshotEvent::Pos(Ok(Txid(0))), false);
    assert!(matches!(a, SnapshotAction::Finish(Ok(None))));
}
