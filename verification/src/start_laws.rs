//! How runs start: what each does first, and what it takes with it.
use crate::compaction::{on_clock, MaintenanceOptions};
use crate::error::storage_transient;
use crate::exchange::{ConnectSweep, SweepAction};
use crate::feed::{emits, preamble, Feed, FeedAction};
use crate::io::IoError;
use crate::ltx::Txid;
use crate::maintenance::{
    CompactAction, CompactRun, MaintenanceAction, MaintenanceRun, SnapshotAction, SnapshotPhase,
};
use crate::manager::{DbRole, Due, Entry, FollowWorker, PushAction, PushWorker, WorkerAction};
use crate::push::{PushRun, PushStep, UploadAction, UploadRun};
use crate::restore::{ApplyAction, ApplyRun, RestoreAction, RestoreRun};
use crate::sync::{IncrementalSync, SyncAction};
use crate::time::Span;
use crate::writer::WriterOptions;
use vstd::prelude::*;

verus! {

/// A sync starts by asking for the level-0 files right behind its position,
/// and without a word of anything seen before.
pub proof fn law_sync_asks_for_what_comes_next(from: Txid, s: IncrementalSync, a: SyncAction)
    requires
        from.0 < u64::MAX,
        call_ensures(IncrementalSync::new, (from,), s),
        call_ensures(IncrementalSync::action, (&s,), a),
    ensures
        a is List && a->level == 0 && a->seek.0 == from.0 + 1,
        s@.from == from && s@.current == from,
        !s@.saw_missing && s@.newest is None,
{
}

/// Whoever writes to a bucket first looks whether it is still theirs: a push
/// does so unless that was seen to, a compaction, a snapshot and a maintenance
/// run always.
pub proof fn law_writers_look_at_the_lineage_first(
    page_size: u32,
    opts: WriterOptions,
    checked: bool,
    p: (PushRun, PushStep),
    level: u8,
    c: (CompactRun, CompactAction),
    s: (SnapshotPhase, SnapshotAction),
    mopts: MaintenanceOptions,
    now: i128,
    m: (MaintenanceRun, MaintenanceAction),
)
    requires
        call_ensures(PushRun::new, (page_size, opts, checked), p),
        call_ensures(CompactRun::new, (level,), c),
        call_ensures(SnapshotPhase::start, (), s),
        on_clock(now),
        mopts.level_intervals@.len() <= 255,
        call_ensures(MaintenanceRun::new, (mopts, now), m),
    ensures
        p.1 is CheckLineage <==> !checked,
        p.1 is EnsureWal <==> checked,
        p.0.opts == opts && p.0.page_size == page_size,
        !p.0.synced && !p.0.checkpointed && p.0.uploaded == 0,
        c.1 is CheckLineage,
        c.0@.level == level && c.0@.sources.len() == 0,
        s.1 is CheckLineage,
        m.1@ is CheckLineage,
        m.0@.opts == mopts && m.0@.now == now,
        m.0@.report.compacted_levels.len() == 0,
        m.0@.report.snapshot is None && m.0@.report.deleted == 0,
{
}

/// An upload goes by what is known of the bucket, and asks the bucket only
/// where nothing is known.
pub proof fn law_upload_goes_by_what_is_known(
    t: Txid,
    a: (UploadRun, UploadAction),
    b: (UploadRun, UploadAction),
)
    requires
        call_ensures(UploadRun::new, (Some(t),), a),
        call_ensures(UploadRun::new, (None,), b),
    ensures
        a.1 is ReadPos && a.0.cursor == t && a.0.remote == Some(t) && a.0.uploaded == 0,
        b.1 is FindRemote && b.0.remote is None && b.0.uploaded == 0,
{
}

/// A stream starts with the line that says what it is, at the transaction
/// that the follower asked for.
pub proof fn law_stream_starts_at_the_seek(
    seek: Txid,
    poll: Span,
    ping: Span,
    r: (Feed, FeedAction),
)
    requires
        seek.0 >= 1,
        call_ensures(Feed::new, (seek, poll, ping), r),
    ensures
        r.0@.cursor == seek,
        r.0@.poll_interval == poll && r.0@.ping_interval == ping,
        emits(r.1, preamble(), true),
{
}

/// A restore starts with a plan; an application starts by verifying its file,
/// before anything is written.
pub proof fn law_nothing_is_written_unverified(
    page_size: u32,
    locks: bool,
    a: (ApplyRun, ApplyAction),
    r: (RestoreRun, RestoreAction),
)
    requires
        call_ensures(ApplyRun::new, (page_size, locks), a),
        call_ensures(RestoreRun::new, (), r),
    ensures
        a.1 is Verify,
        a.0.page_size == page_size && a.0.use_file_locks == locks,
        r.1 is Plan,
        r.0@.plan.len() == 0,
{
}

/// A worker that pushes at intervals starts with a push at once; one without
/// an interval waits to be told; one that follows starts at once. None has
/// failed yet.
pub proof fn law_workers_start_at_once(
    interval: Span,
    maintain: Option<Span>,
    now: u128,
    p: (PushWorker, PushAction),
    q: (PushWorker, PushAction),
    f: (FollowWorker, WorkerAction),
)
    requires
        call_ensures(PushWorker::new, (Some(interval), maintain, now), p),
        call_ensures(PushWorker::new, (None, maintain, now), q),
        call_ensures(FollowWorker::new, (), f),
    ensures
        p.1 == (PushAction::Wait { drop_writer: false, due: Due::At(now) }),
        q.1 == (PushAction::Wait { drop_writer: false, due: Due::Never }),
        f.1 == WorkerAction::Wait(Due::Now),
        p.0.attempt == 0 && q.0.attempt == 0 && f.0.attempt == 0,
        p.0.interval == Some(interval) && p.0.maintain_every == maintain,
        p.0.last_maintain is None,
{
}

/// A registered database is running and idle, and nothing has happened yet.
pub proof fn law_registered_database_is_idle(id: &str, role: DbRole, e: Entry)
    requires
        call_ensures(Entry::new, (id, role), e),
    ensures
        e@.id == id@ && e@.role == role,
        e@.ctrl is Running && e@.state is Idle,
        !e@.nudged && !e@.cancelled && !e@.emitting,
        e@.position is None && e@.last_error is None && e@.last_activity is None,
        e@.pending.len() == 0,
{
}

/// A host's addresses are tried in order, each once, until one answers; that
/// one is taken. A host without addresses, or none of which answers, is
/// unavailable, which is worth a retry.
pub proof fn law_addresses_are_tried_in_turn(
    host: &str,
    port: u16,
    count: usize,
    start: (ConnectSweep, SweepAction),
    s: ConnectSweep,
    e: IoError,
    up: (ConnectSweep, SweepAction),
    down: (ConnectSweep, SweepAction),
)
    requires
        call_ensures(ConnectSweep::new, (host, port, count, false), start),
        s.index < s.count,
        call_ensures(ConnectSweep::step, (s, Ok(()), false), up),
        call_ensures(ConnectSweep::step, (s, Err(e), false), down),
    ensures
        count > 0 ==> start.1 == SweepAction::Dial(0),
        count == 0 ==> start.1 is Finish && start.1->Finish_0 is Err && storage_transient(
            start.1->Finish_0->Err_0,
        ),
        start.0.index == 0 && start.0.count == count,
        up.1 is Finish && up.1->Finish_0 is Ok && up.1->Finish_0->Ok_0 == s.index,
        s.index + 1 < s.count ==> down.1 == SweepAction::Dial((s.index + 1) as usize)
            && down.0.index == s.index + 1 && down.0.count == s.count,
        s.index + 1 == s.count ==> down.1 is Finish && down.1->Finish_0 is Err
            && storage_transient(down.1->Finish_0->Err_0),
{
}

} // verus!
