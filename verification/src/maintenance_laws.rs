//! What a maintenance run comes to, in ages, transactions and counts.
use crate::compaction::{
    expired_len, law_due_once_the_interval_has_passed, law_everything_below_the_floor_goes,
    law_l0_files_within_grace_stay, law_merged_range_spans_its_sources,
    law_snapshots_within_retention_stay, lemma_below_len, snapshot_seen, span_on_clock,
    time_before, SnapshotPlan,
};
use crate::error::Error;
use crate::ltx::{FileInfo, Txid};
use crate::maintenance::{
    compact_next, maintenance_next, snapshot_next, AfterL0, CompactAction, CompactEvent,
    CompactModel, CompactPhase, MaintenanceEvent, MaintenancePhase, ReportModel, RunModel,
    SnapshotAction, SnapshotEvent, SnapshotPhase, StepModel,
};
use crate::sync::max_seen;
use crate::time::Span;
use crate::wal::{Frame, WalState};
use crate::wal_format_laws::law_last_commit_frame_decides;
use vstd::prelude::*;

verus! {

/// Whether so much time has passed since the newest file was made, or nobody
/// can tell.
pub open spec fn long_ago(newest: Option<FileInfo>, interval: Span, now: i128) -> bool {
    ||| newest is None
    ||| newest->0.created_at is None
    ||| newest->0.created_at->0 + interval.nanos <= now
    ||| interval.nanos == 0
}

/// A level is compacted if its interval has passed since its newest file was
/// made; else the next level is looked at and, after the last configured one,
/// the snapshots. A cancelled run ends between levels.
pub proof fn law_level_is_compacted_when_due(
    s: RunModel,
    i: usize,
    newest: Option<FileInfo>,
    cancelled: bool,
)
    requires
        s.phase == MaintenancePhase::LevelDue(i),
        i < s.opts.level_intervals@.len() <= 8,
    ensures
        ({
            let (t, a) = maintenance_next(s, MaintenanceEvent::Newest(Ok(newest)), cancelled);
            let interval = s.opts.level_intervals@[i as int];
            &&& t.report == s.report && t.opts == s.opts && t.now == s.now
            &&& long_ago(newest, interval, s.now) ==> a == StepModel::Compact((i + 1) as u8)
                && t.phase == MaintenancePhase::Compact(i)
            &&& !long_ago(newest, interval, s.now) && cancelled ==> a == StepModel::Finish(
                Err::<ReportModel, Error>(Error::Cancelled),
            )
            &&& !long_ago(newest, interval, s.now) && !cancelled && i + 1
                < s.opts.level_intervals@.len() ==> a == StepModel::Newest((i + 2) as u8)
                && t.phase == MaintenancePhase::LevelDue((i + 1) as usize)
            &&& !long_ago(newest, interval, s.now) && !cancelled && i + 1
                == s.opts.level_intervals@.len() ==> a == StepModel::Newest(9)
                && t.phase is SnapshotDue
        }),
{
    if newest is Some {
        law_due_once_the_interval_has_passed(
            newest->0,
            s.opts.level_intervals@[i as int],
            s.now,
        );
    }
}

/// A run reports each level that got a new file, and no other. Level 0 is
/// looked at right after level 1 got one, if retention is enabled.
pub proof fn law_compacted_levels_are_reported(
    s: RunModel,
    i: usize,
    any: bool,
    cancelled: bool,
)
    requires
        s.phase == MaintenancePhase::Compact(i),
        i < s.opts.level_intervals@.len() <= 8,
    ensures
        ({
            let (t, a) = maintenance_next(s, MaintenanceEvent::Compacted(Ok(any)), cancelled);
            &&& any ==> t.report.compacted_levels == s.report.compacted_levels.push((i + 1) as u8)
            &&& !any ==> t.report.compacted_levels == s.report.compacted_levels
            &&& t.report.snapshot == s.report.snapshot && t.report.deleted == s.report.deleted
            &&& any && i == 0 && s.opts.retention_enabled ==> a == StepModel::Newest(1)
                && t.phase == MaintenancePhase::L0Covered(AfterL0::Levels)
            &&& !(any && i == 0 && s.opts.retention_enabled) && !cancelled && i + 1
                < s.opts.level_intervals@.len() ==> a == StepModel::Newest((i + 2) as u8)
            &&& !(any && i == 0 && s.opts.retention_enabled) && !cancelled && i + 1
                == s.opts.level_intervals@.len() ==> a == StepModel::Newest(9)
        }),
{
}

/// A snapshot is written if its interval has passed since the newest one was
/// made, and reported if there was one to write. Then the snapshots are listed
/// for retention, if that is enabled; else the run ends with its report.
pub proof fn law_snapshot_is_written_when_due(
    s: RunModel,
    newest: Option<FileInfo>,
    written: Option<Txid>,
    cancelled: bool,
)
    requires
        s.phase is SnapshotDue,
    ensures
        ({
            let (t, a) = maintenance_next(s, MaintenanceEvent::Newest(Ok(newest)), cancelled);
            let (u, b) = maintenance_next(t, MaintenanceEvent::Snapshotted(Ok(written)), cancelled);
            let due = long_ago(newest, s.opts.snapshot_interval, s.now);
            &&& due ==> a == StepModel::Snapshot && t.phase is Snapshot
            &&& due && written is Some ==> u.report == (ReportModel {
                snapshot: written,
                ..s.report
            })
            &&& due && written is None ==> u.report == s.report
            &&& due && s.opts.retention_enabled ==> b == StepModel::List(9)
            &&& due && !s.opts.retention_enabled ==> b == StepModel::Finish(Ok(u.report))
            &&& !due && s.opts.retention_enabled ==> a == StepModel::List(9)
            &&& !due && !s.opts.retention_enabled ==> a == StepModel::Finish(Ok(s.report))
        }),
{
    if newest is Some {
        law_due_once_the_interval_has_passed(newest->0, s.opts.snapshot_interval, s.now);
    }
}

/// Retention deletes snapshots from the front of the listing: only such as are
/// older than the retention and not the furthest reaching, and all up to the
/// first that is neither. Where the last one deleted ends is the floor for the
/// levels below; with none deleted, only level 0 is looked at.
pub proof fn law_retention_deletes_old_snapshots(
    s: RunModel,
    files: Vec<FileInfo>,
)
    requires
        s.phase is ListSnapshots,
        files@.len() > 0,
        files@.len() <= usize::MAX,
        span_on_clock(s.opts.snapshot_retention, s.now),
    ensures
        ({
            let (t, a) = maintenance_next(s, MaintenanceEvent::Listed(Ok(files)), false);
            let gone = a->Delete_0;
            let n = gone.len() as int;
            let (u, b) = maintenance_next(t, MaintenanceEvent::Done(Ok(())), false);
            &&& a is Delete
            &&& n < files@.len()
            &&& gone == files@.take(n)
            &&& forall|i: int|
                0 <= i < n ==> {
                    &&& (#[trigger] files@[i]).created_at is Some
                    &&& s.now - files@[i].created_at->0 > s.opts.snapshot_retention.nanos
                    &&& exists|j: int|
                        0 <= j < files@.len() && (#[trigger] files@[j]).max_txid.0
                            > files@[i].max_txid.0
                }
            &&& {
                ||| files@[n].created_at is None
                ||| s.now - files@[n].created_at->0 <= s.opts.snapshot_retention.nanos
                ||| forall|j: int|
                    0 <= j < files@.len() ==> (#[trigger] files@[j]).max_txid.0
                        <= files@[n].max_txid.0
            }
            &&& u.report == (ReportModel { deleted: s.report.deleted + n, ..s.report })
            &&& n > 0 && gone.last().max_txid.0 > 0 ==> b == StepModel::List(1) && u.phase
                == MaintenancePhase::ListLevel(1, gone.last().max_txid)
            &&& n == 0 ==> b == StepModel::Newest(1) && u.phase == MaintenancePhase::L0Covered(
                AfterL0::End,
            )
        }),
{
    law_snapshots_within_retention_stay(files@, s.opts.snapshot_retention, s.now);
    crate::compaction::law_newest_snapshot_survives(
        files@,
        time_before(s.now, s.opts.snapshot_retention),
    );
    let n = expired_len(
        files@,
        max_seen(files@, Txid(0)),
        time_before(s.now, s.opts.snapshot_retention),
    );
    assert(files@.take(n).len() == n);
}

/// Below the snapshots a level loses just the files that end before the floor,
/// except the last one listed. The levels go up from 1 to 8; then level 0 is
/// looked at.
pub proof fn law_levels_lose_what_lies_below_the_floor(
    s: RunModel,
    level: u8,
    floor: Txid,
    files: Vec<FileInfo>,
    k: int,
)
    requires
        s.phase == MaintenancePhase::ListLevel(level, floor),
        1 <= level <= 8,
        files@.len() <= usize::MAX,
        0 <= k < files@.len() - 1,
    ensures
        ({
            let (t, a) = maintenance_next(s, MaintenanceEvent::Listed(Ok(files)), false);
            let (u, b) = maintenance_next(t, MaintenanceEvent::Done(Ok(())), false);
            &&& a is Delete
            &&& a->Delete_0.contains(files@[k]) <==> files@[k].max_txid.0 < floor.0
            &&& forall|f: FileInfo| #[trigger]
                a->Delete_0.contains(f) ==> files@.drop_last().contains(f) && f.max_txid.0
                    < floor.0
            &&& u.report == (ReportModel {
                deleted: s.report.deleted + a->Delete_0.len(),
                ..s.report
            })
            &&& level < 8 ==> b == StepModel::List((level + 1) as u8) && u.phase
                == MaintenancePhase::ListLevel((level + 1) as u8, floor)
            &&& level == 8 ==> b == StepModel::Newest(1) && u.phase
                == MaintenancePhase::L0Covered(AfterL0::End)
        }),
{
    let rest = files@.drop_last();
    assert(rest[k] == files@[k]);
    law_everything_below_the_floor_goes(rest, floor, k);
    lemma_below_len(rest, floor);
    let gone = crate::compaction::below(rest, floor);
    assert forall|f: FileInfo| #[trigger] gone.contains(f) implies rest.contains(f)
        && f.max_txid.0 < floor.0 by {
        crate::compaction::law_every_level_keeps_a_file(files@, floor, f);
    }
}

/// A level with a single file, or none, loses nothing.
pub proof fn law_last_file_of_a_level_stays(
    s: RunModel,
    level: u8,
    floor: Txid,
    files: Vec<FileInfo>,
    cancelled: bool,
)
    requires
        s.phase == MaintenancePhase::ListLevel(level, floor),
        1 <= level <= 8,
        files@.len() <= 1,
    ensures
        ({
            let (t, a) = maintenance_next(s, MaintenanceEvent::Listed(Ok(files)), cancelled);
            &&& t.report == s.report
            &&& level == 8 ==> a == StepModel::Newest(1)
            &&& level < 8 && !cancelled ==> a == StepModel::List((level + 1) as u8)
            &&& level < 8 && cancelled ==> a == StepModel::Finish(
                Err::<ReportModel, Error>(Error::Cancelled),
            )
        }),
{
}

/// Level 0 loses files from the front: only such as level 1 covers, as are at
/// least as old as the grace period, and are not the furthest reaching; and
/// all up to the first that lacks one of these. Without a level-1 file it
/// loses none.
pub proof fn law_level_0_loses_old_covered_files(
    s: RunModel,
    max_l1: Txid,
    after: AfterL0,
    files: Vec<FileInfo>,
)
    requires
        s.phase == MaintenancePhase::L0List(max_l1, after),
        files@.len() > 0,
        files@.len() <= usize::MAX,
        span_on_clock(s.opts.l0_retention, s.now),
        s.opts.level_intervals@.len() > 1,
    ensures
        ({
            let (t, a) = maintenance_next(s, MaintenanceEvent::Listed(Ok(files)), false);
            let n = a->Delete_0.len() as int;
            let (u, b) = maintenance_next(t, MaintenanceEvent::Done(Ok(())), false);
            &&& a is Delete
            &&& n < files@.len()
            &&& a->Delete_0 == files@.take(n)
            &&& forall|i: int|
                0 <= i < n ==> {
                    &&& (#[trigger] files@[i]).max_txid.0 <= max_l1.0
                    &&& files@[i].created_at is Some
                    &&& s.now - files@[i].created_at->0 >= s.opts.l0_retention.nanos
                }
            &&& {
                ||| files@[n].max_txid.0 > max_l1.0
                ||| files@[n].created_at is None
                ||| s.now - files@[n].created_at->0 < s.opts.l0_retention.nanos
                ||| forall|j: int|
                    0 <= j < files@.len() ==> (#[trigger] files@[j]).max_txid.0
                        <= files@[n].max_txid.0
            }
            &&& u.report == (ReportModel { deleted: s.report.deleted + n, ..s.report })
            &&& after is End ==> b == StepModel::Finish(Ok(u.report))
            &&& after is Levels ==> b == StepModel::Newest(2)
        }),
{
    law_l0_files_within_grace_stay(files@, max_l1, s.opts.l0_retention, s.now);
    crate::compaction::law_l0_deletion_opens_no_gap(
        files@,
        max_l1,
        time_before(s.now, s.opts.l0_retention),
    );
}

/// Level-0 retention goes by where the newest level-1 file ends; without one
/// that ends anywhere, it is skipped.
pub proof fn law_level_1_covers_level_0(
    s: RunModel,
    after: AfterL0,
    newest: Option<FileInfo>,
    cancelled: bool,
)
    requires
        s.phase == MaintenancePhase::L0Covered(after),
    ensures
        ({
            let (t, a) = maintenance_next(s, MaintenanceEvent::Newest(Ok(newest)), cancelled);
            &&& newest is Some && newest->0.max_txid.0 > 0 ==> a == StepModel::List(0) && t.phase
                == MaintenancePhase::L0List(newest->0.max_txid, after)
            &&& (newest is None || newest->0.max_txid.0 == 0) && after is End ==> a
                == StepModel::Finish(Ok(s.report))
            &&& t.report == s.report
        }),
{
}

/// A compaction merges into its level the files of the level below that start
/// after its newest file ends, or all of them without one; with none to merge
/// it ends without a new file.
pub proof fn law_compaction_takes_up_where_its_level_ends(
    s: CompactModel,
    newest: Option<FileInfo>,
    files: Vec<FileInfo>,
    cancelled: bool,
)
    requires
        s.phase is Newest,
        s.level >= 1,
        newest matches Some(f) ==> f.max_txid.0 < u64::MAX,
    ensures
        ({
            let (t, a) = compact_next(s, CompactEvent::Newest(Ok(newest)), cancelled);
            let (u, b) = compact_next(t, CompactEvent::Listed(Ok(files)), cancelled);
            &&& a is List && a->List_0 == s.level - 1
            &&& newest is Some ==> a->List_1.0 == newest->0.max_txid.0 + 1
            &&& newest is None ==> a->List_1.0 == 0
            &&& files@.len() == 0 ==> b == CompactAction::Finish(Ok(false))
            &&& files@.len() > 0 && !cancelled ==> b == CompactAction::Open(files@[0])
                && u.sources == files@ && u.phase == CompactPhase::Open(0)
            &&& files@.len() > 0 && cancelled ==> b == CompactAction::Finish(
                Err(Error::Cancelled),
            )
        }),
{
}

/// Every source is opened, in order, before the merge; the merged file then
/// goes to the compaction's level, named from the first transaction of any
/// source to the last of any.
pub proof fn law_compaction_merges_every_source(s: CompactModel, i: usize)
    requires
        s.phase == CompactPhase::Open(i),
        i < s.sources.len() <= usize::MAX,
        s.level >= 1,
    ensures
        ({
            let (t, a) = compact_next(s, CompactEvent::Done(Ok(())), false);
            &&& t.sources == s.sources && t.level == s.level
            &&& i + 1 < s.sources.len() ==> a == CompactAction::Open(s.sources[i + 1]) && t.phase
                == CompactPhase::Open((i + 1) as usize)
            &&& i + 1 == s.sources.len() ==> a is Merge && t.phase is Merge
            &&& i + 1 == s.sources.len() ==> ({
                let (u, b) = compact_next(t, CompactEvent::Done(Ok(())), false);
                let (_, c) = compact_next(u, CompactEvent::Done(Ok(())), false);
                &&& b is Write && b->Write_0 == s.level
                &&& forall|k: int|
                    0 <= k < s.sources.len() ==> b->Write_1.0 <= (
                    #[trigger] s.sources[k]).min_txid.0 && s.sources[k].max_txid.0 <= b->Write_2.0
                &&& exists|k: int|
                    0 <= k < s.sources.len() && (#[trigger] s.sources[k]).min_txid == b->Write_1
                &&& exists|k: int|
                    0 <= k < s.sources.len() && (#[trigger] s.sources[k]).max_txid == b->Write_2
                &&& c == CompactAction::Finish(Ok(true))
            })
        }),
{
    law_merged_range_spans_its_sources(s.sources);
}

/// A snapshot in which every step succeeds copies the log, uploads, and then
/// writes everything up to the position that it reads after that; at position
/// zero there is nothing to write. A cancelled one writes nothing.
pub proof fn law_snapshot_holds_everything_up_to_its_position(pos: Txid)
    ensures
        ({
            let ok = SnapshotEvent::Done(Ok(()));
            let a = snapshot_next(SnapshotPhase::Lineage, ok, false);
            let b = snapshot_next(a.0, ok, false);
            let c = snapshot_next(b.0, ok, false);
            let d = snapshot_next(c.0, SnapshotEvent::Pos(Ok(pos)), false);
            let e = snapshot_next(d.0, ok, false);
            let f = snapshot_next(e.0, ok, false);
            let g = snapshot_next(f.0, ok, false);
            &&& a.1 is Sync && b.1 is Upload && c.1 is ReadPos
            &&& pos.0 == 0 ==> d.1 == SnapshotAction::Finish(Ok(None))
            &&& pos.0 > 0 ==> {
                &&& d.1 == SnapshotAction::Plan(pos)
                &&& e.1 is Encode
                &&& f.1 == SnapshotAction::Write(Txid(1), pos)
                &&& g.1 == SnapshotAction::Finish(Ok(Some(pos)))
                &&& snapshot_next(d.0, ok, true).1 == SnapshotAction::Finish(
                    Err(Error::Cancelled),
                )
                &&& snapshot_next(e.0, ok, true).1 == SnapshotAction::Finish(
                    Err(Error::Cancelled),
                )
            }
        }),
{
}

/// A snapshot holds everything: it spans the first transaction to the one it
/// is made at, states the size that the last commit frame states, and points
/// at the reader's last frame under the reader's salts.
pub proof fn law_snapshot_spans_everything(
    seen: Seq<(Frame, u64)>,
    log_page_size: u32,
    after: WalState,
    db_len: u64,
    page_size: u32,
    txid: Txid,
    r: SnapshotPlan,
    k: int,
)
    requires
        snapshot_seen(seen, log_page_size, after, db_len, page_size, txid, r),
        0 < k <= seen.len(),
        seen[k - 1].0.commit != 0,
        forall|j: int| k <= j < seen.len() ==> (#[trigger] seen[j]).0.commit == 0,
    ensures
        r.min_txid.0 == 1,
        r.max_txid == txid,
        r.commit == seen[k - 1].0.commit,
        after.frame_n == 0 ==> r.wal_offset == 0,
        after.frame_n > 0 ==> r.wal_offset + 24 + after.page_size == 32 + after.frame_n * (24
            + after.page_size),
        after.frame_n > 0 ==> r.wal_salt1 == after.salt1 && r.wal_salt2 == after.salt2,
        r.wal_offset <= seen[k - 1].1 + 24 + log_page_size ==> r.wal_offset + r.wal_size
            == seen[k - 1].1 + 24 + log_page_size,
        r.flags.no_checksum,
{
    law_last_commit_frame_decides(seen, log_page_size, k);
    if after.frame_n > 0 {
        assert((24 + after.page_size) * (after.frame_n - 1) + 24 + after.page_size
            == after.frame_n * (24 + after.page_size)) by (nonlinear_arith);
        assert((24 + after.page_size) * (after.frame_n - 1) >= 0) by (nonlinear_arith)
            requires
                after.frame_n > 0,
        ;
    }
}

} // verus!
