//! Maintenance of a bucket, as state machines: compaction of one level, a
//! snapshot, and a whole run of both with retention.
//!
//! Every step writes before it deletes, so a run that is cut short leaves the
//! bucket valid, and the next run redoes what was missed.
use crate::compaction::{
    below, cascade_deletable, compact_range, compact_seek, due, expire_snapshots, expired_len,
    l0_deletable, l0_old_len, law_l0_deletion_opens_no_gap, law_newest_snapshot_survives,
    lemma_below_len, level_due, min_seen, on_clock, time_before, MaintenanceOptions,
    MaintenanceReport, SnapshotRetention,
};
use crate::error::Error;
use crate::ltx::{file_flags, new_file_flags, FileInfo, HeaderFlags, Txid, SNAPSHOT_LEVEL};
use crate::sync::max_seen;
use vstd::prelude::*;

verus! {

// ---------------------------------------------------------------------------
// A whole run

/// What follows level-0 retention.
#[derive(Clone, Copy, Debug, PartialEq, Eq, Structural)]
pub enum AfterL0 {
    /// The levels after the first.
    Levels,
    /// Nothing: the run is over.
    End,
}

/// What a maintenance run waits for.
#[derive(Clone, Copy, Debug, PartialEq, Eq, Structural)]
pub enum MaintenancePhase {
    Lineage,
    /// The newest file of the level above this index.
    LevelDue(usize),
    /// The compaction of the level above this index.
    Compact(usize),
    /// The newest level-1 file, for level-0 retention.
    L0Covered(AfterL0),
    /// The level-0 listing; level 1 ends here.
    L0List(Txid, AfterL0),
    /// The deletion of this many level-0 files.
    L0Delete(usize, AfterL0),
    SnapshotDue,
    Snapshot,
    ListSnapshots,
    /// The deletion of this many snapshots; this is the floor.
    DeleteSnapshots(usize, Txid),
    /// The listing of a level, for the files below the floor.
    ListLevel(u8, Txid),
    /// The deletion of this many files of a level.
    DeleteLevel(u8, usize, Txid),
    Done,
}

/// What to do next in a maintenance run.
#[derive(Debug)]
pub enum MaintenanceAction {
    /// Check that the bucket continues the local history.
    CheckLineage,
    /// Find the newest file of a level.
    Newest(u8),
    /// Compact into a level.
    Compact(u8),
    /// Write a snapshot.
    Snapshot,
    /// List a level.
    List(u8),
    /// Delete these files.
    Delete(Vec<FileInfo>),
    Finish(Result<MaintenanceReport, Error>),
}

/// What came of an action.
#[derive(Debug)]
pub enum MaintenanceEvent {
    /// Of a lineage check or a deletion.
    Done(Result<(), Error>),
    Newest(Result<Option<FileInfo>, Error>),
    /// Whether there was anything to compact.
    Compacted(Result<bool, Error>),
    /// The transaction of the snapshot, if there was anything to snapshot.
    Snapshotted(Result<Option<Txid>, Error>),
    Listed(Result<Vec<FileInfo>, Error>),
}

/// A maintenance run in progress.
#[derive(Debug)]
pub struct MaintenanceRun {
    opts: MaintenanceOptions,
    now: i128,
    report: MaintenanceReport,
    phase: MaintenancePhase,
}

/// What a maintenance run reports.
#[verifier::ext_equal]
pub struct ReportModel {
    pub compacted_levels: Seq<u8>,
    pub snapshot: Option<Txid>,
    pub deleted: int,
}

impl View for MaintenanceReport {
    type V = ReportModel;

    open spec fn view(&self) -> ReportModel {
        ReportModel {
            compacted_levels: self.compacted_levels@,
            snapshot: self.snapshot,
            deleted: self.deleted as int,
        }
    }
}

/// The state of a maintenance run.
#[verifier::ext_equal]
pub struct RunModel {
    pub opts: MaintenanceOptions,
    pub now: i128,
    pub report: ReportModel,
    pub phase: MaintenancePhase,
}

impl View for MaintenanceRun {
    type V = RunModel;

    closed spec fn view(&self) -> RunModel {
        RunModel { opts: self.opts, now: self.now, report: self.report@, phase: self.phase }
    }
}

/// What a maintenance run does next.
#[verifier::ext_equal]
pub enum StepModel {
    CheckLineage,
    Newest(u8),
    Compact(u8),
    Snapshot,
    List(u8),
    Delete(Seq<FileInfo>),
    Finish(Result<ReportModel, Error>),
}

impl View for MaintenanceAction {
    type V = StepModel;

    open spec fn view(&self) -> StepModel {
        match *self {
            MaintenanceAction::CheckLineage => StepModel::CheckLineage,
            MaintenanceAction::Newest(l) => StepModel::Newest(l),
            MaintenanceAction::Compact(l) => StepModel::Compact(l),
            MaintenanceAction::Snapshot => StepModel::Snapshot,
            MaintenanceAction::List(l) => StepModel::List(l),
            MaintenanceAction::Delete(files) => StepModel::Delete(files@),
            MaintenanceAction::Finish(r) => StepModel::Finish(
                match r {
                    Ok(report) => Ok(report@),
                    Err(e) => Err(e),
                },
            ),
        }
    }
}

/// Ends a run with an error.
pub open spec fn failed(s: RunModel, e: Error) -> (RunModel, StepModel) {
    (RunModel { phase: MaintenancePhase::Done, ..s }, StepModel::Finish(Err(e)))
}

/// Ends a run with its report.
pub open spec fn finished(s: RunModel) -> (RunModel, StepModel) {
    (RunModel { phase: MaintenancePhase::Done, ..s }, StepModel::Finish(Ok(s.report)))
}

/// Goes on to a phase.
pub open spec fn goes_to(s: RunModel, phase: MaintenancePhase, step: StepModel) -> (
    RunModel,
    StepModel,
) {
    (RunModel { phase, ..s }, step)
}

/// Goes on with the level above index `i`; after the last level, with the
/// snapshot.
pub open spec fn at_level(s: RunModel, i: int, cancelled: bool) -> (RunModel, StepModel) {
    if cancelled {
        failed(s, Error::Cancelled)
    } else if i < s.opts.level_intervals@.len() {
        goes_to(s, MaintenancePhase::LevelDue(i as usize), StepModel::Newest((i + 1) as u8))
    } else {
        goes_to(s, MaintenancePhase::SnapshotDue, StepModel::Newest(SNAPSHOT_LEVEL))
    }
}

/// Goes on after level-0 retention.
pub open spec fn past_l0(s: RunModel, after: AfterL0, cancelled: bool) -> (RunModel, StepModel) {
    match after {
        AfterL0::Levels => at_level(s, 1, cancelled),
        AfterL0::End => finished(s),
    }
}

/// Goes on after the snapshot.
pub open spec fn past_snapshot(s: RunModel) -> (RunModel, StepModel) {
    if s.opts.retention_enabled {
        goes_to(s, MaintenancePhase::ListSnapshots, StepModel::List(SNAPSHOT_LEVEL))
    } else {
        finished(s)
    }
}

/// Goes on with deleting the files of a level below the floor; after the last
/// level below the snapshots, with level 0.
pub open spec fn at_cascade(s: RunModel, level: int, floor: Txid, cancelled: bool) -> (
    RunModel,
    StepModel,
) {
    if level >= SNAPSHOT_LEVEL {
        goes_to(s, MaintenancePhase::L0Covered(AfterL0::End), StepModel::Newest(1))
    } else if cancelled {
        failed(s, Error::Cancelled)
    } else {
        goes_to(
            s,
            MaintenancePhase::ListLevel(level as u8, floor),
            StepModel::List(level as u8),
        )
    }
}

/// Counts deleted files.
pub open spec fn with_deleted(s: RunModel, n: int) -> RunModel {
    RunModel { report: ReportModel { deleted: s.report.deleted + n, ..s.report }, ..s }
}

/// Records a level that got a new file.
pub open spec fn with_level(s: RunModel, level: u8) -> RunModel {
    RunModel {
        report: ReportModel {
            compacted_levels: s.report.compacted_levels.push(level),
            ..s.report
        },
        ..s
    }
}

/// The snapshots of a listing that retention deletes.
pub open spec fn expired_snapshots(s: RunModel, files: Seq<FileInfo>) -> int {
    expired_len(
        files,
        max_seen(files, Txid(0)),
        time_before(s.now, s.opts.snapshot_retention),
    )
}

/// The floor that the snapshots of a listing set.
pub open spec fn floor_of(s: RunModel, files: Seq<FileInfo>) -> Txid {
    let n = expired_snapshots(s, files);
    if n == 0 || n == files.len() {
        Txid(0)
    } else {
        files[n - 1].max_txid
    }
}

/// The level-0 files that retention deletes.
pub open spec fn old_l0(s: RunModel, files: Seq<FileInfo>, max_l1: Txid) -> Seq<FileInfo> {
    files.take(
        l0_old_len(
            files,
            max_l1,
            max_seen(files, Txid(0)),
            time_before(s.now, s.opts.l0_retention),
        ),
    )
}

/// What a maintenance run becomes and does next on an event.
pub open spec fn maintenance_next(s: RunModel, ev: MaintenanceEvent, cancelled: bool) -> (
    RunModel,
    StepModel,
) {
    match (s.phase, ev) {
        (_, MaintenanceEvent::Done(Err(e))) => failed(s, e),
        (_, MaintenanceEvent::Newest(Err(e))) => failed(s, e),
        (_, MaintenanceEvent::Compacted(Err(e))) => failed(s, e),
        (_, MaintenanceEvent::Snapshotted(Err(e))) => failed(s, e),
        (_, MaintenanceEvent::Listed(Err(e))) => failed(s, e),
        (MaintenancePhase::Lineage, _) => at_level(s, 0, cancelled),
        (MaintenancePhase::LevelDue(i), MaintenanceEvent::Newest(Ok(newest))) => if due(
            newest,
            s.opts.level_intervals@[i as int],
            s.now,
        ) {
            goes_to(s, MaintenancePhase::Compact(i), StepModel::Compact((i + 1) as u8))
        } else {
            at_level(s, i + 1, cancelled)
        },
        (MaintenancePhase::Compact(i), MaintenanceEvent::Compacted(Ok(any))) => if !any {
            at_level(s, i + 1, cancelled)
        } else if i == 0 && s.opts.retention_enabled {
            goes_to(
                with_level(s, 1),
                MaintenancePhase::L0Covered(AfterL0::Levels),
                StepModel::Newest(1),
            )
        } else {
            at_level(with_level(s, (i + 1) as u8), i + 1, cancelled)
        },
        (MaintenancePhase::L0Covered(after), MaintenanceEvent::Newest(Ok(newest))) => match newest {
            Some(f) if f.max_txid.0 != 0 => goes_to(
                s,
                MaintenancePhase::L0List(f.max_txid, after),
                StepModel::List(0),
            ),
            _ => past_l0(s, after, cancelled),
        },
        (MaintenancePhase::L0List(max_l1, after), MaintenanceEvent::Listed(Ok(files))) => if files@.len()
            == 0 {
            past_l0(s, after, cancelled)
        } else if cancelled {
            failed(s, Error::Cancelled)
        } else {
            goes_to(
                s,
                MaintenancePhase::L0Delete(old_l0(s, files@, max_l1).len() as usize, after),
                StepModel::Delete(old_l0(s, files@, max_l1)),
            )
        },
        (MaintenancePhase::L0Delete(n, after), _) => past_l0(
            with_deleted(s, n as int),
            after,
            cancelled,
        ),
        (MaintenancePhase::SnapshotDue, MaintenanceEvent::Newest(Ok(newest))) => if due(
            newest,
            s.opts.snapshot_interval,
            s.now,
        ) {
            goes_to(s, MaintenancePhase::Snapshot, StepModel::Snapshot)
        } else {
            past_snapshot(s)
        },
        (MaintenancePhase::Snapshot, MaintenanceEvent::Snapshotted(Ok(txid))) => match txid {
            Some(_) => past_snapshot(
                RunModel { report: ReportModel { snapshot: txid, ..s.report }, ..s },
            ),
            None => past_snapshot(s),
        },
        (MaintenancePhase::ListSnapshots, MaintenanceEvent::Listed(Ok(files))) => if files@.len()
            == 0 {
            finished(s)
        } else if cancelled {
            failed(s, Error::Cancelled)
        } else {
            goes_to(
                s,
                MaintenancePhase::DeleteSnapshots(
                    expired_snapshots(s, files@) as usize,
                    floor_of(s, files@),
                ),
                StepModel::Delete(files@.take(expired_snapshots(s, files@))),
            )
        },
        (MaintenancePhase::DeleteSnapshots(n, floor), _) => if floor.0 == 0 {
            goes_to(
                with_deleted(s, n as int),
                MaintenancePhase::L0Covered(AfterL0::End),
                StepModel::Newest(1),
            )
        } else {
            at_cascade(with_deleted(s, n as int), 1, floor, cancelled)
        },
        (MaintenancePhase::ListLevel(level, floor), MaintenanceEvent::Listed(Ok(files))) => if files@.len()
            <= 1 {
            at_cascade(s, level + 1, floor, cancelled)
        } else {
            goes_to(
                s,
                MaintenancePhase::DeleteLevel(
                    level,
                    below(files@.drop_last(), floor).len() as usize,
                    floor,
                ),
                StepModel::Delete(below(files@.drop_last(), floor)),
            )
        },
        (MaintenancePhase::DeleteLevel(level, n, floor), _) => at_cascade(
            with_deleted(s, n as int),
            level + 1,
            floor,
            cancelled,
        ),
        _ => finished(s),
    }
}

/// Whether a maintenance run waits for an event of this kind.
pub open spec fn maintenance_expects(s: RunModel, ev: MaintenanceEvent) -> bool {
    match s.phase {
        MaintenancePhase::Lineage | MaintenancePhase::L0Delete(..)
        | MaintenancePhase::DeleteSnapshots(..) | MaintenancePhase::DeleteLevel(..) => ev is Done,
        MaintenancePhase::LevelDue(_) | MaintenancePhase::L0Covered(_)
        | MaintenancePhase::SnapshotDue => ev is Newest,
        MaintenancePhase::Compact(_) => ev is Compacted,
        MaintenancePhase::Snapshot => ev is Snapshotted,
        MaintenancePhase::L0List(..) | MaintenancePhase::ListSnapshots
        | MaintenancePhase::ListLevel(..) => ev is Listed,
        MaintenancePhase::Done => false,
    }
}

/// Whether an event can be counted and dated.
pub open spec fn event_fits(s: RunModel, ev: MaintenanceEvent) -> bool {
    match ev {
        MaintenanceEvent::Newest(Ok(Some(f))) => f.created_at matches Some(t) ==> on_clock(t),
        MaintenanceEvent::Listed(Ok(files)) => s.report.deleted + files@.len() <= usize::MAX,
        _ => true,
    }
}

/// What holds of a run in every phase.
pub open spec fn run_base(s: RunModel) -> bool {
    &&& s.opts.level_intervals@.len() <= u8::MAX
    &&& on_clock(s.now)
    &&& 0 <= s.report.deleted <= usize::MAX
}

/// What every state of a run keeps.
pub open spec fn run_wf(s: RunModel) -> bool {
    &&& run_base(s)
    &&& match s.phase {
        MaintenancePhase::LevelDue(i) | MaintenancePhase::Compact(i) => i
            < s.opts.level_intervals@.len(),
        MaintenancePhase::L0Covered(after) => has_levels(s, after),
        MaintenancePhase::L0List(max_l1, after) => max_l1.0 != 0 && has_levels(s, after),
        MaintenancePhase::L0Delete(n, after) => s.report.deleted + n <= usize::MAX && has_levels(
            s,
            after,
        ),
        MaintenancePhase::DeleteSnapshots(n, _) => s.report.deleted + n <= usize::MAX,
        MaintenancePhase::ListLevel(level, floor) => 1 <= level < SNAPSHOT_LEVEL && floor.0 != 0,
        MaintenancePhase::DeleteLevel(level, n, floor) => 1 <= level < SNAPSHOT_LEVEL && floor.0
            != 0 && s.report.deleted + n <= usize::MAX,
        _ => true,
    }
}

/// Level-0 retention goes back to the levels only if there are any.
pub open spec fn has_levels(s: RunModel, after: AfterL0) -> bool {
    after is Levels ==> s.opts.level_intervals@.len() >= 1
}

impl MaintenanceRun {
    /// Starts a maintenance run at the time `now`. The first action is to
    /// check the lineage.
    pub fn new(opts: MaintenanceOptions, now: i128) -> (r: (MaintenanceRun, MaintenanceAction))
        requires
            opts.level_intervals@.len() <= u8::MAX,
            on_clock(now),
        ensures
            run_wf(r.0@),
            r.0@ == (RunModel {
                opts,
                now,
                report: ReportModel {
                    compacted_levels: Seq::empty(),
                    snapshot: None,
                    deleted: 0,
                },
                phase: MaintenancePhase::Lineage,
            }),
            r.1@ == StepModel::CheckLineage,
    {
        let report = MaintenanceReport::default();
        assert(report@ =~= (ReportModel {
            compacted_levels: Seq::empty(),
            snapshot: None,
            deleted: 0,
        }));
        (
            MaintenanceRun { opts, now, report, phase: MaintenancePhase::Lineage },
            MaintenanceAction::CheckLineage,
        )
    }

    fn fail(self, e: Error) -> (r: (MaintenanceRun, MaintenanceAction))
        ensures
            (r.0@, r.1@) == failed(self@, e),
    {
        (
            MaintenanceRun { phase: MaintenancePhase::Done, ..self },
            MaintenanceAction::Finish(Err(e)),
        )
    }

    fn finish(self) -> (r: (MaintenanceRun, MaintenanceAction))
        ensures
            (r.0@, r.1@) == finished(self@),
    {
        let mut compacted_levels: Vec<u8> = Vec::new();
        let mut i: usize = 0;
        while i < self.report.compacted_levels.len()
            invariant
                i <= self.report.compacted_levels@.len(),
                compacted_levels@ == self.report.compacted_levels@.take(i as int),
            decreases self.report.compacted_levels@.len() - i,
        {
            compacted_levels.push(self.report.compacted_levels[i]);
            i += 1;
            assert(compacted_levels@ =~= self.report.compacted_levels@.take(i as int));
        }
        let report = MaintenanceReport {
            compacted_levels,
            snapshot: self.report.snapshot,
            deleted: self.report.deleted,
        };
        assert(report@ =~= self.report@);
        (
            MaintenanceRun { phase: MaintenancePhase::Done, ..self },
            MaintenanceAction::Finish(Ok(report)),
        )
    }

    fn goes(self, phase: MaintenancePhase, action: MaintenanceAction) -> (r: (
        MaintenanceRun,
        MaintenanceAction,
    ))
        ensures
            (r.0@, r.1@) == goes_to(self@, phase, action@),
    {
        (MaintenanceRun { phase, ..self }, action)
    }

    fn level_at(self, i: usize, cancelled: bool) -> (r: (MaintenanceRun, MaintenanceAction))
        requires
            run_base(self@),
            i <= self@.opts.level_intervals@.len(),
        ensures
            (r.0@, r.1@) == at_level(self@, i as int, cancelled),
            run_wf(r.0@),
    {
        if cancelled {
            self.fail(Error::Cancelled)
        } else if i < self.opts.level_intervals.len() {
            self.goes(
                MaintenancePhase::LevelDue(i),
                MaintenanceAction::Newest((i + 1) as u8),
            )
        } else {
            self.goes(MaintenancePhase::SnapshotDue, MaintenanceAction::Newest(SNAPSHOT_LEVEL))
        }
    }

    fn l0_done(self, after: AfterL0, cancelled: bool) -> (r: (MaintenanceRun, MaintenanceAction))
        requires
            run_base(self@),
            has_levels(self@, after),
        ensures
            (r.0@, r.1@) == past_l0(self@, after, cancelled),
            run_wf(r.0@),
    {
        match after {
            AfterL0::Levels => self.level_at(1, cancelled),
            AfterL0::End => self.finish(),
        }
    }

    fn snapshot_done(self) -> (r: (MaintenanceRun, MaintenanceAction))
        requires
            run_base(self@),
        ensures
            (r.0@, r.1@) == past_snapshot(self@),
            run_wf(r.0@),
    {
        if self.opts.retention_enabled {
            self.goes(MaintenancePhase::ListSnapshots, MaintenanceAction::List(SNAPSHOT_LEVEL))
        } else {
            self.finish()
        }
    }

    fn cascade_at(self, level: u8, floor: Txid, cancelled: bool) -> (r: (
        MaintenanceRun,
        MaintenanceAction,
    ))
        requires
            run_base(self@),
            level >= 1,
            floor.0 != 0,
        ensures
            (r.0@, r.1@) == at_cascade(self@, level as int, floor, cancelled),
            run_wf(r.0@),
    {
        if level >= SNAPSHOT_LEVEL {
            self.goes(MaintenancePhase::L0Covered(AfterL0::End), MaintenanceAction::Newest(1))
        } else if cancelled {
            self.fail(Error::Cancelled)
        } else {
            self.goes(MaintenancePhase::ListLevel(level, floor), MaintenanceAction::List(level))
        }
    }

    fn count(self, n: usize) -> (r: MaintenanceRun)
        requires
            self@.report.deleted + n <= usize::MAX,
        ensures
            r@ == with_deleted(self@, n as int),
    {
        let mut s = self;
        s.report.deleted = s.report.deleted + n;
        s
    }

    fn record(self, level: u8) -> (r: MaintenanceRun)
        ensures
            r@ == with_level(self@, level),
    {
        let mut s = self;
        s.report.compacted_levels.push(level);
        s
    }

    fn step_newest(self, newest: Option<FileInfo>, cancelled: bool) -> (r: (
        MaintenanceRun,
        MaintenanceAction,
    ))
        requires
            run_wf(self@),
            maintenance_expects(self@, MaintenanceEvent::Newest(Ok(newest))),
            event_fits(self@, MaintenanceEvent::Newest(Ok(newest))),
        ensures
            (r.0@, r.1@) == maintenance_next(
                self@,
                MaintenanceEvent::Newest(Ok(newest)),
                cancelled,
            ),
            run_wf(r.0@),
    {
        match self.phase {
            MaintenancePhase::LevelDue(i) => if level_due(
                newest,
                self.opts.level_intervals[i],
                self.now,
            ) {
                self.goes(
                    MaintenancePhase::Compact(i),
                    MaintenanceAction::Compact((i + 1) as u8),
                )
            } else {
                self.level_at(i + 1, cancelled)
            },
            MaintenancePhase::L0Covered(after) => {
                let max_l1 = match newest {
                    Some(f) => f.max_txid,
                    None => Txid(0),
                };
                if max_l1.is_zero() {
                    self.l0_done(after, cancelled)
                } else {
                    self.goes(
                        MaintenancePhase::L0List(max_l1, after),
                        MaintenanceAction::List(0),
                    )
                }
            },
            _ => {
                let interval = self.opts.snapshot_interval;
                if level_due(newest, interval, self.now) {
                    self.goes(MaintenancePhase::Snapshot, MaintenanceAction::Snapshot)
                } else {
                    self.snapshot_done()
                }
            },
        }
    }

    fn step_listed(self, files: Vec<FileInfo>, cancelled: bool) -> (r: (
        MaintenanceRun,
        MaintenanceAction,
    ))
        requires
            run_wf(self@),
            maintenance_expects(self@, MaintenanceEvent::Listed(Ok(files))),
            event_fits(self@, MaintenanceEvent::Listed(Ok(files))),
        ensures
            (r.0@, r.1@) == maintenance_next(
                self@,
                MaintenanceEvent::Listed(Ok(files)),
                cancelled,
            ),
            run_wf(r.0@),
    {
        match self.phase {
            MaintenancePhase::L0List(max_l1, after) => if files.len() == 0 {
                self.l0_done(after, cancelled)
            } else if cancelled {
                self.fail(Error::Cancelled)
            } else {
                let old = l0_deletable(&files, max_l1, self.opts.l0_retention, self.now);
                let n = old.len();
                proof {
                    law_l0_deletion_opens_no_gap(
                        files@,
                        max_l1,
                        time_before(self.now, self.opts.l0_retention),
                    );
                }
                self.goes(MaintenancePhase::L0Delete(n, after), MaintenanceAction::Delete(old))
            },
            MaintenancePhase::ListSnapshots => if files.len() == 0 {
                self.finish()
            } else if cancelled {
                self.fail(Error::Cancelled)
            } else {
                let SnapshotRetention { expired, floor } = expire_snapshots(
                    &files,
                    self.opts.snapshot_retention,
                    self.now,
                );
                let n = expired.len();
                proof {
                    law_newest_snapshot_survives(
                        files@,
                        time_before(self.now, self.opts.snapshot_retention),
                    );
                }
                self.goes(
                    MaintenancePhase::DeleteSnapshots(n, floor),
                    MaintenanceAction::Delete(expired),
                )
            },
            MaintenancePhase::ListLevel(level, floor) => if files.len() <= 1 {
                self.cascade_at(level + 1, floor, cancelled)
            } else {
                let deletable = cascade_deletable(&files, floor);
                let n = deletable.len();
                proof {
                    lemma_below_len(files@.drop_last(), floor);
                }
                self.goes(
                    MaintenancePhase::DeleteLevel(level, n, floor),
                    MaintenanceAction::Delete(deletable),
                )
            },
            _ => self.finish(),
        }
    }

    /// How many files were deleted so far.
    pub fn deleted(&self) -> (r: usize)
        requires
            run_wf(self@),
        ensures
            r == self@.report.deleted,
    {
        self.report.deleted
    }

    /// Takes the event that came of the last action, and tells what to do
    /// next. `cancelled` tells whether cancellation was requested by now.
    pub fn step(self, ev: MaintenanceEvent, cancelled: bool) -> (r: (
        MaintenanceRun,
        MaintenanceAction,
    ))
        requires
            run_wf(self@),
            maintenance_expects(self@, ev),
            event_fits(self@, ev),
        ensures
            (r.0@, r.1@) == maintenance_next(self@, ev, cancelled),
            run_wf(r.0@),
    {
        match ev {
            MaintenanceEvent::Done(Err(e)) => self.fail(e),
            MaintenanceEvent::Newest(Err(e)) => self.fail(e),
            MaintenanceEvent::Compacted(Err(e)) => self.fail(e),
            MaintenanceEvent::Snapshotted(Err(e)) => self.fail(e),
            MaintenanceEvent::Listed(Err(e)) => self.fail(e),
            MaintenanceEvent::Newest(Ok(newest)) => self.step_newest(newest, cancelled),
            MaintenanceEvent::Listed(Ok(files)) => self.step_listed(files, cancelled),
            MaintenanceEvent::Compacted(Ok(any)) => match self.phase {
                MaintenancePhase::Compact(i) => if !any {
                    self.level_at(i + 1, cancelled)
                } else if i == 0 && self.opts.retention_enabled {
                    self.record(1).goes(
                        MaintenancePhase::L0Covered(AfterL0::Levels),
                        MaintenanceAction::Newest(1),
                    )
                } else {
                    self.record((i + 1) as u8).level_at(i + 1, cancelled)
                },
                _ => self.finish(),
            },
            MaintenanceEvent::Snapshotted(Ok(txid)) => match txid {
                Some(t) => {
                    let mut s = self;
                    s.report.snapshot = Some(t);
                    s.snapshot_done()
                },
                None => self.snapshot_done(),
            },
            MaintenanceEvent::Done(Ok(_)) => match self.phase {
                MaintenancePhase::Lineage => self.level_at(0, cancelled),
                MaintenancePhase::L0Delete(n, after) => self.count(n).l0_done(after, cancelled),
                MaintenancePhase::DeleteSnapshots(n, floor) => {
                    let s = self.count(n);
                    if floor.is_zero() {
                        s.goes(
                            MaintenancePhase::L0Covered(AfterL0::End),
                            MaintenanceAction::Newest(1),
                        )
                    } else {
                        s.cascade_at(1, floor, cancelled)
                    }
                },
                MaintenancePhase::DeleteLevel(level, n, floor) => self.count(n).cascade_at(
                    level + 1,
                    floor,
                    cancelled,
                ),
                _ => self.finish(),
            },
        }
    }
}

/// Whatever retention deletes, the level it deletes from keeps a file: a
/// deletion is always of fewer files than were listed.
pub proof fn law_a_file_survives_every_deletion(
    s: RunModel,
    ev: MaintenanceEvent,
    cancelled: bool,
    deleted: Seq<FileInfo>,
)
    requires
        maintenance_expects(s, ev),
        maintenance_next(s, ev, cancelled).1 == StepModel::Delete(deleted),
    ensures
        ev matches MaintenanceEvent::Listed(Ok(files)) && deleted.len() < files@.len(),
{
    match (s.phase, ev) {
        (MaintenancePhase::L0List(max_l1, _), MaintenanceEvent::Listed(Ok(files))) => {
            law_l0_deletion_opens_no_gap(
                files@,
                max_l1,
                time_before(s.now, s.opts.l0_retention),
            );
        },
        (MaintenancePhase::ListSnapshots, MaintenanceEvent::Listed(Ok(files))) => {
            law_newest_snapshot_survives(
                files@,
                time_before(s.now, s.opts.snapshot_retention),
            );
        },
        (MaintenancePhase::ListLevel(_, floor), MaintenanceEvent::Listed(Ok(files))) => {
            lemma_below_len(files@.drop_last(), floor);
        },
        _ => {},
    }
}

/// Whether a run is past the point where retention starts.
pub open spec fn in_retention(s: RunModel) -> bool {
    s.phase is L0Covered || s.phase is L0List || s.phase is L0Delete || s.phase is ListSnapshots
        || s.phase is DeleteSnapshots || s.phase is ListLevel || s.phase is DeleteLevel
}

/// With retention disabled a run never deletes anything.
pub proof fn law_disabled_retention_deletes_nothing(
    s: RunModel,
    ev: MaintenanceEvent,
    cancelled: bool,
)
    requires
        !s.opts.retention_enabled,
        !in_retention(s),
        maintenance_expects(s, ev),
    ensures
        maintenance_next(s, ev, cancelled).1 !is Delete,
        !in_retention(maintenance_next(s, ev, cancelled).0),
        maintenance_next(s, ev, cancelled).0.opts == s.opts,
{
}

/// A run that fails the lineage check touches nothing more.
pub proof fn law_lineage_comes_first(s: RunModel, e: Error, cancelled: bool)
    requires
        s.phase is Lineage,
    ensures
        maintenance_next(s, MaintenanceEvent::Done(Err(e)), cancelled) == failed(s, e),
{
}

/// Without any snapshot there is nothing to anchor retention on: the run ends
/// there, and deletes nothing more.
pub proof fn law_no_snapshot_no_retention(s: RunModel, files: Vec<FileInfo>, cancelled: bool)
    requires
        s.phase is ListSnapshots,
        files@.len() == 0,
    ensures
        maintenance_next(s, MaintenanceEvent::Listed(Ok(files)), cancelled) == finished(s),
{
}

// ---------------------------------------------------------------------------
// Compaction of one level

/// What a compaction waits for.
#[derive(Clone, Copy, Debug, PartialEq, Eq, Structural)]
pub enum CompactPhase {
    Lineage,
    /// The newest file of the destination level.
    Newest,
    List,
    /// The source at this index.
    Open(usize),
    Merge,
    Write,
    Done,
}

/// What to do next for a compaction.
#[derive(Debug)]
pub enum CompactAction {
    CheckLineage,
    /// Find the newest file of a level.
    Newest(u8),
    /// List a level from a transaction on.
    List(u8, Txid),
    /// Open a source file.
    Open(FileInfo),
    /// Merge the open files into one with these flags.
    Merge(HeaderFlags),
    /// Write the merged file.
    Write(u8, Txid, Txid),
    /// End; tells whether there was anything to compact.
    Finish(Result<bool, Error>),
}

/// What came of an action.
#[derive(Debug)]
pub enum CompactEvent {
    Done(Result<(), Error>),
    Newest(Result<Option<FileInfo>, Error>),
    Listed(Result<Vec<FileInfo>, Error>),
}

/// A compaction in progress.
#[derive(Debug)]
pub struct CompactRun {
    /// The level that is written.
    pub level: u8,
    /// The files that are merged.
    pub sources: Vec<FileInfo>,
    pub phase: CompactPhase,
}

/// The state of a compaction.
#[verifier::ext_equal]
pub struct CompactModel {
    pub level: u8,
    pub sources: Seq<FileInfo>,
    pub phase: CompactPhase,
}

impl View for CompactRun {
    type V = CompactModel;

    open spec fn view(&self) -> CompactModel {
        CompactModel { level: self.level, sources: self.sources@, phase: self.phase }
    }
}

/// Goes on with the source at index `i`; after the last one, merges.
pub open spec fn at_source(s: CompactModel, i: int, cancelled: bool) -> (
    CompactModel,
    CompactAction,
) {
    if i >= s.sources.len() {
        (
            CompactModel { phase: CompactPhase::Merge, ..s },
            CompactAction::Merge(new_file_flags()),
        )
    } else if cancelled {
        compact_ends(s, Err(Error::Cancelled))
    } else {
        (
            CompactModel { phase: CompactPhase::Open(i as usize), ..s },
            CompactAction::Open(s.sources[i]),
        )
    }
}

/// Ends a compaction.
pub open spec fn compact_ends(s: CompactModel, r: Result<bool, Error>) -> (
    CompactModel,
    CompactAction,
) {
    (CompactModel { phase: CompactPhase::Done, ..s }, CompactAction::Finish(r))
}

/// What a compaction becomes and does next on an event.
pub open spec fn compact_next(s: CompactModel, ev: CompactEvent, cancelled: bool) -> (
    CompactModel,
    CompactAction,
) {
    match (s.phase, ev) {
        (_, CompactEvent::Done(Err(e))) => compact_ends(s, Err(e)),
        (_, CompactEvent::Newest(Err(e))) => compact_ends(s, Err(e)),
        (_, CompactEvent::Listed(Err(e))) => compact_ends(s, Err(e)),
        (CompactPhase::Lineage, _) => (
            CompactModel { phase: CompactPhase::Newest, ..s },
            CompactAction::Newest(s.level),
        ),
        (CompactPhase::Newest, CompactEvent::Newest(Ok(newest))) => (
            CompactModel { phase: CompactPhase::List, ..s },
            CompactAction::List(
                (s.level - 1) as u8,
                match newest {
                    Some(f) => Txid((f.max_txid.0 + 1) as u64),
                    None => Txid(0),
                },
            ),
        ),
        (CompactPhase::List, CompactEvent::Listed(Ok(files))) => if files@.len() == 0 {
            compact_ends(s, Ok(false))
        } else {
            at_source(CompactModel { sources: files@, ..s }, 0, cancelled)
        },
        (CompactPhase::Open(i), _) => at_source(s, i + 1, cancelled),
        (CompactPhase::Merge, _) => if cancelled {
            compact_ends(s, Err(Error::Cancelled))
        } else {
            (
                CompactModel { phase: CompactPhase::Write, ..s },
                CompactAction::Write(
                    s.level,
                    min_seen(s.sources, Txid(u64::MAX)),
                    max_seen(s.sources, Txid(0)),
                ),
            )
        },
        _ => compact_ends(s, Ok(true)),
    }
}

/// Whether a compaction waits for an event of this kind.
pub open spec fn compact_expects(s: CompactModel, ev: CompactEvent) -> bool {
    match s.phase {
        CompactPhase::Newest => ev is Newest,
        CompactPhase::List => ev is Listed,
        CompactPhase::Done => false,
        _ => ev is Done,
    }
}

/// What every state of a compaction keeps.
pub open spec fn compact_wf(s: CompactModel) -> bool {
    &&& s.level >= 1
    &&& match s.phase {
        CompactPhase::Open(i) => i < s.sources.len(),
        CompactPhase::Merge => s.sources.len() > 0,
        _ => true,
    }
}

impl CompactRun {
    /// Starts compacting the level below `level` into it. The first action is
    /// to check the lineage.
    pub fn new(level: u8) -> (r: (CompactRun, CompactAction))
        requires
            level >= 1,
        ensures
            compact_wf(r.0@),
            r.0@ == (CompactModel {
                level,
                sources: Seq::empty(),
                phase: CompactPhase::Lineage,
            }),
            r.1 == CompactAction::CheckLineage,
    {
        (
            CompactRun { level, sources: Vec::new(), phase: CompactPhase::Lineage },
            CompactAction::CheckLineage,
        )
    }

    fn end(self, result: Result<bool, Error>) -> (r: (CompactRun, CompactAction))
        ensures
            (r.0@, r.1) == compact_ends(self@, result),
    {
        (CompactRun { phase: CompactPhase::Done, ..self }, CompactAction::Finish(result))
    }

    fn source_at(self, i: usize, cancelled: bool) -> (r: (CompactRun, CompactAction))
        requires
            compact_wf(self@),
            self@.sources.len() > 0,
        ensures
            (r.0@, r.1) == at_source(self@, i as int, cancelled),
            compact_wf(r.0@),
    {
        if i >= self.sources.len() {
            (
                CompactRun { phase: CompactPhase::Merge, ..self },
                CompactAction::Merge(file_flags()),
            )
        } else if cancelled {
            self.end(Err(Error::Cancelled))
        } else {
            let f = self.sources[i];
            (CompactRun { phase: CompactPhase::Open(i), ..self }, CompactAction::Open(f))
        }
    }

    /// Takes the event that came of the last action, and tells what to do
    /// next. `cancelled` tells whether cancellation was requested by now.
    pub fn step(self, ev: CompactEvent, cancelled: bool) -> (r: (CompactRun, CompactAction))
        requires
            compact_wf(self@),
            compact_expects(self@, ev),
            ev matches CompactEvent::Newest(Ok(Some(f))) ==> f.max_txid.0 < u64::MAX,
        ensures
            (r.0@, r.1) == compact_next(self@, ev, cancelled),
            compact_wf(r.0@),
    {
        match ev {
            CompactEvent::Done(Err(e)) => self.end(Err(e)),
            CompactEvent::Newest(Err(e)) => self.end(Err(e)),
            CompactEvent::Listed(Err(e)) => self.end(Err(e)),
            CompactEvent::Newest(Ok(newest)) => {
                let seek = compact_seek(newest);
                let level = self.level - 1;
                (CompactRun { phase: CompactPhase::List, ..self }, CompactAction::List(level, seek))
            },
            CompactEvent::Listed(Ok(files)) => if files.len() == 0 {
                self.end(Ok(false))
            } else {
                let s = CompactRun { sources: files, ..self };
                s.source_at(0, cancelled)
            },
            CompactEvent::Done(Ok(_)) => match self.phase {
                CompactPhase::Lineage => {
                    let level = self.level;
                    (
                        CompactRun { phase: CompactPhase::Newest, ..self },
                        CompactAction::Newest(level),
                    )
                },
                CompactPhase::Open(i) => {
                    assert(i < self.sources.len());
                    self.source_at(i + 1, cancelled)
                },
                CompactPhase::Merge => if cancelled {
                    self.end(Err(Error::Cancelled))
                } else {
                    let level = self.level;
                    match compact_range(&self.sources) {
                        Some((min, max)) => (
                            CompactRun { phase: CompactPhase::Write, ..self },
                            CompactAction::Write(level, min, max),
                        ),
                        None => self.end(Ok(false)),
                    }
                },
                _ => self.end(Ok(true)),
            },
        }
    }
}

/// The merged file's range is exactly what its sources span: it reaches every
/// source's first and last transaction, and no further.
pub proof fn law_merged_file_spans_its_sources(sources: Seq<FileInfo>)
    requires
        sources.len() > 0,
    ensures
        forall|i: int|
            0 <= i < sources.len() ==> {
                &&& min_seen(sources, Txid(u64::MAX)).0 <= (#[trigger] sources[i]).min_txid.0
                &&& sources[i].max_txid.0 <= max_seen(sources, Txid(0)).0
            },
        exists|i: int|
            0 <= i < sources.len() && (#[trigger] sources[i]).min_txid == min_seen(
                sources,
                Txid(u64::MAX),
            ),
        exists|i: int|
            0 <= i < sources.len() && (#[trigger] sources[i]).max_txid == max_seen(
                sources,
                Txid(0),
            ),
    decreases sources.len(),
{
    let t = sources.drop_last();
    let last = sources.len() - 1;
    assert(sources[last] == sources.last());
    if t.len() > 0 {
        law_merged_file_spans_its_sources(t);
        let i = choose|i: int|
            0 <= i < t.len() && (#[trigger] t[i]).min_txid == min_seen(t, Txid(u64::MAX));
        let j = choose|j: int|
            0 <= j < t.len() && (#[trigger] t[j]).max_txid == max_seen(t, Txid(0));
        assert(sources[i] == t[i] && sources[j] == t[j]);
        assert forall|k: int| 0 <= k < sources.len() implies {
            &&& min_seen(sources, Txid(u64::MAX)).0 <= (#[trigger] sources[k]).min_txid.0
            &&& sources[k].max_txid.0 <= max_seen(sources, Txid(0)).0
        } by {
            if k < last {
                assert(sources[k] == t[k]);
            }
        }
    } else {
        assert(min_seen(t, Txid(u64::MAX)) == Txid(u64::MAX));
        assert(max_seen(t, Txid(0)) == Txid(0));
    }
}

/// The merge waits for every source: it starts only once the last one is
/// open, and nothing is written before it is done.
pub proof fn law_merge_waits_for_every_source(s: CompactModel, ev: CompactEvent, cancelled: bool)
    requires
        compact_wf(s),
        compact_expects(s, ev),
    ensures
        compact_next(s, ev, cancelled).1 is Merge ==> s.phase == CompactPhase::Open(
            (s.sources.len() - 1) as usize,
        ) && ev is Done,
        compact_next(s, ev, cancelled).1 is Write ==> s.phase is Merge && ev->Done_0 is Ok
            && !cancelled,
        compact_next(s, ev, cancelled).1 == CompactAction::Finish(Ok(true)) ==> s.phase is Write
            && ev->Done_0 is Ok,
{
}

// ---------------------------------------------------------------------------
// A snapshot

/// What a snapshot waits for.
#[derive(Clone, Copy, Debug, PartialEq, Eq, Structural)]
pub enum SnapshotPhase {
    Lineage,
    Sync,
    Upload,
    Pos,
    /// The plan of the snapshot at this transaction.
    Plan(Txid),
    Encode(Txid),
    Write(Txid),
    Done,
}

/// What to do next for a snapshot.
#[derive(Debug)]
pub enum SnapshotAction {
    CheckLineage,
    /// Copy what is committed out of the log, so that the position is the
    /// log's committed end.
    Sync,
    /// Upload the local level-0 files.
    Upload,
    /// Read the position.
    ReadPos,
    /// Plan the snapshot at this transaction.
    Plan(Txid),
    /// Encode it.
    Encode,
    /// Write it as the file of these transactions.
    Write(Txid, Txid),
    /// End with the snapshot's transaction; none if there is nothing to
    /// snapshot.
    Finish(Result<Option<Txid>, Error>),
}

/// What came of an action.
#[derive(Debug)]
pub enum SnapshotEvent {
    Done(Result<(), Error>),
    Pos(Result<Txid, Error>),
}

/// Ends a snapshot.
pub open spec fn snapshot_ends(r: Result<Option<Txid>, Error>) -> (SnapshotPhase, SnapshotAction) {
    (SnapshotPhase::Done, SnapshotAction::Finish(r))
}

/// What a snapshot becomes and does next on an event.
pub open spec fn snapshot_next(s: SnapshotPhase, ev: SnapshotEvent, cancelled: bool) -> (
    SnapshotPhase,
    SnapshotAction,
) {
    match (s, ev) {
        (_, SnapshotEvent::Done(Err(e))) => snapshot_ends(Err(e)),
        (_, SnapshotEvent::Pos(Err(e))) => snapshot_ends(Err(e)),
        (SnapshotPhase::Lineage, _) => (SnapshotPhase::Sync, SnapshotAction::Sync),
        (SnapshotPhase::Sync, _) => (SnapshotPhase::Upload, SnapshotAction::Upload),
        (SnapshotPhase::Upload, _) => (SnapshotPhase::Pos, SnapshotAction::ReadPos),
        (SnapshotPhase::Pos, SnapshotEvent::Pos(Ok(txid))) => if txid.0 == 0 {
            snapshot_ends(Ok(None))
        } else {
            (SnapshotPhase::Plan(txid), SnapshotAction::Plan(txid))
        },
        (SnapshotPhase::Plan(txid), _) => if cancelled {
            snapshot_ends(Err(Error::Cancelled))
        } else {
            (SnapshotPhase::Encode(txid), SnapshotAction::Encode)
        },
        (SnapshotPhase::Encode(txid), _) => if cancelled {
            snapshot_ends(Err(Error::Cancelled))
        } else {
            (SnapshotPhase::Write(txid), SnapshotAction::Write(Txid(1), txid))
        },
        (SnapshotPhase::Write(txid), _) => snapshot_ends(Ok(Some(txid))),
        _ => snapshot_ends(Ok(None)),
    }
}

/// Whether a snapshot waits for an event of this kind.
pub open spec fn snapshot_expects(s: SnapshotPhase, ev: SnapshotEvent) -> bool {
    match s {
        SnapshotPhase::Pos => ev is Pos,
        SnapshotPhase::Done => false,
        _ => ev is Done,
    }
}

impl SnapshotPhase {
    /// Starts a snapshot. The first action is to check the lineage.
    pub fn start() -> (r: (SnapshotPhase, SnapshotAction))
        ensures
            r == (SnapshotPhase::Lineage, SnapshotAction::CheckLineage),
    {
        (SnapshotPhase::Lineage, SnapshotAction::CheckLineage)
    }

    /// Takes the event that came of the last action, and tells what to do
    /// next. `cancelled` tells whether cancellation was requested by now.
    pub fn step(self, ev: SnapshotEvent, cancelled: bool) -> (r: (SnapshotPhase, SnapshotAction))
        requires
            snapshot_expects(self, ev),
        ensures
            r == snapshot_next(self, ev, cancelled),
    {
        match ev {
            SnapshotEvent::Done(Err(e)) => (
                SnapshotPhase::Done,
                SnapshotAction::Finish(Err(e)),
            ),
            SnapshotEvent::Pos(Err(e)) => (SnapshotPhase::Done, SnapshotAction::Finish(Err(e))),
            SnapshotEvent::Pos(Ok(txid)) => if txid.is_zero() {
                (SnapshotPhase::Done, SnapshotAction::Finish(Ok(None)))
            } else {
                (SnapshotPhase::Plan(txid), SnapshotAction::Plan(txid))
            },
            SnapshotEvent::Done(Ok(_)) => match self {
                SnapshotPhase::Lineage => (SnapshotPhase::Sync, SnapshotAction::Sync),
                SnapshotPhase::Sync => (SnapshotPhase::Upload, SnapshotAction::Upload),
                SnapshotPhase::Upload => (SnapshotPhase::Pos, SnapshotAction::ReadPos),
                SnapshotPhase::Plan(txid) => if cancelled {
                    (SnapshotPhase::Done, SnapshotAction::Finish(Err(Error::Cancelled)))
                } else {
                    (SnapshotPhase::Encode(txid), SnapshotAction::Encode)
                },
                SnapshotPhase::Encode(txid) => if cancelled {
                    (SnapshotPhase::Done, SnapshotAction::Finish(Err(Error::Cancelled)))
                } else {
                    (SnapshotPhase::Write(txid), SnapshotAction::Write(Txid(1), txid))
                },
                SnapshotPhase::Write(txid) => (
                    SnapshotPhase::Done,
                    SnapshotAction::Finish(Ok(Some(txid))),
                ),
                _ => (SnapshotPhase::Done, SnapshotAction::Finish(Ok(None))),
            },
        }
    }
}

/// A snapshot is written only after the local level-0 files were uploaded, so
/// the bucket's level 0 already reaches what the snapshot claims: each phase
/// up to the write is entered only from the one before it.
pub proof fn law_snapshot_follows_the_upload(s: SnapshotPhase, ev: SnapshotEvent, cancelled: bool)
    requires
        snapshot_expects(s, ev),
    ensures
        ({
            let (t, a) = snapshot_next(s, ev, cancelled);
            &&& t is Upload ==> s is Sync && ev->Done_0 is Ok
            &&& t is Pos ==> s is Upload && ev->Done_0 is Ok
            &&& t matches SnapshotPhase::Plan(x) ==> s is Pos && ev == SnapshotEvent::Pos(Ok(x))
            &&& t matches SnapshotPhase::Encode(x) ==> s == SnapshotPhase::Plan(x)
            &&& t matches SnapshotPhase::Write(x) ==> s == SnapshotPhase::Encode(x)
            &&& a matches SnapshotAction::Write(min, x) ==> t == SnapshotPhase::Write(x) && min
                == Txid(1)
        }),
{
}

} // verus!
