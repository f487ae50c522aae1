//! One round of incremental sync, as a state machine: apply level-0 files
//! from the replica's position on, bridge gaps through levels 1 to 8, and
//! fall back to a newer snapshot or detect divergence when nothing moved.
//!
//! The embedding program performs the action that the machine asks for and
//! reports back what came of it; any other failure ends the sync with that
//! error. A file that was listed but is gone when it is fetched (a race with
//! compaction) never moves the position and never counts as divergence.
use crate::error::{Error, StorageError};
use crate::ltx::{continues, FileInfo, Txid, SNAPSHOT_LEVEL};
use vstd::prelude::*;

verus! {

/// What an incremental sync waits for.
#[derive(Clone, Copy, Debug, PartialEq, Eq, Structural)]
pub enum Phase {
    /// The listing of level 0 after the position.
    ListL0,
    /// Leave to look at the next level-0 file.
    CheckL0,
    /// The application of the next level-0 file.
    ApplyL0,
    /// The listing of a level that may bridge a gap.
    ListGap(u8),
    /// Leave to apply the next file of that level.
    CheckGap(u8),
    /// The application of the next file of that level.
    ApplyGap(u8),
    /// The listing of a level, to learn what the bucket has.
    ListBucket(u8),
    /// Leave to apply the newest snapshot.
    CheckSnapshot,
    /// The application of the newest snapshot.
    ApplySnapshot,
    /// The recording of the new position.
    Persist,
    /// Nothing: the replica is at its position.
    Finished,
    /// Nothing: the bucket ends below the replica's position.
    Diverged,
    /// Nothing: the newest snapshot was gone when it was fetched.
    SnapshotGone,
}

/// What the embedding program is to do next.
#[derive(Debug)]
pub enum SyncAction {
    /// List the files of `level` that start at `seek` or later.
    List { level: u8, seek: Txid },
    /// Fail with [`Error::Cancelled`] if the sync was cancelled.
    CheckCancel,
    /// Fetch the file and apply it.
    Apply(FileInfo),
    /// Record the position.
    Persist(Txid),
    /// End the sync with this result.
    Finish(Result<Txid, Error>),
}

/// The mathematical value of an incremental sync.
#[verifier::ext_equal]
pub struct SyncState {
    /// The position before the sync.
    pub from: Txid,
    /// The position reached so far.
    pub current: Txid,
    /// Whether a listed file was gone when it was fetched.
    pub saw_missing: bool,
    /// The level-0 files, and which of them is next.
    pub l0: Seq<FileInfo>,
    pub i: int,
    /// The files of the level that bridges a gap, and which of them is next.
    pub gap: Seq<FileInfo>,
    pub j: int,
    /// The position at which the gap was found, and where it ends.
    pub gap_after: Txid,
    pub gap_min: Txid,
    /// Whether a level-0 file waits behind the gap.
    pub resume: bool,
    /// The last transaction that the bucket was seen to have.
    pub bucket_max: Txid,
    pub newest: Option<FileInfo>,
    pub phase: Phase,
}

/// Goes on with the level-0 files; behind the last one, looks for a bridge
/// if there were none at all.
pub open spec fn enter_l0(s: SyncState) -> SyncState {
    if s.i < s.l0.len() {
        SyncState { phase: Phase::CheckL0, ..s }
    } else if s.l0.len() == 0 {
        begin_gap(s, Txid((s.current.0 + 1) as u64), false)
    } else {
        finish(s, !s.saw_missing)
    }
}

/// Starts to bridge a gap that ends at `gap_min`.
pub open spec fn begin_gap(s: SyncState, gap_min: Txid, resume: bool) -> SyncState {
    SyncState { gap_after: s.current, gap_min, resume, phase: Phase::ListGap(1), ..s }
}

/// The first file from `j` on that is not already applied.
pub open spec fn skip_applied(files: Seq<FileInfo>, j: int, current: Txid) -> int
    decreases files.len() - j,
{
    if j < files.len() && files[j].min_txid.0 <= current.0 + 1 && files[j].max_txid.0
        <= current.0 {
        skip_applied(files, j + 1, current)
    } else {
        j
    }
}

/// Goes on with the files of a bridging level: the next one that continues
/// the chain is applied; without one the level is done.
pub open spec fn scan_gap(s: SyncState, level: u8) -> SyncState {
    let j = skip_applied(s.gap, s.j, s.current);
    let t = SyncState { j, ..s };
    if j < s.gap.len() && s.gap[j].min_txid.0 <= s.current.0 + 1 {
        SyncState { phase: Phase::CheckGap(level), ..t }
    } else if s.current.0 > s.gap_after.0 || level + 1 >= SNAPSHOT_LEVEL {
        end_gap(t)
    } else {
        SyncState { phase: Phase::ListGap((level + 1) as u8), ..t }
    }
}

/// Returns from bridging: to the level-0 file that waited, if it can now be
/// applied or is applied already, or to the end of the sync.
pub open spec fn end_gap(s: SyncState) -> SyncState {
    if !s.resume {
        finish(s, !s.saw_missing)
    } else if s.l0[s.i].max_txid.0 <= s.current.0 {
        enter_l0_tail(SyncState { i: s.i + 1, ..s })
    } else if s.l0[s.i].min_txid.0 > s.current.0 + 1 {
        finish(s, !s.saw_missing)
    } else {
        SyncState { phase: Phase::ApplyL0, ..s }
    }
}

/// Goes on with level-0 files of which there was at least one.
pub open spec fn enter_l0_tail(s: SyncState) -> SyncState {
    if s.i < s.l0.len() {
        SyncState { phase: Phase::CheckL0, ..s }
    } else {
        finish(s, !s.saw_missing)
    }
}

/// Ends the pass: with no progress, and no file gone that might explain it,
/// looks at the whole bucket.
pub open spec fn finish(s: SyncState, look: bool) -> SyncState {
    if s.current == s.from && look {
        SyncState {
            bucket_max: Txid(0),
            newest: None,
            phase: Phase::ListBucket(SNAPSHOT_LEVEL),
            ..s
        }
    } else {
        conclude(s)
    }
}

/// Records the position if it moved.
pub open spec fn conclude(s: SyncState) -> SyncState {
    if s.current.0 > s.from.0 {
        SyncState { phase: Phase::Persist, ..s }
    } else {
        SyncState { phase: Phase::Finished, ..s }
    }
}

/// The last transaction among `files` and `start`.
pub open spec fn max_seen(files: Seq<FileInfo>, start: Txid) -> Txid
    decreases files.len(),
{
    if files.len() == 0 {
        start
    } else {
        let m = max_seen(files.drop_last(), start);
        if files.last().max_txid.0 > m.0 {
            files.last().max_txid
        } else {
            m
        }
    }
}

/// The first file with the highest last transaction.
pub open spec fn newest_of(files: Seq<FileInfo>) -> Option<FileInfo>
    decreases files.len(),
{
    if files.len() == 0 {
        None
    } else {
        match newest_of(files.drop_last()) {
            None => Some(files.last()),
            Some(s) => if files.last().max_txid.0 > s.max_txid.0 {
                Some(files.last())
            } else {
                Some(s)
            },
        }
    }
}

/// Judges the bucket once every level was listed. An empty bucket is no
/// divergence: it is the window of a wipe before a reseed.
pub open spec fn judge_bucket(s: SyncState) -> SyncState {
    if s.bucket_max.0 == 0 {
        SyncState { phase: Phase::Finished, ..s }
    } else if s.bucket_max.0 < s.current.0 {
        SyncState { phase: Phase::Diverged, ..s }
    } else {
        match s.newest {
            Some(f) if f.max_txid.0 > s.current.0 => SyncState { phase: Phase::CheckSnapshot, ..s },
            _ => conclude(s),
        }
    }
}

/// What a sync becomes when a listing arrives.
pub open spec fn on_listed(s: SyncState, files: Seq<FileInfo>) -> SyncState {
    match s.phase {
        Phase::ListL0 => enter_l0(SyncState { l0: files, i: 0, ..s }),
        Phase::ListGap(level) => scan_gap(SyncState { gap: files, j: 0, ..s }, level),
        Phase::ListBucket(level) => {
            let t = SyncState {
                bucket_max: max_seen(files, s.bucket_max),
                newest: if level == SNAPSHOT_LEVEL {
                    newest_of(files)
                } else {
                    s.newest
                },
                ..s
            };
            if level > 0 {
                SyncState { phase: Phase::ListBucket((level - 1) as u8), ..t }
            } else {
                judge_bucket(t)
            }
        },
        _ => s,
    }
}

/// What a sync becomes when it was not cancelled.
pub open spec fn on_clear(s: SyncState) -> SyncState {
    match s.phase {
        Phase::CheckL0 => {
            let f = s.l0[s.i];
            if f.min_txid.0 > s.current.0 + 1 {
                begin_gap(s, f.min_txid, true)
            } else if f.max_txid.0 <= s.current.0 {
                enter_l0_tail(SyncState { i: s.i + 1, ..s })
            } else {
                SyncState { phase: Phase::ApplyL0, ..s }
            }
        },
        Phase::CheckGap(level) => SyncState { phase: Phase::ApplyGap(level), ..s },
        Phase::CheckSnapshot => SyncState { phase: Phase::ApplySnapshot, ..s },
        _ => s,
    }
}

/// What a sync becomes when the file was applied.
pub open spec fn on_applied(s: SyncState) -> SyncState {
    match s.phase {
        Phase::ApplyL0 => enter_l0_tail(
            SyncState { current: s.l0[s.i].max_txid, i: s.i + 1, ..s },
        ),
        Phase::ApplyGap(level) => {
            let t = SyncState { current: s.gap[s.j].max_txid, ..s };
            if t.current.0 + 1 >= s.gap_min.0 {
                end_gap(t)
            } else {
                scan_gap(SyncState { j: s.j + 1, ..t }, level)
            }
        },
        Phase::ApplySnapshot => conclude(SyncState { current: s.newest->0.max_txid, ..s }),
        _ => s,
    }
}

/// What a sync becomes when the file was gone.
pub open spec fn on_missing(s: SyncState) -> SyncState {
    match s.phase {
        Phase::ApplyL0 => finish(s, false),
        Phase::ApplyGap(_) => end_gap(SyncState { saw_missing: true, ..s }),
        Phase::ApplySnapshot => SyncState { phase: Phase::SnapshotGone, ..s },
        _ => s,
    }
}

/// What a sync becomes when the position was recorded.
pub open spec fn on_persisted(s: SyncState) -> SyncState {
    match s.phase {
        Phase::Persist => SyncState { phase: Phase::Finished, ..s },
        _ => s,
    }
}

/// What holds throughout: indexes are in range where they are used, the
/// position never falls back, and a file about to be applied continues it.
pub open spec fn sync_ok(s: SyncState) -> bool {
    &&& s.from.0 <= s.current.0 < u64::MAX
    &&& 0 <= s.i <= s.l0.len()
    &&& 0 <= s.j <= s.gap.len()
    &&& room(s.l0) && room(s.gap)
    &&& s.newest matches Some(f) ==> f.max_txid.0 < u64::MAX
    &&& (s.phase is CheckL0 || s.phase is ApplyL0) ==> s.i < s.l0.len()
    &&& (s.phase is ListGap || s.phase is CheckGap || s.phase is ApplyGap) ==> {
        &&& s.resume ==> s.i < s.l0.len()
        &&& s.gap_after.0 <= s.current.0
    }
    &&& s.phase matches Phase::ListGap(l) ==> 1 <= l < SNAPSHOT_LEVEL
    &&& s.phase matches Phase::CheckGap(l) ==> 1 <= l < SNAPSHOT_LEVEL
    &&& s.phase matches Phase::ApplyGap(l) ==> 1 <= l < SNAPSHOT_LEVEL
    &&& s.phase matches Phase::ListBucket(l) ==> l <= SNAPSHOT_LEVEL
    &&& (s.phase is ListBucket || s.phase is Diverged || s.phase is CheckSnapshot
        || s.phase is ApplySnapshot || s.phase is SnapshotGone) ==> s.current == s.from
        && !s.saw_missing
    &&& s.phase is ApplyL0 ==> continues(s.current, s.l0[s.i].min_txid, s.l0[s.i].max_txid)
    &&& (s.phase is CheckGap || s.phase is ApplyGap) ==> s.j < s.gap.len() && continues(
        s.current,
        s.gap[s.j].min_txid,
        s.gap[s.j].max_txid,
    )
    &&& (s.phase is CheckSnapshot || s.phase is ApplySnapshot || s.phase is SnapshotGone)
        ==> s.newest is Some && s.newest->0.max_txid.0 > s.current.0
    &&& s.phase is Persist ==> s.current.0 > s.from.0
    &&& s.phase is Diverged ==> 0 < s.bucket_max.0 < s.current.0
}

/// Whether each file leaves room for a transaction after it.
pub open spec fn room(files: Seq<FileInfo>) -> bool {
    forall|k: int| 0 <= k < files.len() ==> (#[trigger] files[k]).max_txid.0 < u64::MAX
}

proof fn lemma_skip_applied(files: Seq<FileInfo>, j: int, current: Txid)
    requires
        0 <= j <= files.len(),
    ensures
        j <= skip_applied(files, j, current) <= files.len(),
        ({
            let k = skip_applied(files, j, current);
            k < files.len() && files[k].min_txid.0 <= current.0 + 1 ==> files[k].max_txid.0
                > current.0
        }),
    decreases files.len() - j,
{
    if j < files.len() && files[j].min_txid.0 <= current.0 + 1 && files[j].max_txid.0
        <= current.0 {
        lemma_skip_applied(files, j + 1, current);
    }
}

pub proof fn lemma_newest_of(files: Seq<FileInfo>)
    ensures
        newest_of(files) is None <==> files.len() == 0,
        newest_of(files) matches Some(f) ==> files.contains(f) && forall|k: int|
            0 <= k < files.len() ==> (#[trigger] files[k]).max_txid.0 <= f.max_txid.0,
    decreases files.len(),
{
    if files.len() > 0 {
        let t = files.drop_last();
        lemma_newest_of(t);
        let f = newest_of(files)->0;
        if f == files.last() {
            assert(files[files.len() - 1] == f);
        }
        if newest_of(t) is Some {
            let g = newest_of(t)->0;
            let k = choose|k: int| 0 <= k < t.len() && t[k] == g;
            assert(files[k] == g);
        }
        assert forall|k: int| 0 <= k < files.len() implies (#[trigger] files[k]).max_txid.0
            <= f.max_txid.0 by {
            if k < t.len() {
                assert(files[k] == t[k]);
            }
        }
    }
}

/// Every step keeps what holds throughout.
pub proof fn lemma_steps_keep_ok(s: SyncState, files: Seq<FileInfo>)
    requires
        sync_ok(s),
        room(files),
    ensures
        sync_ok(on_listed(s, files)),
        sync_ok(on_clear(s)),
        sync_ok(on_applied(s)),
        sync_ok(on_missing(s)),
        sync_ok(on_persisted(s)),
{
    lemma_skip_applied(files, 0, s.current);
    lemma_newest_of(files);
    if s.phase is ApplyGap {
        lemma_skip_applied(s.gap, s.j + 1, s.gap[s.j].max_txid);
    }
}

/// An incremental sync in progress.
pub struct IncrementalSync {
    from: Txid,
    current: Txid,
    saw_missing: bool,
    l0: Vec<FileInfo>,
    i: usize,
    gap: Vec<FileInfo>,
    j: usize,
    gap_after: Txid,
    gap_min: Txid,
    resume: bool,
    bucket_max: Txid,
    newest: Option<FileInfo>,
    phase: Phase,
}

impl View for IncrementalSync {
    type V = SyncState;

    closed spec fn view(&self) -> SyncState {
        SyncState {
            from: self.from,
            current: self.current,
            saw_missing: self.saw_missing,
            l0: self.l0@,
            i: self.i as int,
            gap: self.gap@,
            j: self.j as int,
            gap_after: self.gap_after,
            gap_min: self.gap_min,
            resume: self.resume,
            bucket_max: self.bucket_max,
            newest: self.newest,
            phase: self.phase,
        }
    }
}

/// The start of a sync from position `from`.
pub open spec fn sync_begin(s: SyncState, from: Txid) -> bool {
    &&& s.from == from
    &&& s.current == from
    &&& !s.saw_missing
    &&& s.l0.len() == 0 && s.i == 0
    &&& s.gap.len() == 0 && s.j == 0
    &&& s.newest is None
    &&& s.phase == Phase::ListL0
}

/// Whether `a` is what a sync in state `s` asks for.
pub open spec fn asks(s: SyncState, a: SyncAction) -> bool {
    match s.phase {
        Phase::ListL0 => a == SyncAction::List { level: 0, seek: Txid((s.current.0 + 1) as u64) },
        Phase::ListGap(level) => a == SyncAction::List { level, seek: Txid(0) },
        Phase::ListBucket(level) => a == SyncAction::List { level, seek: Txid(0) },
        Phase::CheckL0 => a is CheckCancel,
        Phase::CheckGap(_) => a is CheckCancel,
        Phase::CheckSnapshot => a is CheckCancel,
        Phase::ApplyL0 => a == SyncAction::Apply(s.l0[s.i]),
        Phase::ApplyGap(_) => a == SyncAction::Apply(s.gap[s.j]),
        Phase::ApplySnapshot => a == SyncAction::Apply(s.newest->0),
        Phase::Persist => a == SyncAction::Persist(s.current),
        Phase::Finished => a == SyncAction::Finish(Ok(s.current)),
        Phase::Diverged => a == SyncAction::Finish(
            Err(Error::Diverged { local: s.current, remote: s.bucket_max }),
        ),
        Phase::SnapshotGone => a == SyncAction::Finish(
            Err(
                Error::Storage(
                    StorageError::NotFound {
                        level: s.newest->0.level,
                        min_txid: s.newest->0.min_txid,
                        max_txid: s.newest->0.max_txid,
                    },
                ),
            ),
        ),
    }
}

impl IncrementalSync {
    /// Whether the sync is in a state that steps can reach.
    pub open spec fn wf(&self) -> bool {
        sync_ok(self@)
    }

    /// Starts a sync from position `from`.
    pub fn new(from: Txid) -> (r: IncrementalSync)
        requires
            from.0 < u64::MAX,
        ensures
            r.wf(),
            sync_begin(r@, from),
    {
        IncrementalSync {
            from,
            current: from,
            saw_missing: false,
            l0: Vec::new(),
            i: 0,
            gap: Vec::new(),
            j: 0,
            gap_after: from,
            gap_min: from,
            resume: false,
            bucket_max: Txid(0),
            newest: None,
            phase: Phase::ListL0,
        }
    }

    /// What to do next.
    pub fn action(&self) -> (r: SyncAction)
        requires
            self.wf(),
        ensures
            asks(self@, r),
    {
        match self.phase {
            Phase::ListL0 => SyncAction::List { level: 0, seek: Txid(self.current.0 + 1) },
            Phase::ListGap(level) => SyncAction::List { level, seek: Txid(0) },
            Phase::ListBucket(level) => SyncAction::List { level, seek: Txid(0) },
            Phase::CheckL0 => SyncAction::CheckCancel,
            Phase::CheckGap(_) => SyncAction::CheckCancel,
            Phase::CheckSnapshot => SyncAction::CheckCancel,
            Phase::ApplyL0 => SyncAction::Apply(self.l0[self.i]),
            Phase::ApplyGap(_) => SyncAction::Apply(self.gap[self.j]),
            Phase::ApplySnapshot => SyncAction::Apply(self.snapshot()),
            Phase::Persist => SyncAction::Persist(self.current),
            Phase::Finished => SyncAction::Finish(Ok(self.current)),
            Phase::Diverged => SyncAction::Finish(
                Err(Error::Diverged { local: self.current, remote: self.bucket_max }),
            ),
            Phase::SnapshotGone => {
                let f = self.snapshot();
                SyncAction::Finish(
                    Err(
                        Error::Storage(
                            StorageError::NotFound {
                                level: f.level,
                                min_txid: f.min_txid,
                                max_txid: f.max_txid,
                            },
                        ),
                    ),
                )
            },
        }
    }

    fn snapshot(&self) -> (r: FileInfo)
        requires
            self.newest is Some,
        ensures
            r == self.newest->0,
    {
        match self.newest {
            Some(f) => f,
            None => FileInfo::default(),
        }
    }

    /// Reports the listing that was asked for.
    pub fn listed(&mut self, files: Vec<FileInfo>)
        requires
            old(self).wf(),
            room(files@),
        ensures
            final(self).wf(),
            final(self)@ == on_listed(old(self)@, files@),
    {
        proof {
            lemma_steps_keep_ok(self@, files@);
        }
        match self.phase {
            Phase::ListL0 => {
                self.l0 = files;
                self.i = 0;
                if self.l0.len() == 0 {
                    self.begin_gap(Txid(self.current.0 + 1), false);
                } else {
                    self.phase = Phase::CheckL0;
                }
            },
            Phase::ListGap(level) => {
                self.gap = files;
                self.j = 0;
                self.scan_gap(level);
            },
            Phase::ListBucket(level) => {
                let mut newest: Option<FileInfo> = None;
                let mut max: Txid = self.bucket_max;
                let mut k: usize = 0;
                assert(files@.take(0) =~= Seq::<FileInfo>::empty());
                while k < files.len()
                    invariant
                        k <= files@.len(),
                        max == max_seen(files@.take(k as int), old(self).bucket_max),
                        newest == newest_of(files@.take(k as int)),
                    decreases files@.len() - k,
                {
                    let f = files[k];
                    assert(files@.take(k + 1).drop_last() =~= files@.take(k as int));
                    if f.max_txid.0 > max.0 {
                        max = f.max_txid;
                    }
                    match newest {
                        None => {
                            newest = Some(f);
                        },
                        Some(s) => {
                            if f.max_txid.0 > s.max_txid.0 {
                                newest = Some(f);
                            }
                        },
                    }
                    k += 1;
                }
                assert(files@.take(k as int) =~= files@);
                self.bucket_max = max;
                if level == SNAPSHOT_LEVEL {
                    self.newest = newest;
                }
                if level > 0 {
                    self.phase = Phase::ListBucket(level - 1);
                } else {
                    self.judge_bucket();
                }
            },
            _ => {},
        }
    }

    /// Reports that the sync was not cancelled.
    pub fn clear(&mut self)
        requires
            old(self).wf(),
        ensures
            final(self).wf(),
            final(self)@ == on_clear(old(self)@),
    {
        proof {
            lemma_steps_keep_ok(self@, Seq::empty());
        }
        match self.phase {
            Phase::CheckL0 => {
                let f = self.l0[self.i];
                if f.min_txid.0 > self.current.0 + 1 {
                    self.begin_gap(f.min_txid, true);
                } else if f.max_txid.0 <= self.current.0 {
                    assert(self.i < self.l0.len());
                    self.i = self.i + 1;
                    self.enter_l0();
                } else {
                    self.phase = Phase::ApplyL0;
                }
            },
            Phase::CheckGap(level) => {
                self.phase = Phase::ApplyGap(level);
            },
            Phase::CheckSnapshot => {
                self.phase = Phase::ApplySnapshot;
            },
            _ => {},
        }
    }

    /// Reports that the file was applied.
    pub fn applied(&mut self)
        requires
            old(self).wf(),
        ensures
            final(self).wf(),
            final(self)@ == on_applied(old(self)@),
    {
        proof {
            lemma_steps_keep_ok(self@, Seq::empty());
        }
        match self.phase {
            Phase::ApplyL0 => {
                self.current = self.l0[self.i].max_txid;
                assert(self.i < self.l0.len());
                self.i = self.i + 1;
                self.enter_l0();
            },
            Phase::ApplyGap(level) => {
                self.current = self.gap[self.j].max_txid;
                if self.current.0 + 1 >= self.gap_min.0 {
                    self.end_gap();
                } else {
                    assert(self.j < self.gap.len());
                    self.j = self.j + 1;
                    self.scan_gap(level);
                }
            },
            Phase::ApplySnapshot => {
                self.current = self.snapshot().max_txid;
                self.conclude();
            },
            _ => {},
        }
    }

    /// Reports that the file was gone.
    pub fn missing(&mut self)
        requires
            old(self).wf(),
        ensures
            final(self).wf(),
            final(self)@ == on_missing(old(self)@),
    {
        proof {
            lemma_steps_keep_ok(self@, Seq::empty());
        }
        match self.phase {
            Phase::ApplyL0 => {
                self.finish(false);
            },
            Phase::ApplyGap(_) => {
                self.saw_missing = true;
                self.end_gap();
            },
            Phase::ApplySnapshot => {
                self.phase = Phase::SnapshotGone;
            },
            _ => {},
        }
    }

    /// Reports that the position was recorded.
    pub fn persisted(&mut self)
        requires
            old(self).wf(),
        ensures
            final(self).wf(),
            final(self)@ == on_persisted(old(self)@),
    {
        if self.phase == Phase::Persist {
            self.phase = Phase::Finished;
        }
    }

    fn enter_l0(&mut self)
        ensures
            final(self)@ == enter_l0_tail(old(self)@),
    {
        if self.i < self.l0.len() {
            self.phase = Phase::CheckL0;
        } else {
            self.finish(!self.saw_missing);
        }
    }

    fn begin_gap(&mut self, gap_min: Txid, resume: bool)
        ensures
            final(self)@ == begin_gap(old(self)@, gap_min, resume),
    {
        self.gap_after = self.current;
        self.gap_min = gap_min;
        self.resume = resume;
        self.phase = Phase::ListGap(1);
    }

    fn scan_gap(&mut self, level: u8)
        requires
            level < SNAPSHOT_LEVEL,
            old(self).current.0 < u64::MAX,
            old(self).j <= old(self).gap@.len(),
            old(self).resume ==> old(self).i < old(self).l0@.len(),
        ensures
            final(self)@ == scan_gap(old(self)@, level),
    {
        proof {
            lemma_skip_applied(self.gap@, self.j as int, self.current);
        }
        let ghost j0 = self.j as int;
        let mut j: usize = self.j;
        while j < self.gap.len() && self.gap[j].min_txid.0 <= self.current.0 + 1
            && self.gap[j].max_txid.0 <= self.current.0
            invariant
                *self == *old(self),
                self.current.0 < u64::MAX,
                j0 <= j <= self.gap@.len(),
                skip_applied(self.gap@, j as int, self.current) == skip_applied(
                    self.gap@,
                    j0,
                    self.current,
                ),
            decreases self.gap@.len() - j,
        {
            j += 1;
        }
        self.j = j;
        if j < self.gap.len() && self.gap[j].min_txid.0 <= self.current.0 + 1 {
            self.phase = Phase::CheckGap(level);
        } else if self.current.0 > self.gap_after.0 || level + 1 >= SNAPSHOT_LEVEL {
            self.end_gap();
        } else {
            self.phase = Phase::ListGap(level + 1);
        }
    }

    fn end_gap(&mut self)
        requires
            old(self).current.0 < u64::MAX,
            old(self).resume ==> old(self).i < old(self).l0@.len(),
        ensures
            final(self)@ == end_gap(old(self)@),
    {
        if !self.resume {
            self.finish(!self.saw_missing);
        } else {
            let f = self.l0[self.i];
            if f.max_txid.0 <= self.current.0 {
                assert(self.i < self.l0.len());
                self.i = self.i + 1;
                self.enter_l0();
            } else if f.min_txid.0 > self.current.0 + 1 {
                self.finish(!self.saw_missing);
            } else {
                self.phase = Phase::ApplyL0;
            }
        }
    }

    fn finish(&mut self, look: bool)
        ensures
            final(self)@ == finish(old(self)@, look),
    {
        if self.current.0 == self.from.0 && look {
            self.bucket_max = Txid(0);
            self.newest = None;
            self.phase = Phase::ListBucket(SNAPSHOT_LEVEL);
        } else {
            self.conclude();
        }
    }

    fn conclude(&mut self)
        ensures
            final(self)@ == conclude(old(self)@),
    {
        if self.current.0 > self.from.0 {
            self.phase = Phase::Persist;
        } else {
            self.phase = Phase::Finished;
        }
    }

    fn judge_bucket(&mut self)
        ensures
            final(self)@ == judge_bucket(old(self)@),
    {
        if self.bucket_max.0 == 0 {
            self.phase = Phase::Finished;
        } else if self.bucket_max.0 < self.current.0 {
            self.phase = Phase::Diverged;
        } else {
            match self.newest {
                Some(f) => {
                    if f.max_txid.0 > self.current.0 {
                        self.phase = Phase::CheckSnapshot;
                    } else {
                        self.conclude();
                    }
                },
                None => self.conclude(),
            }
        }
    }
}

/// The states that the reports lead to from `s`.
pub open spec fn steps_to(s: SyncState, files: Seq<FileInfo>, t: SyncState) -> bool {
    ||| t == on_listed(s, files)
    ||| t == on_clear(s)
    ||| t == on_applied(s)
    ||| t == on_missing(s)
    ||| t == on_persisted(s)
}

/// The position never goes backwards, and it moves only when a file was
/// applied, to the end of that file.
pub proof fn law_position_moves_only_by_applying(
    s: SyncState,
    files: Seq<FileInfo>,
    t: SyncState,
    a: SyncAction,
)
    requires
        sync_ok(s),
        room(files),
        steps_to(s, files, t),
        asks(s, a),
    ensures
        sync_ok(t),
        t.from == s.from,
        t.current.0 >= s.current.0,
        t.current != s.current ==> t == on_applied(s) && a is Apply && t.current
            == a->Apply_0.max_txid,
{
    lemma_steps_keep_ok(s, files);
}

/// A file is applied only if it brings something new; and unless it is the
/// newest snapshot, only if it leaves no hole after the position.
pub proof fn law_applied_files_continue_the_position(s: SyncState, a: SyncAction)
    requires
        sync_ok(s),
        asks(s, a),
        a is Apply,
    ensures
        a->Apply_0.max_txid.0 > s.current.0,
        s.phase is ApplySnapshot || continues(
            s.current,
            a->Apply_0.min_txid,
            a->Apply_0.max_txid,
        ),
{
}

/// Divergence is declared only on positive evidence: nothing was applied, no
/// listed file was gone, and the bucket's last transaction is known and lies
/// below the position.
pub proof fn law_divergence_needs_evidence(s: SyncState, a: SyncAction)
    requires
        sync_ok(s),
        asks(s, a),
        a matches SyncAction::Finish(Err(Error::Diverged { local, remote })),
    ensures
        s.current == s.from,
        !s.saw_missing,
        ({
            let e = a->Finish_0->Err_0;
            e->local == s.current && e->remote == s.bucket_max && 0 < e->remote.0 < e->local.0
        }),
{
}

/// What is known once the bucket was judged from the listings of its levels.
pub proof fn law_bucket_is_judged_by_its_last_transaction(s: SyncState, files: Seq<FileInfo>)
    requires
        sync_ok(s),
        s.phase == Phase::ListBucket(0),
    ensures
        ({
            let max = max_seen(files, s.bucket_max);
            let t = on_listed(s, files);
            &&& t.phase is Diverged <==> 0 < max.0 < s.current.0
            &&& max.0 == 0 ==> t.phase is Finished
            &&& t.bucket_max == max
            &&& max.0 >= s.bucket_max.0
            &&& forall|k: int| 0 <= k < files.len() ==> (#[trigger] files[k]).max_txid.0 <= max.0
        }),
{
    lemma_max_seen(files, s.bucket_max);
}

pub proof fn lemma_max_seen(files: Seq<FileInfo>, start: Txid)
    ensures
        max_seen(files, start).0 >= start.0,
        forall|k: int|
            0 <= k < files.len() ==> (#[trigger] files[k]).max_txid.0 <= max_seen(files, start).0,
    decreases files.len(),
{
    if files.len() > 0 {
        let t = files.drop_last();
        lemma_max_seen(t, start);
        assert forall|k: int| 0 <= k < files.len() implies (#[trigger] files[k]).max_txid.0
            <= max_seen(files, start).0 by {
            if k < t.len() {
                assert(files[k] == t[k]);
            }
        }
    }
}

/// A file that was gone when it was fetched leads neither to a snapshot nor
/// to divergence in the same sync.
pub proof fn law_missing_file_only_delays(s: SyncState, files: Seq<FileInfo>, t: SyncState)
    requires
        sync_ok(s),
        room(files),
        s.saw_missing,
        steps_to(s, files, t),
    ensures
        t.saw_missing,
        !(t.phase is ListBucket || t.phase is Diverged || t.phase is CheckSnapshot
            || t.phase is ApplySnapshot || t.phase is SnapshotGone),
{
    lemma_steps_keep_ok(s, files);
}

/// A sync that ends with success ends at its position, which was recorded if
/// it moved.
pub proof fn law_finished_sync_recorded_its_position(s: SyncState, files: Seq<FileInfo>, t: SyncState)
    requires
        sync_ok(s),
        room(files),
        steps_to(s, files, t),
        t.phase is Finished,
        s.phase !is Finished,
    ensures
        t.current == t.from || (s.phase is Persist && t == on_persisted(s)),
{
    lemma_steps_keep_ok(s, files);
}

} // verus!
