//! Compaction, snapshots and retention: what is due, what is merged, and what
//! may be deleted.
//!
//! Whatever is deleted, readers stay served: the newest snapshot survives,
//! every level keeps at least one file, and level-0 files go only once level
//! 1 covers them and they are old enough, oldest first, so that no gap opens.
use crate::error::Error;
use crate::io::ErrorKind;
use crate::ltx::{file_flags, new_file_flags, FileInfo, HeaderFlags, Txid};
use crate::sync::max_seen;
use crate::text;
use crate::text::decimal;
use crate::time::Span;
use crate::wal::{
    committed_pages, header_of, maps_pages, scan, wal_size, Frame, PageMap, ReadAt, WalError,
    WalReader, WalState, WAL_FRAME_HEADER_SIZE,
};
use crate::writer::{image_pages, page_count, plan_image, PageSource};
use vstd::prelude::*;

verus! {

/// The earliest time that a clock can show, in nanoseconds from the Unix
/// epoch.
pub const CLOCK_MIN: i128 = -9_223_372_036_854_775_808_000_000_000;

/// Maintenance configuration.
#[derive(Clone, Debug)]
pub struct MaintenanceOptions {
    /// Compaction interval per level; the first is level 1's. A level is
    /// compacted when its newest file is older than its interval.
    pub level_intervals: Vec<Span>,
    /// How often to write a full snapshot.
    pub snapshot_interval: Span,
    /// How long snapshots are retained (the newest always survives).
    pub snapshot_retention: Span,
    /// Grace period before compacted level-0 files are deleted, protecting
    /// readers that are applying them.
    pub l0_retention: Span,
    /// Disable to leave deletion to bucket lifecycle policies.
    pub retention_enabled: bool,
}

impl Default for MaintenanceOptions {
    fn default() -> (r: MaintenanceOptions)
        ensures
            r.level_intervals@.len() == 3,
            r.level_intervals@[0].nanos == 30 * 1_000_000_000,
            r.level_intervals@[1].nanos == 300 * 1_000_000_000,
            r.level_intervals@[2].nanos == 3600 * 1_000_000_000,
            r.snapshot_interval.nanos == 86_400 * 1_000_000_000,
            r.snapshot_retention.nanos == 86_400 * 1_000_000_000,
            r.l0_retention.nanos == 300 * 1_000_000_000,
            r.retention_enabled,
    {
        let mut level_intervals: Vec<Span> = Vec::new();
        level_intervals.push(Span::from_secs(30));
        level_intervals.push(Span::from_secs(5 * 60));
        level_intervals.push(Span::from_secs(60 * 60));
        MaintenanceOptions {
            level_intervals,
            snapshot_interval: Span::from_secs(24 * 60 * 60),
            snapshot_retention: Span::from_secs(24 * 60 * 60),
            l0_retention: Span::from_secs(5 * 60),
            retention_enabled: true,
        }
    }
}

/// What a maintenance run did.
#[derive(Clone, Debug, PartialEq, Eq)]
pub struct MaintenanceReport {
    /// Levels that received a new compacted file.
    pub compacted_levels: Vec<u8>,
    /// Transaction of a snapshot that was written, if any.
    pub snapshot: Option<Txid>,
    /// Number of files deleted by retention.
    pub deleted: usize,
}

impl Default for MaintenanceReport {
    fn default() -> (r: MaintenanceReport)
        ensures
            r.compacted_levels@.len() == 0,
            r.snapshot is None,
            r.deleted == 0,
    {
        MaintenanceReport { compacted_levels: Vec::new(), snapshot: None, deleted: 0 }
    }
}

/// Whether something that was last done when `newest` was created is due
/// again: also if it was never done, or nobody knows when. A file from the
/// future is new.
pub open spec fn due(newest: Option<FileInfo>, interval: Span, now: i128) -> bool {
    match newest {
        None => true,
        Some(f) => match f.created_at {
            None => true,
            Some(at) => (if now > at {
                now - at
            } else {
                0
            }) >= interval.nanos,
        },
    }
}

/// Whether a time is one that a clock can show.
pub open spec fn on_clock(t: i128) -> bool {
    CLOCK_MIN <= t < -CLOCK_MIN
}

/// Whether a level (or the snapshot level) is due for a new file.
pub fn level_due(newest: Option<FileInfo>, interval: Span, now: i128) -> (r: bool)
    requires
        on_clock(now),
        newest matches Some(f) ==> (f.created_at matches Some(t) ==> on_clock(t)),
    ensures
        r == due(newest, interval, now),
{
    match newest {
        None => true,
        Some(f) => match f.created_at {
            None => true,
            Some(at) => {
                let age: u128 = if now > at {
                    (now - at) as u128
                } else {
                    0
                };
                age >= interval.nanos
            },
        },
    }
}

/// From which transaction on source files are merged into a level: after its
/// newest file, or from the start.
pub fn compact_seek(newest: Option<FileInfo>) -> (r: Txid)
    requires
        newest matches Some(f) ==> f.max_txid.0 < u64::MAX,
    ensures
        r == match newest {
            Some(f) => Txid((f.max_txid.0 + 1) as u64),
            None => Txid(0),
        },
{
    match newest {
        Some(f) => Txid(f.max_txid.0 + 1),
        None => Txid(0),
    }
}

/// The first transaction among `files` and `start`.
pub open spec fn min_seen(files: Seq<FileInfo>, start: Txid) -> Txid
    decreases files.len(),
{
    if files.len() == 0 {
        start
    } else {
        let m = min_seen(files.drop_last(), start);
        if files.last().min_txid.0 < m.0 {
            files.last().min_txid
        } else {
            m
        }
    }
}

/// The transactions that merging `srcs` covers; nothing if there is nothing
/// to merge.
pub fn compact_range(srcs: &Vec<FileInfo>) -> (r: Option<(Txid, Txid)>)
    ensures
        r == if srcs@.len() == 0 {
            None
        } else {
            Some((min_seen(srcs@, Txid(u64::MAX)), max_seen(srcs@, Txid(0))))
        },
{
    if srcs.len() == 0 {
        return None;
    }
    let mut min = Txid(u64::MAX);
    let mut max = Txid(0);
    let mut i: usize = 0;
    assert(srcs@.take(0) =~= Seq::<FileInfo>::empty());
    while i < srcs.len()
        invariant
            i <= srcs@.len(),
            min == min_seen(srcs@.take(i as int), Txid(u64::MAX)),
            max == max_seen(srcs@.take(i as int), Txid(0)),
        decreases srcs@.len() - i,
    {
        assert(srcs@.take(i + 1).drop_last() =~= srcs@.take(i as int));
        if srcs[i].min_txid.0 < min.0 {
            min = srcs[i].min_txid;
        }
        if srcs[i].max_txid.0 > max.0 {
            max = srcs[i].max_txid;
        }
        i += 1;
    }
    assert(srcs@.take(i as int) =~= srcs@);
    Some((min, max))
}

/// The time `span` before `now`; the Unix epoch if no clock can show it.
pub open spec fn time_before(now: i128, span: Span) -> int {
    if now - span.nanos >= CLOCK_MIN {
        now - span.nanos
    } else {
        0
    }
}

fn cutoff(now: i128, span: Span) -> (r: i128)
    requires
        on_clock(now),
    ensures
        r == time_before(now, span),
{
    let room: u128 = (now - CLOCK_MIN) as u128;
    if span.nanos <= room {
        now - span.nanos as i128
    } else {
        0
    }
}

/// Whether a snapshot has expired: it was created before the cutoff and is
/// not the newest.
pub open spec fn expired(f: FileInfo, newest: Txid, cut: int) -> bool {
    f.max_txid != newest && match f.created_at {
        Some(at) => at < cut,
        None => false,
    }
}

/// How many snapshots expired before the first that is retained.
pub open spec fn expired_len(files: Seq<FileInfo>, newest: Txid, cut: int) -> int
    decreases files.len(),
{
    if files.len() == 0 || !expired(files[0], newest, cut) {
        0
    } else {
        1 + expired_len(files.skip(1), newest, cut)
    }
}

/// Whether a clock can show the time so long before `now`: it counts seconds
/// from the Unix epoch in 64 bits, with a sign.
pub open spec fn span_on_clock(span: Span, now: i128) -> bool {
    now - span.nanos >= -9_223_372_036_854_775_808 * 1_000_000_000
}

/// What snapshot retention does.
#[derive(Debug)]
pub struct SnapshotRetention {
    /// The snapshots to delete.
    pub expired: Vec<FileInfo>,
    /// Files of lower levels that end below this are no longer needed: it is
    /// the end of the snapshot right before the oldest retained one, so that
    /// plans made against a snapshot just deleted still find their chain.
    pub floor: Txid,
}

/// The snapshots to delete and the floor for the lower levels.
pub fn expire_snapshots(snapshots: &Vec<FileInfo>, retention: Span, now: i128) -> (r:
    SnapshotRetention)
    requires
        on_clock(now),
    ensures
        ({
            let newest = max_seen(snapshots@, Txid(0));
            let n = expired_len(snapshots@, newest, time_before(now, retention));
            &&& r.expired@ == snapshots@.take(n)
            &&& r.floor == if n == 0 || n == snapshots@.len() {
                Txid(0)
            } else {
                snapshots@[n - 1].max_txid
            }
        }),
        forall|i: int|
            0 <= i < r.expired@.len() ==> {
                &&& (#[trigger] r.expired@[i]) == snapshots@[i]
                &&& snapshots@[i].created_at is Some
                &&& span_on_clock(retention, now) ==> now - snapshots@[i].created_at->0
                    > retention.nanos
            },
{
    proof {
        law_snapshots_within_retention_stay(snapshots@, retention, now);
    }
    let newest = crate::fence::last_of(snapshots);
    let cut = cutoff(now, retention);
    let mut out: Vec<FileInfo> = Vec::new();
    let mut i: usize = 0;
    let ghost n = expired_len(snapshots@, newest, cut as int);
    assert(snapshots@.skip(0) =~= snapshots@);
    loop
        invariant
            i <= snapshots@.len(),
            n == i + expired_len(snapshots@.skip(i as int), newest, cut as int),
            out@ == snapshots@.take(i as int),
        ensures
            i == n,
            i <= snapshots@.len(),
            out@ == snapshots@.take(i as int),
        decreases snapshots@.len() - i,
    {
        if i == snapshots.len() {
            break;
        }
        let f = snapshots[i];
        proof {
            assert(snapshots@.skip(i as int)[0] == f);
            assert(snapshots@.skip(i as int).skip(1) =~= snapshots@.skip(i + 1));
        }
        let gone = f.max_txid.0 != newest.0 && match f.created_at {
            Some(at) => at < cut,
            None => false,
        };
        if !gone {
            break;
        }
        out.push(f);
        assert(out@ =~= snapshots@.take(i + 1));
        i += 1;
    }
    let floor = if i == 0 || i == snapshots.len() {
        Txid(0)
    } else {
        snapshots[i - 1].max_txid
    };
    SnapshotRetention { expired: out, floor }
}

/// The files of `files` that end below the floor.
pub open spec fn below(files: Seq<FileInfo>, floor: Txid) -> Seq<FileInfo>
    decreases files.len(),
{
    if files.len() == 0 {
        Seq::empty()
    } else if files.last().max_txid.0 < floor.0 {
        below(files.drop_last(), floor).push(files.last())
    } else {
        below(files.drop_last(), floor)
    }
}

/// The files of a level that may be deleted: those wholly below the floor,
/// but never the last one listed.
pub fn cascade_deletable(files: &Vec<FileInfo>, floor: Txid) -> (r: Vec<FileInfo>)
    ensures
        r@ == if files@.len() <= 1 || floor.0 == 0 {
            Seq::empty()
        } else {
            below(files@.drop_last(), floor)
        },
{
    let mut out: Vec<FileInfo> = Vec::new();
    if files.len() <= 1 || floor.0 == 0 {
        return out;
    }
    let ghost rest = files@.drop_last();
    let mut i: usize = 0;
    assert(rest.take(0) =~= Seq::<FileInfo>::empty());
    while i < files.len() - 1
        invariant
            files@.len() > 1,
            rest == files@.drop_last(),
            i <= rest.len(),
            out@ == below(rest.take(i as int), floor),
        decreases rest.len() - i,
    {
        let f = files[i];
        assert(rest.take(i + 1).drop_last() =~= rest.take(i as int));
        assert(rest.take(i + 1).last() == f);
        if f.max_txid.0 < floor.0 {
            out.push(f);
        }
        i += 1;
    }
    assert(rest.take(i as int) =~= rest);
    out
}

/// Whether a level-0 file may be deleted: level 1 covers it, it is not the
/// newest, and it is old enough.
pub open spec fn l0_old(f: FileInfo, max_l1: Txid, newest: Txid, cut: int) -> bool {
    f.max_txid.0 <= max_l1.0 && f.max_txid != newest && match f.created_at {
        Some(at) => at <= cut,
        None => false,
    }
}

/// How many level-0 files may be deleted before the first that may not.
pub open spec fn l0_old_len(files: Seq<FileInfo>, max_l1: Txid, newest: Txid, cut: int) -> int
    decreases files.len(),
{
    if files.len() == 0 || !l0_old(files[0], max_l1, newest, cut) {
        0
    } else {
        1 + l0_old_len(files.skip(1), max_l1, newest, cut)
    }
}

/// The level-0 files that may be deleted: from the oldest on, up to the first
/// that level 1 does not cover, that is the newest, or that is too recent.
pub fn l0_deletable(files: &Vec<FileInfo>, max_l1: Txid, grace: Span, now: i128) -> (r: Vec<
    FileInfo,
>)
    requires
        on_clock(now),
    ensures
        r@ == if max_l1.0 == 0 {
            Seq::empty()
        } else {
            files@.take(
                l0_old_len(files@, max_l1, max_seen(files@, Txid(0)), time_before(now, grace)),
            )
        },
        forall|i: int|
            0 <= i < r@.len() ==> {
                &&& (#[trigger] r@[i]) == files@[i]
                &&& files@[i].max_txid.0 <= max_l1.0
                &&& files@[i].created_at is Some
                &&& span_on_clock(grace, now) ==> now - files@[i].created_at->0 >= grace.nanos
            },
{
    proof {
        law_l0_files_within_grace_stay(files@, max_l1, grace, now);
    }
    let mut out: Vec<FileInfo> = Vec::new();
    if max_l1.0 == 0 {
        return out;
    }
    let newest = crate::fence::last_of(files);
    let cut = cutoff(now, grace);
    let mut i: usize = 0;
    let ghost n = l0_old_len(files@, max_l1, newest, cut as int);
    assert(files@.skip(0) =~= files@);
    loop
        invariant
            i <= files@.len(),
            n == i + l0_old_len(files@.skip(i as int), max_l1, newest, cut as int),
            out@ == files@.take(i as int),
        ensures
            i == n,
            out@ == files@.take(i as int),
        decreases files@.len() - i,
    {
        if i == files.len() {
            break;
        }
        let f = files[i];
        proof {
            assert(files@.skip(i as int)[0] == f);
            assert(files@.skip(i as int).skip(1) =~= files@.skip(i + 1));
        }
        let old = f.max_txid.0 <= max_l1.0 && f.max_txid.0 != newest.0 && match f.created_at {
            Some(at) => at <= cut,
            None => false,
        };
        if !old {
            break;
        }
        out.push(f);
        assert(out@ =~= files@.take(i + 1));
        i += 1;
    }
    out
}

proof fn lemma_expired_prefix(files: Seq<FileInfo>, newest: Txid, cut: int)
    ensures
        0 <= expired_len(files, newest, cut) <= files.len(),
        forall|i: int|
            0 <= i < expired_len(files, newest, cut) ==> expired(#[trigger] files[i], newest, cut),
    decreases files.len(),
{
    if files.len() > 0 && expired(files[0], newest, cut) {
        let t = files.skip(1);
        lemma_expired_prefix(t, newest, cut);
        assert forall|i: int| 0 <= i < expired_len(files, newest, cut) implies expired(
            #[trigger] files[i],
            newest,
            cut,
        ) by {
            if i > 0 {
                assert(files[i] == t[i - 1]);
            }
        }
    }
}

/// The newest snapshot is never deleted, so as long as there is a snapshot,
/// one is left.
pub proof fn law_newest_snapshot_survives(files: Seq<FileInfo>, cut: int)
    ensures
        ({
            let newest = max_seen(files, Txid(0));
            let n = expired_len(files, newest, cut);
            &&& 0 <= n <= files.len()
            &&& forall|i: int| 0 <= i < n ==> (#[trigger] files[i]).max_txid != newest
            &&& files.len() > 0 ==> n < files.len()
        }),
{
    let newest = max_seen(files, Txid(0));
    lemma_expired_prefix(files, newest, cut);
    if files.len() > 0 {
        lemma_max_is_there(files);
    }
}

pub proof fn lemma_max_is_there(files: Seq<FileInfo>)
    requires
        files.len() > 0,
    ensures
        exists|i: int|
            0 <= i < files.len() && (#[trigger] files[i]).max_txid == max_seen(files, Txid(0)),
    decreases files.len(),
{
    let t = files.drop_last();
    if files.last().max_txid.0 > max_seen(t, Txid(0)).0 || t.len() == 0 {
        assert(files[files.len() - 1].max_txid == max_seen(files, Txid(0)));
    } else {
        lemma_max_is_there(t);
        let i = choose|i: int|
            0 <= i < t.len() && (#[trigger] t[i]).max_txid == max_seen(t, Txid(0));
        assert(files[i].max_txid == max_seen(files, Txid(0)));
    }
}

/// A file of a lower level is deleted only if it ends below the floor, and the
/// last one listed stays.
pub proof fn law_every_level_keeps_a_file(files: Seq<FileInfo>, floor: Txid, f: FileInfo)
    requires
        files.len() > 1,
        below(files.drop_last(), floor).contains(f),
    ensures
        f.max_txid.0 < floor.0,
        files.drop_last().contains(f),
        below(files.drop_last(), floor).len() < files.len(),
{
    lemma_below(files.drop_last(), floor, f);
}

pub proof fn lemma_below_len(files: Seq<FileInfo>, floor: Txid)
    ensures
        below(files, floor).len() <= files.len(),
    decreases files.len(),
{
    if files.len() > 0 {
        lemma_below_len(files.drop_last(), floor);
    }
}

proof fn lemma_below(files: Seq<FileInfo>, floor: Txid, f: FileInfo)
    ensures
        below(files, floor).len() <= files.len(),
        below(files, floor).contains(f) ==> f.max_txid.0 < floor.0 && files.contains(f),
    decreases files.len(),
{
    if files.len() > 0 {
        let t = files.drop_last();
        lemma_below(t, floor, f);
        let b = below(files, floor);
        if b.contains(f) {
            let k = choose|k: int| 0 <= k < b.len() && b[k] == f;
            if files.last().max_txid.0 < floor.0 && k == b.len() - 1 {
                assert(files[files.len() - 1] == f);
            } else {
                assert(below(t, floor)[k] == f);
                assert(below(t, floor).contains(f));
                let j = choose|j: int| 0 <= j < t.len() && t[j] == f;
                assert(files[j] == f);
            }
        }
    }
}

/// Level-0 deletion opens no gap and loses nothing: what is deleted is the
/// front of the listing, all of it covered by level 1, and the newest file is
/// not among it, so that files are left.
pub proof fn law_l0_deletion_opens_no_gap(files: Seq<FileInfo>, max_l1: Txid, cut: int)
    ensures
        ({
            let newest = max_seen(files, Txid(0));
            let n = l0_old_len(files, max_l1, newest, cut);
            &&& 0 <= n <= files.len()
            &&& forall|i: int|
                0 <= i < n ==> {
                    &&& (#[trigger] files[i]).max_txid.0 <= max_l1.0
                    &&& files[i].max_txid != newest
                }
            &&& files.len() > 0 ==> n < files.len()
        }),
{
    let newest = max_seen(files, Txid(0));
    lemma_l0_prefix(files, max_l1, newest, cut);
    if files.len() > 0 {
        lemma_max_is_there(files);
    }
}

proof fn lemma_l0_prefix(files: Seq<FileInfo>, max_l1: Txid, newest: Txid, cut: int)
    ensures
        0 <= l0_old_len(files, max_l1, newest, cut) <= files.len(),
        forall|i: int|
            0 <= i < l0_old_len(files, max_l1, newest, cut) ==> l0_old(
                #[trigger] files[i],
                max_l1,
                newest,
                cut,
            ),
    decreases files.len(),
{
    if files.len() > 0 && l0_old(files[0], max_l1, newest, cut) {
        let t = files.skip(1);
        lemma_l0_prefix(t, max_l1, newest, cut);
        assert forall|i: int| 0 <= i < l0_old_len(files, max_l1, newest, cut) implies l0_old(
            #[trigger] files[i],
            max_l1,
            newest,
            cut,
        ) by {
            if i > 0 {
                assert(files[i] == t[i - 1]);
            }
        }
    }
}

// ---------------------------------------------------------------------------
// Snapshots

/// A snapshot to be made: what its header says and which pages it holds.
#[derive(Debug)]
pub struct SnapshotPlan {
    pub flags: HeaderFlags,
    pub commit: u32,
    /// Always the first transaction: a snapshot holds everything before its
    /// last.
    pub min_txid: Txid,
    pub max_txid: Txid,
    pub wal_offset: u64,
    pub wal_size: u64,
    pub wal_salt1: u32,
    pub wal_salt2: u32,
    pub pages: Vec<(u32, PageSource)>,
}

/// Where a reader's last frame starts; zero before any.
pub open spec fn last_frame_start(st: WalState) -> int {
    if st.frame_n == 0 {
        0
    } else {
        wal_size(st.page_size, st.frame_n - 1)
    }
}

/// Whether `r` is a snapshot of the frames `seen`.
pub open spec fn snapshot_seen(
    seen: Seq<(Frame, u64)>,
    log_page_size: u32,
    after: WalState,
    db_len: u64,
    page_size: u32,
    txid: Txid,
    r: SnapshotPlan,
) -> bool {
    let offset = last_frame_start(after);
    exists|pm: PageMap|
        {
            &&& #[trigger] maps_pages(pm, seen, log_page_size)
            &&& r.flags == new_file_flags()
            &&& r.commit == page_count(pm, db_len, page_size)
            &&& r.min_txid == Txid(1)
            &&& r.max_txid == txid
            &&& r.wal_offset == offset
            &&& r.wal_size == if pm.max_offset > offset {
                pm.max_offset - offset
            } else {
                0
            }
            &&& (r.wal_salt1, r.wal_salt2) == if offset == 0 {
                (0u32, 0u32)
            } else {
                (after.salt1, after.salt2)
            }
            &&& r.pages@ == image_pages(pm.pages@, r.commit as int, page_size)
        }
}

/// Plans a full-image snapshot of the database at transaction `txid`; nothing
/// at position zero. The log is read only up to where it was synced: commits
/// appended since must not leak into a snapshot labeled with `txid`.
pub fn plan_snapshot<R: ReadAt>(
    wal: &R,
    db_len: u64,
    page_size: u32,
    synced_end: u64,
    txid: Txid,
) -> (r: Result<Option<SnapshotPlan>, Error>)
    requires
        page_size > 0,
    ensures
        txid.0 == 0 ==> r == Ok::<Option<SnapshotPlan>, Error>(None),
        txid.0 != 0 ==> match r {
            Err(Error::Wal(WalError::Io(_))) => !wal.reliable(),
            _ => match header_of(wal.contents()) {
                Err(e) => r == Err::<Option<SnapshotPlan>, Error>(Error::Wal(e)),
                Ok(st) => r matches Ok(Some(p)) && snapshot_seen(
                    scan(wal.contents(), st, synced_end as int).0,
                    st.page_size,
                    scan(wal.contents(), st, synced_end as int).1,
                    db_len,
                    page_size,
                    txid,
                    p,
                ),
            },
        },
{
    if txid.0 == 0 {
        return Ok(None);
    }
    let mut rd = match WalReader::new(wal) {
        Ok(rd) => rd,
        Err(e) => return Err(Error::Wal(e)),
    };
    let ghost st = rd.state();
    let pm = match rd.page_map_until(synced_end) {
        Ok(pm) => pm,
        Err(e) => return Err(Error::Wal(e)),
    };
    let ghost seen = scan(wal.contents(), st, synced_end as int).0;
    let ghost after = scan(wal.contents(), st, synced_end as int).1;
    proof {
        assert(maps_pages(pm, seen, st.page_size));
        assert forall|p: u32| #[trigger] pm.pages@.contains_key(p) implies pm.pages@[p]
            + WAL_FRAME_HEADER_SIZE <= u64::MAX by {
            assert(committed_pages(seen) != Map::<u32, u64>::empty());
        }
    }
    let commit: u32 = if pm.commit > 0 {
        pm.commit
    } else {
        (db_len / page_size as u64) as u32
    };
    let wal_offset = rd.offset();
    let wal_size: u64 = pm.max_offset.saturating_sub(wal_offset);
    let (wal_salt1, wal_salt2) = if wal_offset == 0 {
        (0u32, 0u32)
    } else {
        rd.salts()
    };
    let pages = plan_image(&pm.pages, commit, page_size);
    let p = SnapshotPlan {
        flags: file_flags(),
        commit,
        min_txid: Txid(1),
        max_txid: txid,
        wal_offset,
        wal_size,
        wal_salt1,
        wal_salt2,
        pages,
    };
    assert(snapshot_seen(seen, st.page_size, after, db_len, page_size, txid, p));
    Ok(Some(p))
}

/// How many pages of a snapshot are written between two looks at the
/// cancellation.
pub const POLL_PAGES: u32 = 256;

/// Whether the writing of a snapshot looks at the cancellation before this
/// page.
pub fn polls_at(pgno: u32) -> (r: bool)
    ensures
        r == (pgno % POLL_PAGES == 0),
{
    pgno % POLL_PAGES == 0
}

/// Where a page is read from, in words.
pub open spec fn source_name(source: PageSource) -> Seq<char> {
    match source {
        PageSource::Wal(_) => "wal"@,
        PageSource::Db(_) => "db"@,
    }
}

/// What is said of a page of a snapshot that cannot be read: a read that fell
/// short names the page and where it was read from, and any other failure
/// stays as it is.
pub fn page_failure(e: Error, source: PageSource, pgno: u32) -> (r: Error)
    ensures
        match e {
            Error::Io(io) => if io.kind == ErrorKind::UnexpectedEof {
                r matches Error::Other(m) && m@ == "short "@ + source_name(source)
                    + " read for page "@ + decimal(pgno as int)
            } else {
                r == e
            },
            _ => r == e,
        },
{
    match e {
        Error::Io(io) => {
            if io.kind != ErrorKind::UnexpectedEof {
                return Error::Io(io);
            }
            let from = match source {
                PageSource::Wal(_) => "wal",
                PageSource::Db(_) => "db",
            };
            let mut m = crate::error::join("short ", from);
            m.append(" read for page ");
            m.append(text::decimal_text(pgno as u64).as_str());
            Error::Other(m)
        },
        e => e,
    }
}

/// Retention looks at the age of a snapshot alone: one that is deleted was
/// created longer ago than the retention, and another one reaches further; the
/// first that is left is the furthest reaching, or was created within the
/// retention, or nobody knows when. If no clock can show the time so long
/// ago, the Unix epoch takes its place.
pub proof fn law_snapshots_within_retention_stay(
    files: Seq<FileInfo>,
    retention: Span,
    now: i128,
)
    ensures
        ({
            let n = expired_len(files, max_seen(files, Txid(0)), time_before(now, retention));
            &&& 0 <= n <= files.len()
            &&& forall|i: int|
                0 <= i < n ==> {
                    &&& (#[trigger] files[i]).created_at is Some
                    &&& span_on_clock(retention, now) ==> now - files[i].created_at->0
                        > retention.nanos
                    &&& !span_on_clock(retention, now) ==> files[i].created_at->0 < 0
                    &&& exists|j: int|
                        0 <= j < files.len() && (#[trigger] files[j]).max_txid.0
                            > files[i].max_txid.0
                }
            &&& n < files.len() ==> {
                ||| files[n].created_at is None
                ||| span_on_clock(retention, now) && now - files[n].created_at->0
                    <= retention.nanos
                ||| !span_on_clock(retention, now) && files[n].created_at->0 >= 0
                ||| forall|j: int|
                    0 <= j < files.len() ==> (#[trigger] files[j]).max_txid.0
                        <= files[n].max_txid.0
            }
        }),
{
    let newest = max_seen(files, Txid(0));
    let cut = time_before(now, retention);
    let n = expired_len(files, newest, cut);
    lemma_expired_prefix(files, newest, cut);
    lemma_expired_end(files, newest, cut);
    crate::sync::lemma_max_seen(files, Txid(0));
    if files.len() > 0 {
        lemma_max_is_there(files);
        let j = choose|j: int|
            0 <= j < files.len() && (#[trigger] files[j]).max_txid == newest;
        assert forall|i: int| 0 <= i < n implies exists|j: int|
            0 <= j < files.len() && (#[trigger] files[j]).max_txid.0 > (
            #[trigger] files[i]).max_txid.0 by {
            assert(files[j].max_txid.0 > files[i].max_txid.0);
        }
    }
}

proof fn lemma_expired_end(files: Seq<FileInfo>, newest: Txid, cut: int)
    ensures
        ({
            let n = expired_len(files, newest, cut);
            0 <= n < files.len() ==> !expired(files[n], newest, cut)
        }),
    decreases files.len(),
{
    if files.len() > 0 && expired(files[0], newest, cut) {
        lemma_expired_prefix(files.skip(1), newest, cut);
        lemma_expired_end(files.skip(1), newest, cut);
    }
}

proof fn lemma_l0_end(files: Seq<FileInfo>, max_l1: Txid, newest: Txid, cut: int)
    ensures
        ({
            let n = l0_old_len(files, max_l1, newest, cut);
            0 <= n < files.len() ==> !l0_old(files[n], max_l1, newest, cut)
        }),
    decreases files.len(),
{
    if files.len() > 0 && l0_old(files[0], max_l1, newest, cut) {
        lemma_l0_prefix(files.skip(1), max_l1, newest, cut);
        lemma_l0_end(files.skip(1), max_l1, newest, cut);
    }
}

/// A level-0 file that is deleted is covered by level 1, is at least as old
/// as the grace period, and another one reaches further; the first that is
/// left lacks one of the three.
pub proof fn law_l0_files_within_grace_stay(
    files: Seq<FileInfo>,
    max_l1: Txid,
    grace: Span,
    now: i128,
)
    ensures
        ({
            let n = l0_old_len(files, max_l1, max_seen(files, Txid(0)), time_before(now, grace));
            &&& 0 <= n <= files.len()
            &&& forall|i: int|
                0 <= i < n ==> {
                    &&& (#[trigger] files[i]).max_txid.0 <= max_l1.0
                    &&& files[i].created_at is Some
                    &&& span_on_clock(grace, now) ==> now - files[i].created_at->0 >= grace.nanos
                    &&& !span_on_clock(grace, now) ==> files[i].created_at->0 <= 0
                    &&& exists|j: int|
                        0 <= j < files.len() && (#[trigger] files[j]).max_txid.0
                            > files[i].max_txid.0
                }
            &&& n < files.len() ==> {
                ||| files[n].max_txid.0 > max_l1.0
                ||| files[n].created_at is None
                ||| span_on_clock(grace, now) && now - files[n].created_at->0 < grace.nanos
                ||| !span_on_clock(grace, now) && files[n].created_at->0 > 0
                ||| forall|j: int|
                    0 <= j < files.len() ==> (#[trigger] files[j]).max_txid.0
                        <= files[n].max_txid.0
            }
        }),
{
    let newest = max_seen(files, Txid(0));
    let cut = time_before(now, grace);
    let n = l0_old_len(files, max_l1, newest, cut);
    lemma_l0_prefix(files, max_l1, newest, cut);
    lemma_l0_end(files, max_l1, newest, cut);
    crate::sync::lemma_max_seen(files, Txid(0));
    if files.len() > 0 {
        lemma_max_is_there(files);
        let j = choose|j: int|
            0 <= j < files.len() && (#[trigger] files[j]).max_txid == newest;
        assert forall|i: int| 0 <= i < n implies exists|j: int|
            0 <= j < files.len() && (#[trigger] files[j]).max_txid.0 > (
            #[trigger] files[i]).max_txid.0 by {
            assert(files[j].max_txid.0 > files[i].max_txid.0);
        }
    }
}

/// What falls below the floor is all that ends before it, in the order in
/// which it was listed, and nothing else.
pub proof fn law_everything_below_the_floor_goes(files: Seq<FileInfo>, floor: Txid, k: int)
    requires
        0 <= k < files.len(),
    ensures
        below(files, floor).contains(files[k]) <==> files[k].max_txid.0 < floor.0,
    decreases files.len(),
{
    lemma_below(files, floor, files[k]);
    let t = files.drop_last();
    if files[k].max_txid.0 < floor.0 {
        if k == files.len() - 1 {
            let b = below(files, floor);
            assert(b[b.len() - 1] == files[k]);
        } else {
            law_everything_below_the_floor_goes(t, floor, k);
            let b = below(t, floor);
            let i = choose|i: int| 0 <= i < b.len() && b[i] == t[k];
            assert(below(files, floor)[i] == files[k]);
        }
    }
}

/// Something is due once its interval has passed since the newest file was
/// created, and not a moment earlier; without a file, or without its time of
/// creation, it is due at once.
pub proof fn law_due_once_the_interval_has_passed(f: FileInfo, interval: Span, now: i128)
    ensures
        due(None, interval, now),
        f.created_at is None ==> due(Some(f), interval, now),
        f.created_at is Some && interval.nanos > 0 ==> (due(Some(f), interval, now)
            <==> f.created_at->0 + interval.nanos <= now),
        interval.nanos == 0 ==> due(Some(f), interval, now),
{
}

/// Merging covers its sources exactly: each lies within the range, and both
/// ends of the range are ends of sources.
pub proof fn law_merged_range_spans_its_sources(srcs: Seq<FileInfo>)
    requires
        srcs.len() > 0,
    ensures
        ({
            let min = min_seen(srcs, Txid(u64::MAX));
            let max = max_seen(srcs, Txid(0));
            &&& forall|i: int|
                0 <= i < srcs.len() ==> min.0 <= (#[trigger] srcs[i]).min_txid.0
                    && srcs[i].max_txid.0 <= max.0
            &&& exists|i: int| 0 <= i < srcs.len() && (#[trigger] srcs[i]).min_txid == min
            &&& exists|i: int| 0 <= i < srcs.len() && (#[trigger] srcs[i]).max_txid == max
        }),
{
    crate::sync::lemma_max_seen(srcs, Txid(0));
    lemma_max_is_there(srcs);
    lemma_min_seen(srcs);
}

proof fn lemma_min_seen(srcs: Seq<FileInfo>)
    ensures
        forall|i: int|
            0 <= i < srcs.len() ==> min_seen(srcs, Txid(u64::MAX)).0 <= (
            #[trigger] srcs[i]).min_txid.0,
        srcs.len() > 0 ==> exists|i: int|
            0 <= i < srcs.len() && (#[trigger] srcs[i]).min_txid == min_seen(
                srcs,
                Txid(u64::MAX),
            ),
    decreases srcs.len(),
{
    if srcs.len() > 0 {
        let t = srcs.drop_last();
        let m = min_seen(srcs, Txid(u64::MAX));
        lemma_min_seen(t);
        assert forall|i: int| 0 <= i < srcs.len() implies m.0 <= (
        #[trigger] srcs[i]).min_txid.0 by {
            if i < t.len() {
                assert(srcs[i] == t[i]);
            }
        }
        if srcs.last().min_txid.0 < min_seen(t, Txid(u64::MAX)).0 || t.len() == 0 {
            assert(srcs[srcs.len() - 1].min_txid == m);
        } else {
            let i = choose|i: int|
                0 <= i < t.len() && (#[trigger] t[i]).min_txid == min_seen(t, Txid(u64::MAX));
            assert(srcs[i].min_txid == m);
        }
    }
}

} // verus!
