//! What an incremental sync does with the listings that it is given.
//!
//! The laws speak of the transactions in the listings and of what the sync
//! asks for next. The bucket's listings are given by level: the listing of
//! level `l` is the `l`-th.
use crate::ltx::{FileInfo, Txid, SNAPSHOT_LEVEL};
use crate::sync::{
    asks, lemma_max_seen, lemma_newest_of, newest_of, on_applied, on_clear, on_listed,
    on_missing, on_persisted, room, skip_applied, steps_to, sync_ok, Phase, SyncAction, SyncState,
};
use vstd::prelude::*;

verus! {

/// What a sync becomes when it is given the listings of `level` and of all
/// levels below it, one after the other.
pub open spec fn given_bucket(s: SyncState, listings: Seq<Seq<FileInfo>>, level: nat) -> SyncState
    decreases level,
{
    let t = on_listed(s, listings[level as int]);
    if level == 0 {
        t
    } else {
        given_bucket(t, listings, (level - 1) as nat)
    }
}

/// Whether a file that is listed on `level` or below ends at `m` or later.
pub open spec fn reaches(listings: Seq<Seq<FileInfo>>, level: int, m: int) -> bool {
    exists|l: int, k: int|
        0 <= l <= level && 0 <= k < listings[l].len() && (#[trigger] listings[l][k]).max_txid.0
            >= m
}

/// Whether one of `files` ends at `m` or later.
pub open spec fn one_reaches(files: Seq<FileInfo>, m: int) -> bool {
    exists|k: int| 0 <= k < files.len() && (#[trigger] files[k]).max_txid.0 >= m
}

proof fn lemma_reaches_step(listings: Seq<Seq<FileInfo>>, level: int, m: int)
    requires
        level >= 0,
    ensures
        reaches(listings, level, m) <==> one_reaches(listings[level], m) || (level > 0 && reaches(
            listings,
            level - 1,
            m,
        )),
{
    let files = listings[level];
    if one_reaches(files, m) {
        let k = choose|k: int| 0 <= k < files.len() && (#[trigger] files[k]).max_txid.0 >= m;
        assert(listings[level][k].max_txid.0 >= m);
    }
    if level > 0 && reaches(listings, level - 1, m) {
        let (l, k) = choose|l: int, k: int|
            0 <= l <= level - 1 && 0 <= k < listings[l].len() && (
            #[trigger] listings[l][k]).max_txid.0 >= m;
        assert(listings[l][k].max_txid.0 >= m);
    }
    if reaches(listings, level, m) {
        let (l, k) = choose|l: int, k: int|
            0 <= l <= level && 0 <= k < listings[l].len() && (
            #[trigger] listings[l][k]).max_txid.0 >= m;
        if l < level {
            assert(listings[l][k].max_txid.0 >= m);
        } else {
            assert(files[k].max_txid.0 >= m);
        }
    }
}

proof fn lemma_bucket_max(s: SyncState, listings: Seq<Seq<FileInfo>>, level: nat, m: int)
    requires
        s.phase == Phase::ListBucket(level as u8),
        level <= SNAPSHOT_LEVEL,
        m > 0,
    ensures
        given_bucket(s, listings, level).bucket_max.0 >= m <==> s.bucket_max.0 >= m || reaches(
            listings,
            level as int,
            m,
        ),
    decreases level,
{
    let files = listings[level as int];
    let t = on_listed(s, files);
    lemma_max_seen(files, s.bucket_max);
    crate::fence::lemma_max_from(files, s.bucket_max);
    lemma_reaches_step(listings, level as int, m);
    if t.bucket_max.0 >= m && s.bucket_max.0 < m {
        let k = choose|k: int|
            0 <= k < files.len() && (#[trigger] files[k]).max_txid == t.bucket_max;
        assert(files[k].max_txid.0 >= m);
    }
    if level > 0 {
        lemma_bucket_max(t, listings, (level - 1) as nat, m);
    }
}

proof fn lemma_given_bucket(s: SyncState, listings: Seq<Seq<FileInfo>>, level: nat)
    requires
        s.phase == Phase::ListBucket(level as u8),
        level <= SNAPSHOT_LEVEL,
    ensures
        given_bucket(s, listings, level).from == s.from,
        given_bucket(s, listings, level).current == s.current,
        given_bucket(s, listings, level).saw_missing == s.saw_missing,
        given_bucket(s, listings, level).newest == (if level == SNAPSHOT_LEVEL {
            newest_of(listings[level as int])
        } else {
            s.newest
        }),
        ({
            let t = given_bucket(s, listings, level);
            &&& t.bucket_max.0 == 0 ==> t.phase is Finished
            &&& 0 < t.bucket_max.0 < s.current.0 ==> t.phase is Diverged
            &&& 0 < t.bucket_max.0 && t.bucket_max.0 >= s.current.0 ==> if t.newest is Some
                && t.newest->0.max_txid.0 > s.current.0 {
                t.phase is CheckSnapshot
            } else {
                t.phase == if s.current.0 > s.from.0 {
                    Phase::Persist
                } else {
                    Phase::Finished
                }
            }
        }),
    decreases level,
{
    if level > 0 {
        lemma_given_bucket(on_listed(s, listings[level as int]), listings, (level - 1) as nat);
    }
}

/// A sync that made no progress and is given the whole bucket applies a
/// snapshot exactly if one ends after its position, and then one that ends as
/// late as any; whatever else the bucket has makes no difference. The next
/// thing it asks for is leave, and then that snapshot.
pub proof fn law_later_snapshot_is_applied(s: SyncState, listings: Seq<Seq<FileInfo>>, k: int)
    requires
        sync_ok(s),
        s.phase == Phase::ListBucket(SNAPSHOT_LEVEL),
        s.bucket_max.0 == 0,
        listings.len() == 10,
        0 <= k < listings[9].len(),
        listings[9][k].max_txid.0 > s.current.0,
    ensures
        ({
            let t = given_bucket(s, listings, 9);
            &&& asks(t, SyncAction::CheckCancel)
            &&& t.newest is Some
            &&& asks(on_clear(t), SyncAction::Apply(t.newest->0))
            &&& listings[9].contains(t.newest->0)
            &&& forall|i: int|
                0 <= i < listings[9].len() ==> (#[trigger] listings[9][i]).max_txid.0
                    <= t.newest->0.max_txid.0
            &&& on_applied(on_clear(t)).current == t.newest->0.max_txid
            &&& asks(on_applied(on_clear(t)), SyncAction::Persist(t.newest->0.max_txid))
        }),
{
    lemma_given_bucket(s, listings, 9);
    lemma_newest_of(listings[9]);
    let m = listings[9][k].max_txid.0 as int;
    assert(listings[9][k].max_txid.0 >= m);
    assert(reaches(listings, 9, m));
    lemma_bucket_max(s, listings, 9, m);
}

/// A sync that made no progress and is given a bucket without a later
/// snapshot ends where it is, unless the bucket has files and all of them end
/// before that: then it reports divergence, with the bucket's last
/// transaction.
pub proof fn law_unmoved_sync_tells_current_from_diverged(
    s: SyncState,
    listings: Seq<Seq<FileInfo>>,
)
    requires
        sync_ok(s),
        s.phase == Phase::ListBucket(SNAPSHOT_LEVEL),
        s.bucket_max.0 == 0,
        listings.len() == 10,
        forall|k: int|
            0 <= k < listings[9].len() ==> (#[trigger] listings[9][k]).max_txid.0 <= s.current.0,
    ensures
        ({
            let t = given_bucket(s, listings, 9);
            &&& reaches(listings, 9, 1) && !reaches(listings, 9, s.current.0 as int) ==> {
                &&& t.phase is Diverged
                &&& reaches(listings, 9, t.bucket_max.0 as int)
                &&& !reaches(listings, 9, t.bucket_max.0 + 1)
                &&& asks(
                    t,
                    SyncAction::Finish(
                        Err(
                            crate::error::Error::Diverged {
                                local: s.from,
                                remote: t.bucket_max,
                            },
                        ),
                    ),
                )
            }
            &&& !reaches(listings, 9, 1) || reaches(listings, 9, s.current.0 as int) ==> asks(
                t,
                SyncAction::Finish(Ok(s.from)),
            )
        }),
{
    lemma_given_bucket(s, listings, 9);
    lemma_newest_of(listings[9]);
    let t = given_bucket(s, listings, 9);
    lemma_bucket_max(s, listings, 9, 1);
    lemma_bucket_max(s, listings, 9, t.bucket_max.0 + 1);
    if s.current.0 > 0 {
        lemma_bucket_max(s, listings, 9, s.current.0 as int);
    }
    if t.bucket_max.0 > 0 {
        lemma_bucket_max(s, listings, 9, t.bucket_max.0 as int);
    }
}

/// A sync ends with success at the position it started from only after it was
/// given the whole bucket, or because a listed file was gone; without progress
/// and without such a file, it asks for the bucket.
pub proof fn law_unmoved_sync_looks_at_the_bucket(
    s: SyncState,
    files: Seq<FileInfo>,
    t: SyncState,
)
    requires
        sync_ok(s),
        room(files),
        steps_to(s, files, t),
        t.current == t.from,
        t.phase is Finished,
        s.phase !is Finished,
    ensures
        (s.phase == Phase::ListBucket(0) && t == on_listed(s, files)) || t.saw_missing || (
        s.phase is ApplyL0 && t == on_missing(s)),
{
    crate::sync::lemma_steps_keep_ok(s, files);
}

/// The bucket is asked for from the snapshots down to level 0, in full, and
/// what was seen before does not count.
pub proof fn law_bucket_is_listed_in_full(s: SyncState, files: Seq<FileInfo>, t: SyncState)
    requires
        sync_ok(s),
        room(files),
        steps_to(s, files, t),
        t.phase is ListBucket,
    ensures
        s.phase !is ListBucket ==> t.phase == Phase::ListBucket(9) && t.bucket_max.0 == 0
            && asks(t, SyncAction::List { level: 9, seek: Txid(0) }),
        s.phase is ListBucket && t == on_listed(s, files) ==> asks(
            t,
            SyncAction::List { level: (s.phase->ListBucket_0 - 1) as u8, seek: Txid(0) },
        ),
{
    crate::sync::lemma_steps_keep_ok(s, files);
}

/// Whether a file adds something to a position without leaving a hole before
/// it.
pub open spec fn extends(f: FileInfo, at: Txid) -> bool {
    f.min_txid.0 - 1 <= at.0 < f.max_txid.0
}

/// Level-0 files are taken in the order listed. One that extends the position
/// is applied, and the position is then its end; one that the position covers
/// is passed over; one behind a hole makes the sync look for a bridge, from
/// level 1 on.
pub proof fn law_l0_files_are_taken_in_order(s: SyncState)
    requires
        sync_ok(s),
        s.phase is CheckL0,
    ensures
        ({
            let f = s.l0[s.i];
            let t = on_clear(s);
            &&& extends(f, s.current) ==> {
                &&& asks(t, SyncAction::Apply(f))
                &&& on_applied(t).current == f.max_txid
                &&& s.i + 1 < s.l0.len() ==> asks(on_applied(t), SyncAction::CheckCancel)
                    && on_applied(t).i == s.i + 1 && on_applied(t).l0 == s.l0
                    && on_applied(t).phase is CheckL0
            }
            &&& f.min_txid.0 <= s.current.0 + 1 && f.max_txid.0 <= s.current.0 ==> {
                &&& t.current == s.current
                &&& s.i + 1 < s.l0.len() ==> asks(t, SyncAction::CheckCancel) && t.i == s.i + 1
                    && t.l0 == s.l0 && t.phase is CheckL0
            }
            &&& f.min_txid.0 > s.current.0 + 1 ==> {
                &&& asks(t, SyncAction::List { level: 1, seek: Txid(0) })
                &&& t.current == s.current && t.gap_after == s.current && t.gap_min == f.min_txid
                &&& t.resume && t.i == s.i && t.l0 == s.l0
            }
        }),
{
}

/// A sync starts with the level-0 files after its position. Without any it
/// looks for a bridge, from level 1 on, to the very next transaction.
pub proof fn law_sync_starts_with_level_0(s: SyncState, files: Seq<FileInfo>)
    requires
        sync_ok(s),
        room(files),
        s.phase is ListL0,
    ensures
        asks(s, SyncAction::List { level: 0, seek: Txid((s.current.0 + 1) as u64) }),
        files.len() > 0 ==> {
            let t = on_listed(s, files);
            t.phase is CheckL0 && asks(t, SyncAction::CheckCancel) && t.l0 == files && t.i == 0
        },
        files.len() == 0 ==> {
            let t = on_listed(s, files);
            asks(t, SyncAction::List { level: 1, seek: Txid(0) }) && t.gap_after == s.current
                && t.gap_min.0 == s.current.0 + 1 && !t.resume
        },
{
}

proof fn lemma_skip_covered(files: Seq<FileInfo>, j: int, k: int, at: Txid)
    requires
        0 <= j <= k <= files.len(),
        forall|i: int|
            j <= i < k ==> (#[trigger] files[i]).min_txid.0 <= at.0 + 1 && files[i].max_txid.0
                <= at.0,
        k < files.len() ==> files[k].min_txid.0 > at.0 + 1 || files[k].max_txid.0 > at.0,
    ensures
        skip_applied(files, j, at) == k,
    decreases k - j,
{
    if j < k {
        assert(files[j].max_txid.0 <= at.0);
        lemma_skip_covered(files, j + 1, k, at);
    }
}

/// A bridge is looked for on the levels 1 to 8, lowest first. On a level, the
/// files that the position covers are passed over, up to the first that
/// extends the position: that one is applied. If there is none before the
/// first that would leave a hole, the next level is asked for, and after the
/// last level the bridging ends.
pub proof fn law_bridge_is_the_first_file_that_extends(
    s: SyncState,
    level: u8,
    files: Seq<FileInfo>,
    k: int,
)
    requires
        sync_ok(s),
        room(files),
        s.phase == Phase::ListGap(level),
        s.current == s.gap_after,
        0 <= k <= files.len(),
        forall|i: int|
            0 <= i < k ==> (#[trigger] files[i]).min_txid.0 <= s.current.0 + 1
                && files[i].max_txid.0 <= s.current.0,
        k < files.len() ==> files[k].min_txid.0 > s.current.0 + 1 || files[k].max_txid.0
            > s.current.0,
    ensures
        ({
            let t = on_listed(s, files);
            &&& k < files.len() && extends(files[k], s.current) ==> {
                &&& asks(t, SyncAction::CheckCancel)
                &&& asks(on_clear(t), SyncAction::Apply(files[k]))
                &&& on_applied(on_clear(t)).current == files[k].max_txid
            }
            &&& (k == files.len() || !extends(files[k], s.current)) && level < 8 ==> asks(
                t,
                SyncAction::List { level: (level + 1) as u8, seek: Txid(0) },
            ) && t.current == s.current && t.gap_after == s.gap_after && t.gap_min == s.gap_min
                && t.resume == s.resume && t.l0 == s.l0 && t.i == s.i
            &&& (k == files.len() || !extends(files[k], s.current)) && level == 8 && !s.resume
                && s.current == s.from ==> (if s.saw_missing {
                asks(t, SyncAction::Finish(Ok(s.from)))
            } else {
                asks(t, SyncAction::List { level: 9, seek: Txid(0) })
            })
        }),
{
    lemma_skip_covered(files, 0, k, s.current);
}

/// After a bridging file the level-0 file that waited is applied as soon as it
/// extends the position; while a hole is left before it, the next file of the
/// same level that extends the position is applied.
pub proof fn law_bridging_goes_on_until_the_hole_is_closed(s: SyncState, level: u8, k: int)
    requires
        sync_ok(s),
        s.phase == Phase::ApplyGap(level),
        s.j < k <= s.gap.len(),
        ({
            let at = s.gap[s.j].max_txid;
            &&& forall|i: int|
                s.j < i < k ==> (#[trigger] s.gap[i]).min_txid.0 <= at.0 + 1
                    && s.gap[i].max_txid.0 <= at.0
            &&& k < s.gap.len() ==> s.gap[k].min_txid.0 > at.0 + 1 || s.gap[k].max_txid.0 > at.0
        }),
    ensures
        ({
            let at = s.gap[s.j].max_txid;
            let t = on_applied(s);
            &&& t.current == at
            &&& s.gap_min.0 > at.0 + 1 && k < s.gap.len() && extends(s.gap[k], at) ==> {
                &&& asks(t, SyncAction::CheckCancel)
                &&& asks(on_clear(t), SyncAction::Apply(s.gap[k]))
            }
            &&& s.resume && s.gap_min.0 <= at.0 + 1 && extends(s.l0[s.i], at) ==> asks(
                t,
                SyncAction::Apply(s.l0[s.i]),
            )
            &&& s.resume && s.gap_min.0 <= at.0 + 1 && s.l0[s.i].max_txid.0 <= at.0 && s.i + 1
                < s.l0.len() ==> t.phase is CheckL0 && t.i == s.i + 1
            &&& !s.resume && s.gap_min.0 <= at.0 + 1 ==> asks(t, SyncAction::Persist(at))
        }),
{
    let at = s.gap[s.j].max_txid;
    lemma_skip_covered(s.gap, s.j + 1, k, at);
}

/// A sync that moved records where it is before it ends, and ends there.
pub proof fn law_moved_sync_records_its_position(s: SyncState, files: Seq<FileInfo>, t: SyncState)
    requires
        sync_ok(s),
        room(files),
        steps_to(s, files, t),
        t.phase is Persist,
    ensures
        t.current.0 > t.from.0,
        asks(t, SyncAction::Persist(t.current)),
        asks(on_persisted(t), SyncAction::Finish(Ok(t.current))),
{
    crate::sync::lemma_steps_keep_ok(s, files);
}

/// A level-0 file that is gone ends the sync where it is, and a bridging file
/// that is gone is remembered, with the position unchanged; a snapshot that is
/// gone is an error that names it.
pub proof fn law_missing_file_leaves_the_position(s: SyncState)
    requires
        sync_ok(s),
    ensures
        on_missing(s).current == s.current,
        s.phase is ApplyL0 && s.current == s.from ==> asks(
            on_missing(s),
            SyncAction::Finish(Ok(s.from)),
        ),
        s.phase is ApplyL0 && s.current != s.from ==> asks(
            on_missing(s),
            SyncAction::Persist(s.current),
        ),
        s.phase is ApplyGap ==> on_missing(s).saw_missing,
        s.phase is ApplySnapshot ==> asks(
            on_missing(s),
            SyncAction::Finish(
                Err(
                    crate::error::Error::Storage(
                        crate::error::StorageError::NotFound {
                            level: s.newest->0.level,
                            min_txid: s.newest->0.min_txid,
                            max_txid: s.newest->0.max_txid,
                        },
                    ),
                ),
            ),
        ),
{
}

} // verus!
