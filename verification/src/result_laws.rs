//! What single calls come to, in transactions, times and bytes.
use crate::compaction::{
    cascade_deletable, compact_range, compact_seek, expire_snapshots, l0_deletable,
    law_everything_below_the_floor_goes, law_l0_files_within_grace_stay,
    law_merged_range_spans_its_sources, law_snapshots_within_retention_stay, level_due, on_clock,
    plan_snapshot, span_on_clock, SnapshotPlan, SnapshotRetention,
};
use crate::error::Error;
use crate::fence::{
    bucket_is_open_to, check_fence, commit_lease, law_l0_pushes_in_order_are_let_in,
    law_lease_decides_by_the_owner, FenceListing, FencePass, FenceReject, PutTarget,
    WriterLease,
};
use crate::io::ErrorKind;
use crate::ltx::{FileInfo, Txid};
use crate::maintenance_laws::law_snapshot_spans_everything;
use crate::replica::check_page_size;
use crate::restore::{ApplyAction, ApplyEvent, ApplyRun};
use crate::sync::{lemma_max_seen, room, IncrementalSync, Phase, SyncAction};
use crate::time::Span;
use crate::wal::{calc_wal_size, header_of, maps_pages, scan, PageMap, ReadAt};
use crate::wal_format_laws::law_page_map_ends_with_the_commit;
use crate::wire::header_seq;
use crate::writer::{
    check_behind_remote, known_position, log_start, opened_state, plan_sync, read_full_at,
    sync_plan_for, SyncInfo, SyncOutcome, SyncPlan, SyncState,
};
use vstd::prelude::*;

verus! {

// ---------------------------------------------------------------------------
// The fence

/// A push to a higher level is let in exactly if nobody else holds the bucket
/// and it ends no later than the bucket does; then its writer's id is what is
/// claimed.
pub proof fn law_fence_lets_in_what_the_bucket_covers(
    lease: Option<WriterLease>,
    ttl: Span,
    now: u128,
    headers: &[(String, String)],
    p: PutTarget,
    bucket_max: Txid,
    r: Result<FencePass, FenceReject>,
)
    requires
        p.level != 0,
        call_ensures(
            check_fence,
            (&lease, ttl, now, headers, Some(p), FenceListing::Bucket(Ok(bucket_max))),
            r,
        ),
    ensures
        r is Ok <==> bucket_is_open_to(lease, ttl, now, header_seq(headers@)) && p.max_txid.0
            <= bucket_max.0,
        r is Ok ==> r->Ok_0.existing_l0 is None,
        r is Err ==> r->Err_0 is Conflict,
{
    law_lease_decides_by_the_owner(
        lease,
        ttl,
        now,
        header_seq(headers@),
        Some(p),
        FenceListing::Bucket(Ok(bucket_max)),
    );
}

/// A level-0 push is let in exactly if nobody else holds the bucket and it
/// starts an empty bucket, goes on right behind the last transaction listed,
/// or repeats a listed file, which the answer then names.
pub proof fn law_fence_keeps_level_0_in_order(
    lease: Option<WriterLease>,
    ttl: Span,
    now: u128,
    headers: &[(String, String)],
    p: PutTarget,
    files: Vec<FileInfo>,
    r: Result<FencePass, FenceReject>,
)
    requires
        p.level == 0,
        call_ensures(
            check_fence,
            (&lease, ttl, now, headers, Some(p), FenceListing::L0(Ok(files))),
            r,
        ),
    ensures
        ({
            let repeated = exists|k: int|
                0 <= k < files@.len() && (#[trigger] files@[k]).min_txid == p.min_txid
                    && files@[k].max_txid == p.max_txid;
            let next = files@.len() == 0 || ((forall|k: int|
                0 <= k < files@.len() ==> (#[trigger] files@[k]).max_txid.0 < p.min_txid.0) && (
            exists|k: int|
                0 <= k < files@.len() && (#[trigger] files@[k]).max_txid.0 + 1 == p.min_txid.0));
            &&& r is Ok <==> bucket_is_open_to(lease, ttl, now, header_seq(headers@)) && (next
                || repeated)
            &&& r is Ok ==> (r->Ok_0.existing_l0 is Some <==> repeated)
            &&& r is Err ==> r->Err_0 is Conflict
        }),
{
    let h = header_seq(headers@);
    law_lease_decides_by_the_owner(lease, ttl, now, h, Some(p), FenceListing::L0(Ok(files)));
    if bucket_is_open_to(lease, ttl, now, h) {
        law_l0_pushes_in_order_are_let_in(lease, ttl, now, h, p, files);
    }
}

// ---------------------------------------------------------------------------
// Retention

/// Snapshots go from the oldest on, as long as each was made longer ago than
/// they are retained and another reaches further; the first for which that
/// does not hold stays, with all behind it. Everything up to the last one that
/// went may go from the lower levels, if any went and any stayed.
pub proof fn law_expired_snapshots_go(
    snapshots: &Vec<FileInfo>,
    retention: Span,
    now: i128,
    r: SnapshotRetention,
)
    requires
        on_clock(now),
        span_on_clock(retention, now),
        call_ensures(expire_snapshots, (snapshots, retention, now), r),
    ensures
        ({
            let n = r.expired@.len() as int;
            let f = snapshots@;
            &&& n <= f.len()
            &&& forall|i: int|
                0 <= i < n ==> {
                    &&& (#[trigger] r.expired@[i]) == f[i]
                    &&& f[i].created_at is Some
                    &&& f[i].created_at->0 + retention.nanos < now
                    &&& exists|j: int|
                        0 <= j < f.len() && (#[trigger] f[j]).max_txid.0 > f[i].max_txid.0
                }
            &&& n < f.len() ==> {
                ||| f[n].created_at is None
                ||| f[n].created_at->0 + retention.nanos >= now
                ||| forall|j: int|
                    0 <= j < f.len() ==> (#[trigger] f[j]).max_txid.0 <= f[n].max_txid.0
            }
            &&& 0 < n < f.len() ==> r.floor == f[n - 1].max_txid
            &&& n == 0 || n == f.len() ==> r.floor.0 == 0
        }),
{
    law_snapshots_within_retention_stay(snapshots@, retention, now);
}

/// Level-0 files go from the oldest on, as long as level 1 covers each, each
/// was made at least the grace period ago and another reaches further; none
/// goes while level 1 is empty.
pub proof fn law_covered_l0_files_go(
    files: &Vec<FileInfo>,
    max_l1: Txid,
    grace: Span,
    now: i128,
    r: Vec<FileInfo>,
)
    requires
        on_clock(now),
        span_on_clock(grace, now),
        call_ensures(l0_deletable, (files, max_l1, grace, now), r),
    ensures
        ({
            let n = r@.len() as int;
            let f = files@;
            &&& n <= f.len()
            &&& max_l1.0 == 0 ==> n == 0
            &&& forall|i: int|
                0 <= i < n ==> {
                    &&& (#[trigger] r@[i]) == f[i]
                    &&& f[i].max_txid.0 <= max_l1.0
                    &&& f[i].created_at is Some
                    &&& f[i].created_at->0 + grace.nanos <= now
                    &&& exists|j: int|
                        0 <= j < f.len() && (#[trigger] f[j]).max_txid.0 > f[i].max_txid.0
                }
            &&& max_l1.0 != 0 && n < f.len() ==> {
                ||| f[n].max_txid.0 > max_l1.0
                ||| f[n].created_at is None
                ||| f[n].created_at->0 + grace.nanos > now
                ||| forall|j: int|
                    0 <= j < f.len() ==> (#[trigger] f[j]).max_txid.0 <= f[n].max_txid.0
            }
        }),
{
    law_l0_files_within_grace_stay(files@, max_l1, grace, now);
}

/// Of a level below the snapshots, exactly the files go that end before the
/// floor, but never the last one listed, and none without a floor.
pub proof fn law_files_below_the_floor_go(files: &Vec<FileInfo>, floor: Txid, r: Vec<FileInfo>, k: int)
    requires
        call_ensures(cascade_deletable, (files, floor), r),
        0 <= k < files@.len() - 1,
    ensures
        r@.contains(files@[k]) <==> files@[k].max_txid.0 < floor.0,
        r@.len() < files@.len(),
{
    let t = files@.drop_last();
    assert(t[k] == files@[k]);
    law_everything_below_the_floor_goes(t, floor, k);
    crate::compaction::lemma_below_len(t, floor);
}

/// A level is due once its interval has passed since its newest file was
/// made; what is then merged starts right behind that file and spans the
/// sources exactly.
pub proof fn law_due_levels_go_on_behind_their_newest_file(
    f: FileInfo,
    interval: Span,
    now: i128,
    due: bool,
    seek: Txid,
    first: Txid,
    srcs: &Vec<FileInfo>,
    range: Option<(Txid, Txid)>,
)
    requires
        on_clock(now),
        f.created_at is Some,
        on_clock(f.created_at->0),
        interval.nanos > 0,
        f.max_txid.0 < u64::MAX,
        call_ensures(level_due, (Some(f), interval, now), due),
        call_ensures(compact_seek, (Some(f),), seek),
        call_ensures(compact_seek, (None,), first),
        call_ensures(compact_range, (srcs,), range),
    ensures
        due <==> f.created_at->0 + interval.nanos <= now,
        seek.0 == f.max_txid.0 + 1,
        first.0 == 0,
        range is Some <==> srcs@.len() > 0,
        range is Some ==> {
            &&& forall|i: int|
                0 <= i < srcs@.len() ==> ((range->0).0).0 <= (#[trigger] srcs@[i]).min_txid.0
                    && srcs@[i].max_txid.0 <= ((range->0).1).0
            &&& exists|i: int|
                0 <= i < srcs@.len() && (#[trigger] srcs@[i]).min_txid == (range->0).0
            &&& exists|i: int|
                0 <= i < srcs@.len() && (#[trigger] srcs@[i]).max_txid == (range->0).1
        },
{
    if srcs@.len() > 0 {
        law_merged_range_spans_its_sources(srcs@);
    }
}

// ---------------------------------------------------------------------------
// The log

/// A log of n frames has its header of 32 bytes and, for each, 24 bytes and a
/// page.
pub proof fn law_log_grows_by_frames(page_size: u32, n: u64, m: u64, a: u64, b: u64)
    requires
        n == m + 1,
        32 + (24 + page_size) * n <= u64::MAX,
        call_ensures(calc_wal_size, (page_size, n), a),
        call_ensures(calc_wal_size, (page_size, m), b),
    ensures
        a - b == 24 + page_size,
        m == 0 ==> b == 32,
{
    assert((24 + page_size) * n == (24 + page_size) * m + (24 + page_size)) by (nonlinear_arith)
        requires
            n == m + 1,
    ;
    if m == 0 {
        assert((24 + page_size) * 0 == 0) by (nonlinear_arith);
    }
}

/// A sync of a log that can be read consumes it from where it goes on up to
/// the end of the last commit frame, takes the database's size from that
/// frame, and makes the file of the next transaction.
pub proof fn law_sync_takes_the_log_to_its_last_commit<R: ReadAt>(
    wal: &R,
    db_len: u64,
    page_size: u32,
    txid: Txid,
    info: SyncInfo,
    state: SyncState,
    r: Result<SyncPlan, Error>,
    k: int,
    i: int,
)
    requires
        wal.reliable(),
        page_size > 0,
        txid.0 < u64::MAX,
        call_ensures(plan_sync::<R>, (wal, db_len, page_size, txid, info, state), r),
        log_start(wal.contents(), info) is Ok,
        ({
            let (st, offset) = log_start(wal.contents(), info)->Ok_0;
            let seen = scan(wal.contents(), st, u64::MAX as int).0;
            &&& 0 <= i < k <= seen.len()
            &&& seen[k - 1].0.commit != 0
            &&& forall|j: int| k <= j < seen.len() ==> (#[trigger] seen[j]).0.commit == 0
            &&& seen[i].0.pgno <= seen[k - 1].0.commit
            &&& forall|j: int| i < j < k ==> (#[trigger] seen[j]).0.pgno != seen[i].0.pgno
            &&& seen[k - 1].1 >= offset
        }),
    ensures
        ({
            let (st, offset) = log_start(wal.contents(), info)->Ok_0;
            let seen = scan(wal.contents(), st, u64::MAX as int).0;
            &&& r is Ok && r->Ok_0 is Encode
            &&& ({
                let p = r->Ok_0->Encode_0;
                &&& p.txid.0 == txid.0 + 1
                &&& p.commit == seen[k - 1].0.commit
                &&& p.wal_offset == offset
                &&& p.wal_offset + p.wal_size == seen[k - 1].1 + 24 + st.page_size
            })
        }),
{
    let (st, offset) = log_start(wal.contents(), info)->Ok_0;
    let seen = scan(wal.contents(), st, u64::MAX as int).0;
    let after = scan(wal.contents(), st, u64::MAX as int).1;
    if !(r is Err && r->Err_0 is Wal && r->Err_0->Wal_0 is Io) {
        let pm = choose|pm: PageMap| #[trigger]
            maps_pages(pm, seen, st.page_size) && sync_plan_for(
                pm,
                after,
                offset,
                db_len,
                page_size,
                txid,
                info,
                state,
                r,
            );
        law_page_map_ends_with_the_commit(pm, seen, st.page_size, k, seen[i].0.pgno, i);
        assert(pm.pages@.contains_key(seen[i].0.pgno));
        assert(!pm.pages@.is_empty());
    }
}

/// A snapshot is made of the log up to where it was synced, and of nothing
/// appended since; there is none before the first transaction.
pub proof fn law_snapshot_stops_where_the_sync_did<R: ReadAt>(
    wal: &R,
    db_len: u64,
    page_size: u32,
    synced_end: u64,
    txid: Txid,
    r: Result<Option<SnapshotPlan>, Error>,
    k: int,
)
    requires
        wal.reliable(),
        page_size > 0,
        call_ensures(plan_snapshot::<R>, (wal, db_len, page_size, synced_end, txid), r),
        txid.0 > 0,
        header_of(wal.contents()) is Ok,
        ({
            let seen = scan(
                wal.contents(),
                header_of(wal.contents())->Ok_0,
                synced_end as int,
            ).0;
            &&& 0 < k <= seen.len()
            &&& seen[k - 1].0.commit != 0
            &&& forall|j: int| k <= j < seen.len() ==> (#[trigger] seen[j]).0.commit == 0
        }),
    ensures
        ({
            let seen = scan(
                wal.contents(),
                header_of(wal.contents())->Ok_0,
                synced_end as int,
            ).0;
            &&& r is Ok && r->Ok_0 is Some
            &&& r->Ok_0->0.min_txid.0 == 1
            &&& r->Ok_0->0.max_txid == txid
            &&& r->Ok_0->0.commit == seen[k - 1].0.commit
        }),
{
    let st = header_of(wal.contents())->Ok_0;
    let (seen, after) = scan(wal.contents(), st, synced_end as int);
    if r is Ok && r->Ok_0 is Some {
        law_snapshot_spans_everything(
            seen,
            st.page_size,
            after,
            db_len,
            page_size,
            txid,
            r->Ok_0->0,
            k,
        );
    }
}

/// A page is read in full or not at all: a file that can be read gives it just
/// if it reaches that far, and else the failure says that it ended.
pub proof fn law_pages_are_read_in_full<R: ReadAt>(
    file: &R,
    page_size: u32,
    offset: u64,
    r: Result<Vec<u8>, Error>,
)
    requires
        file.reliable(),
        page_size > 0,
        call_ensures(read_full_at::<R>, (file, page_size, offset), r),
    ensures
        r is Ok <==> offset + page_size <= file.contents().len(),
        r is Ok ==> r->Ok_0@ == file.contents().subrange(offset as int, offset + page_size),
        r is Err ==> r->Err_0 is Io && r->Err_0->Io_0.kind == ErrorKind::UnexpectedEof,
{
}

// ---------------------------------------------------------------------------
// Positions

/// A writer that opens a database goes by where the log was synced, and by
/// what the bucket was seen to hold where that was recorded; it never takes
/// the log for consumed to its end. The bucket's newest file becomes the
/// baseline exactly if it ends after the local history.
pub proof fn law_opened_writer_goes_by_the_record(
    end: u64,
    s: SyncState,
    verified: Txid,
    local: Txid,
    a: Txid,
    b: Txid,
    f: FileInfo,
    newest: Option<FileInfo>,
)
    requires
        call_ensures(opened_state, (end,), s),
        call_ensures(known_position, (Some(verified), local), a),
        call_ensures(known_position, (None, local), b),
        call_ensures(check_behind_remote, (local, Some(f)), newest),
    ensures
        s.last_synced_wal_offset == end,
        !s.synced_to_wal_end && !s.synced_since_checkpoint,
        a == verified && b == local,
        newest is Some <==> local.0 < f.max_txid.0,
        newest is Some ==> newest->0 == f,
{
}

/// A file with another page size is one of another history.
pub proof fn law_other_page_size_is_divergence(
    file_page_size: u32,
    page_size: u32,
    min: Txid,
    max: Txid,
    r: Result<(), Error>,
)
    requires
        call_ensures(check_page_size, (file_page_size, page_size, min, max), r),
    ensures
        r is Ok <==> file_page_size == page_size,
        r is Err ==> r->Err_0 == (Error::Diverged { local: min, remote: max }),
{
}

// ---------------------------------------------------------------------------
// Runs

/// When the last listing of the bucket comes in, a sync goes for the newest
/// snapshot exactly if that ends after its position and the bucket is neither
/// empty nor behind; whether the bucket goes beyond the snapshot makes no
/// difference.
pub proof fn law_last_listing_decides_on_the_snapshot(
    s: &mut IncrementalSync,
    files: Vec<FileInfo>,
    next: SyncAction,
)
    requires
        old(s).wf(),
        room(files@),
        old(s)@.phase == Phase::ListBucket(0),
        old(s)@.newest is Some,
        old(s)@.bucket_max.0 >= old(s)@.newest->0.max_txid.0,
        call_ensures(IncrementalSync::listed, (s, files), ()),
        call_ensures(IncrementalSync::action, (&*final(s),), next),
    ensures
        final(s)@.newest == old(s)@.newest,
        final(s)@.current == old(s)@.current,
        old(s)@.newest->0.max_txid.0 > old(s)@.current.0 ==> next is CheckCancel,
        next is CheckCancel ==> old(s)@.newest->0.max_txid.0 > old(s)@.current.0,
{
    lemma_max_seen(files@, old(s)@.bucket_max);
}

/// A page of a file is written at its place among the pages before it, all of
/// the replica's size; what is written keeps the page's bytes, but for the
/// journal mode and change counter of page 1.
pub proof fn law_page_is_written_at_its_place(
    s: ApplyRun,
    pgno: u32,
    data: Vec<u8>,
    r: (ApplyRun, ApplyAction),
)
    requires
        s.phase is Page,
        pgno >= 1,
        call_ensures(ApplyRun::step, (s, ApplyEvent::Page(Ok(Some((pgno, data))))), r),
    ensures
        r.1 is WritePage,
        r.1->WritePage_0 == (pgno - 1) * s.page_size,
        r.1->WritePage_1@.len() == data@.len(),
        pgno != 1 ==> r.1->WritePage_1@ == data@,
        forall|j: int|
            0 <= j < data@.len() && j != 18 && j != 19 && !(24 <= j < 28) ==> (
            #[trigger] r.1->WritePage_1@[j]) == data@[j],
        r.0.page_size == s.page_size,
{
}

/// A lease goes to who claims it, dated by the write; a write without a claim
/// leaves it alone.
pub proof fn law_lease_goes_to_the_claimant(
    lease: &mut Option<WriterLease>,
    claim: Option<String>,
    now: u128,
)
    requires
        call_ensures(commit_lease, (lease, claim, now), ()),
    ensures
        claim is None ==> *final(lease) == *old(lease),
        claim is Some ==> *final(lease) is Some && final(lease)->0.id == claim->0
            && final(lease)->0.last_seen == now,
{
}

/// A sync that succeeded moves the writer on to where its outcome says, and
/// touches nothing else of what the writer remembers.
pub proof fn law_outcome_moves_the_writer(s: &mut SyncState, outcome: SyncOutcome)
    requires
        call_ensures(SyncState::apply, (s, &outcome), ()),
    ensures
        final(s).last_synced_wal_offset == outcome.new_wal_size,
        final(s).synced_to_wal_end == outcome.synced_to_wal_end,
        final(s).synced_since_checkpoint == old(s).synced_since_checkpoint,
{
}

} // verus!
