//! What a writer's decisions come to, in pages and bytes.
use crate::ltx::{FileInfo, Txid};
use crate::wal::{header_of, resumed, PageMap, WalError, WalState};
use crate::writer::{
    behind_remote, checkpoint_choice, checkpoint_outcome, image_pages, lock_page, log_start,
    map_pages, source_of, sync_plan_for, CheckpointMode, PageSource, SyncInfo, SyncPlan,
    SyncState, WriterOptions,
};
use crate::error::Error;
use vstd::prelude::*;

verus! {

/// A push truncates the log if the log had, before it, the header and as many
/// whole frames as the emergency threshold names, unless that is zero; else it
/// checkpoints passively if the log now has as many as the usual threshold
/// names; else it leaves the log alone.
pub proof fn law_checkpoints_go_by_frame_counts(
    page_size: u32,
    opts: WriterOptions,
    orig_wal_size: u64,
    new_wal_size: u64,
)
    requires
        page_size > 0,
    ensures
        ({
            let r = checkpoint_choice(page_size, opts, orig_wal_size, new_wal_size);
            let emergency = opts.truncate_page_n > 0 && orig_wal_size - 32 >= (page_size + 24)
                * opts.truncate_page_n;
            let usual = new_wal_size - 32 >= (page_size + 24) * opts.min_checkpoint_page_n;
            &&& r == Some(CheckpointMode::Truncate) <==> emergency
            &&& r == Some(CheckpointMode::Passive) <==> usual && !emergency
            &&& r is None <==> !usual && !emergency
        }),
{
}

/// The lock page is the one that holds the byte one gibibyte into the file.
pub proof fn law_lock_page_holds_the_lock_byte(page_size: u32)
    requires
        page_size > 0,
    ensures
        (lock_page(page_size) - 1) * page_size <= 0x4000_0000 < lock_page(page_size) * page_size,
{
    let q = 0x4000_0000int / page_size as int;
    assert(q * page_size <= 0x4000_0000 < (q + 1) * page_size) by (nonlinear_arith)
        requires
            page_size > 0,
            q == 0x4000_0000int / page_size as int,
    ;
}

/// A full image holds the pages 1 to the database's size in order, each once,
/// all but the one with the lock byte: each from right behind the header of
/// its committed frame, or else from its place in the database file.
pub proof fn law_image_is_in_order(m: Map<u32, u64>, commit: u32, page_size: u32)
    requires
        page_size > 0,
        forall|p: u32| #[trigger] m.contains_key(p) ==> m[p] + 24 <= u64::MAX,
    ensures
        ({
            let r = image_pages(m, commit as int, page_size);
            &&& forall|i: int, j: int|
                0 <= i < j < r.len() ==> (#[trigger] r[i]).0 < (#[trigger] r[j]).0
            &&& forall|i: int|
                0 <= i < r.len() ==> {
                    let p = (#[trigger] r[i]).0;
                    &&& 1 <= p <= commit
                    &&& !((p - 1) * page_size <= 0x4000_0000 < p * page_size)
                    &&& m.contains_key(p) ==> r[i].1 is Wal && r[i].1->Wal_0 == m[p] + 24
                    &&& !m.contains_key(p) ==> r[i].1 is Db && r[i].1->Db_0 == (p - 1)
                        * page_size
                }
            &&& forall|p: u32|
                1 <= p <= commit && !((p - 1) * page_size <= 0x4000_0000 < p * page_size)
                    ==> #[trigger] holds_page(r, p)
        }),
{
    lemma_image_order(m, commit as int, page_size);
    let r = image_pages(m, commit as int, page_size);
    assert forall|i: int| 0 <= i < r.len() implies {
        let p = (#[trigger] r[i]).0;
        &&& 1 <= p <= commit
        &&& !((p - 1) * page_size <= 0x4000_0000 < p * page_size)
        &&& m.contains_key(p) ==> r[i].1 is Wal && r[i].1->Wal_0 == m[p] + 24
        &&& !m.contains_key(p) ==> r[i].1 is Db && r[i].1->Db_0 == (p - 1) * page_size
    } by {
        let p = r[i].0;
        lemma_lock_page_is_one(page_size, p as int);
        assert((p - 1) * page_size <= 0xffff_ffff * 0xffff_ffff) by (nonlinear_arith)
            requires
                1 <= p <= 0xffff_ffff,
                page_size <= 0xffff_ffff,
        ;
        assert((p - 1) * page_size >= 0) by (nonlinear_arith)
            requires
                1 <= p,
                page_size > 0,
        ;
    }
    assert forall|p: u32|
        1 <= p <= commit && !((p - 1) * page_size <= 0x4000_0000 < p * page_size) implies #[trigger] holds_page(
        r,
        p,
    ) by {
        lemma_lock_page_is_one(page_size, p as int);
        crate::writer::law_image_holds_every_page(m, commit, page_size, p);
        let e = (p, source_of(m, p as int, page_size));
        let i = choose|i: int| 0 <= i < r.len() && r[i] == e;
        assert(r[i].0 == p);
    }
}

/// Whether page `p` is among the pages.
pub open spec fn holds_page(r: Seq<(u32, PageSource)>, p: u32) -> bool {
    exists|i: int| 0 <= i < r.len() && (#[trigger] r[i]).0 == p
}

proof fn lemma_lock_page_is_one(page_size: u32, p: int)
    requires
        page_size > 0,
    ensures
        p == lock_page(page_size) <==> (p - 1) * page_size <= 0x4000_0000 < p * page_size,
{
    law_lock_page_holds_the_lock_byte(page_size);
    let l = lock_page(page_size);
    if p < l {
        assert(p * page_size <= (l - 1) * page_size) by (nonlinear_arith)
            requires
                p <= l - 1,
                page_size > 0,
        ;
    } else if p > l {
        assert(l * page_size <= (p - 1) * page_size) by (nonlinear_arith)
            requires
                l <= p - 1,
                page_size > 0,
        ;
    }
}

proof fn lemma_image_order(m: Map<u32, u64>, n: int, page_size: u32)
    requires
        0 <= n <= u32::MAX,
    ensures
        ({
            let r = image_pages(m, n, page_size);
            &&& forall|i: int, j: int|
                0 <= i < j < r.len() ==> (#[trigger] r[i]).0 < (#[trigger] r[j]).0
            &&& forall|i: int|
                0 <= i < r.len() ==> 1 <= (#[trigger] r[i]).0 <= n && r[i].0 != lock_page(page_size)
                    && r[i].1 == source_of(m, r[i].0 as int, page_size)
        }),
    decreases n,
{
    if n > 0 {
        lemma_image_order(m, n - 1, page_size);
    }
}

/// A sync consumes the log from where it started up to the end of what is
/// committed, under the salts that it read, and makes the file of the next
/// transaction; with no committed page it makes one only if a full image is
/// due, and consumes nothing.
pub proof fn law_sync_consumes_what_is_committed(
    pm: PageMap,
    st: WalState,
    offset: u64,
    db_len: u64,
    page_size: u32,
    txid: Txid,
    info: SyncInfo,
    state: SyncState,
    r: Result<SyncPlan, Error>,
)
    requires
        page_size > 0,
        sync_plan_for(pm, st, offset, db_len, page_size, txid, info, state, r),
    ensures
        ({
            let committed = pm.pages@.dom().len() > 0 || !(pm.pages@ =~= Map::empty());
            &&& committed && pm.max_offset < offset ==> r is Err
            &&& committed && pm.max_offset > offset ==> r is Ok && r->Ok_0 is Encode
                && r->Ok_0->Encode_0.wal_offset == offset && r->Ok_0->Encode_0.wal_offset
                + r->Ok_0->Encode_0.wal_size == pm.max_offset
            &&& (!committed || pm.max_offset == offset) && !info.snapshotting ==> r is Ok
                && r->Ok_0 is Nothing && !r->Ok_0->Nothing_0.synced
                && r->Ok_0->Nothing_0.new_wal_size == state.last_synced_wal_offset
            &&& !committed && info.snapshotting ==> r is Ok && r->Ok_0 is Encode
                && r->Ok_0->Encode_0.wal_size == 0 && r->Ok_0->Encode_0.wal_offset == offset
            &&& r is Ok && r->Ok_0 is Encode ==> {
                let p = r->Ok_0->Encode_0;
                &&& p.txid.0 == txid.0 + 1
                &&& p.wal_salt1 == st.salt1 && p.wal_salt2 == st.salt2
                &&& pm.commit > 0 ==> p.commit == pm.commit
                &&& pm.commit == 0 && db_len / page_size as u64 <= u32::MAX ==> p.commit
                    * page_size <= db_len < (p.commit + 1) * page_size
            }
        }),
{
    if r is Ok && r->Ok_0 is Encode && pm.commit == 0 {
        let q = db_len / page_size as u64;
        assert(q * page_size <= db_len < (q + 1) * page_size) by (nonlinear_arith)
            requires
                page_size > 0,
                q == db_len / page_size as u64,
        ;
    }
    assert(pm.pages@.is_empty() <==> pm.pages@ =~= Map::empty());
}

/// The log is read from its start if the last sync ended at the header, and
/// also if the frame before the remembered place is not the one that was left
/// there; else it is read from that place on.
pub proof fn law_log_is_read_from_where_it_was_left(c: Seq<u8>, info: SyncInfo)
    ensures
        info.offset == 32 && header_of(c) is Ok ==> log_start(c, info) == Ok::<
            (WalState, u64),
            WalError,
        >((header_of(c)->Ok_0, 32u64)),
        info.offset != 32 && resumed(c, info.offset, info.salt1, info.salt2) is Ok ==> log_start(
            c,
            info,
        ) == Ok::<(WalState, u64), WalError>(
            (resumed(c, info.offset, info.salt1, info.salt2)->Ok_0, info.offset),
        ),
        info.offset != 32 && header_of(c) is Ok && (resumed(
            c,
            info.offset,
            info.salt1,
            info.salt2,
        ) matches Err(WalError::PrevFrameMismatch)) ==> log_start(c, info) == Ok::<
            (WalState, u64),
            WalError,
        >((header_of(c)->Ok_0, 32u64)),
        header_of(c) is Err ==> log_start(c, info) is Err,
        log_start(c, info) matches Err(e) ==> e !is PrevFrameMismatch,
{
    reveal(header_of);
    reveal(resumed);
}

/// The bucket is ahead exactly if its newest file ends after the local
/// history, and that file is then the one to continue from.
pub proof fn law_bucket_is_ahead_by_its_end(local: Txid, f: FileInfo)
    ensures
        behind_remote(local, None) is None,
        f.max_txid.0 > local.0 ==> behind_remote(local, Some(f)) == Some(f),
        f.max_txid.0 <= local.0 ==> behind_remote(local, Some(f)) is None,
{
}

/// A checkpoint that succeeds ran; one that fails is the push's failure, but
/// for a passive one that found the database busy, which merely did not run.
pub proof fn law_only_a_busy_passive_checkpoint_is_forgiven(
    mode: CheckpointMode,
    result: Result<(), Error>,
    r: Result<bool, Error>,
)
    requires
        call_ensures(checkpoint_outcome, (mode, result), r),
    ensures
        result is Ok <==> r == Ok::<bool, Error>(true),
        r == Ok::<bool, Error>(false) ==> mode == CheckpointMode::Passive,
        mode == CheckpointMode::Truncate && result is Err ==> r is Err,
        r is Err ==> result is Err && r->Err_0 == result->Err_0,
        mode == CheckpointMode::Passive && result is Err && crate::error::busy(result->Err_0)
            ==> r is Ok,
        result is Err && !crate::error::busy(result->Err_0) ==> r is Err,
{
}

/// The file of a sync that is no full image holds the changed pages and no
/// others, each once and in order, from right behind the header of the page's
/// last committed frame.
pub proof fn law_sync_file_holds_the_changed_pages(
    m: Map<u32, u64>,
    r: Seq<(u32, PageSource)>,
    p: u32,
    i: int,
    j: int,
)
    requires
        map_pages(m, r),
        forall|q: u32| #[trigger] m.contains_key(q) ==> m[q] + 24 <= u64::MAX,
    ensures
        holds_page(r, p) <==> m.contains_key(p),
        0 <= i < j < r.len() ==> r[i].0 < r[j].0,
        0 <= i < r.len() ==> r[i].1 is Wal && r[i].1->Wal_0 == m[r[i].0] + 24,
{
    let pgnos = r.map_values(|x: (u32, PageSource)| x.0);
    assert(pgnos.to_set().contains(p) <==> m.contains_key(p));
    if m.contains_key(p) {
        let n = choose|n: int| 0 <= n < pgnos.len() && pgnos[n] == p;
        assert(r[n].0 == p);
    }
    if holds_page(r, p) {
        let n = choose|n: int| 0 <= n < r.len() && (#[trigger] r[n]).0 == p;
        assert(pgnos[n] == p);
    }
    if 0 <= i < r.len() {
        assert(pgnos[i] == r[i].0);
        assert(pgnos.to_set().contains(r[i].0));
        assert(m.contains_key(r[i].0));
    }
    if 0 <= i < j < r.len() {
        assert(pgnos[j] == r[j].0);
    }
}

} // verus!
