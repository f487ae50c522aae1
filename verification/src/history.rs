//! What replication is for: the files of a bucket record a database's
//! history, and whoever applies them gets that history back.
//!
//! A history says what the database holds after each transaction. A file
//! records a stretch of it if it holds every page that changed there, as the
//! page is at the end. The laws here say that syncs write such files, that
//! merging keeps them such, and that restores and syncs of a replica end in a
//! state of the history.
use crate::compaction::min_seen;
use crate::error::Error;
use crate::ltx::{continues, FileInfo, Txid};
use crate::plan::{
    after, best_extension, extends, file_beyond_hole, greedy_plan, is_file,
    law_plan_ends_at_target, law_plan_has_no_holes, lemma_newest_snapshot, newest_snapshot,
    plan_answer, plan_end,
};
use crate::push::{
    adopted, law_push_reports_what_was_done, push_run_next, push_through, upload_next, PushRun,
    PushStep, PushStepEvent, UploadAction, UploadEvent, UploadRun,
};
use crate::sync::{asks, max_seen, on_applied, sync_ok, SyncAction, SyncState};
use crate::wal::{committed_pages, commit_len, final_commit, Frame, PageMap, WalState};
use crate::wal_laws::{law_newer_pages_overlay_older, law_page_map_shows_committed_pages};
use crate::writer;
use crate::writer::{
    image_pages, lock_page, map_pages, source_of, sync_plan_for, L0Plan, PageSource, SyncInfo,
    SyncOutcome, SyncPlan,
};
use vstd::prelude::*;

verus! {

/// What a database holds: its size in pages, and each page's bytes. The page
/// of the lock byte holds nothing.
#[verifier::ext_equal]
pub struct Image {
    pub size: int,
    pub pages: Map<int, Seq<u8>>,
}

/// What a file holds: the size of the database at its end, and pages.
#[verifier::ext_equal]
pub struct Changes {
    pub commit: int,
    pub pages: Map<int, Seq<u8>>,
}

/// Whether an image has every page of its size, but for the lock page.
pub open spec fn whole(i: Image, lock: int) -> bool {
    &&& 0 <= i.size
    &&& forall|p: int| #[trigger] i.pages.contains_key(p) <==> 1 <= p <= i.size && p != lock
}

/// Whether `h` gives an image after each transaction, and an empty one before
/// the first.
pub open spec fn is_history(h: spec_fn(int) -> Image, lock: int) -> bool {
    &&& forall|t: int| 0 <= t ==> whole(#[trigger] h(t), lock)
    &&& h(0).size == 0
}

/// Whether `c` records the transactions `min` to `max`: its pages are those of
/// the end, and a page that it lacks did not change on the way there.
pub open spec fn records(h: spec_fn(int) -> Image, min: int, max: int, c: Changes) -> bool {
    &&& c.commit == h(max).size
    &&& forall|p: int| #[trigger]
        c.pages.contains_key(p) ==> h(max).pages.contains_key(p) && c.pages[p] == h(max).pages[p]
    &&& forall|p: int, t: int|
        0 <= t && min - 1 <= t <= max && h(max).pages.contains_key(p) && !c.pages.contains_key(p)
            ==> #[trigger] h(t).pages.contains_key(p) && h(t).pages[p] == h(max).pages[p]
}

/// The pages of `a` and of `b`, those of `b` where both have one, up to
/// `size`.
pub open spec fn overlay(a: Map<int, Seq<u8>>, b: Map<int, Seq<u8>>, size: int) -> Map<
    int,
    Seq<u8>,
> {
    Map::new(
        |p: int| p <= size && (a.contains_key(p) || b.contains_key(p)),
        |p: int|
            if b.contains_key(p) {
                b[p]
            } else {
                a[p]
            },
    )
}

/// An image after a file was applied to it: the file's pages are written, and
/// the database is cut or extended to the file's size.
pub open spec fn applied(i: Image, c: Changes) -> Image {
    Image { size: c.commit, pages: overlay(i.pages, c.pages, c.commit) }
}

/// Two files merged into one, the later one's pages winning.
pub open spec fn merge(a: Changes, b: Changes) -> Changes {
    Changes { commit: b.commit, pages: overlay(a.pages, b.pages, b.commit) }
}

/// Files merged in order.
pub open spec fn merged(files: Seq<FileInfo>, holds: spec_fn(FileInfo) -> Changes) -> Changes
    decreases files.len(),
{
    if files.len() <= 1 {
        holds(files[0])
    } else {
        merge(merged(files.drop_last(), holds), holds(files.last()))
    }
}

/// Whether what `f` holds records its transactions.
pub open spec fn is_true_file(
    h: spec_fn(int) -> Image,
    holds: spec_fn(FileInfo) -> Changes,
    f: FileInfo,
) -> bool {
    records(h, f.min_txid.0 as int, f.max_txid.0 as int, holds(f))
}

/// A file takes the database from any state that it starts from or covers to
/// the state at its end.
pub proof fn law_file_leads_to_its_end(
    h: spec_fn(int) -> Image,
    lock: int,
    min: int,
    max: int,
    c: Changes,
    t: int,
)
    requires
        is_history(h, lock),
        records(h, min, max, c),
        0 <= t,
        min - 1 <= t <= max,
    ensures
        applied(h(t), c) == h(max),
{
    let a = applied(h(t), c);
    let b = h(max);
    assert(whole(h(t), lock) && whole(b, lock));
    assert forall|p: int| #[trigger] a.pages.contains_key(p) == b.pages.contains_key(p) && (
    b.pages.contains_key(p) ==> a.pages[p] == b.pages[p]) by {
        assert(h(t).pages.contains_key(p) == (1 <= p <= h(t).size && p != lock));
        assert(b.pages.contains_key(p) == (1 <= p <= b.size && p != lock));
        assert(c.pages.contains_key(p) ==> b.pages.contains_key(p) && c.pages[p] == b.pages[p]);
    }
    assert(a.pages =~= b.pages);
}

/// Two files of which the second starts no later than right after the first
/// ends merge into one that records what both do.
pub proof fn law_merging_keeps_the_record(
    h: spec_fn(int) -> Image,
    lock: int,
    first: (int, int, Changes),
    second: (int, int, Changes),
)
    requires
        is_history(h, lock),
        records(h, first.0, first.1, first.2),
        records(h, second.0, second.1, second.2),
        second.0 <= first.1 + 1,
        0 <= first.1 <= second.1,
    ensures
        records(h, first.0, second.1, merge(first.2, second.2)),
{
    let (a, b) = (first.2, second.2);
    let c = merge(a, b);
    let (mid, end) = (h(first.1), h(second.1));
    assert(whole(mid, lock) && whole(end, lock));
    assert forall|p: int| #[trigger] c.pages.contains_key(p) implies end.pages.contains_key(p)
        && c.pages[p] == end.pages[p] by {
        if !b.pages.contains_key(p) {
            assert(a.pages.contains_key(p));
            assert(mid.pages.contains_key(p));
            assert(end.pages.contains_key(p));
        }
    }
    assert forall|p: int, t: int|
        0 <= t && first.0 - 1 <= t <= second.1 && end.pages.contains_key(p)
            && !c.pages.contains_key(p) implies #[trigger] h(t).pages.contains_key(p)
        && h(t).pages[p] == end.pages[p] by {
        assert(!b.pages.contains_key(p) && !a.pages.contains_key(p));
        assert(mid.pages.contains_key(p));
        assert(h(t).pages.contains_key(p) == (1 <= p <= h(t).size && p != lock));
    }
}

proof fn lemma_chain_records(
    h: spec_fn(int) -> Image,
    lock: int,
    holds: spec_fn(FileInfo) -> Changes,
    files: Seq<FileInfo>,
)
    requires
        is_history(h, lock),
        files.len() > 0,
        forall|k: int| 0 <= k < files.len() ==> is_true_file(h, holds, #[trigger] files[k]),
        forall|k: int|
            0 < k < files.len() ==> (#[trigger] files[k]).min_txid.0 <= files[k - 1].max_txid.0 + 1
                && files[k - 1].max_txid.0 <= files[k].max_txid.0,
    ensures
        records(
            h,
            files[0].min_txid.0 as int,
            files.last().max_txid.0 as int,
            merged(files, holds),
        ),
    decreases files.len(),
{
    let n = files.len() - 1;
    assert(is_true_file(h, holds, files[n]));
    if n > 0 {
        let t = files.drop_last();
        assert forall|k: int| 0 <= k < t.len() implies is_true_file(h, holds, #[trigger] t[k]) by {
            assert(t[k] == files[k]);
        }
        assert forall|k: int| 0 < k < t.len() implies (#[trigger] t[k]).min_txid.0
            <= t[k - 1].max_txid.0 + 1 && t[k - 1].max_txid.0 <= t[k].max_txid.0 by {
            assert(t[k] == files[k] && t[k - 1] == files[k - 1]);
        }
        lemma_chain_records(h, lock, holds, t);
        assert(files[n].min_txid.0 <= files[n - 1].max_txid.0 + 1);
        law_merging_keeps_the_record(
            h,
            lock,
            (t[0].min_txid.0 as int, t.last().max_txid.0 as int, merged(t, holds)),
            (files[n].min_txid.0 as int, files[n].max_txid.0 as int, holds(files[n])),
        );
    }
}

/// Compaction keeps the history: sources that follow one another without a
/// hole merge into a file that records the range it is named by.
pub proof fn law_compacted_file_records_its_range(
    h: spec_fn(int) -> Image,
    lock: int,
    holds: spec_fn(FileInfo) -> Changes,
    sources: Seq<FileInfo>,
)
    requires
        is_history(h, lock),
        sources.len() > 0,
        forall|k: int| 0 <= k < sources.len() ==> is_true_file(h, holds, #[trigger] sources[k]),
        forall|k: int|
            0 < k < sources.len() ==> {
                &&& sources[k - 1].min_txid.0 <= (#[trigger] sources[k]).min_txid.0
                    <= sources[k - 1].max_txid.0 + 1
                &&& sources[k - 1].max_txid.0 <= sources[k].max_txid.0
            },
    ensures
        records(
            h,
            min_seen(sources, Txid(u64::MAX)).0 as int,
            max_seen(sources, Txid(0)).0 as int,
            merged(sources, holds),
        ),
{
    lemma_chain_records(h, lock, holds, sources);
    lemma_ends(sources);
}

proof fn lemma_ends(sources: Seq<FileInfo>)
    requires
        sources.len() > 0,
        forall|k: int|
            0 < k < sources.len() ==> {
                &&& sources[k - 1].min_txid.0 <= (#[trigger] sources[k]).min_txid.0
                &&& sources[k - 1].max_txid.0 <= sources[k].max_txid.0
            },
    ensures
        min_seen(sources, Txid(u64::MAX)) == sources[0].min_txid,
        max_seen(sources, Txid(0)) == sources.last().max_txid,
        forall|k: int| 0 <= k < sources.len() ==> sources[0].min_txid.0 <= (#[trigger] sources[k]).min_txid.0,
    decreases sources.len(),
{
    let n = sources.len() - 1;
    let t = sources.drop_last();
    if n > 0 {
        assert forall|k: int| 0 < k < t.len() implies {
            &&& t[k - 1].min_txid.0 <= (#[trigger] t[k]).min_txid.0
            &&& t[k - 1].max_txid.0 <= t[k].max_txid.0
        } by {
            assert(t[k] == sources[k] && t[k - 1] == sources[k - 1]);
        }
        lemma_ends(t);
        assert(t[n - 1] == sources[n - 1]);
        assert forall|k: int| 0 <= k < sources.len() implies sources[0].min_txid.0 <= (
        #[trigger] sources[k]).min_txid.0 by {
            if k < n {
                assert(t[k] == sources[k]);
            } else {
                assert(sources[n - 1].min_txid.0 <= sources[n].min_txid.0);
            }
        }
        assert(sources[n].max_txid.0 >= sources[n - 1].max_txid.0);
    } else {
        assert(min_seen(t, Txid(u64::MAX)) == Txid(u64::MAX));
        assert(max_seen(t, Txid(0)) == Txid(0));
    }
}

/// A restore gives back what was written: the files of the answer, merged,
/// are the whole database as it was after the target transaction, or after
/// the last one that the bucket has a file for if no target was named.
pub proof fn law_restore_gives_the_state_back(
    h: spec_fn(int) -> Image,
    lock: int,
    holds: spec_fn(FileInfo) -> Changes,
    snapshots: Seq<FileInfo>,
    levels: Seq<Seq<FileInfo>>,
    txid: Txid,
    plan: Seq<FileInfo>,
    r: Result<Vec<FileInfo>, Error>,
)
    requires
        is_history(h, lock),
        forall|f: FileInfo| #[trigger]
            snapshots.contains(f) ==> is_true_file(h, holds, f) && f.min_txid.0 <= 1,
        forall|f: FileInfo| #[trigger] is_file(levels, f) ==> is_true_file(h, holds, f),
        greedy_plan(snapshots, levels, txid, plan),
        plan_answer(levels, txid, plan, r),
        r is Ok,
    ensures
        ({
            let c = merged(r->Ok_0@, holds);
            let end = if txid.0 != 0 {
                txid
            } else {
                plan_end(plan)
            };
            Image { size: c.commit, pages: c.pages } == h(end.0 as int)
        }),
{
    let s = newest_snapshot(snapshots, txid);
    lemma_newest_snapshot(snapshots, txid);
    assert forall|k: int| 0 <= k < plan.len() implies is_true_file(h, holds, #[trigger] plan[k]) by {
        if k < s.len() {
            assert(plan[k] == plan.take(s.len() as int)[k]);
        } else {
            assert(best_extension(levels, plan[k], plan_end(plan.take(k)), txid));
        }
    }
    assert forall|k: int| 0 < k < plan.len() implies (#[trigger] plan[k]).min_txid.0 <= plan[k
        - 1].max_txid.0 + 1 && plan[k - 1].max_txid.0 <= plan[k].max_txid.0 by {
        law_plan_has_no_holes(snapshots, levels, txid, plan, k);
    }
    if s.len() > 0 {
        assert(plan[0] == plan.take(s.len() as int)[0]);
    } else {
        law_plan_has_no_holes(snapshots, levels, txid, plan, 0);
    }
    lemma_chain_records(h, lock, holds, plan);
    if txid.0 != 0 {
        law_plan_ends_at_target(snapshots, levels, txid, plan);
    }
    let c = merged(plan, holds);
    let end = plan_end(plan).0 as int;
    law_file_leads_to_its_end(h, lock, plan[0].min_txid.0 as int, end, c, 0);
    assert(whole(h(0), lock) && whole(h(end), lock));
    assert(c.pages =~= h(end).pages) by {
        assert forall|p: int| h(end).pages.contains_key(p) implies #[trigger] c.pages.contains_key(
            p,
        ) by {
            assert(applied(h(0), c).pages.contains_key(p));
            assert(!h(0).pages.contains_key(p));
        }
    }
}

/// A replica stays in the history: applying the file that a sync asks for
/// takes it from the state at its position to the state at the next.
pub proof fn law_synced_replica_stays_in_history(
    h: spec_fn(int) -> Image,
    lock: int,
    holds: spec_fn(FileInfo) -> Changes,
    s: SyncState,
    f: FileInfo,
)
    requires
        is_history(h, lock),
        sync_ok(s),
        asks(s, SyncAction::Apply(f)),
        is_true_file(h, holds, f),
        s.phase is ApplySnapshot ==> f.min_txid.0 <= 1,
    ensures
        applied(h(s.current.0 as int), holds(f)) == h(on_applied(s).current.0 as int),
        on_applied(s).current == f.max_txid,
{
    law_file_leads_to_its_end(
        h,
        lock,
        f.min_txid.0 as int,
        f.max_txid.0 as int,
        holds(f),
        s.current.0 as int,
    );
}

/// A file that a stream delivers behind a position takes a replica in the
/// state at that position to the state at the file's end.
pub proof fn law_followed_replica_stays_in_history(
    h: spec_fn(int) -> Image,
    lock: int,
    holds: spec_fn(FileInfo) -> Changes,
    pos: Txid,
    f: FileInfo,
)
    requires
        is_history(h, lock),
        continues(pos, f.min_txid, f.max_txid),
        is_true_file(h, holds, f),
    ensures
        applied(h(pos.0 as int), holds(f)) == h(f.max_txid.0 as int),
{
    law_file_leads_to_its_end(
        h,
        lock,
        f.min_txid.0 as int,
        f.max_txid.0 as int,
        holds(f),
        pos.0 as int,
    );
}

/// The bytes of a page, from where it is read.
pub open spec fn page_bytes(src: PageSource, db: Seq<u8>, log: Seq<u8>, page_size: u32) -> Seq<u8> {
    match src {
        PageSource::Wal(o) => log.subrange(o as int, o + page_size),
        PageSource::Db(o) => db.subrange(o as int, o + page_size),
    }
}

/// The pages that a sync writes into a file, read from where its plan says.
pub open spec fn read_pages(
    pages: Seq<(u32, PageSource)>,
    db: Seq<u8>,
    log: Seq<u8>,
    page_size: u32,
) -> Map<int, Seq<u8>>
    decreases pages.len(),
{
    if pages.len() == 0 {
        Map::empty()
    } else {
        read_pages(pages.drop_last(), db, log, page_size).insert(
            pages.last().0 as int,
            page_bytes(pages.last().1, db, log, page_size),
        )
    }
}

/// What the database holds when `m` are the pages in the log and `size` is
/// its size.
pub open spec fn image_with(
    m: Map<u32, u64>,
    size: int,
    db: Seq<u8>,
    log: Seq<u8>,
    page_size: u32,
) -> Image {
    Image {
        size,
        pages: Map::new(
            |p: int| 1 <= p <= size && p != lock_page(page_size),
            |p: int| page_bytes(source_of(m, p, page_size), db, log, page_size),
        ),
    }
}

proof fn lemma_read_image(
    m: Map<u32, u64>,
    n: int,
    db: Seq<u8>,
    log: Seq<u8>,
    page_size: u32,
)
    requires
        0 <= n <= u32::MAX,
    ensures
        read_pages(image_pages(m, n, page_size), db, log, page_size) == image_with(
            m,
            n,
            db,
            log,
            page_size,
        ).pages,
    decreases n,
{
    let r = read_pages(image_pages(m, n, page_size), db, log, page_size);
    if n > 0 {
        lemma_read_image(m, n - 1, db, log, page_size);
        if n != lock_page(page_size) {
            assert(image_pages(m, n, page_size).drop_last() =~= image_pages(m, n - 1, page_size));
        }
    }
    assert(r =~= image_with(m, n, db, log, page_size).pages);
}

/// A full image records the whole history up to its transaction.
pub proof fn law_full_image_records_everything(
    h: spec_fn(int) -> Image,
    txid: int,
    m: Map<u32, u64>,
    size: u32,
    db: Seq<u8>,
    log: Seq<u8>,
    page_size: u32,
)
    requires
        h(txid) == image_with(m, size as int, db, log, page_size),
    ensures
        records(
            h,
            1,
            txid,
            Changes {
                commit: size as int,
                pages: read_pages(image_pages(m, size as int, page_size), db, log, page_size),
            },
        ),
{
    lemma_read_image(m, size as int, db, log, page_size);
}

proof fn lemma_read_pages(
    pages: Seq<(u32, PageSource)>,
    db: Seq<u8>,
    log: Seq<u8>,
    page_size: u32,
)
    requires
        forall|i: int, j: int|
            0 <= i < j < pages.len() ==> (#[trigger] pages[i]).0 != (#[trigger] pages[j]).0,
    ensures
        forall|p: int| #[trigger]
            read_pages(pages, db, log, page_size).contains_key(p) ==> exists|i: int|
                0 <= i < pages.len() && (#[trigger] pages[i]).0 == p,
        forall|i: int|
            0 <= i < pages.len() ==> read_pages(pages, db, log, page_size).contains_key(
                (#[trigger] pages[i]).0 as int,
            ) && read_pages(pages, db, log, page_size)[pages[i].0 as int] == page_bytes(
                pages[i].1,
                db,
                log,
                page_size,
            ),
    decreases pages.len(),
{
    if pages.len() > 0 {
        let t = pages.drop_last();
        let n = pages.len() - 1;
        let r = read_pages(pages, db, log, page_size);
        assert forall|i: int, j: int| 0 <= i < j < t.len() implies (#[trigger] t[i]).0 != (
        #[trigger] t[j]).0 by {
            assert(t[i] == pages[i] && t[j] == pages[j]);
        }
        lemma_read_pages(t, db, log, page_size);
        assert forall|p: int| #[trigger] r.contains_key(p) implies exists|i: int|
            0 <= i < pages.len() && (#[trigger] pages[i]).0 == p by {
            if p != pages[n].0 {
                assert(read_pages(t, db, log, page_size).contains_key(p));
                let i = choose|i: int| 0 <= i < t.len() && (#[trigger] t[i]).0 == p;
                assert(pages[i].0 == p);
            }
        }
        assert forall|i: int| 0 <= i < pages.len() implies r.contains_key(
            (#[trigger] pages[i]).0 as int,
        ) && r[pages[i].0 as int] == page_bytes(pages[i].1, db, log, page_size) by {
            if i < n {
                assert(t[i] == pages[i]);
                assert(pages[i].0 != pages[n].0);
            }
        }
    }
}

/// A sync that goes on in the log records its transaction. `seen` are the
/// frames up to where the last sync ended, which is behind a commit; `more`
/// are the frames read since. A database that grows has each page that it
/// gains in the log, and no frame is one of page 0 or of the lock page.
pub proof fn law_increment_records_its_transaction(
    h: spec_fn(int) -> Image,
    txid: int,
    seen: Seq<(Frame, u64)>,
    more: Seq<(Frame, u64)>,
    size: u32,
    pages: Seq<(u32, PageSource)>,
    db: Seq<u8>,
    log: Seq<u8>,
    page_size: u32,
)
    requires
        txid >= 1,
        commit_len(seen) == seen.len(),
        seen.len() > 0 ==> size == final_commit(seen),
        commit_len(more) > 0,
        map_pages(committed_pages(more), pages),
        forall|p: u32| #[trigger]
            committed_pages(more).contains_key(p) ==> p != 0 && p != lock_page(page_size),
        forall|p: u32|
            size < p <= final_commit(more) && p != lock_page(page_size) ==> #[trigger]
            committed_pages(more).contains_key(p),
        h(txid - 1) == image_with(committed_pages(seen), size as int, db, log, page_size),
        h(txid) == image_with(
            committed_pages(seen + more),
            final_commit(more) as int,
            db,
            log,
            page_size,
        ),
    ensures
        records(
            h,
            txid,
            txid,
            Changes {
                commit: final_commit(more) as int,
                pages: read_pages(pages, db, log, page_size),
            },
        ),
{
    let m = committed_pages(more);
    let changes = Changes {
        commit: final_commit(more) as int,
        pages: read_pages(pages, db, log, page_size),
    };
    let c = changes.pages;
    let pgnos = pages.map_values(|p: (u32, PageSource)| p.0);
    let end = h(txid);
    assert(changes.commit == end.size);
    assert forall|i: int, j: int| 0 <= i < j < pages.len() implies (#[trigger] pages[i]).0 != (
    #[trigger] pages[j]).0 by {
        assert(pgnos[i] == pages[i].0 && pgnos[j] == pages[j].0);
    }
    lemma_read_pages(pages, db, log, page_size);
    assert forall|p: u32| #[trigger] m.contains_key(p) implies c.contains_key(p as int) && c[p as int]
        == page_bytes(source_of(m, p as int, page_size), db, log, page_size) by {
        assert(pgnos.to_set().contains(p));
        let i = choose|i: int| 0 <= i < pgnos.len() && pgnos[i] == p;
        assert(pages[i].0 == p);
    }
    assert forall|p: int| #[trigger] c.contains_key(p) implies 0 <= p <= u32::MAX && m.contains_key(
        p as u32,
    ) by {
        let i = choose|i: int| 0 <= i < pages.len() && (#[trigger] pages[i]).0 == p;
        assert(pgnos[i] == p as u32);
        assert(pgnos.to_set().contains(p as u32));
    }
    assert forall|p: int| #[trigger] c.contains_key(p) implies end.pages.contains_key(p) && c[p]
        == end.pages[p] by {
        law_newer_pages_overlay_older(seen, more, p as u32);
        law_page_map_shows_committed_pages(more, p as u32);
    }
    assert forall|p: int, t: int|
        0 <= t && txid - 1 <= t <= txid && end.pages.contains_key(p) && !c.contains_key(
            p,
        ) implies #[trigger] h(t).pages.contains_key(p) && h(t).pages[p] == end.pages[p] by {
        law_newer_pages_overlay_older(seen, more, p as u32);
        assert(!m.contains_key(p as u32));
    }
    assert(records(h, txid, txid, changes));
}

/// Whether a bucket reaches exactly transaction `end`: its newest level-0 file
/// ends there, no file ends later, and a restore of its latest state is
/// served, by `plan`.
pub open spec fn bucket_at(
    snapshots: Seq<FileInfo>,
    levels: Seq<Seq<FileInfo>>,
    newest: FileInfo,
    plan: Seq<FileInfo>,
) -> bool {
    &&& is_file(levels, newest)
    &&& newest.max_txid.0 > 0
    &&& forall|f: FileInfo| #[trigger]
        is_file(levels, f) ==> f.max_txid.0 <= newest.max_txid.0
    &&& forall|f: FileInfo| #[trigger]
        snapshots.contains(f) ==> f.max_txid.0 <= newest.max_txid.0
    &&& greedy_plan(snapshots, levels, Txid(0), plan)
    &&& plan.len() > 0
    &&& !file_beyond_hole(levels, plan_end(plan))
}

/// Whether two buckets differ in one file only, which the second has.
pub open spec fn gains(
    levels: Seq<Seq<FileInfo>>,
    more: Seq<Seq<FileInfo>>,
    g: FileInfo,
) -> bool {
    forall|f: FileInfo| #[trigger] is_file(more, f) <==> is_file(levels, f) || f == g
}

proof fn lemma_plan_end(
    snapshots: Seq<FileInfo>,
    levels: Seq<Seq<FileInfo>>,
    plan: Seq<FileInfo>,
    limit: int,
)
    requires
        greedy_plan(snapshots, levels, Txid(0), plan),
        forall|f: FileInfo| #[trigger] is_file(levels, f) ==> f.max_txid.0 <= limit,
        forall|f: FileInfo| #[trigger] snapshots.contains(f) ==> f.max_txid.0 <= limit,
        0 <= limit,
    ensures
        plan_end(plan).0 <= limit,
{
    let s = newest_snapshot(snapshots, Txid(0));
    lemma_newest_snapshot(snapshots, Txid(0));
    let k = plan.len() - 1;
    if k >= s.len() {
        assert(best_extension(levels, plan[k], plan_end(plan.take(k)), Txid(0)));
    } else if k >= 0 {
        assert(plan[k] == plan.take(s.len() as int)[k]);
    }
}

/// A chain that stops short of where a plan over the same files ends can be
/// extended by a file of that plan.
proof fn lemma_plan_extends(
    snapshots: Seq<FileInfo>,
    levels: Seq<Seq<FileInfo>>,
    plan: Seq<FileInfo>,
    end: Txid,
)
    requires
        greedy_plan(snapshots, levels, Txid(0), plan),
        end.0 < plan_end(plan).0,
        plan_end(newest_snapshot(snapshots, Txid(0))).0 <= end.0,
    ensures
        exists|f: FileInfo| #[trigger] is_file(levels, f) && extends(f, end, Txid(0)),
{
    let s = newest_snapshot(snapshots, Txid(0));
    lemma_newest_snapshot(snapshots, Txid(0));
    lemma_first_above(plan, end);
    let k = choose|k: int|
        0 <= k < plan.len() && (#[trigger] plan[k]).max_txid.0 > end.0 && forall|i: int|
            0 <= i < k ==> (#[trigger] plan[i]).max_txid.0 <= end.0;
    if k < s.len() {
        assert(plan[k] == plan.take(s.len() as int)[k]);
        assert(s.last() == s[0]);
        assert(false);
    }
    assert(best_extension(levels, plan[k], plan_end(plan.take(k)), Txid(0)));
    if k > 0 {
        assert(plan.take(k).last() == plan[k - 1]);
    }
    assert(extends(plan[k], end, Txid(0)));
}

proof fn lemma_first_above(plan: Seq<FileInfo>, end: Txid)
    requires
        plan.len() > 0,
        plan.last().max_txid.0 > end.0,
    ensures
        exists|k: int|
            0 <= k < plan.len() && (#[trigger] plan[k]).max_txid.0 > end.0 && forall|i: int|
                0 <= i < k ==> (#[trigger] plan[i]).max_txid.0 <= end.0,
    decreases plan.len(),
{
    let n = plan.len() - 1;
    if exists|i: int| 0 <= i < n && (#[trigger] plan[i]).max_txid.0 > end.0 {
        let i = choose|i: int| 0 <= i < n && (#[trigger] plan[i]).max_txid.0 > end.0;
        let u = plan.take(i + 1);
        assert(u.last() == plan[i]);
        lemma_first_above(u, end);
        let k = choose|k: int|
            0 <= k < u.len() && (#[trigger] u[k]).max_txid.0 > end.0 && forall|j: int|
                0 <= j < k ==> (#[trigger] u[j]).max_txid.0 <= end.0;
        assert(plan[k] == u[k]);
        assert forall|j: int| 0 <= j < k implies (#[trigger] plan[j]).max_txid.0 <= end.0 by {
            assert(plan[j] == u[j]);
        }
    } else {
        assert(plan[n].max_txid.0 > end.0);
    }
}

/// A bucket that gains the file of the transaction after its last serves a
/// restore that ends there.
proof fn lemma_gained_file_is_served(
    snapshots: Seq<FileInfo>,
    levels: Seq<Seq<FileInfo>>,
    newest: FileInfo,
    before: Seq<FileInfo>,
    more: Seq<Seq<FileInfo>>,
    g: FileInfo,
    plan: Seq<FileInfo>,
)
    requires
        bucket_at(snapshots, levels, newest, before),
        gains(levels, more, g),
        g.min_txid == g.max_txid,
        g.max_txid.0 == newest.max_txid.0 + 1,
        greedy_plan(snapshots, more, Txid(0), plan),
    ensures
        plan_end(plan) == g.max_txid,
        !file_beyond_hole(more, plan_end(plan)),
{
    let b = newest.max_txid.0 as int;
    let end = plan_end(plan);
    let s = newest_snapshot(snapshots, Txid(0));
    lemma_newest_snapshot(snapshots, Txid(0));
    assert forall|f: FileInfo| #[trigger] is_file(more, f) implies f.max_txid.0 <= b + 1 by {
        assert(is_file(levels, f) || f == g);
    }
    lemma_plan_end(snapshots, more, plan, b + 1);
    lemma_plan_end(snapshots, levels, before, b);
    assert(!extends(newest, plan_end(before), Txid(0)));
    assert(plan_end(before).0 == b) by {
        if plan_end(before).0 < b {
            assert(newest.min_txid.0 > after(plan_end(before)));
        }
    }
    assert(plan_end(s).0 <= end.0) by {
        lemma_plan_grows(snapshots, more, plan);
    }
    if end.0 < b {
        lemma_plan_extends(snapshots, levels, before, end);
        let f = choose|f: FileInfo| #[trigger] is_file(levels, f) && extends(f, end, Txid(0));
        assert(is_file(more, f));
        assert(false);
    }
    if end.0 == b {
        assert(is_file(more, g));
        assert(extends(g, end, Txid(0)));
        assert(false);
    }
    if file_beyond_hole(more, end) {
        let f = choose|f: FileInfo| #[trigger] is_file(more, f) && f.min_txid.0 > after(end);
        if f != g {
            assert(is_file(levels, f) && f.min_txid.0 > after(plan_end(before)));
        }
    }
}

/// A plan never ends before its snapshot.
proof fn lemma_plan_grows(
    snapshots: Seq<FileInfo>,
    levels: Seq<Seq<FileInfo>>,
    plan: Seq<FileInfo>,
)
    requires
        greedy_plan(snapshots, levels, Txid(0), plan),
    ensures
        plan_end(newest_snapshot(snapshots, Txid(0))).0 <= plan_end(plan).0,
{
    lemma_prefix_grows(snapshots, levels, plan, plan.len() as int);
    assert(plan.take(plan.len() as int) =~= plan);
}

proof fn lemma_prefix_grows(
    snapshots: Seq<FileInfo>,
    levels: Seq<Seq<FileInfo>>,
    plan: Seq<FileInfo>,
    k: int,
)
    requires
        greedy_plan(snapshots, levels, Txid(0), plan),
        newest_snapshot(snapshots, Txid(0)).len() <= k <= plan.len(),
    ensures
        plan_end(newest_snapshot(snapshots, Txid(0))).0 <= plan_end(plan.take(k)).0,
    decreases k,
{
    let s = newest_snapshot(snapshots, Txid(0));
    if k > s.len() {
        lemma_prefix_grows(snapshots, levels, plan, k - 1);
        assert(best_extension(levels, plan[k - 1], plan_end(plan.take(k - 1)), Txid(0)));
        assert(plan.take(k).last() == plan[k - 1]);
    } else {
        assert(plan.take(k) == s);
    }
}

/// A device that was restored from an older copy rejoins its bucket. Its first
/// push adopts the bucket's position and uploads nothing. The log does not
/// continue what was adopted, so the next sync takes a full image; that push
/// writes the next transaction, uploads just its file, and reports it. A
/// restore of the bucket is then served, and it is the device's database.
pub proof fn law_restored_device_rejoins_its_bucket(
    h: spec_fn(int) -> Image,
    holds: spec_fn(FileInfo) -> Changes,
    snapshots: Seq<FileInfo>,
    levels: Seq<Seq<FileInfo>>,
    newest: FileInfo,
    before: Seq<FileInfo>,
    first: PushRun,
    next: PushRun,
    st: writer::SyncState,
    known: Txid,
    pm: PageMap,
    wal: WalState,
    offset: u64,
    db_len: u64,
    page_size: u32,
    info: SyncInfo,
    p: L0Plan,
    db: Seq<u8>,
    log: Seq<u8>,
    size: u64,
    o: SyncOutcome,
    upload: UploadRun,
    g: FileInfo,
    more: Seq<Seq<FileInfo>>,
    plan: Seq<FileInfo>,
    r: Result<Vec<FileInfo>, Error>,
)
    requires
        // The bucket records the history up to its newest file, and the
        // device is behind it.
        is_history(h, lock_page(page_size)),
        bucket_at(snapshots, levels, newest, before),
        newest.max_txid.0 < u64::MAX,
        forall|f: FileInfo| #[trigger]
            snapshots.contains(f) ==> is_true_file(h, holds, f) && f.min_txid.0 <= 1,
        forall|f: FileInfo| #[trigger] is_file(levels, f) ==> is_true_file(h, holds, f),
        known.0 < newest.max_txid.0,
        first.phase is Lineage,
        // The next push syncs a full image of the database.
        next.phase is EnsureWal,
        info.snapshotting,
        sync_plan_for(
            pm,
            wal,
            offset,
            db_len,
            page_size,
            newest.max_txid,
            info,
            st,
            Ok(SyncPlan::Encode(p)),
        ),
        h(newest.max_txid.0 + 1) == image_with(pm.pages@, p.commit as int, db, log, page_size),
        o.synced,
        upload.phase is Pos && upload.uploaded == 0 && upload.cursor == newest.max_txid,
        // The bucket gains the file of that sync.
        g.min_txid == p.txid && g.max_txid == p.txid,
        holds(g) == (Changes {
            commit: p.commit as int,
            pages: read_pages(p.pages@, db, log, page_size),
        }),
        gains(levels, more, g),
        greedy_plan(snapshots, more, Txid(0), plan),
        plan_answer(more, Txid(0), plan, r),
    ensures
        ({
            let (a, a_st, adopt) = push_run_next(
                first,
                st,
                PushStepEvent::Lineage(Ok((known, Some(newest)))),
            );
            let (b, b_st, end) = push_run_next(a, a_st, PushStepEvent::Done(Ok(())));
            &&& adopt == PushStep::Adopt(newest)
            &&& end == PushStep::Finish(Ok(adopted(newest.max_txid)))
            &&& b.checked && b_st == st
        }),
        p.txid.0 == newest.max_txid.0 + 1,
        ({
            let (u, send) = upload_next(upload, UploadEvent::Pos(Ok(p.txid)));
            &&& send == UploadAction::Send(p.txid)
            &&& upload_next(u, UploadEvent::Sent(Ok(()))).1 == UploadAction::Finish(
                Ok((1u64, p.txid)),
            )
        }),
        push_through(next, st, size, o, (1u64, p.txid), p.txid).2 matches PushStep::Finish(Ok(x))
            && x.synced && x.txid == p.txid && x.uploaded == 1 && x.remote_txid == p.txid,
        r is Ok,
        ({
            let c = merged(r->Ok_0@, holds);
            Image { size: c.commit, pages: c.pages } == h(p.txid.0 as int)
        }),
{
    let t = p.txid.0 as int;
    law_push_reports_what_was_done(next, st, size, o, (1u64, p.txid), p.txid);
    law_full_image_records_everything(h, t, pm.pages@, p.commit, db, log, page_size);
    assert(is_true_file(h, holds, g)) by {
        assert(records(h, 1, t, holds(g)));
    }
    assert forall|f: FileInfo| #[trigger] is_file(more, f) implies is_true_file(h, holds, f) by {
        assert(is_file(levels, f) || f == g);
    }
    lemma_gained_file_is_served(snapshots, levels, newest, before, more, g, plan);
    law_restore_gives_the_state_back(
        h,
        lock_page(page_size),
        holds,
        snapshots,
        more,
        Txid(0),
        plan,
        r,
    );
}

} // verus!
