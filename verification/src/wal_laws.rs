//! What holds of reading a log as a whole: which pages a page map shows, that
//! appending to a live log disturbs nothing already read, that a tail without
//! a commit changes nothing, that what is read later overlays what was read
//! before, and that resuming at an offset is the
//! same as having read up to it.
use crate::wal::{
    be32, checksum, commit_len, committed_pages, final_commit, frame_matches, frame_size,
    frame_start, frame_step, header_of, latest, lemma_frame_step, maps_pages, resumed, scan,
    wal_size, Frame, PageMap, WalError, WalState, WAL_HEADER_SIZE,
};
use vstd::prelude::*;

verus! {

proof fn lemma_latest(seen: Seq<(Frame, u64)>, commit: u32)
    ensures
        forall|p: u32| #[trigger]
            latest(seen, commit).contains_key(p) <==> p <= commit && exists|k: int|
                0 <= k < seen.len() && (#[trigger] seen[k]).0.pgno == p,
        forall|p: u32| #[trigger]
            latest(seen, commit).contains_key(p) ==> exists|k: int|
                is_last_frame_of(seen, p, k) && #[trigger] seen[k].1 == latest(seen, commit)[p],
    decreases seen.len(),
{
    if seen.len() > 0 {
        let t = seen.drop_last();
        let m = latest(seen, commit);
        let (f, offset) = seen.last();
        let n = seen.len() - 1;
        lemma_latest(t, commit);
        assert forall|p: u32| #[trigger] m.contains_key(p) == (p <= commit && exists|k: int|
            0 <= k < seen.len() && (#[trigger] seen[k]).0.pgno == p) by {
            if p <= commit && exists|k: int|
                0 <= k < seen.len() && (#[trigger] seen[k]).0.pgno == p {
                let k = choose|k: int| 0 <= k < seen.len() && (#[trigger] seen[k]).0.pgno == p;
                if k < n {
                    assert(t[k].0.pgno == p);
                    assert(latest(t, commit).contains_key(p));
                }
            }
            if m.contains_key(p) {
                if p == f.pgno && f.pgno <= commit {
                    assert(seen[n].0.pgno == p);
                } else {
                    assert(latest(t, commit).contains_key(p));
                    let k = choose|k: int| 0 <= k < t.len() && (#[trigger] t[k]).0.pgno == p;
                    assert(seen[k].0.pgno == p);
                }
            }
        }
        assert forall|p: u32| #[trigger] m.contains_key(p) implies exists|k: int|
            is_last_frame_of(seen, p, k) && #[trigger] seen[k].1 == m[p] by {
            if p == f.pgno {
                assert(is_last_frame_of(seen, p, n) && seen[n].1 == m[p]);
            } else {
                assert(latest(t, commit).contains_key(p));
                let k = choose|k: int|
                    is_last_frame_of(t, p, k) && #[trigger] t[k].1 == latest(t, commit)[p];
                assert(seen[k] == t[k]);
                assert forall|j: int| k < j < seen.len() implies (#[trigger] seen[j]).0.pgno
                    != p by {
                    if j < n {
                        assert(seen[j] == t[j]);
                    }
                }
                assert(is_last_frame_of(seen, p, k) && seen[k].1 == m[p]);
            }
        }
    }
}

/// Whether frame `k` is the last one of page `p` among `seen`.
pub open spec fn is_last_frame_of(seen: Seq<(Frame, u64)>, p: u32, k: int) -> bool {
    &&& 0 <= k < seen.len()
    &&& seen[k].0.pgno == p
    &&& forall|j: int| k < j < seen.len() ==> (#[trigger] seen[j]).0.pgno != p
}

/// A page map shows exactly the pages that committed transactions wrote and
/// that the final database size still has, each at its last committed frame.
pub proof fn law_page_map_shows_committed_pages(seen: Seq<(Frame, u64)>, p: u32)
    ensures
        ({
            let done = seen.take(commit_len(seen));
            let m = committed_pages(seen);
            &&& m.contains_key(p) <==> p <= final_commit(seen) && exists|k: int|
                0 <= k < done.len() && (#[trigger] done[k]).0.pgno == p
            &&& m.contains_key(p) ==> exists|k: int|
                is_last_frame_of(done, p, k) && #[trigger] done[k].1 == m[p]
        }),
{
    lemma_latest(seen.take(commit_len(seen)), final_commit(seen));
}

proof fn lemma_commit_len_tail(seen: Seq<(Frame, u64)>, tail: Seq<(Frame, u64)>)
    requires
        forall|i: int| 0 <= i < tail.len() ==> (#[trigger] tail[i]).0.commit == 0,
    ensures
        commit_len(seen + tail) == commit_len(seen),
        0 <= commit_len(seen) <= seen.len(),
    decreases seen.len() + tail.len(),
{
    if tail.len() == 0 {
        assert(seen + tail =~= seen);
        if seen.len() > 0 {
            lemma_commit_len_tail(seen.drop_last(), tail);
        }
    } else {
        let t = tail.drop_last();
        assert((seen + tail).drop_last() =~= seen + t);
        assert((seen + tail).last() == tail.last());
        assert(tail.last() == tail[tail.len() - 1]);
        assert forall|i: int| 0 <= i < t.len() implies (#[trigger] t[i]).0.commit == 0 by {
            assert(t[i] == tail[i]);
        }
        lemma_commit_len_tail(seen, t);
    }
}

/// Frames of a transaction that has not committed change nothing.
pub proof fn law_uncommitted_tail_is_excluded(seen: Seq<(Frame, u64)>, tail: Seq<(Frame, u64)>)
    requires
        forall|i: int| 0 <= i < tail.len() ==> (#[trigger] tail[i]).0.commit == 0,
    ensures
        committed_pages(seen + tail) == committed_pages(seen),
        final_commit(seen + tail) == final_commit(seen),
{
    lemma_commit_len_tail(seen, tail);
    let k = commit_len(seen);
    assert((seen + tail).take(k) =~= seen.take(k));
}

proof fn lemma_commit_len_more(seen: Seq<(Frame, u64)>, more: Seq<(Frame, u64)>)
    requires
        commit_len(more) > 0,
    ensures
        commit_len(more) <= more.len(),
        commit_len(seen + more) == seen.len() + commit_len(more),
    decreases more.len(),
{
    if more.len() > 0 {
        let t = more.drop_last();
        assert((seen + more).drop_last() =~= seen + t);
        assert((seen + more).last() == more.last());
        if more.last().0.commit == 0 {
            lemma_commit_len_more(seen, t);
        }
    }
}

proof fn lemma_latest_more(seen: Seq<(Frame, u64)>, more: Seq<(Frame, u64)>, commit: u32, p: u32)
    ensures
        ({
            let all = latest(seen + more, commit);
            let new = latest(more, commit);
            let old_pages = latest(seen, commit);
            &&& all.contains_key(p) <==> new.contains_key(p) || old_pages.contains_key(p)
            &&& new.contains_key(p) ==> all[p] == new[p]
            &&& !new.contains_key(p) && old_pages.contains_key(p) ==> all[p] == old_pages[p]
        }),
    decreases more.len(),
{
    if more.len() == 0 {
        assert(seen + more =~= seen);
    } else {
        let t = more.drop_last();
        assert((seen + more).drop_last() =~= seen + t);
        assert((seen + more).last() == more.last());
        lemma_latest_more(seen, t, commit, p);
    }
}

proof fn lemma_latest_size(seen: Seq<(Frame, u64)>, a: u32, b: u32, p: u32)
    requires
        p <= a,
        p <= b,
    ensures
        latest(seen, a).contains_key(p) == latest(seen, b).contains_key(p),
        latest(seen, a).contains_key(p) ==> latest(seen, a)[p] == latest(seen, b)[p],
    decreases seen.len(),
{
    if seen.len() > 0 {
        lemma_latest_size(seen.drop_last(), a, b, p);
    }
}

/// Reading on behind a commit overlays what was read: the newer frames' pages
/// win, and a page that they do not have is where it was, as far as both
/// database sizes reach.
pub proof fn law_newer_pages_overlay_older(
    seen: Seq<(Frame, u64)>,
    more: Seq<(Frame, u64)>,
    p: u32,
)
    requires
        commit_len(seen) == seen.len(),
        commit_len(more) > 0,
    ensures
        final_commit(seen + more) == final_commit(more),
        ({
            let all = committed_pages(seen + more);
            let new = committed_pages(more);
            let before = committed_pages(seen);
            &&& new.contains_key(p) ==> all.contains_key(p) && all[p] == new[p]
            &&& !new.contains_key(p) && p <= final_commit(more) && (p <= final_commit(seen)
                || seen.len() == 0) ==> all.contains_key(p) == before.contains_key(p) && (
            before.contains_key(p) ==> all[p] == before[p])
        }),
{
    lemma_commit_len_more(seen, more);
    let k = commit_len(more);
    let commit = final_commit(more);
    assert((seen + more)[seen.len() + k - 1] == more[k - 1]);
    assert((seen + more).take(seen.len() + k) =~= seen + more.take(k));
    assert(seen.take(seen.len() as int) =~= seen);
    lemma_latest_more(seen, more.take(k), commit, p);
    if p <= commit && p <= final_commit(seen) {
        lemma_latest_size(seen, commit, final_commit(seen), p);
    }
}

proof fn lemma_be32_prefix(c: Seq<u8>, d: Seq<u8>, i: int)
    requires
        0 <= i,
        i + 4 <= c.len(),
        c.is_prefix_of(d),
    ensures
        be32(d, i) == be32(c, i),
{
    assert(d[i] == c[i] && d[i + 1] == c[i + 1] && d[i + 2] == c[i + 2] && d[i + 3] == c[i + 3])
        by {
        assert(c =~= d.take(c.len() as int));
    }
}

proof fn lemma_frame_step_prefix(c: Seq<u8>, d: Seq<u8>, st: WalState)
    requires
        c.is_prefix_of(d),
        st.frame_n >= 0,
        frame_step(c, st, true).0 is Some,
    ensures
        frame_step(d, st, true) == frame_step(c, st, true),
{
    reveal(frame_step);
    lemma_frame_step(c, st, true);
    let o = frame_start(st);
    assert(o >= 0) by {
        assert(frame_size(st.page_size) * st.frame_n >= 0) by (nonlinear_arith)
            requires
                st.frame_n >= 0,
                frame_size(st.page_size) >= 0,
        ;
    }
    lemma_be32_prefix(c, d, o);
    lemma_be32_prefix(c, d, o + 4);
    lemma_be32_prefix(c, d, o + 8);
    lemma_be32_prefix(c, d, o + 12);
    lemma_be32_prefix(c, d, o + 16);
    lemma_be32_prefix(c, d, o + 20);
    assert(c =~= d.take(c.len() as int));
    assert(d.subrange(o, o + 8) =~= c.subrange(o, o + 8));
    assert(d.subrange(o + 24, o + 24 + st.page_size) =~= c.subrange(
        o + 24,
        o + 24 + st.page_size,
    ));
}

/// Appending to a live log never changes the frames already there: they are
/// read again, in the same places, before anything new.
pub proof fn law_appending_keeps_frames(c: Seq<u8>, d: Seq<u8>, st: WalState, end: int)
    requires
        c.is_prefix_of(d),
        st.frame_n >= 0,
    ensures
        scan(c, st, end).0.is_prefix_of(scan(d, st, end).0),
    decreases c.len() - frame_start(st),
{
    if frame_start(st) < end && frame_step(c, st, true).0 is Some {
        lemma_frame_step(c, st, true);
        lemma_frame_step_prefix(c, d, st);
        let st1 = frame_step(c, st, true).1;
        law_appending_keeps_frames(c, d, st1, end);
        let a = scan(c, st, end).0;
        let b = scan(d, st, end).0;
        let a1 = scan(c, st1, end).0;
        let b1 = scan(d, st1, end).0;
        assert(a =~= seq![a[0]] + a1);
        assert(b =~= seq![a[0]] + b1);
        assert(b.take(a.len() as int) =~= seq![a[0]] + b1.take(a1.len() as int));
    } else {
        assert(scan(c, st, end).0 =~= Seq::empty());
    }
}

/// A scan with an earlier end sees a prefix of what one with a later end
/// sees.
pub proof fn law_earlier_end_sees_prefix(c: Seq<u8>, st: WalState, end: int, later: int)
    requires
        end <= later,
    ensures
        scan(c, st, end).0.is_prefix_of(scan(c, st, later).0),
    decreases c.len() - frame_start(st),
{
    if frame_start(st) < end && frame_step(c, st, true).0 is Some {
        lemma_frame_step(c, st, true);
        let st1 = frame_step(c, st, true).1;
        law_earlier_end_sees_prefix(c, st1, end, later);
        let a = scan(c, st, end).0;
        let b = scan(c, st, later).0;
        let a1 = scan(c, st1, end).0;
        let b1 = scan(c, st1, later).0;
        assert(a =~= seq![a[0]] + a1);
        assert(b =~= seq![a[0]] + b1);
        assert(b.take(a.len() as int) =~= seq![a[0]] + b1.take(a1.len() as int));
    } else {
        assert(scan(c, st, end).0 =~= Seq::empty());
    }
}

proof fn lemma_header_prefix(c: Seq<u8>, d: Seq<u8>)
    requires
        c.is_prefix_of(d),
        c.len() >= WAL_HEADER_SIZE,
    ensures
        header_of(d) == header_of(c),
{
    reveal(header_of);
    lemma_be32_prefix(c, d, 0);
    lemma_be32_prefix(c, d, 4);
    lemma_be32_prefix(c, d, 8);
    lemma_be32_prefix(c, d, 12);
    lemma_be32_prefix(c, d, 16);
    lemma_be32_prefix(c, d, 20);
    lemma_be32_prefix(c, d, 24);
    lemma_be32_prefix(c, d, 28);
    assert(c =~= d.take(c.len() as int));
    assert(d.take(24) =~= c.take(24));
}

/// Whether every whole frame that lies behind the first `n` states no commit.
pub open spec fn open_tail(d: Seq<u8>, page_size: u32, n: int) -> bool {
    forall|k: int|
        n <= k && wal_size(page_size, k) + frame_size(page_size) <= d.len() ==> be32(
            d,
            (#[trigger] wal_size(page_size, k)) + 4,
        ) == 0
}

/// Whether there is no whole frame behind the first `n`, or one with other
/// salts.
pub open spec fn stale_tail(d: Seq<u8>, st: WalState, n: int) -> bool {
    !frame_matches(d, st, wal_size(st.page_size, n))
}

/// Whether none of the frames is a commit.
pub open spec fn no_commit(seen: Seq<(Frame, u64)>) -> bool {
    forall|i: int| 0 <= i < seen.len() ==> (#[trigger] seen[i]).0.commit == 0
}

proof fn lemma_tail_scan(d: Seq<u8>, st: WalState, n: int, end: int)
    requires
        0 <= n <= st.frame_n,
        open_tail(d, st.page_size, n) || st.frame_n == n && stale_tail(d, st, n),
    ensures
        no_commit(scan(d, st, end).0),
    decreases d.len() - frame_start(st),
{
    if frame_start(st) < end && frame_step(d, st, true).0 is Some {
        lemma_frame_step(d, st, true);
        reveal(frame_step);
        let st1 = frame_step(d, st, true).1;
        assert(be32(d, wal_size(st.page_size, st.frame_n) + 4) == 0);
        lemma_tail_scan(d, st1, n, end);
        let all = scan(d, st, end).0;
        let rest = scan(d, st1, end).0;
        assert forall|i: int| 0 <= i < all.len() implies (#[trigger] all[i]).0.commit == 0 by {
            if i > 0 {
                assert(all[i] == rest[i - 1]);
            }
        }
    }
}

proof fn lemma_frame_order(page_size: u32, a: int, b: int)
    requires
        a < b,
    ensures
        wal_size(page_size, a) + frame_size(page_size) <= wal_size(page_size, b),
{
    let f = frame_size(page_size);
    assert(f * a + f <= f * b) by (nonlinear_arith)
        requires
            a + 1 <= b,
            f >= 0,
    ;
}

/// What the tail adds to what is read: frames without a commit.
proof fn lemma_longer_log(c: Seq<u8>, d: Seq<u8>, st: WalState, n: int, end: int)
    requires
        c.is_prefix_of(d),
        c.len() == wal_size(st.page_size, n),
        0 <= st.frame_n <= n,
        open_tail(d, st.page_size, n) || stale_tail(d, st, n),
    ensures
        scan(c, st, end).0.is_prefix_of(scan(d, st, end).0),
        no_commit(scan(d, st, end).0.skip(scan(c, st, end).0.len() as int)),
    decreases c.len() - frame_start(st),
{
    let a = scan(c, st, end).0;
    let b = scan(d, st, end).0;
    if frame_start(st) >= end {
        assert(a =~= Seq::empty());
        assert(b.skip(0) =~= b);
    } else if frame_step(c, st, true).0 is Some {
        lemma_frame_step(c, st, true);
        lemma_frame_step_prefix(c, d, st);
        reveal(frame_step);
        let st1 = frame_step(c, st, true).1;
        lemma_longer_log(c, d, st1, n, end);
        let a1 = scan(c, st1, end).0;
        let b1 = scan(d, st1, end).0;
        assert(a =~= seq![a[0]] + a1);
        assert(b =~= seq![a[0]] + b1);
        assert(b.take(a.len() as int) =~= seq![a[0]] + b1.take(a1.len() as int));
        assert(b.skip(a.len() as int) =~= b1.skip(a1.len() as int));
    } else {
        assert(a =~= Seq::empty());
        assert(b.skip(0) =~= b);
        if st.frame_n == n {
            lemma_tail_scan(d, st, n, end);
        } else {
            lemma_frame_order(st.page_size, st.frame_n, n);
            lemma_bad_frame_prefix(c, d, st);
            assert(b =~= Seq::empty());
        }
    }
}

proof fn lemma_bad_frame_prefix(c: Seq<u8>, d: Seq<u8>, st: WalState)
    requires
        c.is_prefix_of(d),
        st.frame_n >= 0,
        frame_start(st) + frame_size(st.page_size) <= c.len(),
        frame_step(c, st, true).0 is None,
    ensures
        frame_step(d, st, true).0 is None,
{
    reveal(frame_step);
    let o = frame_start(st);
    assert(o >= 0) by {
        assert(frame_size(st.page_size) * st.frame_n >= 0) by (nonlinear_arith)
            requires
                st.frame_n >= 0,
                frame_size(st.page_size) >= 0,
        ;
    }
    lemma_be32_prefix(c, d, o);
    lemma_be32_prefix(c, d, o + 4);
    lemma_be32_prefix(c, d, o + 8);
    lemma_be32_prefix(c, d, o + 12);
    lemma_be32_prefix(c, d, o + 16);
    lemma_be32_prefix(c, d, o + 20);
    assert(c =~= d.take(c.len() as int));
    assert(d.subrange(o, o + 8) =~= c.subrange(o, o + 8));
    assert(d.subrange(o + 24, o + 24 + st.page_size) =~= c.subrange(
        o + 24,
        o + 24 + st.page_size,
    ));
}

/// A log of whole frames reads as the same page map when something is appended
/// that is no committed transaction: frames of a transaction that has not
/// committed, or what a restart of the log left behind, which carries other
/// salts. Pages, size and end are all the same.
pub proof fn law_tail_leaves_the_page_map(
    c: Seq<u8>,
    d: Seq<u8>,
    st: WalState,
    n: int,
    end: int,
    pm: PageMap,
)
    requires
        header_of(c) == Ok::<WalState, WalError>(st),
        c.is_prefix_of(d),
        0 <= n,
        c.len() == wal_size(st.page_size, n),
        open_tail(d, st.page_size, n) || stale_tail(d, st, n),
    ensures
        header_of(d) == Ok::<WalState, WalError>(st),
        maps_pages(pm, scan(d, st, end).0, st.page_size) <==> maps_pages(
            pm,
            scan(c, st, end).0,
            st.page_size,
        ),
{
    assert(c.len() >= WAL_HEADER_SIZE) by {
        reveal(header_of);
    }
    lemma_header_prefix(c, d);
    assert(st.frame_n == 0) by {
        reveal(header_of);
    }
    lemma_longer_log(c, d, st, n, end);
    let a = scan(c, st, end).0;
    let b = scan(d, st, end).0;
    let tail = b.skip(a.len() as int);
    assert(b =~= a + tail);
    law_uncommitted_tail_is_excluded(a, tail);
    lemma_commit_len_tail(a, tail);
    if commit_len(a) > 0 {
        assert(b[commit_len(a) - 1] == a[commit_len(a) - 1]);
    }
}

/// What a reader knows after it read `k` frames from `st` on, if all of them
/// count.
pub open spec fn after_frames(c: Seq<u8>, st: WalState, k: nat) -> Option<WalState>
    decreases k,
{
    if k == 0 {
        Some(st)
    } else {
        match after_frames(c, st, (k - 1) as nat) {
            None => None,
            Some(s) => match frame_step(c, s, true) {
                (Some(_), t) => Some(t),
                (None, _) => None,
            },
        }
    }
}

proof fn lemma_after_frames(c: Seq<u8>, st: WalState, k: nat)
    requires
        after_frames(c, st, k) is Some,
    ensures
        ({
            let t = after_frames(c, st, k)->0;
            &&& t == (WalState { frame_n: st.frame_n + k, chksum1: t.chksum1, chksum2: t.chksum2, ..st })
        }),
    decreases k,
{
    reveal(frame_step);
    if k > 0 {
        lemma_after_frames(c, st, (k - 1) as nat);
    }
}

/// Resuming behind the first `k` frames of a log, with the header's salts,
/// is the same as having read those frames: the reader knows the same, the
/// running checksum included.
pub proof fn law_resuming_continues_the_scan(c: Seq<u8>, st: WalState, k: nat, offset: u64)
    requires
        header_of(c) == Ok::<WalState, WalError>(st),
        k > 0,
        after_frames(c, st, k) is Some,
        offset == wal_size(st.page_size, k as int),
    ensures
        resumed(c, offset, st.salt1, st.salt2) == Ok::<WalState, WalError>(
            after_frames(c, st, k)->0,
        ),
{
    let prev = after_frames(c, st, (k - 1) as nat)->0;
    lemma_after_frames(c, st, (k - 1) as nat);
    let size = frame_size(st.page_size);
    assert(offset - WAL_HEADER_SIZE == size * k);
    assert((size * k) % size == 0 && (size * k) / size == k && size * k > 0) by (nonlinear_arith)
        requires
            size > 0,
            k > 0,
    ;
    let before = WalState { frame_n: k - 1, ..st };
    reveal(header_of);
    reveal(resumed);
    assert(frame_start(before) == frame_start(prev));
    reveal(frame_step);
    assert(frame_step(c, before, false).1 == frame_step(c, prev, true).1);
}

} // verus!
