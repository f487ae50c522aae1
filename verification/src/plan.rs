//! Restore plans: which chain of files reconstructs the database.
//!
//! A plan starts from the newest eligible snapshot, then greedily extends a
//! contiguous chain of transactions with per-level cursors over levels 8 to
//! 0, always picking the candidate covering the most transactions. Overlap
//! is legal and required: it is what lets restores survive concurrent
//! compaction replacing small files with merged ones.
use crate::error::Error;
use crate::ltx::{listing_sorted, txid_text, FileInfo, Txid, SNAPSHOT_LEVEL};
use vstd::prelude::*;

verus! {

/// The error for a transaction that the bucket cannot reconstruct.
pub fn tx_not_available() -> (r: Error)
    ensures
        r is TxNotAvailable,
{
    Error::TxNotAvailable
}

/// Whether `next` is a better chain extension than `curr`: higher last
/// transaction, then lower first transaction, then higher level, then
/// earlier creation.
pub open spec fn better(curr: FileInfo, next: FileInfo) -> bool {
    if next.max_txid != curr.max_txid {
        next.max_txid.0 > curr.max_txid.0
    } else if next.min_txid != curr.min_txid {
        next.min_txid.0 < curr.min_txid.0
    } else if next.level != curr.level {
        next.level > curr.level
    } else {
        match (next.created_at, curr.created_at) {
            (Some(n), Some(c)) => n < c,
            _ => false,
        }
    }
}

/// Whether `next` is a better chain extension than `curr`.
pub fn candidate_better(curr: &FileInfo, next: &FileInfo) -> (r: bool)
    ensures
        r == better(*curr, *next),
{
    if next.max_txid.0 != curr.max_txid.0 {
        return next.max_txid.0 > curr.max_txid.0;
    }
    if next.min_txid.0 != curr.min_txid.0 {
        return next.min_txid.0 < curr.min_txid.0;
    }
    if next.level != curr.level {
        return next.level > curr.level;
    }
    match (next.created_at, curr.created_at) {
        (Some(n), Some(c)) => n < c,
        _ => false,
    }
}

/// No file is better than itself, and of two files at most one is better.
pub proof fn law_better_is_strict(a: FileInfo, b: FileInfo)
    ensures
        !better(a, a),
        better(a, b) ==> !better(b, a),
{
}

/// A file that is better than a better one is better.
pub proof fn law_better_is_transitive(a: FileInfo, b: FileInfo, c: FileInfo)
    requires
        better(a, b),
        better(b, c),
    ensures
        better(a, c),
{
}

/// The transaction after `t`.
pub open spec fn after(t: Txid) -> int {
    t.0 + 1
}

/// Whether a target of `txid` admits a file that ends at `max`. A target of
/// zero stands for the latest state and admits every file.
pub open spec fn admits(txid: Txid, max: Txid) -> bool {
    txid.0 == 0 || max.0 <= txid.0
}

/// Whether `f` can extend a chain that ends at `end` towards `txid`.
pub open spec fn extends(f: FileInfo, end: Txid, txid: Txid) -> bool {
    f.min_txid.0 <= after(end) && f.max_txid.0 > end.0 && admits(txid, f.max_txid)
}

/// Whether `f` is one of the files of `levels`.
pub open spec fn is_file(levels: Seq<Seq<FileInfo>>, f: FileInfo) -> bool {
    exists|l: int| 0 <= l < levels.len() && (#[trigger] levels[l]).contains(f)
}

/// Whether `f` is a best extension among all files of `levels`.
pub open spec fn best_extension(
    levels: Seq<Seq<FileInfo>>,
    f: FileInfo,
    end: Txid,
    txid: Txid,
) -> bool {
    &&& is_file(levels, f)
    &&& extends(f, end, txid)
    &&& forall|g: FileInfo| #[trigger] is_file(levels, g) && extends(g, end, txid) ==> !better(f, g)
}

/// Whether a chain that ends at `end` has reached the target `txid`.
pub open spec fn reached(end: Txid, txid: Txid) -> bool {
    txid.0 != 0 && end.0 >= txid.0
}

/// Where a plan ends: the last transaction of its last file.
pub open spec fn plan_end(plan: Seq<FileInfo>) -> Txid {
    if plan.len() == 0 {
        Txid(0)
    } else {
        plan.last().max_txid
    }
}

/// The newest snapshot that the target admits: the last one listed.
pub open spec fn newest_snapshot(snapshots: Seq<FileInfo>, txid: Txid) -> Seq<FileInfo>
    decreases snapshots.len(),
{
    if snapshots.len() == 0 {
        Seq::empty()
    } else if admits(txid, snapshots.last().max_txid) {
        seq![snapshots.last()]
    } else {
        newest_snapshot(snapshots.drop_last(), txid)
    }
}

/// Whether `plan` is the newest snapshot followed by best extensions, each
/// towards a target that was not reached before it.
pub open spec fn greedy_prefix(
    snapshots: Seq<FileInfo>,
    levels: Seq<Seq<FileInfo>>,
    txid: Txid,
    plan: Seq<FileInfo>,
) -> bool {
    let s = newest_snapshot(snapshots, txid);
    &&& s.len() <= plan.len()
    &&& plan.take(s.len() as int) == s
    &&& forall|k: int|
        s.len() <= k < plan.len() ==> {
            &&& best_extension(levels, #[trigger] plan[k], plan_end(plan.take(k)), txid)
            &&& !reached(plan_end(plan.take(k)), txid)
        }
}

/// Whether `plan` is such a chain that cannot or need not go on.
pub open spec fn greedy_plan(
    snapshots: Seq<FileInfo>,
    levels: Seq<Seq<FileInfo>>,
    txid: Txid,
    plan: Seq<FileInfo>,
) -> bool {
    &&& greedy_prefix(snapshots, levels, txid, plan)
    &&& reached(plan_end(plan), txid) || forall|g: FileInfo| #[trigger]
        is_file(levels, g) ==> !extends(g, plan_end(plan), txid)
}

/// Whether some file lies beyond a hole after `end`.
pub open spec fn file_beyond_hole(levels: Seq<Seq<FileInfo>>, end: Txid) -> bool {
    exists|g: FileInfo| #[trigger] is_file(levels, g) && g.min_txid.0 > after(end)
}

/// The first file of a listing that lies beyond a hole after `end`.
pub open spec fn first_past(files: Seq<FileInfo>, end: Txid) -> Option<FileInfo>
    decreases files.len(),
{
    if files.len() == 0 {
        None
    } else if files[0].min_txid.0 > after(end) {
        Some(files[0])
    } else {
        first_past(files.skip(1), end)
    }
}

/// The file beyond a hole that is met first, from the highest level down.
pub open spec fn first_beyond_hole(levels: Seq<Seq<FileInfo>>, end: Txid) -> Option<FileInfo>
    decreases levels.len(),
{
    if levels.len() == 0 {
        None
    } else {
        match first_past(levels.last(), end) {
            Some(g) => Some(g),
            None => first_beyond_hole(levels.drop_last(), end),
        }
    }
}

proof fn lemma_first_past(files: Seq<FileInfo>, k: int, end: Txid)
    requires
        0 <= k <= files.len(),
        forall|i: int| 0 <= i < k ==> (#[trigger] files[i]).min_txid.0 <= after(end),
        k < files.len() ==> files[k].min_txid.0 > after(end),
    ensures
        first_past(files, end) == if k < files.len() {
            Some(files[k])
        } else {
            None
        },
    decreases k,
{
    if k > 0 {
        let t = files.skip(1);
        assert(files[0].min_txid.0 <= after(end));
        assert forall|i: int| 0 <= i < k - 1 implies (#[trigger] t[i]).min_txid.0 <= after(end) by {
            assert(t[i] == files[i + 1]);
        }
        if k < files.len() {
            assert(t[k - 1] == files[k]);
        }
        lemma_first_past(t, k - 1, end);
    }
}

/// What is said of a file beyond a hole.
pub open spec fn hole_text(end: Txid, next: Txid) -> Seq<char> {
    "non-contiguous ltx files: have up to "@ + txid_text(end) + " but next file starts at "@
        + txid_text(next)
}

/// Whether `r` is the answer for a target `txid`, with the greedy plan
/// `plan`.
pub open spec fn plan_answer(
    levels: Seq<Seq<FileInfo>>,
    txid: Txid,
    plan: Seq<FileInfo>,
    r: Result<Vec<FileInfo>, Error>,
) -> bool {
    let end = plan_end(plan);
    let beyond = file_beyond_hole(levels, end);
    if plan.len() == 0 || (txid.0 != 0 && end.0 < txid.0) {
        r is Err && r->Err_0 is TxNotAvailable
    } else if txid.0 == 0 && beyond {
        &&& r is Err
        &&& r->Err_0 is Other
        &&& first_beyond_hole(levels, end) is Some
        &&& r->Err_0->Other_0@ == hole_text(end, first_beyond_hole(levels, end)->0.min_txid)
    } else {
        r is Ok && r->Ok_0@ == plan
    }
}

/// The files of each level.
pub open spec fn level_seqs(levels: Seq<Vec<FileInfo>>) -> Seq<Seq<FileInfo>> {
    levels.map_values(|v: Vec<FileInfo>| v@)
}

/// Whether `levels` are listings of levels 0 to 8: each in order, each file
/// with its level, and with room for a transaction after it.
pub open spec fn level_listings(levels: Seq<Seq<FileInfo>>) -> bool {
    &&& levels.len() == SNAPSHOT_LEVEL
    &&& forall|l: int| 0 <= l < levels.len() ==> listing_sorted(#[trigger] levels[l])
    &&& forall|l: int, i: int|
        0 <= l < levels.len() && 0 <= i < levels[l].len() ==> {
            &&& (#[trigger] levels[l][i]).level == l
            &&& levels[l][i].max_txid.0 < u64::MAX
        }
}

/// One level's files in order, with how far they were looked at and the best
/// extension found among them.
struct LevelCursor<'a> {
    files: &'a [FileInfo],
    next: usize,
    candidate: Option<FileInfo>,
}

impl<'a> LevelCursor<'a> {
    /// Nothing that was looked at can extend a chain that ends at `end`.
    spec fn ready(&self, end: Txid, txid: Txid) -> bool {
        &&& listing_sorted(self.files@)
        &&& self.next <= self.files@.len()
        &&& forall|i: int|
            0 <= i < self.next ==> (#[trigger] self.files@[i]).max_txid.0 <= end.0 || !admits(
                txid,
                self.files@[i].max_txid,
            )
        &&& self.candidate matches Some(c) ==> c.max_txid.0 <= end.0
    }

    /// The candidate is a best extension among the first `n` files.
    spec fn best_of(&self, n: int, end: Txid, txid: Txid) -> bool {
        match self.candidate {
            Some(c) => {
                &&& self.files@.contains(c)
                &&& extends(c, end, txid)
                &&& forall|i: int|
                    0 <= i < n && extends(#[trigger] self.files@[i], end, txid) ==> !better(
                        c,
                        self.files@[i],
                    )
            },
            None => forall|i: int|
                0 <= i < n ==> !extends(#[trigger] self.files@[i], end, txid),
        }
    }

    /// Every file up to the first one beyond a hole was looked at.
    spec fn settled(&self, end: Txid, txid: Txid) -> bool {
        &&& listing_sorted(self.files@)
        &&& self.next <= self.files@.len()
        &&& forall|i: int|
            0 <= i < self.next ==> (#[trigger] self.files@[i]).min_txid.0 <= after(end)
        &&& self.next < self.files@.len() ==> self.files@[self.next as int].min_txid.0 > after(end)
        &&& self.best_of(self.files@.len() as int, end, txid)
    }

    /// Advances past every file that could continue `current_max`, keeping
    /// the best eligible candidate.
    fn refresh(&mut self, current_max: Txid, txid: Txid)
        requires
            current_max.0 < u64::MAX,
            old(self).ready(current_max, txid),
            forall|i: int|
                0 <= i < old(self).next ==> (#[trigger] old(self).files@[i]).min_txid.0 <= after(
                    current_max,
                ),
        ensures
            final(self).files == old(self).files,
            final(self).settled(current_max, txid),
    {
        if let Some(c) = self.candidate {
            if c.max_txid.0 <= current_max.0 {
                self.candidate = None;
            }
        }
        let limit: u64 = current_max.0 + 1;
        while self.next < self.files.len() && self.files[self.next].min_txid.0 <= limit
            invariant
                limit == after(current_max),
                self.files == old(self).files,
                listing_sorted(self.files@),
                self.next <= self.files@.len(),
                forall|i: int|
                    0 <= i < self.next ==> (#[trigger] self.files@[i]).min_txid.0 <= limit,
                self.best_of(self.next as int, current_max, txid),
            decreases self.files@.len() - self.next,
        {
            let info = self.files[self.next];
            let ghost n = self.next as int;
            assert(self.files@.contains(info));
            self.next = self.next + 1;
            if info.max_txid.0 <= current_max.0 {
                continue ;
            }
            if txid.0 != 0 && info.max_txid.0 > txid.0 {
                continue ;
            }
            let take = match self.candidate {
                None => true,
                Some(c) => candidate_better(&c, &info),
            };
            if take {
                let ghost was = self.candidate;
                self.candidate = Some(info);
                proof {
                    assert forall|i: int|
                        0 <= i < self.next && extends(
                            #[trigger] self.files@[i],
                            current_max,
                            txid,
                        ) implies !better(info, self.files@[i]) by {
                        if i < n {
                            assert(was is Some);
                            let c = was->0;
                            assert(better(c, info));
                            assert(!better(c, self.files@[i]));
                            if better(info, self.files@[i]) {
                                law_better_is_transitive(c, info, self.files@[i]);
                            }
                        }
                    }
                }
            }
        }
        proof {
            let n = self.next as int;
            assert forall|i: int| n <= i < self.files@.len() implies !extends(
                #[trigger] self.files@[i],
                current_max,
                txid,
            ) by {
                assert(self.files@[n].min_txid.0 > limit);
                if i > n {
                    assert(crate::ltx::listed_before(self.files@[n], self.files@[i]));
                }
            }
        }
    }
}

/// Picks a best one among the cursors' candidates, higher levels first.
fn pick<'a>(cursors: &Vec<LevelCursor<'a>>) -> (r: Option<usize>)
    ensures
        match r {
            Some(b) => {
                &&& b < cursors@.len()
                &&& cursors@[b as int].candidate is Some
                &&& forall|k: int|
                    0 <= k < cursors@.len() && (#[trigger] cursors@[k]).candidate is Some
                        ==> !better(cursors@[b as int].candidate->0, cursors@[k].candidate->0)
            },
            None => forall|k: int|
                0 <= k < cursors@.len() ==> (#[trigger] cursors@[k]).candidate is None,
        },
{
    let mut next: Option<usize> = None;
    let mut i: usize = cursors.len();
    while i > 0
        invariant
            i <= cursors@.len(),
            match next {
                Some(b) => {
                    &&& i <= b < cursors@.len()
                    &&& cursors@[b as int].candidate is Some
                    &&& forall|k: int|
                        i <= k < cursors@.len() && (#[trigger] cursors@[k]).candidate is Some
                            ==> !better(cursors@[b as int].candidate->0, cursors@[k].candidate->0)
                },
                None => forall|k: int|
                    i <= k < cursors@.len() ==> (#[trigger] cursors@[k]).candidate is None,
            },
        decreases i,
    {
        i -= 1;
        if let Some(c) = cursors[i].candidate {
            match next {
                None => {
                    next = Some(i);
                },
                Some(j) => {
                    if let Some(b) = cursors[j].candidate {
                        if candidate_better(&b, &c) {
                            proof {
                                assert forall|k: int|
                                    i <= k < cursors@.len() && (
                                    #[trigger] cursors@[k]).candidate is Some implies !better(
                                    c,
                                    cursors@[k].candidate->0,
                                ) by {
                                    let d = cursors@[k].candidate->0;
                                    if better(c, d) {
                                        law_better_is_transitive(b, c, d);
                                    }
                                }
                            }
                            next = Some(i);
                        }
                    }
                },
            }
        }
    }
    next
}

/// With every cursor settled, a best candidate is a best extension.
proof fn lemma_pick_is_best(
    cursors: Seq<LevelCursor>,
    levels: Seq<Seq<FileInfo>>,
    b: int,
    end: Txid,
    txid: Txid,
)
    requires
        level_listings(levels),
        cursors.len() == levels.len(),
        forall|l: int| 0 <= l < levels.len() ==> (#[trigger] cursors[l]).files@ == levels[l],
        forall|l: int| 0 <= l < levels.len() ==> (#[trigger] cursors[l]).settled(end, txid),
        0 <= b < cursors.len(),
        cursors[b].candidate is Some,
        forall|k: int|
            0 <= k < cursors.len() && (#[trigger] cursors[k]).candidate is Some ==> !better(
                cursors[b].candidate->0,
                cursors[k].candidate->0,
            ),
    ensures
        best_extension(levels, cursors[b].candidate->0, end, txid),
{
    let f = cursors[b].candidate->0;
    assert(cursors[b].settled(end, txid));
    assert(levels[b].contains(f));
    assert forall|g: FileInfo| #[trigger] is_file(levels, g) && extends(
        g,
        end,
        txid,
    ) implies !better(f, g) by {
        let l = choose|l: int| 0 <= l < levels.len() && (#[trigger] levels[l]).contains(g);
        let i = choose|i: int| 0 <= i < levels[l].len() && levels[l][i] == g;
        assert(cursors[l].settled(end, txid));
        assert(cursors[l].files@[i] == g);
        assert(cursors[l].candidate is Some);
        let c = cursors[l].candidate->0;
        assert(!better(c, g));
        assert(!better(f, c));
        let fi = choose|k: int| 0 <= k < levels[b].len() && levels[b][k] == f;
        let ci = choose|k: int| 0 <= k < levels[l].len() && levels[l][k] == c;
        assert(levels[b][fi].level == b);
        assert(levels[l][ci].level == l);
        assert(levels[l][i].level == l);
    }
}

/// The files of each cursor's level.
spec fn cursor_files(cursors: Seq<LevelCursor>) -> Seq<Seq<FileInfo>> {
    cursors.map_values(|c: LevelCursor| c.files@)
}

/// Finds the file beyond a hole after `end` that is met first, from the
/// highest level down.
fn find_hole(cursors: &Vec<LevelCursor>, end: Txid, txid: Txid) -> (r: Option<FileInfo>)
    requires
        forall|k: int| 0 <= k < cursors@.len() ==> (#[trigger] cursors@[k]).settled(end, txid),
    ensures
        r == first_beyond_hole(cursor_files(cursors@), end),
        r is Some <==> file_beyond_hole(cursor_files(cursors@), end),
{
    let ghost ls = cursor_files(cursors@);
    let mut i: usize = cursors.len();
    assert(ls.take(i as int) =~= ls);
    while i > 0
        invariant
            i <= cursors@.len(),
            ls == cursor_files(cursors@),
            forall|k: int| 0 <= k < cursors@.len() ==> (#[trigger] cursors@[k]).settled(end, txid),
            forall|k: int|
                i <= k < cursors@.len() ==> (#[trigger] cursors@[k]).next
                    == cursors@[k].files@.len(),
            first_beyond_hole(ls, end) == first_beyond_hole(ls.take(i as int), end),
        decreases i,
    {
        i -= 1;
        let cursor = &cursors[i];
        proof {
            let cur = cursors@[i as int];
            assert(cur.settled(end, txid));
            lemma_first_past(cur.files@, cur.next as int, end);
            assert(ls[i as int] == cur.files@);
            assert(ls.take(i + 1).last() == ls[i as int]);
            assert(ls.take(i + 1).drop_last() =~= ls.take(i as int));
        }
        if cursor.next < cursor.files.len() {
            let g = cursor.files[cursor.next];
            proof {
                assert(ls[i as int].contains(g));
                assert(is_file(ls, g) && g.min_txid.0 > after(end));
            }
            return Some(g);
        }
    }
    proof {
        if file_beyond_hole(ls, end) {
            let g = choose|g: FileInfo| #[trigger] is_file(ls, g) && g.min_txid.0 > after(end);
            let k = choose|k: int| 0 <= k < ls.len() && (#[trigger] ls[k]).contains(g);
            let j = choose|j: int| 0 <= j < ls[k].len() && ls[k][j] == g;
            assert(cursors@[k].settled(end, txid));
            assert(cursors@[k].files@[j] == g);
        }
    }
    None
}

/// Computes the ordered chain of files reconstructing the database at `txid`
/// (or the latest state when `txid` is zero), from the listing of snapshots
/// and the listings of levels 0 to 8.
pub fn calc_restore_plan(
    snapshots: &Vec<FileInfo>,
    levels: &Vec<Vec<FileInfo>>,
    txid: Txid,
) -> (r: Result<Vec<FileInfo>, Error>)
    requires
        level_listings(level_seqs(levels@)),
        forall|i: int|
            0 <= i < snapshots@.len() ==> (#[trigger] snapshots@[i]).max_txid.0 < u64::MAX,
    ensures
        exists|plan: Seq<FileInfo>|
            greedy_plan(snapshots@, level_seqs(levels@), txid, plan) && #[trigger] plan_answer(
                level_seqs(levels@),
                txid,
                plan,
                r,
            ),
{
    let ghost ls = level_seqs(levels@);
    let mut infos: Vec<FileInfo> = Vec::new();
    // Newest snapshot at or before the target.
    let mut n: usize = snapshots.len();
    assert(snapshots@.take(n as int) =~= snapshots@);
    while n > 0
        invariant_except_break
            infos@.len() == 0,
        invariant
            n <= snapshots@.len(),
            newest_snapshot(snapshots@.take(n as int), txid) == newest_snapshot(snapshots@, txid),
            forall|i: int|
                0 <= i < snapshots@.len() ==> (#[trigger] snapshots@[i]).max_txid.0 < u64::MAX,
        ensures
            infos@ == newest_snapshot(snapshots@, txid),
            plan_end(infos@).0 < u64::MAX,
        decreases n,
    {
        let s = snapshots[n - 1];
        let ghost t = snapshots@.take(n as int);
        assert(t.last() == s);
        assert(t.drop_last() =~= snapshots@.take(n - 1));
        if txid.0 == 0 || s.max_txid.0 <= txid.0 {
            infos.push(s);
            assert(infos@ =~= seq![s]);
            break;
        }
        n -= 1;
    }
    let ghost snap = newest_snapshot(snapshots@, txid);
    assert(infos@.take(snap.len() as int) =~= snap);
    assert(greedy_prefix(snapshots@, ls, txid, infos@));
    let mut current_max = if infos.len() > 0 {
        infos[infos.len() - 1].max_txid
    } else {
        Txid(0)
    };
    if txid.0 != 0 && current_max.0 >= txid.0 {
        assert(greedy_plan(snapshots@, ls, txid, infos@));
        assert(plan_answer(ls, txid, infos@, Ok(infos)));
        return Ok(infos);
    }
    let mut cursors: Vec<LevelCursor> = Vec::new();
    let mut l: usize = 0;
    while l < levels.len()
        invariant
            ls == level_seqs(levels@),
            level_listings(ls),
            l <= levels@.len(),
            cursors@.len() == l,
            forall|k: int|
                0 <= k < l ==> (#[trigger] cursors@[k]).files@ == ls[k] && cursors@[k].ready(
                    current_max,
                    txid,
                ) && cursors@[k].next == 0,
        decreases levels@.len() - l,
    {
        assert(ls[l as int] == levels@[l as int]@);
        let cursor = LevelCursor { files: levels[l].as_slice(), next: 0, candidate: None };
        assert(listing_sorted(ls[l as int]));
        cursors.push(cursor);
        l += 1;
    }
    // Greedy chain extension.
    loop
        invariant_except_break
            !reached(current_max, txid),
            forall|k: int|
                0 <= k < ls.len() ==> (#[trigger] cursors@[k]).ready(current_max, txid),
            forall|k: int, i: int|
                0 <= k < ls.len() && 0 <= i < cursors@[k].next ==> (
                #[trigger] ls[k][i]).min_txid.0 <= after(current_max),
        invariant
            ls == level_seqs(levels@),
            level_listings(ls),
            snap == newest_snapshot(snapshots@, txid),
            cursors@.len() == ls.len(),
            current_max.0 < u64::MAX,
            current_max == plan_end(infos@),
            greedy_prefix(snapshots@, ls, txid, infos@),
            forall|k: int| 0 <= k < ls.len() ==> (#[trigger] cursors@[k]).files@ == ls[k],
        ensures
            greedy_plan(snapshots@, ls, txid, infos@),
            txid.0 == 0 ==> forall|k: int|
                0 <= k < ls.len() ==> (#[trigger] cursors@[k]).settled(current_max, txid),
        decreases u64::MAX - current_max.0,
    {
        let mut i: usize = 0;
        while i < cursors.len()
            invariant
                current_max.0 < u64::MAX,
                i <= cursors@.len(),
                cursors@.len() == ls.len(),
                forall|k: int| 0 <= k < ls.len() ==> (#[trigger] cursors@[k]).files@ == ls[k],
                forall|k: int|
                    0 <= k < i ==> (#[trigger] cursors@[k]).settled(current_max, txid),
                forall|k: int|
                    i <= k < ls.len() ==> (#[trigger] cursors@[k]).ready(current_max, txid),
                forall|k: int, j: int|
                    i <= k < ls.len() && 0 <= j < cursors@[k].next ==> (
                    #[trigger] ls[k][j]).min_txid.0 <= after(current_max),
            decreases cursors@.len() - i,
        {
            proof {
                let cur = cursors@[i as int];
                assert forall|j: int| 0 <= j < cur.next implies (
                #[trigger] cur.files@[j]).min_txid.0 <= after(current_max) by {
                    assert(cur.files@[j] == ls[i as int][j]);
                }
            }
            cursors[i].refresh(current_max, txid);
            i += 1;
        }
        let b = match pick(&cursors) {
            None => {
                proof {
                    assert forall|g: FileInfo| #[trigger] is_file(ls, g) implies !extends(
                        g,
                        current_max,
                        txid,
                    ) by {
                        let k = choose|k: int| 0 <= k < ls.len() && (#[trigger] ls[k]).contains(g);
                        let j = choose|j: int| 0 <= j < ls[k].len() && ls[k][j] == g;
                        assert(cursors@[k].settled(current_max, txid));
                        assert(cursors@[k].files@[j] == g);
                    }
                }
                break;
            },
            Some(b) => b,
        };
        if let Some(candidate) = cursors[b].candidate {
            let ghost end = current_max;
            let ghost before = infos@;
            proof {
                lemma_pick_is_best(cursors@, ls, b as int, current_max, txid);
                let k = choose|k: int| 0 <= k < ls.len() && (#[trigger] ls[k]).contains(candidate);
                let j = choose|j: int| 0 <= j < ls[k].len() && ls[k][j] == candidate;
                assert(ls[k][j].max_txid.0 < u64::MAX);
            }
            current_max = candidate.max_txid;
            infos.push(candidate);
            proof {
                let s = snap.len() as int;
                assert(infos@.take(s) =~= before.take(s));
                assert forall|k: int| snap.len() <= k < infos@.len() implies best_extension(
                    ls,
                    #[trigger] infos@[k],
                    plan_end(infos@.take(k)),
                    txid,
                ) && !reached(plan_end(infos@.take(k)), txid) by {
                    if k < before.len() {
                        assert(infos@[k] == before[k]);
                        assert(infos@.take(k) =~= before.take(k));
                    } else {
                        assert(infos@.take(k) =~= before);
                    }
                }
                assert forall|k: int| 0 <= k < ls.len() implies (#[trigger] cursors@[k]).ready(
                    current_max,
                    txid,
                ) by {
                    let cur = cursors@[k];
                    assert(cur.settled(end, txid));
                    assert forall|i: int| 0 <= i < cur.next implies (
                    #[trigger] cur.files@[i]).max_txid.0 <= current_max.0 || !admits(
                        txid,
                        cur.files@[i].max_txid,
                    ) by {
                        let f = cur.files@[i];
                        assert(ls[k].contains(f));
                        assert(is_file(ls, f));
                    }
                    if cur.candidate is Some {
                        assert(ls[k].contains(cur.candidate->0));
                        assert(is_file(ls, cur.candidate->0));
                    }
                }
                assert forall|k: int, i: int|
                    0 <= k < ls.len() && 0 <= i < cursors@[k].next implies (
                #[trigger] ls[k][i]).min_txid.0 <= after(current_max) by {
                    assert(cursors@[k].settled(end, txid));
                    assert(cursors@[k].files@[i] == ls[k][i]);
                }
            }
        }
        if txid.0 != 0 && current_max.0 >= txid.0 {
            break;
        }
    }
    // Refuse to serve a stale head when files beyond a hole exist.
    if infos.len() > 0 && txid.0 == 0 {
        assert(cursor_files(cursors@) =~= ls);
        if let Some(g) = find_hole(&cursors, current_max, txid) {
            let mut m = "non-contiguous ltx files: have up to ".to_owned();
            m.append(current_max.text().as_str());
            m.append(" but next file starts at ");
            m.append(g.min_txid.text().as_str());
            let r: Result<Vec<FileInfo>, Error> = Err(Error::Other(m));
            assert(plan_answer(ls, txid, infos@, r));
            return r;
        }
    }
    if infos.len() == 0 || (txid.0 != 0 && infos[infos.len() - 1].max_txid.0 < txid.0) {
        let r: Result<Vec<FileInfo>, Error> = Err(tx_not_available());
        assert(plan_answer(ls, txid, infos@, r));
        return r;
    }
    assert(plan_answer(ls, txid, infos@, Ok(infos)));
    Ok(infos)
}

/// A plan is a chain without holes: after the snapshot (or the first
/// transaction, without one) each file starts no later than right after what
/// came before it, and brings something new.
pub proof fn law_plan_has_no_holes(
    snapshots: Seq<FileInfo>,
    levels: Seq<Seq<FileInfo>>,
    txid: Txid,
    plan: Seq<FileInfo>,
    k: int,
)
    requires
        greedy_plan(snapshots, levels, txid, plan),
        0 <= k < plan.len(),
        k > 0 || newest_snapshot(snapshots, txid).len() == 0,
    ensures
        k > 0 ==> crate::ltx::continues(
            plan[k - 1].max_txid,
            plan[k].min_txid,
            plan[k].max_txid,
        ),
        k == 0 ==> plan[0].min_txid.0 <= 1,
{
    lemma_newest_snapshot(snapshots, txid);
    assert(best_extension(levels, plan[k], plan_end(plan.take(k)), txid));
    if k > 0 {
        assert(plan.take(k).last() == plan[k - 1]);
    }
}

pub proof fn lemma_newest_snapshot(snapshots: Seq<FileInfo>, txid: Txid)
    ensures
        newest_snapshot(snapshots, txid).len() <= 1,
        newest_snapshot(snapshots, txid).len() == 1 ==> {
            &&& snapshots.contains(newest_snapshot(snapshots, txid)[0])
            &&& admits(txid, newest_snapshot(snapshots, txid)[0].max_txid)
        },
    decreases snapshots.len(),
{
    if snapshots.len() > 0 {
        if admits(txid, snapshots.last().max_txid) {
            assert(snapshots[snapshots.len() - 1] == snapshots.last());
        } else {
            let t = snapshots.drop_last();
            lemma_newest_snapshot(t, txid);
            if newest_snapshot(t, txid).len() == 1 {
                let s = newest_snapshot(t, txid)[0];
                let i = choose|i: int| 0 <= i < t.len() && t[i] == s;
                assert(snapshots[i] == s);
            }
        }
    }
}

/// A plan for a given transaction never goes past it, so one that reaches it
/// ends exactly there.
pub proof fn law_plan_ends_at_target(
    snapshots: Seq<FileInfo>,
    levels: Seq<Seq<FileInfo>>,
    txid: Txid,
    plan: Seq<FileInfo>,
)
    requires
        greedy_plan(snapshots, levels, txid, plan),
        txid.0 != 0,
        plan.len() > 0,
    ensures
        plan_end(plan).0 <= txid.0,
        reached(plan_end(plan), txid) ==> plan_end(plan) == txid,
{
    let s = newest_snapshot(snapshots, txid);
    let k = plan.len() - 1;
    lemma_newest_snapshot(snapshots, txid);
    if k >= s.len() {
        assert(best_extension(levels, plan[k], plan_end(plan.take(k)), txid));
    } else {
        assert(plan.take(s.len() as int)[k] == s[k]);
    }
}

/// A plan for the latest state that is served leaves no file's transactions
/// out: no file on levels 0 to 8 ends later than it does.
pub proof fn law_latest_plan_is_complete(
    snapshots: Seq<FileInfo>,
    levels: Seq<Seq<FileInfo>>,
    plan: Seq<FileInfo>,
    r: Result<Vec<FileInfo>, Error>,
    f: FileInfo,
)
    requires
        greedy_plan(snapshots, levels, Txid(0), plan),
        plan_answer(levels, Txid(0), plan, r),
        r is Ok,
        is_file(levels, f),
    ensures
        f.max_txid.0 <= plan_end(plan).0,
{
}

/// Whether two files hold the same transactions on the same level.
pub open spec fn same_file(f: FileInfo, g: FileInfo) -> bool {
    f.level == g.level && f.min_txid == g.min_txid && f.max_txid == g.max_txid
}

proof fn lemma_plans_agree(
    snapshots: Seq<FileInfo>,
    levels: Seq<Seq<FileInfo>>,
    txid: Txid,
    p: Seq<FileInfo>,
    q: Seq<FileInfo>,
    k: int,
)
    requires
        greedy_prefix(snapshots, levels, txid, p),
        greedy_prefix(snapshots, levels, txid, q),
        0 <= k <= p.len(),
        k <= q.len(),
    ensures
        forall|i: int| 0 <= i < k ==> same_file(#[trigger] p[i], q[i]),
        plan_end(p.take(k)) == plan_end(q.take(k)),
    decreases k,
{
    let s = newest_snapshot(snapshots, txid);
    if k > 0 {
        lemma_plans_agree(snapshots, levels, txid, p, q, k - 1);
        let f = p[k - 1];
        let g = q[k - 1];
        if k - 1 >= s.len() {
            assert(best_extension(levels, f, plan_end(p.take(k - 1)), txid));
            assert(best_extension(levels, g, plan_end(q.take(k - 1)), txid));
            assert(!better(f, g) && !better(g, f));
        } else {
            assert(p.take(s.len() as int)[k - 1] == s[k - 1]);
            assert(q.take(s.len() as int)[k - 1] == s[k - 1]);
        }
        assert(same_file(f, g));
        assert(p.take(k).last() == f);
        assert(q.take(k).last() == g);
    } else {
        assert(p.take(0) =~= q.take(0));
    }
}

/// The plan is determined: any two greedy plans for the same listings and
/// target hold the same files.
pub proof fn law_plan_is_determined(
    snapshots: Seq<FileInfo>,
    levels: Seq<Seq<FileInfo>>,
    txid: Txid,
    p: Seq<FileInfo>,
    q: Seq<FileInfo>,
)
    requires
        greedy_plan(snapshots, levels, txid, p),
        greedy_plan(snapshots, levels, txid, q),
    ensures
        p.len() == q.len(),
        forall|i: int| 0 <= i < p.len() ==> same_file(#[trigger] p[i], q[i]),
        plan_end(p) == plan_end(q),
{
    if p.len() < q.len() {
        let k = p.len() as int;
        lemma_plans_agree(snapshots, levels, txid, p, q, k);
        assert(p.take(k) =~= p);
        assert(best_extension(levels, q[k], plan_end(q.take(k)), txid));
        assert(false);
    } else if q.len() < p.len() {
        let k = q.len() as int;
        lemma_plans_agree(snapshots, levels, txid, p, q, k);
        assert(q.take(k) =~= q);
        assert(best_extension(levels, p[k], plan_end(p.take(k)), txid));
        assert(false);
    } else {
        lemma_plans_agree(snapshots, levels, txid, p, q, p.len() as int);
        assert(p.take(p.len() as int) =~= p);
        assert(q.take(q.len() as int) =~= q);
    }
}

} // verus!
