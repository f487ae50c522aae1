//! What restore plans are good for: they reach as far as any chain of files
//! does, in as long steps as there are.
use crate::error::Error;
use crate::ltx::{FileInfo, Txid};
use crate::plan::{
    better, best_extension, extends, file_beyond_hole, greedy_plan, greedy_prefix, is_file,
    law_plan_ends_at_target, lemma_newest_snapshot, newest_snapshot, plan_answer, plan_end,
    reached,
};
use vstd::prelude::*;

verus! {

/// Of two candidates the one that ends later is better, however it compares
/// otherwise; of two that end alike, the one that starts earlier; of two that
/// cover the same, the one on the higher level; and then the one that is known
/// to be older. Nothing else makes a file better.
pub proof fn law_better_goes_by_reach_first(a: FileInfo, b: FileInfo)
    ensures
        b.max_txid.0 > a.max_txid.0 ==> better(a, b),
        b.max_txid.0 == a.max_txid.0 && b.min_txid.0 < a.min_txid.0 ==> better(a, b),
        b.max_txid.0 == a.max_txid.0 && b.min_txid.0 == a.min_txid.0 && b.level > a.level
            ==> better(a, b),
        b.max_txid.0 == a.max_txid.0 && b.min_txid.0 == a.min_txid.0 && b.level == a.level ==> (
        better(a, b) <==> a.created_at is Some && b.created_at is Some && b.created_at->0
            < a.created_at->0),
        better(a, b) ==> b.max_txid.0 >= a.max_txid.0,
        better(a, b) && b.max_txid.0 == a.max_txid.0 ==> b.min_txid.0 <= a.min_txid.0,
        better(a, b) && b.max_txid.0 == a.max_txid.0 && b.min_txid.0 == a.min_txid.0 ==> b.level
            >= a.level,
{
}

/// A plan starts from the last listed snapshot that does not go past the
/// target, and from none only if all of them do.
pub proof fn law_plan_starts_from_the_last_fitting_snapshot(
    snapshots: Seq<FileInfo>,
    txid: Txid,
    k: int,
)
    requires
        -1 <= k < snapshots.len(),
        forall|i: int|
            k < i < snapshots.len() ==> txid.0 != 0 && (#[trigger] snapshots[i]).max_txid.0
                > txid.0,
        k >= 0 ==> txid.0 == 0 || snapshots[k].max_txid.0 <= txid.0,
    ensures
        k >= 0 ==> newest_snapshot(snapshots, txid) == seq![snapshots[k]],
        k < 0 ==> newest_snapshot(snapshots, txid).len() == 0,
    decreases snapshots.len(),
{
    if snapshots.len() > 0 && k < snapshots.len() - 1 {
        assert(snapshots[snapshots.len() - 1].max_txid.0 > txid.0);
        let t = snapshots.drop_last();
        assert forall|i: int| k < i < t.len() implies txid.0 != 0 && (#[trigger] t[i]).max_txid.0
            > txid.0 by {
            assert(t[i] == snapshots[i]);
        }
        law_plan_starts_from_the_last_fitting_snapshot(t, txid, k);
    }
}

/// Each step of a plan behind the snapshot leaves no hole, adds something,
/// does not go past the target, and goes as far as any file that does so.
pub proof fn law_plan_takes_the_longest_steps(
    snapshots: Seq<FileInfo>,
    levels: Seq<Seq<FileInfo>>,
    txid: Txid,
    plan: Seq<FileInfo>,
    k: int,
    f: FileInfo,
)
    requires
        greedy_plan(snapshots, levels, txid, plan),
        newest_snapshot(snapshots, txid).len() <= k < plan.len(),
        is_file(levels, f),
        f.min_txid.0 <= plan_end(plan.take(k)).0 + 1,
        txid.0 == 0 || f.max_txid.0 <= txid.0,
    ensures
        is_file(levels, plan[k]),
        plan[k].min_txid.0 <= plan_end(plan.take(k)).0 + 1,
        plan[k].max_txid.0 > plan_end(plan.take(k)).0,
        txid.0 == 0 || plan[k].max_txid.0 <= txid.0,
        f.max_txid.0 <= plan[k].max_txid.0,
{
    assert(best_extension(levels, plan[k], plan_end(plan.take(k)), txid));
    if f.max_txid.0 > plan_end(plan.take(k)).0 {
        assert(extends(f, plan_end(plan.take(k)), txid));
        assert(!better(plan[k], f));
    }
}

/// Whether `chain` is a chain of the bucket's files towards a target: it
/// starts with the first transaction, each file starts no later than right
/// after the one before it, and none goes past the target. Only the first may
/// be a snapshot.
pub open spec fn is_chain(
    snapshots: Seq<FileInfo>,
    levels: Seq<Seq<FileInfo>>,
    txid: Txid,
    chain: Seq<FileInfo>,
) -> bool {
    &&& chain.len() > 0
    &&& snapshots.contains(chain[0]) || (is_file(levels, chain[0]) && chain[0].min_txid.0 <= 1)
    &&& forall|k: int| 0 < k < chain.len() ==> is_file(levels, #[trigger] chain[k])
    &&& forall|k: int|
        0 < k < chain.len() ==> (#[trigger] chain[k]).min_txid.0 <= chain[k - 1].max_txid.0 + 1
    &&& forall|k: int|
        0 <= k < chain.len() ==> txid.0 == 0 || (#[trigger] chain[k]).max_txid.0 <= txid.0
}

/// Whether later snapshots are listed later.
pub open spec fn snapshots_in_order(snapshots: Seq<FileInfo>) -> bool {
    forall|i: int, j: int|
        0 <= i <= j < snapshots.len() ==> (#[trigger] snapshots[i]).max_txid.0 <= (
        #[trigger] snapshots[j]).max_txid.0
}

/// The plan reaches at least as far as any chain of the bucket's files. So
/// wherever a transaction can be reconstructed at all, the plan does.
pub proof fn law_plan_reaches_as_far_as_any_chain(
    snapshots: Seq<FileInfo>,
    levels: Seq<Seq<FileInfo>>,
    txid: Txid,
    plan: Seq<FileInfo>,
    chain: Seq<FileInfo>,
    n: int,
)
    requires
        greedy_plan(snapshots, levels, txid, plan),
        snapshots_in_order(snapshots),
        is_chain(snapshots, levels, txid, chain),
        0 <= n < chain.len(),
    ensures
        chain[n].max_txid.0 <= plan_end(plan).0,
    decreases n,
{
    let end = plan_end(plan);
    let f = chain[n];
    let s = newest_snapshot(snapshots, txid);
    assert(txid.0 == 0 || f.max_txid.0 <= txid.0);
    if reached(end, txid) {
    } else if f.max_txid.0 > end.0 {
        lemma_plan_end_is_not_before_snapshot(snapshots, levels, txid, plan);
        if n > 0 {
            law_plan_reaches_as_far_as_any_chain(snapshots, levels, txid, plan, chain, n - 1);
            assert(is_file(levels, f));
            assert(f.min_txid.0 <= chain[n - 1].max_txid.0 + 1);
            assert(extends(f, end, txid));
        } else if snapshots.contains(f) {
            let j = choose|j: int| 0 <= j < snapshots.len() && snapshots[j] == f;
            lemma_snapshot_reach(snapshots, txid, j);
        } else {
            assert(is_file(levels, f));
            assert(extends(f, end, txid));
        }
        assert(false);
    }
}

proof fn lemma_snapshot_reach(snapshots: Seq<FileInfo>, txid: Txid, j: int)
    requires
        snapshots_in_order(snapshots),
        0 <= j < snapshots.len(),
        txid.0 == 0 || snapshots[j].max_txid.0 <= txid.0,
    ensures
        newest_snapshot(snapshots, txid).len() == 1,
        newest_snapshot(snapshots, txid)[0].max_txid.0 >= snapshots[j].max_txid.0,
    decreases snapshots.len(),
{
    let n = snapshots.len() - 1;
    if txid.0 == 0 || snapshots[n].max_txid.0 <= txid.0 {
        assert(snapshots[j].max_txid.0 <= snapshots[n].max_txid.0);
    } else {
        let t = snapshots.drop_last();
        assert(t[j] == snapshots[j]);
        assert forall|a: int, b: int| 0 <= a <= b < t.len() implies (#[trigger] t[a]).max_txid.0
            <= (#[trigger] t[b]).max_txid.0 by {
            assert(t[a] == snapshots[a] && t[b] == snapshots[b]);
        }
        lemma_snapshot_reach(t, txid, j);
    }
}

proof fn lemma_plan_end_is_not_before_snapshot(
    snapshots: Seq<FileInfo>,
    levels: Seq<Seq<FileInfo>>,
    txid: Txid,
    plan: Seq<FileInfo>,
)
    requires
        greedy_plan(snapshots, levels, txid, plan),
    ensures
        newest_snapshot(snapshots, txid).len() == 1 ==> plan_end(plan).0 >= newest_snapshot(
            snapshots,
            txid,
        )[0].max_txid.0,
{
    lemma_newest_snapshot(snapshots, txid);
    if newest_snapshot(snapshots, txid).len() == 1 {
        lemma_plan_rises(snapshots, levels, txid, plan, plan.len() as int);
        assert(plan.take(plan.len() as int) =~= plan);
    }
}

proof fn lemma_plan_rises(
    snapshots: Seq<FileInfo>,
    levels: Seq<Seq<FileInfo>>,
    txid: Txid,
    plan: Seq<FileInfo>,
    k: int,
)
    requires
        greedy_prefix(snapshots, levels, txid, plan),
        newest_snapshot(snapshots, txid).len() == 1,
        1 <= k <= plan.len(),
    ensures
        plan_end(plan.take(k)).0 >= newest_snapshot(snapshots, txid)[0].max_txid.0,
    decreases k,
{
    let s = newest_snapshot(snapshots, txid);
    if k == 1 {
        assert(plan.take(1) == s);
    } else {
        lemma_plan_rises(snapshots, levels, txid, plan, k - 1);
        assert(best_extension(levels, plan[k - 1], plan_end(plan.take(k - 1)), txid));
        assert(plan.take(k).last() == plan[k - 1]);
    }
}

/// Whether the bucket has a chain of files that ends with transaction `t`.
pub open spec fn reconstructs(
    snapshots: Seq<FileInfo>,
    levels: Seq<Seq<FileInfo>>,
    t: Txid,
) -> bool {
    exists|chain: Seq<FileInfo>| #[trigger]
        is_chain(snapshots, levels, t, chain) && chain.last().max_txid == t
}

proof fn lemma_plan_is_chain(
    snapshots: Seq<FileInfo>,
    levels: Seq<Seq<FileInfo>>,
    txid: Txid,
    plan: Seq<FileInfo>,
)
    requires
        greedy_plan(snapshots, levels, txid, plan),
        plan.len() > 0,
    ensures
        is_chain(snapshots, levels, txid, plan),
{
    let s = newest_snapshot(snapshots, txid);
    lemma_newest_snapshot(snapshots, txid);
    if s.len() == 1 {
        assert(plan.take(1)[0] == s[0]);
    } else {
        assert(best_extension(levels, plan[0], plan_end(plan.take(0)), txid));
    }
    assert forall|k: int| 0 < k < plan.len() implies is_file(levels, #[trigger] plan[k])
        && plan[k].min_txid.0 <= plan[k - 1].max_txid.0 + 1 by {
        assert(best_extension(levels, plan[k], plan_end(plan.take(k)), txid));
        assert(plan.take(k).last() == plan[k - 1]);
    }
    assert forall|k: int| 0 <= k < plan.len() implies txid.0 == 0 || (
    #[trigger] plan[k]).max_txid.0 <= txid.0 by {
        if k >= s.len() {
            assert(best_extension(levels, plan[k], plan_end(plan.take(k)), txid));
        }
    }
}

/// A target transaction is answered with a plan exactly if the bucket has a
/// chain of files that ends with it, and then with one that ends with it too;
/// otherwise it is not available. Without a target, there is an answer exactly
/// if there is a chain at all and no file lies behind a hole after the
/// plan.
pub proof fn law_plan_exists_iff_a_chain_does(
    snapshots: Seq<FileInfo>,
    levels: Seq<Seq<FileInfo>>,
    txid: Txid,
    plan: Seq<FileInfo>,
    r: Result<Vec<FileInfo>, Error>,
)
    requires
        greedy_plan(snapshots, levels, txid, plan),
        plan_answer(levels, txid, plan, r),
        snapshots_in_order(snapshots),
    ensures
        txid.0 != 0 ==> (r is Ok <==> reconstructs(snapshots, levels, txid)),
        txid.0 != 0 && r is Err ==> r->Err_0 is TxNotAvailable,
        r is Ok ==> r->Ok_0@ == plan && plan.len() > 0 && is_chain(snapshots, levels, txid, plan),
        r is Ok && txid.0 != 0 ==> r->Ok_0@.last().max_txid == txid,
        txid.0 == 0 && plan.len() == 0 ==> r is Err && r->Err_0 is TxNotAvailable,
        txid.0 == 0 && plan.len() > 0 ==> (r is Ok <==> forall|f: FileInfo| #[trigger]
            is_file(levels, f) ==> f.min_txid.0 <= plan.last().max_txid.0 + 1),
{
    if plan.len() > 0 {
        lemma_plan_is_chain(snapshots, levels, txid, plan);
        if txid.0 != 0 {
            law_plan_ends_at_target(snapshots, levels, txid, plan);
        }
    }
    if txid.0 != 0 {
        if r is Ok {
            assert(is_chain(snapshots, levels, txid, plan) && plan.last().max_txid == txid);
        }
        if reconstructs(snapshots, levels, txid) {
            let chain = choose|chain: Seq<FileInfo>| #[trigger]
                is_chain(snapshots, levels, txid, chain) && chain.last().max_txid == txid;
            law_plan_reaches_as_far_as_any_chain(
                snapshots,
                levels,
                txid,
                plan,
                chain,
                chain.len() - 1,
            );
        }
    } else {
        assert(file_beyond_hole(levels, plan_end(plan)) <==> exists|f: FileInfo| #[trigger]
            is_file(levels, f) && f.min_txid.0 > plan_end(plan).0 + 1);
    }
}

} // verus!
