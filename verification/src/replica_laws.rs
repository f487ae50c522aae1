//! What a replica's restores and syncs come to, what a checkpoint goes
//! through, and which failures are worth a retry.
use crate::checkpoint::{
    checkpoint_step, CheckpointAction, CheckpointEvent, CheckpointPhase, CheckpointRun,
};
use crate::error::{busy, error_transient, storage_transient, Error, SqliteCode, StorageError};
use crate::ltx::{FileInfo, Txid};
use crate::replica::{
    after_incremental, after_restore, check_plan, final_length, first_small, page_offset,
    page_size_of, presented, sync_start, SyncNext, SyncResult, SyncStart,
};
use crate::restore::{
    restore_step, restore_wf, RestoreAction, RestoreEvent, RestoreModel, RestorePhase,
};
use vstd::prelude::*;

verus! {

/// A plan is good if every file in it is at least as large as a file's header,
/// which takes 100 bytes; the first that is not spoils it.
pub proof fn law_small_files_spoil_a_plan(plan: Seq<FileInfo>, k: int)
    requires
        0 <= k <= plan.len(),
        forall|j: int| 0 <= j < k ==> (#[trigger] plan[j]).size >= 100,
        k < plan.len() ==> plan[k].size < 100,
    ensures
        k == plan.len() ==> first_small(plan) is None,
        k < plan.len() ==> first_small(plan) == Some(plan[k]),
    decreases k,
{
    if k > 0 {
        let t = plan.skip(1);
        assert(plan[0].size >= 100);
        assert forall|j: int| 0 <= j < k - 1 implies (#[trigger] t[j]).size >= 100 by {
            assert(t[j] == plan[j + 1]);
        }
        if k < plan.len() {
            assert(t[k - 1] == plan[k]);
        }
        law_small_files_spoil_a_plan(t, k - 1);
    }
}

/// A restore opens every file of a good plan in order, merges them, writes the
/// image out, installs and checks it, records where the plan's last file ends
/// and reports that. A failure of any step ends it with that failure.
pub proof fn law_restore_carries_its_plan_out(
    s: RestoreModel,
    ev: RestoreEvent,
    t: RestoreModel,
    a: RestoreAction,
)
    requires
        restore_wf(s),
        restore_step(s, ev, false, t, a),
    ensures
        s.phase is Plan && (ev matches RestoreEvent::Planned(Ok(plan)) && plan@.len() > 0 && (
        forall|j: int| 0 <= j < plan@.len() ==> (#[trigger] plan@[j]).size >= 100)) ==> ({
            let plan = ev->Planned_0->Ok_0@;
            &&& a == RestoreAction::Open(plan[0]) && t.phase == RestorePhase::Open(0)
            &&& t.plan == plan && t.to == plan[plan.len() - 1].max_txid
        }),
        ev == RestoreEvent::Done(Ok(())) ==> ({
            &&& t.plan == s.plan && t.to == s.to
            &&& s.phase matches RestorePhase::Open(i) ==> {
                &&& i + 1 < s.plan.len() ==> a == RestoreAction::Open(s.plan[i + 1]) && t.phase
                    == RestorePhase::Open((i + 1) as usize)
                &&& i + 1 == s.plan.len() ==> a is Merge && t.phase is Merge
            }
            &&& s.phase is Merge ==> a is Materialize && t.phase is Materialize
            &&& s.phase is Materialize ==> a is Install && t.phase is Install
            &&& s.phase is Install ==> a is CheckIntegrity && t.phase is Integrity
            &&& s.phase is Integrity ==> a == RestoreAction::Record(s.to) && t.phase is Record
            &&& s.phase is Record ==> a == RestoreAction::Finish(Ok(s.to))
        }),
        (ev matches RestoreEvent::Done(Err(_))) ==> a == RestoreAction::Finish(
            Err(ev->Done_0->Err_0),
        ),
        (ev matches RestoreEvent::Planned(Err(_))) ==> a == RestoreAction::Finish(
            Err(ev->Planned_0->Err_0),
        ),
{
    if s.phase is Plan && (ev matches RestoreEvent::Planned(Ok(plan)) && plan@.len() > 0 && (
    forall|j: int| 0 <= j < plan@.len() ==> (#[trigger] plan@[j]).size >= 100)) {
        let plan = ev->Planned_0->Ok_0@;
        law_small_files_spoil_a_plan(plan, plan.len() as int);
    }
}

/// A restore can be cancelled until its image is complete, and no later.
pub proof fn law_restore_can_be_cancelled_until_installed(
    s: RestoreModel,
    ev: RestoreEvent,
    t: RestoreModel,
    a: RestoreAction,
)
    requires
        restore_wf(s),
        restore_step(s, ev, true, t, a),
        ev == RestoreEvent::Done(Ok(())),
    ensures
        s.phase matches RestorePhase::Open(i) && i + 1 < s.plan.len() ==> a
            == RestoreAction::Finish(Err(Error::Cancelled)),
        s.phase is Materialize ==> a == RestoreAction::Finish(Err(Error::Cancelled)),
        s.phase is Install ==> a is CheckIntegrity,
        s.phase is Integrity ==> a == RestoreAction::Record(s.to),
        s.phase is Record ==> a == RestoreAction::Finish(Ok(s.to)),
{
}

/// A sync starts from the recorded position if there is a database with one.
/// Without a database it restores; a database without a position is replaced
/// only if resets are allowed.
pub proof fn law_sync_replaces_only_what_it_may(
    db_exists: bool,
    from: Txid,
    auto_reset: bool,
    db_path: &str,
    r: SyncStart,
)
    requires
        call_ensures(sync_start, (db_exists, from, auto_reset, db_path), r),
    ensures
        r is Incremental <==> db_exists && from.0 > 0,
        r is Incremental ==> r->Incremental_0 == from,
        r is Restore <==> !db_exists || (from.0 == 0 && auto_reset),
        r is Restore ==> (r->Restore_0).0 == 0,
        r is Refuse <==> db_exists && from.0 == 0 && !auto_reset,
{
}

/// An incremental sync that succeeds is reported from where it started to
/// where it ended. Divergence alone leads to a restore, and only if resets are
/// allowed; the restore is then reported from where the sync started.
pub proof fn law_divergence_alone_leads_to_a_restore(
    from: Txid,
    outcome: Result<Txid, Error>,
    auto_reset: bool,
    r: SyncNext,
    restored: Result<Txid, Error>,
    q: Result<SyncResult, Error>,
)
    requires
        call_ensures(after_incremental, (from, outcome, auto_reset), r),
        call_ensures(after_restore, (from, restored), q),
    ensures
        outcome is Ok ==> r is Finish && r->Finish_0 is Ok && ({
            let s = r->Finish_0->Ok_0;
            !s.restored && s.from_txid == from && s.to_txid == outcome->Ok_0
        }),
        r is Restore <==> outcome is Err && outcome->Err_0 is Diverged && auto_reset,
        r is Restore ==> r->Restore_0 == from,
        outcome is Err && !(r is Restore) ==> r is Finish && r->Finish_0 is Err
            && r->Finish_0->Err_0 == outcome->Err_0,
        restored is Ok <==> q is Ok,
        restored is Ok ==> q->Ok_0.restored && q->Ok_0.from_txid == from && q->Ok_0.to_txid
            == restored->Ok_0,
        restored is Err ==> q->Err_0 == restored->Err_0,
{
}

/// A plan that is checked ends where its last file ends, if all of its files
/// can be files.
pub proof fn law_checked_plan_ends_with_its_last_file(plan: Vec<FileInfo>, r: Result<Txid, Error>)
    requires
        plan@.len() > 0,
        call_ensures(check_plan, (&plan,), r),
    ensures
        (forall|j: int| 0 <= j < plan@.len() ==> (#[trigger] plan@[j]).size >= 100) ==> r == Ok::<
            Txid,
            Error,
        >(plan@[plan@.len() - 1].max_txid),
        (exists|j: int| 0 <= j < plan@.len() && (#[trigger] plan@[j]).size < 100) ==> r is Err,
{
    lemma_small(plan@);
}

proof fn lemma_small(plan: Seq<FileInfo>)
    ensures
        first_small(plan) is None <==> forall|j: int|
            0 <= j < plan.len() ==> (#[trigger] plan[j]).size >= 100,
    decreases plan.len(),
{
    if plan.len() > 0 {
        let t = plan.skip(1);
        lemma_small(t);
        if plan[0].size >= 100 {
            assert forall|j: int| 0 <= j < plan.len() implies (#[trigger] plan[j]).size >= 100
                || first_small(t) is Some by {
                if j > 0 {
                    assert(t[j - 1] == plan[j]);
                }
            }
            assert forall|j: int| 0 <= j < t.len() implies (#[trigger] t[j]).size >= 100 || exists|
                i: int,
            |
                0 <= i < plan.len() && (#[trigger] plan[i]).size < 100 by {
                assert(t[j] == plan[j + 1]);
            }
        }
    }
}

/// Consecutive pages lie right behind one another from the start of the file
/// on, and a database of so many pages is as long as its last page's end.
pub proof fn law_pages_lie_side_by_side(
    pgno: u32,
    page_size: u32,
    here: u64,
    next: u64,
    first: u64,
    len: Option<u64>,
    none: Option<u64>,
)
    requires
        1 <= pgno < u32::MAX,
        call_ensures(page_offset, (pgno, page_size), here),
        call_ensures(page_offset, ((pgno + 1) as u32, page_size), next),
        call_ensures(page_offset, (1u32, page_size), first),
        call_ensures(final_length, (pgno, page_size), len),
        call_ensures(final_length, (0u32, page_size), none),
    ensures
        first == 0,
        next == here + page_size,
        len == Some(next),
        none is None,
{
    assert(pgno * page_size == (pgno - 1) * page_size + page_size) by (nonlinear_arith);
    assert((1u32 - 1) * page_size == 0) by (nonlinear_arith);
}

/// A header states a page size as a big-endian number of two bytes, in which
/// one stands for 65536, the one size that does not fit.
pub proof fn law_page_size_is_two_bytes(high: u8, low: u8, r: u32)
    requires
        call_ensures(page_size_of, (high, low), r),
    ensures
        high == 0 && low == 1 ==> r == 65536,
        !(high == 0 && low == 1) ==> r == high * 256 + low && r % 256 == low && r / 256 == high,
{
}

/// Only page 1 is presented otherwise than it is stored, and of it only the
/// two journal-mode bytes, which become 1, and the four bytes of the change
/// counter.
pub proof fn law_only_page_one_is_presented_otherwise(
    pgno: u32,
    data: Seq<u8>,
    counter: Seq<u8>,
    i: int,
)
    requires
        counter.len() == 4,
        0 <= i < data.len(),
    ensures
        ({
            let kept = presented(pgno, data, counter);
            &&& kept.len() == data.len()
            &&& pgno != 1 || data.len() < 28 ==> kept[i] == data[i]
            &&& pgno == 1 && data.len() >= 28 && (i == 18 || i == 19) ==> kept[i] == 1
            &&& pgno == 1 && data.len() >= 28 && 24 <= i < 28 ==> kept[i] == counter[i - 24]
            &&& pgno == 1 && data.len() >= 28 && i != 18 && i != 19 && !(24 <= i < 28) ==> kept[i]
                == data[i]
        }),
{
}

/// A checkpoint copies the log, gives up the read lock, runs, takes the lock
/// again, forces a write and looks at the header. If the header is as before,
/// that is all; else the log restarted, and its start is copied under the
/// write lock, which is rolled back in any case.
pub proof fn law_checkpoint_runs_its_course(
    s: CheckpointRun,
    ev: CheckpointEvent,
    t: CheckpointRun,
    a: CheckpointAction,
)
    requires
        checkpoint_step(s, ev, t, a),
        ev matches CheckpointEvent::Done(r) ==> r is Ok,
        ev matches CheckpointEvent::Header(r) ==> r is Ok,
    ensures
        t.mode == s.mode,
        s.phase is HeaderBefore ==> a is Sync && t.phase is PreCopy && t.header@
            == ev->Header_0->Ok_0@,
        s.phase is PreCopy ==> a is ReleaseReadLock && t.phase is Release && t.header == s.header,
        s.phase is Release ==> a == CheckpointAction::Run(s.mode) && t.phase is Checkpoint
            && t.header == s.header,
        s.phase is Checkpoint ==> a is AcquireReadLock && t.header == s.header,
        s.phase matches CheckpointPhase::Acquire(Ok(_)) ==> a is WriteSeq && t.phase is WriteSeq
            && t.header == s.header,
        s.phase is WriteSeq ==> a is ReadHeader && t.phase is HeaderAfter && t.header == s.header,
        s.phase is HeaderAfter && ev->Header_0->Ok_0@ == s.header@ ==> a is Finish && a->Finish_0
            is Ok,
        s.phase is HeaderAfter && ev->Header_0->Ok_0@ != s.header@ ==> a is Begin && t.phase
            is Begin,
        s.phase is Begin ==> a is TakeWriteLock && t.phase is WriteLock,
        s.phase is WriteLock ==> a is Sync && t.phase is PostCopy,
        s.phase is PostCopy ==> a is Rollback && t.phase == CheckpointPhase::Rollback(None),
        s.phase == CheckpointPhase::Rollback(None) ==> a is Finish && a->Finish_0 is Ok,
{
}

/// A checkpoint that fails still takes the read lock again before it reports
/// the failure, and a copy that fails under the write lock is rolled back
/// first.
pub proof fn law_failed_checkpoint_cleans_up(
    s: CheckpointRun,
    e: Error,
    t: CheckpointRun,
    a: CheckpointAction,
)
    requires
        checkpoint_step(s, CheckpointEvent::Done(Err(e)), t, a),
    ensures
        s.phase is Checkpoint ==> a is AcquireReadLock && t.phase == CheckpointPhase::Acquire(
            Err(e),
        ),
        s.phase is WriteLock || s.phase is PostCopy ==> a is Rollback && t.phase
            == CheckpointPhase::Rollback(Some(e)),
        s.phase is PreCopy || s.phase is Release || s.phase is WriteSeq || s.phase is Begin ==> a
            == CheckpointAction::Finish(Err(e)),
{
}

/// Transport failures and failures of input or output may pass, and nothing
/// else does: not a missing or broken file, not a refusal, not a conflict, not
/// a cancellation.
pub proof fn law_only_transport_failures_pass(e: StorageError)
    ensures
        e is Unavailable || e is Io ==> storage_transient(e),
        e is NotFound || e is Ltx || e is Unauthorized || e is Conflict || e is ReadOnly
            || e is Cancelled || e is Other ==> !storage_transient(e),
        error_transient(Error::Storage(e)) == storage_transient(e),
{
}

/// Of the library's own failures, only those of input or output may pass.
pub proof fn law_own_failures_do_not_pass(e: Error)
    ensures
        e is Io ==> error_transient(e),
        e is Sqlite || e is Ltx || e is Wal || e is EnableWalFailed || e is LocalLtx
            || e is Diverged || e is TxNotAvailable || e is Cancelled || e is Other
            ==> !error_transient(e),
{
}

/// SQLite is busy if it says so by its code, whatever its words; its words
/// count only without a code, and no other failure is one of being busy.
pub proof fn law_busy_goes_by_the_code(e: Error)
    ensures
        e !is Sqlite ==> !busy(e),
        e matches Error::Sqlite(f) ==> {
            &&& f.code == SqliteCode::Busy || f.code == SqliteCode::Locked ==> busy(e)
            &&& f.code == SqliteCode::Failure ==> !busy(e)
            &&& f.code == SqliteCode::Unknown && f.message@ == "database is locked"@ ==> busy(e)
        },
{
    if let Error::Sqlite(f) = e {
        if f.message@ == "database is locked"@ {
            let m = f.message@;
            assert(m.skip(0) =~= m);
            assert(crate::text::starts(m.skip(0), "database is locked"@));
        }
    }
}

} // verus!
