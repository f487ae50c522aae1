//! What holds where the library meets the world: times, failures, replies and
//! what applications are told.
use crate::client::{checked_answer, is_header_safe, open_answer, OpenAnswer};
use crate::compaction::{page_failure, polls_at};
use crate::dir::{open_failure, unless_missing};
use crate::error::{storage_transient, Error, StorageError};
use crate::fence::{fence_reject_response, FenceReject};
use crate::ffi::{map_error, LitersError, MaintenanceSummary, PushSummary, SyncSummary};
use crate::io::{ErrorKind, IoError};
use crate::ltx::Txid;
use crate::mount::{delete_reply, open_reply, parse_level, Response};
use crate::replica::SyncResult;
use crate::s3::check_length;
use crate::stream::{check_silence, stream_io_err};
use crate::time::{elapsed, pause_step, Pause, Span};
use crate::transport::{
    body_outcome, judge_write, read_outcome, BodyRead, StdNetTransport, WriteVerdict,
};
use crate::wire::is_timeout;
use crate::writer::{sync_done, wal_exists, L0Plan, PageSource, PushResult, SyncOutcome};
use vstd::prelude::*;

verus! {

// ---------------------------------------------------------------------------
// Times

/// What has passed of a span and what is left of it make up the span, until it
/// is over; then nothing is left.
pub proof fn law_time_passes(from: u128, to: u128, span: Span, gone: Span, left: Span)
    requires
        call_ensures(elapsed, (from, to), gone),
        call_ensures(Span::left_after, (&span, gone), left),
    ensures
        to >= from ==> gone.nanos == to - from,
        to < from ==> gone.nanos == 0,
        gone.nanos <= span.nanos ==> gone.nanos + left.nanos == span.nanos,
        gone.nanos >= span.nanos ==> left.nanos == 0,
{
}

/// A wait notices a cancellation within a tenth of a second: it never sleeps
/// longer at a time, never longer than is left, and ends when nothing is.
pub proof fn law_waits_are_cut_short(cancelled: bool, left: Span, r: Pause)
    requires
        call_ensures(pause_step, (cancelled, left), r),
    ensures
        cancelled <==> r is Cancelled,
        !cancelled && left.nanos == 0 <==> r is Over,
        r matches Pause::Sleep(s) ==> {
            &&& 0 < s.nanos <= left.nanos
            &&& s.nanos <= 100_000_000
            &&& s.nanos == left.nanos || s.nanos == 100_000_000
        },
{
}

/// A stream has stalled once nothing was heard of it for as long as it may be
/// silent, and not before; that is a failure worth a retry.
pub proof fn law_silence_is_measured(
    heard: u128,
    now: u128,
    limit: Span,
    r: Result<(), StorageError>,
)
    requires
        limit.nanos > 0,
        call_ensures(check_silence, (heard, now, limit), r),
    ensures
        r is Err <==> heard + limit.nanos <= now,
        r matches Err(e) ==> storage_transient(e),
{
}

/// A write that is held up is tried again until nothing went through for the
/// whole timeout, an interrupted one always; any other failure ends it. The
/// cancellation is looked at as often as a write times out, every two seconds
/// at least.
pub proof fn law_held_up_writes_are_tried_again(
    e: IoError,
    timed_out: bool,
    silent: Span,
    transport: StdNetTransport,
    cancelled: bool,
    tick: Span,
    r: WriteVerdict,
)
    requires
        call_ensures(is_timeout, (&e,), timed_out),
        call_ensures(judge_write, (&e, silent, transport.io_timeout, cancelled), r),
        call_ensures(StdNetTransport::write_tick, (&transport,), tick),
    ensures
        timed_out <==> e.kind == ErrorKind::WouldBlock || e.kind == ErrorKind::TimedOut,
        timed_out && silent.nanos < transport.io_timeout.nanos ==> r is Retry,
        timed_out && silent.nanos >= transport.io_timeout.nanos ==> (r matches WriteVerdict::Fail(
            f,
        ) && storage_transient(f)),
        e.kind == ErrorKind::Interrupted ==> r is Retry,
        !timed_out && e.kind != ErrorKind::Interrupted ==> r is Fail && (r->Fail_0 is Cancelled
            <==> cancelled) && (!cancelled ==> storage_transient(r->Fail_0)),
        tick.nanos <= 2_000_000_000 && tick.nanos <= transport.io_timeout.nanos,
        tick.nanos == 2_000_000_000 || tick.nanos == transport.io_timeout.nanos,
{
}

// ---------------------------------------------------------------------------
// Reads

/// A body read gives what the connection gave: its bytes, its end, and its
/// failures. Only a quiet spell of a long-lived body is an idle tick, which a
/// plain read sees as a timeout.
pub proof fn law_body_reads_are_passed_on(
    read: Result<usize, IoError>,
    long_lived: bool,
    body: Result<BodyRead, IoError>,
    r: Result<usize, IoError>,
)
    requires
        call_ensures(body_outcome, (read, long_lived), body),
        call_ensures(read_outcome, (body,), r),
    ensures
        read is Ok ==> r == read,
        read is Ok && read->Ok_0 == 0 <==> body == Ok::<BodyRead, IoError>(BodyRead::Eof),
        read is Err && !long_lived ==> r == read,
        read is Err ==> r is Err,
        body == Ok::<BodyRead, IoError>(BodyRead::Idle) <==> read is Err && long_lived && (
        read->Err_0.kind == ErrorKind::WouldBlock || read->Err_0.kind == ErrorKind::TimedOut),
        body == Ok::<BodyRead, IoError>(BodyRead::Idle) ==> r->Err_0.kind == ErrorKind::WouldBlock,
        read is Err && body is Err ==> r == read,
{
}

/// A stream that breaks off is worth a retry; one that breaks the rules is
/// not.
pub proof fn law_broken_streams_are_told_apart(e: IoError, r: StorageError)
    requires
        call_ensures(stream_io_err, (&e,), r),
    ensures
        storage_transient(r) <==> e.kind != ErrorKind::InvalidData,
        e.kind == ErrorKind::InvalidData ==> r is Other,
        e.kind != ErrorKind::InvalidData ==> r is Unavailable,
{
}

/// A sync that made a file reaches that file's transaction, and has consumed
/// the log up to the end of what the file was made of: to the log's end if the
/// log ends there.
pub proof fn law_sync_ends_where_its_plan_does(plan: L0Plan, wal_file_size: u64, r: SyncOutcome)
    requires
        plan.wal_offset + plan.wal_size <= u64::MAX,
        call_ensures(sync_done, (&plan, wal_file_size), r),
    ensures
        r.synced,
        r.pos is Some && r.pos->0.txid == plan.txid,
        r.new_wal_size - plan.wal_size == plan.wal_offset,
        r.synced_to_wal_end <==> wal_file_size == r.new_wal_size,
{
}

/// A log counts as there from its header on, which takes 32 bytes.
pub proof fn law_log_is_there_with_its_header(len: Option<u64>, r: bool)
    requires
        call_ensures(wal_exists, (len,), r),
    ensures
        r <==> len is Some && len->0 >= 32,
{
}

/// A snapshot looks at the cancellation at every 256th page, and a page that
/// cannot be read in full is named in the failure, while any other failure is
/// left as it is.
pub proof fn law_snapshots_can_be_cancelled(
    pgno: u32,
    polls: bool,
    e: Error,
    source: PageSource,
    r: Error,
)
    requires
        call_ensures(polls_at, (pgno,), polls),
        call_ensures(page_failure, (e, source, pgno), r),
    ensures
        polls <==> pgno % 256 == 0,
        (e matches Error::Io(io) && io.kind == ErrorKind::UnexpectedEof) ==> r is Other,
        !(e matches Error::Io(io) && io.kind == ErrorKind::UnexpectedEof) ==> r == e,
{
}

// ---------------------------------------------------------------------------
// Replies

/// What a mount answers is what the client makes of it: a file that is there
/// is delivered, a missing one is missing, and a backend that failed is a
/// failure.
pub proof fn law_answers_mean_what_they_say(
    opened: Result<(), StorageError>,
    reply: Response,
    level: u8,
    min: Txid,
    max: Txid,
    whole: bool,
    excerpt: &str,
    r: OpenAnswer,
)
    requires
        call_ensures(open_reply, (opened,), reply),
        call_ensures(open_answer, (level, min, max, whole, reply.status, excerpt), r),
    ensures
        opened is Ok ==> reply.body is Reader && (whole ==> r is Spool) && (!whole ==> r
            is Stream),
        opened is Err && opened->Err_0 is NotFound ==> r == OpenAnswer::Fail(
            StorageError::NotFound { level, min_txid: min, max_txid: max },
        ),
        opened is Err && !(opened->Err_0 is NotFound) ==> r is Fail && r->Fail_0 is Other
            && reply.status == 500,
{
}

/// A listing or a deletion that succeeded is answered with success, and one
/// that failed is not; a refused write is a conflict to its client, and a
/// backend that failed under the fence is no conflict.
pub proof fn law_only_success_is_answered_as_success(
    deleted: Result<(), StorageError>,
    all: bool,
    reply: Response,
    rej: FenceReject,
    refusal: Response,
    context: &str,
    excerpt: &str,
    r: Result<(), StorageError>,
    q: Result<(), StorageError>,
)
    requires
        call_ensures(delete_reply, (all, deleted), reply),
        call_ensures(checked_answer, (context, true, reply.status, excerpt), r),
        call_ensures(fence_reject_response, (&rej,), refusal),
        call_ensures(checked_answer, (context, true, refusal.status, excerpt), q),
    ensures
        deleted is Ok <==> r is Ok,
        q is Err,
        rej is Conflict <==> q->Err_0 is Conflict,
        rej is Backend ==> q->Err_0 is Other,
{
}

/// A level is named by one decimal digit, and by nothing else.
pub proof fn law_level_is_one_digit(s: &str, r: Option<u8>)
    requires
        call_ensures(parse_level, (s,), r),
    ensures
        r is Some <==> s@.len() == 1 && '0' <= s@[0] <= '9',
        r is Some ==> r->0 <= 9 && s@[0] as int == '0' as int + r->0,
{
}

/// What stands in a request head is visible ASCII, and some of it: no line
/// can be smuggled in.
pub proof fn law_heads_hold_visible_text_only(s: &str, r: bool, i: int)
    requires
        call_ensures(is_header_safe, (s,), r),
        0 <= i < s@.len(),
    ensures
        s@[i] == '\n' || s@[i] == '\r' || s@[i] == ' ' ==> !r,
        r ==> 33 <= s@[i] as int <= 126,
{
}

// ---------------------------------------------------------------------------
// Files

/// A missing file is told apart from a failure to open it, and what is missing
/// anyway is no failure to delete.
pub proof fn law_missing_files_are_told_apart(
    level: u8,
    min: Txid,
    max: Txid,
    e: IoError,
    r: StorageError,
    q: Result<bool, StorageError>,
    len: u64,
    c: Result<(), StorageError>,
)
    requires
        call_ensures(open_failure, (level, min, max, e), r),
        call_ensures(unless_missing, (Err::<(), IoError>(e),), q),
        call_ensures(check_length, (len,), c),
    ensures
        e.kind is NotFound <==> r is NotFound,
        r is NotFound ==> r == (StorageError::NotFound { level, min_txid: min, max_txid: max }),
        !(r is NotFound) ==> storage_transient(r),
        e.kind is NotFound <==> q == Ok::<bool, StorageError>(false),
        !(e.kind is NotFound) ==> q is Err,
        c is Ok <==> len >= 100,
{
}

// ---------------------------------------------------------------------------
// Applications

/// An application is told of divergence and of storage failures as such, and
/// never of one for the other.
pub proof fn law_applications_tell_failures_apart(e: Error, r: LitersError)
    requires
        call_ensures(map_error, (&e,), r),
    ensures
        e is Diverged <==> r is Diverged,
        e is Storage <==> r is Storage,
        e is Cancelled || e is Io || e is TxNotAvailable ==> r is Other,
{
}

/// What an application is told of a push, a sync or a maintenance run is what
/// it did.
pub proof fn law_summaries_say_what_was_done(
    p: PushResult,
    ps: PushSummary,
    s: SyncResult,
    ss: SyncSummary,
    m: crate::compaction::MaintenanceReport,
    ms: MaintenanceSummary,
)
    requires
        call_ensures(PushSummary::of, (p,), ps),
        call_ensures(SyncSummary::of, (s,), ss),
        call_ensures(MaintenanceSummary::of, (m,), ms),
    ensures
        Txid(ps.txid) == p.txid && Txid(ps.remote_txid) == p.remote_txid,
        ps.synced == p.synced && ps.uploaded == p.uploaded && ps.checkpointed == p.checkpointed,
        Txid(ss.from_txid) == s.from_txid && Txid(ss.to_txid) == s.to_txid,
        ss.restored == s.restored,
        ms.compacted_levels@ == m.compacted_levels@ && ms.deleted_files == m.deleted,
        ms.snapshot_txid is Some <==> m.snapshot is Some,
        m.snapshot is Some ==> ms.snapshot_txid->0 == (m.snapshot->0).0,
{
}

} // verus!
