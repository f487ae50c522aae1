//! What the two ends of a live stream do with transactions and time: the
//! follower, and the feed that serves it.
use crate::error::{error_transient, Error};
use crate::feed::{
    emits, feed_ok, feed_step, skip_sent, txid_line, FeedAction, FeedEvent, FeedState,
};
use crate::follow::{follow_step, Follow, FollowAction, FollowEvent, FollowPhase, Wait};
use crate::ltx::{FileInfo, Txid};
use crate::storage::StreamEvent;
use crate::sync::lemma_max_seen;
use vstd::prelude::*;

verus! {

/// A streamed file that extends the position without a hole is applied, then
/// the position becomes its end, is recorded, and the session goes on. One
/// that the position covers is passed over. One behind a hole ends the
/// session, with the position unchanged.
pub proof fn law_streamed_file_is_applied_if_it_extends(s: Follow, f: FileInfo)
    requires
        s.phase is Next,
    ensures
        ({
            let (t, a) = follow_step(s, FollowEvent::Streamed(Ok(StreamEvent::Ltx(f))));
            let (u, b) = follow_step(t, FollowEvent::Applied(Ok(())));
            let (v, c) = follow_step(u, FollowEvent::Recorded(Ok(())));
            &&& t.position == s.position && t.attempt == s.attempt && t.progress == s.progress
            &&& f.max_txid.0 <= s.position.0 ==> a is PollCancel && t.phase is InStream
            &&& f.max_txid.0 > s.position.0 && f.min_txid.0 > s.position.0 + 1 ==> a
                is CloseStream && t.phase == FollowPhase::Close(None)
            &&& f.max_txid.0 > s.position.0 && f.min_txid.0 <= s.position.0 + 1 ==> {
                &&& a is Apply
                &&& b == FollowAction::Record(f.max_txid) && u.position == f.max_txid
                &&& c is PollCancel && v.phase is InStream && v.position == f.max_txid
                &&& v.progress
            }
        }),
{
}

/// An idle bucket ends the session if it is known to end before the position,
/// and only then; an empty one, or one that nobody looked at, does not. Any
/// other end of the stream ends the session too.
pub proof fn law_idle_stream_goes_on_unless_the_bucket_lies_behind(
    s: Follow,
    bucket_max: Option<Txid>,
    ev: StreamEvent,
)
    requires
        s.phase is Next,
        ev !is Ltx && ev !is Idle,
    ensures
        ({
            let (t, a) = follow_step(
                s,
                FollowEvent::Streamed(Ok(StreamEvent::Idle { bucket_max })),
            );
            let behind = bucket_max is Some && 0 < (bucket_max->0).0 < s.position.0;
            &&& behind ==> a is CloseStream && t.phase == FollowPhase::Close(None)
            &&& !behind ==> a is PollCancel && t.phase is InStream
            &&& t.position == s.position
            &&& follow_step(s, FollowEvent::Streamed(Ok(ev))).1 is CloseStream
            &&& follow_step(s, FollowEvent::Streamed(Ok(ev))).0.phase == FollowPhase::Close(None)
        }),
{
}

/// A session that ended by itself is followed by a new round at once if it
/// moved the position, and else by a wait for the next poll. One that failed
/// is waited out if the failure is transient and that is wanted, from the
/// start again if the session moved the position; any other failure ends
/// following, and a cancellation ends it cleanly.
pub proof fn law_session_end_decides_the_next_round(s: Follow, e: Error)
    ensures
        s.phase == FollowPhase::Close(None) ==> ({
            let (t, a) = follow_step(s, FollowEvent::Closed);
            &&& s.progress ==> a is PollCancel && t.phase is Top && t.attempt == 0
            &&& !s.progress ==> a == FollowAction::Sleep(Wait::Poll) && t.attempt == s.attempt
        }),
        s.phase == FollowPhase::Close(Some(e)) ==> ({
            let (t, a) = follow_step(s, FollowEvent::Closed);
            let attempt: u32 = if s.progress {
                0
            } else {
                s.attempt
            };
            &&& e is Cancelled ==> a == FollowAction::Stop(Ok(()))
            &&& e !is Cancelled && error_transient(e) && s.retry ==> a == FollowAction::Sleep(
                Wait::Backoff(attempt),
            )
            &&& e !is Cancelled && !(error_transient(e) && s.retry) ==> a == FollowAction::Stop(
                Err(e),
            )
        }),
{
}

/// A round syncs first. A sync that succeeds forgets earlier failures, and the
/// stream is then opened right after the position; a bucket without anything
/// to restore is polled again later; a backend that does not stream is polled.
pub proof fn law_round_syncs_and_then_streams(
    s: Follow,
    before: Txid,
    after: Txid,
    streams: bool,
)
    requires
        s.phase is Top,
        after.0 < u64::MAX,
    ensures
        ({
            let a = follow_step(s, FollowEvent::Cancelled(false));
            let b = follow_step(a.0, FollowEvent::Position(Ok(before)));
            let c = follow_step(b.0, FollowEvent::Synced(Ok(())));
            let d = follow_step(c.0, FollowEvent::Position(Ok(after)));
            let e = follow_step(d.0, FollowEvent::StreamOpened(Ok(streams)));
            let f = follow_step(e.0, FollowEvent::DbOpened(Ok(())));
            let g = follow_step(f.0, FollowEvent::Cancelled(false));
            &&& a.1 is ReadPosition && b.1 is Sync && c.1 is ReadPosition
            &&& c.0.attempt == 0
            &&& d.1 is OpenStream && d.1->OpenStream_0.0 == after.0 + 1
            &&& d.0.position == after && (d.0.progress <==> after.0 > before.0)
            &&& streams ==> e.1 is OpenDb && f.1 is PollCancel && g.1 is NextEvent
            &&& !streams ==> e.1 == FollowAction::Sleep(Wait::Poll)
            &&& follow_step(b.0, FollowEvent::Synced(Err(Error::TxNotAvailable))).1
                == FollowAction::Sleep(Wait::Poll)
            &&& follow_step(s, FollowEvent::Cancelled(true)).1 == FollowAction::Stop(Ok(()))
        }),
{
}

/// A failed sync is waited out if the failure is transient and that is wanted;
/// else it ends following, cleanly if it was a cancellation. Each wait that
/// follows a failure counts one more attempt.
pub proof fn law_failures_are_counted(s: Follow, e: Error)
    requires
        e !is TxNotAvailable,
    ensures
        s.phase is Sync ==> ({
            let (t, a) = follow_step(s, FollowEvent::Synced(Err(e)));
            &&& e is Cancelled ==> a == FollowAction::Stop(Ok(()))
            &&& e !is Cancelled && error_transient(e) && s.retry ==> a == FollowAction::Sleep(
                Wait::Backoff(s.attempt),
            ) && ({
                let (u, b) = follow_step(t, FollowEvent::Slept(false));
                &&& b is PollCancel && u.phase is Top
                &&& s.attempt < u32::MAX ==> u.attempt == s.attempt + 1
                &&& s.attempt == u32::MAX ==> u.attempt == u32::MAX
                &&& follow_step(t, FollowEvent::Slept(true)).1 == FollowAction::Stop(Ok(()))
            })
            &&& e !is Cancelled && !(error_transient(e) && s.retry) ==> a == FollowAction::Stop(
                Err(e),
            )
        }),
        s.phase == FollowPhase::Sleep(Wait::Poll) ==> ({
            let (u, b) = follow_step(s, FollowEvent::Slept(false));
            b is PollCancel && u.phase is Top && u.attempt == s.attempt
        }),
{
}

/// A received file that turns out to be of another history, broken or not to
/// be had ends the session without failing it, so that the next round settles
/// it by listings; any other failure to apply it fails the session. The
/// position stays in either case.
pub proof fn law_unfit_file_ends_the_session(s: Follow, e: Error)
    requires
        s.phase is Apply,
    ensures
        ({
            let (t, a) = follow_step(s, FollowEvent::Applied(Err(e)));
            &&& a is CloseStream && t.position == s.position
            &&& e is Diverged || e is Ltx || e is Storage ==> t.phase == FollowPhase::Close(None)
            &&& !(e is Diverged || e is Ltx || e is Storage) ==> t.phase == FollowPhase::Close(
                Some(e),
            )
        }),
{
}

// ---------------------------------------------------------------------------
// The feed

proof fn lemma_skip_to(files: Seq<FileInfo>, i: int, k: int, cursor: Txid)
    requires
        0 <= i <= k <= files.len(),
        forall|j: int| i <= j < k ==> (#[trigger] files[j]).max_txid.0 < cursor.0,
        k < files.len() ==> files[k].max_txid.0 >= cursor.0,
    ensures
        skip_sent(files, i, cursor) == k,
    decreases k - i,
{
    if i < k {
        assert(files[i].max_txid.0 < cursor.0);
        lemma_skip_to(files, i + 1, k, cursor);
    }
}

/// Of a listing, the feed sends the first file that reaches what the follower
/// lacks, if it starts no later than there; if it starts later, the follower
/// is told of the gap and where the file starts, and the stream ends.
pub proof fn law_feed_sends_the_first_file_that_is_lacking(
    s: FeedState,
    files: Vec<FileInfo>,
    k: int,
    now: u128,
    t: FeedState,
    a: FeedAction,
)
    requires
        feed_ok(s),
        s.phase is List,
        0 <= k < files@.len(),
        forall|j: int| 0 <= j < k ==> (#[trigger] files@[j]).max_txid.0 < s.cursor.0,
        files@[k].max_txid.0 >= s.cursor.0,
        feed_step(s, FeedEvent::Listed(Some(files)), now, t, a),
    ensures
        t.cursor == s.cursor,
        files@[k].min_txid.0 <= s.cursor.0 ==> a == FeedAction::Send(files@[k]) && t.phase is Send
            && t.files == files@ && t.i == k,
        files@[k].min_txid.0 > s.cursor.0 ==> emits(
            a,
            txid_line("gap "@, files@[k].min_txid),
            false,
        ) && t.phase is LastLine,
{
    lemma_skip_to(files@, 0, k, s.cursor);
}

/// After a file was sent, the follower lacks what comes after its end, and the
/// next file of the same listing that reaches there is sent. With none left,
/// the next round begins at once.
pub proof fn law_feed_goes_on_behind_what_it_sent(
    s: FeedState,
    k: int,
    now: u128,
    t: FeedState,
    a: FeedAction,
)
    requires
        feed_ok(s),
        s.phase is Send,
        s.i < k <= s.files.len(),
        forall|j: int|
            s.i < j < k ==> (#[trigger] s.files[j]).max_txid.0 <= s.files[s.i].max_txid.0,
        k < s.files.len() ==> s.files[k].max_txid.0 > s.files[s.i].max_txid.0,
        feed_step(s, FeedEvent::Sent(Ok(true)), now, t, a),
    ensures
        t.cursor.0 == s.files[s.i].max_txid.0 + 1,
        k < s.files.len() && s.files[k].min_txid.0 <= s.files[s.i].max_txid.0 + 1 ==> a
            == FeedAction::Send(s.files[k]),
        k < s.files.len() && s.files[k].min_txid.0 > s.files[s.i].max_txid.0 + 1 ==> emits(
            a,
            txid_line("gap "@, s.files[k].min_txid),
            false,
        ),
        k == s.files.len() ==> a is PollCancel && t.last_ping == now,
{
    let cursor = Txid((s.files[s.i].max_txid.0 + 1) as u64);
    lemma_skip_to(s.files, s.i + 1, k, cursor);
}

/// Whether the feed, idle since its last line at `since`, pings, or waits for
/// the shorter of the poll interval and what is left until the ping.
pub open spec fn idles(s: FeedState, now: u128, a: FeedAction) -> bool {
    let due = s.last_ping + s.ping_interval.nanos;
    if now >= due || s.ping_interval.nanos == 0 {
        a is QueryBucketMax
    } else {
        &&& a is Wait
        &&& a->Wait_0.nanos <= s.poll_interval.nanos
        &&& s.last_ping <= now ==> a->Wait_0.nanos <= due - now
        &&& a->Wait_0.nanos == s.poll_interval.nanos || (s.last_ping <= now && a->Wait_0.nanos
            == due - now) || (s.last_ping > now && a->Wait_0.nanos == s.ping_interval.nanos)
    }
}

/// A listing with nothing that the follower lacks leaves the feed idle, unless
/// the listing ends before what the follower has: then the bucket's last
/// transaction is asked for, and only if that too lies before it is the
/// follower told to reset.
pub proof fn law_caught_up_feed_idles(
    s: FeedState,
    files: Vec<FileInfo>,
    now: u128,
    t: FeedState,
    a: FeedAction,
)
    requires
        feed_ok(s),
        s.phase is List,
        forall|j: int| 0 <= j < files@.len() ==> (#[trigger] files@[j]).max_txid.0 < s.cursor.0,
        feed_step(s, FeedEvent::Listed(Some(files)), now, t, a),
    ensures
        ({
            let behind = (exists|j: int|
                0 <= j < files@.len() && (#[trigger] files@[j]).max_txid.0 > 0) && (forall|j: int|
                0 <= j < files@.len() ==> (#[trigger] files@[j]).max_txid.0 + 1 < s.cursor.0);
            &&& t.cursor == s.cursor
            &&& behind ==> a is QueryBucketMax && t.phase is ConfirmMax
            &&& !behind ==> idles(s, now, a) && (t.phase is Wait || t.phase is PingMax)
        }),
{
    lemma_skip_to(files@, 0, files@.len() as int, s.cursor);
    lemma_max_seen(files@, Txid(0));
    crate::fence::lemma_max_from(files@, Txid(0));
}

/// The follower is told to reset exactly if the bucket is known to have files
/// and the last of them ends before the last transaction that the follower
/// has; it is told where the bucket ends, and the stream ends after that.
pub proof fn law_reset_is_told_if_the_bucket_lies_behind(
    s: FeedState,
    m: Option<Txid>,
    now: u128,
    t: FeedState,
    a: FeedAction,
)
    requires
        feed_ok(s),
        s.phase is OpenMax || s.phase is ConfirmMax || s.phase is PingMax,
        feed_step(s, FeedEvent::BucketMax(m), now, t, a),
    ensures
        ({
            let behind = m is Some && (m->0).0 > 0 && (m->0).0 + 1 < s.cursor.0;
            &&& behind ==> emits(a, txid_line("reset "@, m->0), false) && t.phase is LastLine
            &&& !behind && s.phase is OpenMax ==> a is PollCancel && t.last_ping == now
            &&& !behind && s.phase is ConfirmMax ==> idles(s, now, a)
            &&& !behind && s.phase is PingMax && m is Some ==> emits(
                a,
                txid_line("ping "@, m->0),
                true,
            )
            &&& !behind && s.phase is PingMax && m is None ==> emits(
                a,
                txid_line("ping "@, Txid(0)),
                true,
            )
            &&& t.cursor == s.cursor
        }),
{
}

/// A file that is gone when it is to be sent ends the round without moving the
/// follower; a failure to send aborts the stream; a ping that was sent starts
/// the time anew.
pub proof fn law_lost_file_moves_nothing(
    s: FeedState,
    ev: FeedEvent,
    now: u128,
    t: FeedState,
    a: FeedAction,
)
    requires
        feed_ok(s),
        feed_step(s, ev, now, t, a),
    ensures
        s.phase is Send && ev == FeedEvent::Sent(Ok(false)) ==> t.cursor == s.cursor && (
        s.progressed ==> a is PollCancel && t.last_ping == now),
        s.phase is Send && (ev matches FeedEvent::Sent(Err(_))) ==> a is Abort && t.cursor
            == s.cursor,
        s.phase is Ping && (ev matches FeedEvent::Emitted(Ok(_))) ==> a is PollCancel
            && t.last_ping == now && t.phase is Poll,
        s.phase is Wait ==> a is PollCancel && t.last_ping == s.last_ping,
        s.phase is Poll && ev == FeedEvent::Cancelled(false) ==> a is ListL0,
        s.phase is Poll && ev == FeedEvent::Cancelled(true) ==> a is End && t.phase is Ended,
        s.phase is LastLine && (ev matches FeedEvent::Emitted(Ok(_))) ==> a is End && t.phase
            is Ended,
        s.phase is Preamble && (ev matches FeedEvent::Emitted(Ok(_))) ==> a is QueryBucketMax
            && t.phase is OpenMax && t.cursor == s.cursor,
        s.phase is List && ev == FeedEvent::Listed(None) ==> a is Abort && t.cursor == s.cursor,
        ev matches FeedEvent::Emitted(Err(_)) ==> a is Abort && t.cursor == s.cursor,
{
}

} // verus!
