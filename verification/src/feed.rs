//! The server's side of the live stream, as a state machine: a preamble, then
//! rounds of "list level 0, send what is new, wait", with gaps, resets and
//! pings in between. The host performs each action and reports what came of
//! it, with the time (on a steadily rising clock, in nanoseconds).
use crate::io::{ErrorKind, Fault, IoError};
use crate::ltx::{txid_text, FileInfo, Txid};
use crate::sync::{max_seen, room};
use crate::time::{span_between, Span};
use crate::wire::PROTOCOL_VERSION;
use vstd::prelude::*;

verus! {

/// What the stream waits for.
#[derive(Debug)]
pub enum FeedPhase {
    /// The sending of the preamble.
    Preamble,
    /// The bucket's last transaction, before anything is sent.
    OpenMax,
    /// Leave to begin a round.
    Poll,
    /// The listing of level 0.
    List,
    /// The sending of the next file.
    Send,
    /// The sending of the line that ends the stream.
    LastLine,
    /// The bucket's last transaction, to confirm a reset.
    ConfirmMax,
    /// The bucket's last transaction, for a ping.
    PingMax,
    /// The sending of a ping.
    Ping,
    /// A change, or the time.
    Wait,
    /// Nothing: the stream ended cleanly.
    Ended,
    /// Nothing: the stream was aborted.
    Aborted,
}

/// What to do next for the stream.
#[derive(Debug)]
pub enum FeedAction {
    /// Send a line, and push it out at once if asked to.
    Emit(String, bool),
    /// Find the bucket's last transaction.
    QueryBucketMax,
    /// See whether the stream was cancelled.
    PollCancel,
    /// Note the bucket's generation, then list level 0 from its start.
    ListL0,
    /// Send the file as a frame; it may be gone.
    Send(FileInfo),
    /// Wait until the bucket changes from the noted generation, the stream
    /// is cancelled or the time is over.
    Wait(Span),
    /// End the body cleanly.
    End,
    /// Abort the connection: the follower resyncs via listings.
    Abort(IoError),
}

/// What came of an action.
#[derive(Debug)]
pub enum FeedEvent {
    Emitted(Result<(), IoError>),
    /// Nothing if the bucket could not be listed.
    BucketMax(Option<Txid>),
    Cancelled(bool),
    /// Nothing if level 0 could not be listed.
    Listed(Option<Vec<FileInfo>>),
    /// Whether the file was still there.
    Sent(Result<bool, IoError>),
    Waited,
}

/// The mathematical value of a stream.
pub struct FeedState {
    /// The first transaction that the follower lacks.
    pub cursor: Txid,
    /// When something was last sent.
    pub last_ping: u128,
    pub poll_interval: Span,
    pub ping_interval: Span,
    /// The files of the current round, and which of them is next.
    pub files: Seq<FileInfo>,
    pub i: int,
    /// Whether the current round sent anything.
    pub progressed: bool,
    pub phase: FeedPhase,
}

/// A stream in progress.
pub struct Feed {
    cursor: Txid,
    last_ping: u128,
    poll_interval: Span,
    ping_interval: Span,
    files: Vec<FileInfo>,
    i: usize,
    progressed: bool,
    phase: FeedPhase,
}

impl View for Feed {
    type V = FeedState;

    closed spec fn view(&self) -> FeedState {
        FeedState {
            cursor: self.cursor,
            last_ping: self.last_ping,
            poll_interval: self.poll_interval,
            ping_interval: self.ping_interval,
            files: self.files@,
            i: self.i as int,
            progressed: self.progressed,
            phase: self.phase,
        }
    }
}

/// Whether a bucket with this last transaction lies behind the follower. Only
/// positive evidence counts: an empty bucket is the window of a wipe before a
/// reseed.
pub open spec fn is_reset(bucket_max: Txid, cursor: Txid) -> bool {
    bucket_max.0 != 0 && bucket_max.0 < cursor.0 - 1
}

fn behind(bucket_max: Txid, cursor: Txid) -> (r: bool)
    requires
        cursor.0 >= 1,
    ensures
        r == is_reset(bucket_max, cursor),
{
    bucket_max.0 != 0 && bucket_max.0 < cursor.0 - 1
}

/// What holds throughout.
pub open spec fn feed_ok(s: FeedState) -> bool {
    &&& s.cursor.0 >= 1
    &&& room(s.files)
    &&& 0 <= s.i <= s.files.len()
    &&& s.phase is Send ==> s.i < s.files.len() && s.files[s.i].min_txid.0 <= s.cursor.0
        && s.files[s.i].max_txid.0 >= s.cursor.0
}

/// Whether the stream waits for an event of this kind.
pub open spec fn feed_expects(s: FeedState, ev: FeedEvent) -> bool {
    match s.phase {
        FeedPhase::Preamble | FeedPhase::LastLine | FeedPhase::Ping => ev is Emitted,
        FeedPhase::OpenMax | FeedPhase::ConfirmMax | FeedPhase::PingMax => ev is BucketMax,
        FeedPhase::Poll => ev is Cancelled,
        FeedPhase::List => ev matches FeedEvent::Listed(l) && (l matches Some(files) ==> room(
            files@,
        )),
        FeedPhase::Send => ev is Sent,
        FeedPhase::Wait => ev is Waited,
        FeedPhase::Ended | FeedPhase::Aborted => false,
    }
}

/// Whether `a` sends `line`.
pub open spec fn emits(a: FeedAction, line: Seq<char>, flush: bool) -> bool {
    a is Emit && a->Emit_0@ == line && a->Emit_1 == flush
}

/// The preamble line.
pub open spec fn preamble() -> Seq<char> {
    "liters-stream "@ + PROTOCOL_VERSION@ + "\n"@
}

/// A line with a word and a transaction.
pub open spec fn txid_line(word: Seq<char>, t: Txid) -> Seq<char> {
    word + txid_text(t) + "\n"@
}

/// The first file from `i` on that the follower lacks something of.
pub open spec fn skip_sent(files: Seq<FileInfo>, i: int, cursor: Txid) -> int
    decreases files.len() - i,
{
    if i < files.len() && files[i].max_txid.0 < cursor.0 {
        skip_sent(files, i + 1, cursor)
    } else {
        i
    }
}

/// Ends the stream by telling the follower that the bucket lies behind it.
pub open spec fn to_reset(s: FeedState, m: Txid, t: FeedState, a: FeedAction) -> bool {
    t == (FeedState { phase: FeedPhase::LastLine, ..s }) && emits(
        a,
        txid_line("reset "@, m),
        false,
    )
}

/// Begins a round.
pub open spec fn to_poll(s: FeedState, t: FeedState, a: FeedAction) -> bool {
    t == (FeedState { phase: FeedPhase::Poll, ..s }) && a is PollCancel
}

/// Caught up: pings if it is time, else waits for a change or the time.
pub open spec fn to_idle(s: FeedState, now: u128, t: FeedState, a: FeedAction) -> bool {
    let since = span_between(s.last_ping, now);
    if since >= s.ping_interval.nanos {
        t == (FeedState { phase: FeedPhase::PingMax, ..s }) && a is QueryBucketMax
    } else {
        let left = s.ping_interval.nanos - since;
        &&& t == (FeedState { phase: FeedPhase::Wait, ..s })
        &&& a is Wait
        &&& a->Wait_0.nanos == if s.poll_interval.nanos <= left {
            s.poll_interval.nanos as int
        } else {
            left
        }
    }
}

/// Ends a round: the next one begins at once if something was sent; else the
/// newest level-0 file, which always survives retention, tells whether the
/// bucket may lie behind the follower.
pub open spec fn to_round_end(s: FeedState, now: u128, t: FeedState, a: FeedAction) -> bool {
    if s.progressed {
        to_poll(FeedState { last_ping: now, ..s }, t, a)
    } else if is_reset(max_seen(s.files, Txid(0)), s.cursor) {
        t == (FeedState { phase: FeedPhase::ConfirmMax, ..s }) && a is QueryBucketMax
    } else {
        to_idle(s, now, t, a)
    }
}

/// Goes on with the files of a round.
pub open spec fn to_next_file(s: FeedState, now: u128, t: FeedState, a: FeedAction) -> bool {
    let i = skip_sent(s.files, s.i, s.cursor);
    let s1 = FeedState { i, ..s };
    if i >= s.files.len() {
        to_round_end(s1, now, t, a)
    } else if s.files[i].min_txid.0 > s.cursor.0 {
        t == (FeedState { phase: FeedPhase::LastLine, ..s1 }) && emits(
            a,
            txid_line("gap "@, s.files[i].min_txid),
            false,
        )
    } else {
        t == (FeedState { phase: FeedPhase::Send, ..s1 }) && a == FeedAction::Send(s.files[i])
    }
}

/// Ends the stream because of a failure.
pub open spec fn to_abort(s: FeedState, e: Fault, t: FeedState, a: FeedAction) -> bool {
    t == (FeedState { phase: FeedPhase::Aborted, ..s }) && a is Abort && a->Abort_0@ == e
}

/// What a stream becomes and does next on an event: the state `t` and the
/// action `a`.
pub open spec fn feed_step(
    s: FeedState,
    ev: FeedEvent,
    now: u128,
    t: FeedState,
    a: FeedAction,
) -> bool {
    match (s.phase, ev) {
        (FeedPhase::Preamble, FeedEvent::Emitted(r)) => match r {
            Ok(_) => t == (FeedState { phase: FeedPhase::OpenMax, ..s }) && a is QueryBucketMax,
            Err(e) => to_abort(s, e@, t, a),
        },
        (FeedPhase::OpenMax, FeedEvent::BucketMax(m)) => if m is Some && is_reset(m->0, s.cursor) {
            to_reset(s, m->0, t, a)
        } else {
            to_poll(FeedState { last_ping: now, ..s }, t, a)
        },
        (FeedPhase::Poll, FeedEvent::Cancelled(c)) => if c {
            t == (FeedState { phase: FeedPhase::Ended, ..s }) && a is End
        } else {
            t == (FeedState { phase: FeedPhase::List, ..s }) && a is ListL0
        },
        (FeedPhase::List, FeedEvent::Listed(l)) => match l {
            Some(files) => to_next_file(
                FeedState { files: files@, i: 0, progressed: false, ..s },
                now,
                t,
                a,
            ),
            None => to_abort(
                s,
                Fault { kind: ErrorKind::Other, message: "stream: backend list failed"@ },
                t,
                a,
            ),
        },
        (FeedPhase::Send, FeedEvent::Sent(r)) => match r {
            Ok(there) => if there {
                to_next_file(
                    FeedState {
                        cursor: Txid((s.files[s.i].max_txid.0 + 1) as u64),
                        progressed: true,
                        i: s.i + 1,
                        ..s
                    },
                    now,
                    t,
                    a,
                )
            } else {
                to_round_end(s, now, t, a)
            },
            Err(e) => to_abort(s, e@, t, a),
        },
        (FeedPhase::LastLine, FeedEvent::Emitted(r)) => match r {
            Ok(_) => t == (FeedState { phase: FeedPhase::Ended, ..s }) && a is End,
            Err(e) => to_abort(s, e@, t, a),
        },
        (FeedPhase::ConfirmMax, FeedEvent::BucketMax(m)) => if m is Some && is_reset(
            m->0,
            s.cursor,
        ) {
            to_reset(s, m->0, t, a)
        } else {
            to_idle(s, now, t, a)
        },
        (FeedPhase::PingMax, FeedEvent::BucketMax(m)) => {
            let max = match m {
                Some(m) => m,
                None => Txid(0),
            };
            if is_reset(max, s.cursor) {
                to_reset(s, max, t, a)
            } else {
                t == (FeedState { phase: FeedPhase::Ping, ..s }) && emits(
                    a,
                    txid_line("ping "@, max),
                    true,
                )
            }
        },
        (FeedPhase::Ping, FeedEvent::Emitted(r)) => match r {
            Ok(_) => to_poll(FeedState { last_ping: now, ..s }, t, a),
            Err(e) => to_abort(s, e@, t, a),
        },
        (FeedPhase::Wait, FeedEvent::Waited) => to_poll(s, t, a),
        _ => false,
    }
}

proof fn lemma_skip_sent(files: Seq<FileInfo>, i: int, cursor: Txid)
    requires
        0 <= i <= files.len(),
    ensures
        i <= skip_sent(files, i, cursor) <= files.len(),
        skip_sent(files, i, cursor) < files.len() ==> files[skip_sent(
            files,
            i,
            cursor,
        )].max_txid.0 >= cursor.0,
    decreases files.len() - i,
{
    if i < files.len() && files[i].max_txid.0 < cursor.0 {
        lemma_skip_sent(files, i + 1, cursor);
    }
}

fn line_of(word: &str, t: Txid) -> (r: String)
    ensures
        r@ == txid_line(word@, t),
{
    let mut s = word.to_owned();
    s.append(t.text().as_str());
    s.append("\n");
    s
}

impl Feed {
    /// Whether the stream is in a state that steps can reach.
    pub open spec fn wf(&self) -> bool {
        feed_ok(self@)
    }

    /// Starts a stream for a follower that lacks `seek` and what follows it.
    /// The first action is to send the preamble.
    pub fn new(seek: Txid, poll_interval: Span, ping_interval: Span) -> (r: (Feed, FeedAction))
        requires
            seek.0 >= 1,
        ensures
            r.0.wf(),
            r.0@.cursor == seek,
            r.0@.poll_interval == poll_interval,
            r.0@.ping_interval == ping_interval,
            r.0@.phase is Preamble,
            emits(r.1, preamble(), true),
    {
        let mut line = "liters-stream ".to_owned();
        line.append(PROTOCOL_VERSION);
        line.append("\n");
        (
            Feed {
                cursor: seek,
                last_ping: 0,
                poll_interval,
                ping_interval,
                files: Vec::new(),
                i: 0,
                progressed: false,
                phase: FeedPhase::Preamble,
            },
            FeedAction::Emit(line, true),
        )
    }

    fn reset(self, m: Txid) -> (r: (Feed, FeedAction))
        ensures
            to_reset(self@, m, r.0@, r.1),
    {
        (
            Feed { phase: FeedPhase::LastLine, ..self },
            FeedAction::Emit(line_of("reset ", m), false),
        )
    }

    fn poll(self) -> (r: (Feed, FeedAction))
        ensures
            to_poll(self@, r.0@, r.1),
    {
        (Feed { phase: FeedPhase::Poll, ..self }, FeedAction::PollCancel)
    }

    fn abort(self, e: IoError) -> (r: (Feed, FeedAction))
        ensures
            to_abort(self@, e@, r.0@, r.1),
    {
        (Feed { phase: FeedPhase::Aborted, ..self }, FeedAction::Abort(e))
    }

    fn idle(self, now: u128) -> (r: (Feed, FeedAction))
        ensures
            to_idle(self@, now, r.0@, r.1),
    {
        let left = self.ping_interval.left_after(crate::time::elapsed(self.last_ping, now));
        if left.is_zero() {
            (Feed { phase: FeedPhase::PingMax, ..self }, FeedAction::QueryBucketMax)
        } else {
            let span = self.poll_interval.shorter(left);
            (Feed { phase: FeedPhase::Wait, ..self }, FeedAction::Wait(span))
        }
    }

    fn round_end(self, now: u128) -> (r: (Feed, FeedAction))
        requires
            self.wf(),
        ensures
            to_round_end(self@, now, r.0@, r.1),
    {
        if self.progressed {
            // Frames are liveness for the peer.
            return Feed { last_ping: now, ..self }.poll();
        }
        let l0_max = crate::fence::last_of(&self.files);
        if behind(l0_max, self.cursor) {
            (Feed { phase: FeedPhase::ConfirmMax, ..self }, FeedAction::QueryBucketMax)
        } else {
            self.idle(now)
        }
    }

    fn next_file(self, now: u128) -> (r: (Feed, FeedAction))
        requires
            feed_ok(FeedState { phase: FeedPhase::List, ..self@ }),
        ensures
            to_next_file(self@, now, r.0@, r.1),
            r.0.wf(),
    {
        let mut i: usize = self.i;
        proof {
            lemma_skip_sent(self.files@, self.i as int, self.cursor);
        }
        while i < self.files.len() && self.files[i].max_txid.0 < self.cursor.0
            invariant
                self.i <= i <= self.files@.len(),
                skip_sent(self.files@, i as int, self.cursor) == skip_sent(
                    self.files@,
                    self.i as int,
                    self.cursor,
                ),
            decreases self.files@.len() - i,
        {
            i += 1;
        }
        let s = Feed { i, phase: FeedPhase::List, ..self };
        if i >= s.files.len() {
            return s.round_end(now);
        }
        let f = s.files[i];
        if f.min_txid.0 > s.cursor.0 {
            (
                Feed { phase: FeedPhase::LastLine, ..s },
                FeedAction::Emit(line_of("gap ", f.min_txid), false),
            )
        } else {
            (Feed { phase: FeedPhase::Send, ..s }, FeedAction::Send(f))
        }
    }

    /// Takes the event that came of the last action, and tells what to do
    /// next.
    pub fn step(self, ev: FeedEvent, now: u128) -> (r: (Feed, FeedAction))
        requires
            self.wf(),
            feed_expects(self@, ev),
        ensures
            r.0.wf(),
            feed_step(self@, ev, now, r.0@, r.1),
    {
        let ghost s0 = self@;
        let Feed { cursor, last_ping, poll_interval, ping_interval, files, i, progressed, phase } =
            self;
        let s = Feed {
            cursor,
            last_ping,
            poll_interval,
            ping_interval,
            files,
            i,
            progressed,
            phase: FeedPhase::Ended,
        };
        match (phase, ev) {
            (FeedPhase::Preamble, FeedEvent::Emitted(r)) => match r {
                Ok(_) => (Feed { phase: FeedPhase::OpenMax, ..s }, FeedAction::QueryBucketMax),
                Err(e) => s.abort(e),
            },
            (FeedPhase::OpenMax, FeedEvent::BucketMax(m)) => {
                if let Some(m) = m {
                    if behind(m, cursor) {
                        return s.reset(m);
                    }
                }
                Feed { last_ping: now, ..s }.poll()
            },
            (FeedPhase::Poll, FeedEvent::Cancelled(c)) => {
                if c {
                    (s, FeedAction::End)
                } else {
                    (Feed { phase: FeedPhase::List, ..s }, FeedAction::ListL0)
                }
            },
            (FeedPhase::List, FeedEvent::Listed(l)) => match l {
                Some(files) => Feed {
                    files,
                    i: 0,
                    progressed: false,
                    phase: FeedPhase::List,
                    ..s
                }.next_file(now),
                None => s.abort(IoError::new(ErrorKind::Other, "stream: backend list failed")),
            },
            (FeedPhase::Send, FeedEvent::Sent(r)) => match r {
                Ok(there) => {
                    if there {
                        let f = s.files[i];
                        assert(i < s.files.len());
                        Feed {
                            cursor: Txid(f.max_txid.0 + 1),
                            progressed: true,
                            i: i + 1,
                            phase: FeedPhase::List,
                            ..s
                        }.next_file(now)
                    } else {
                        // A race with retention: list again.
                        s.round_end(now)
                    }
                },
                Err(e) => s.abort(e),
            },
            (FeedPhase::LastLine, FeedEvent::Emitted(r)) => match r {
                Ok(_) => (s, FeedAction::End),
                Err(e) => s.abort(e),
            },
            (FeedPhase::ConfirmMax, FeedEvent::BucketMax(m)) => {
                if let Some(m) = m {
                    if behind(m, cursor) {
                        return s.reset(m);
                    }
                }
                s.idle(now)
            },
            (FeedPhase::PingMax, FeedEvent::BucketMax(m)) => {
                let max = match m {
                    Some(m) => m,
                    None => Txid(0),
                };
                if behind(max, cursor) {
                    s.reset(max)
                } else {
                    (
                        Feed { phase: FeedPhase::Ping, ..s },
                        FeedAction::Emit(line_of("ping ", max), true),
                    )
                }
            },
            (FeedPhase::Ping, FeedEvent::Emitted(r)) => match r {
                Ok(_) => Feed { last_ping: now, ..s }.poll(),
                Err(e) => s.abort(e),
            },
            (FeedPhase::Wait, FeedEvent::Waited) => s.poll(),
            (_, _) => {
                assert(false);
                (s, FeedAction::End)
            },
        }
    }
}

/// A file is sent only if it holds the first transaction that the follower
/// lacks; once it was sent, the follower lacks what comes after it. So the
/// follower never sees a hole.
pub proof fn law_stream_has_no_holes(
    s: FeedState,
    ev: FeedEvent,
    now: u128,
    t: FeedState,
    a: FeedAction,
)
    requires
        feed_ok(s),
        feed_expects(s, ev),
        feed_step(s, ev, now, t, a),
    ensures
        a matches FeedAction::Send(f) ==> f.min_txid.0 <= t.cursor.0 <= f.max_txid.0,
        t.cursor.0 >= s.cursor.0,
        t.cursor != s.cursor ==> s.phase is Send && t.cursor.0 == s.files[s.i].max_txid.0 + 1,
{
    lemma_skip_sent(s.files, s.i, s.cursor);
    if s.phase is Send {
        lemma_skip_sent(s.files, s.i + 1, Txid((s.files[s.i].max_txid.0 + 1) as u64));
    }
    if ev is Listed && ev->Listed_0 is Some {
        lemma_skip_sent(ev->Listed_0->0@, 0, s.cursor);
    }
}

/// A reset is sent only on positive evidence: a non-empty bucket whose last
/// transaction lies below the follower's position; and a ping tells the
/// follower the bucket's last transaction.
pub proof fn law_reset_needs_evidence(
    s: FeedState,
    m: Option<Txid>,
    now: u128,
    t: FeedState,
    a: FeedAction,
)
    requires
        feed_ok(s),
        feed_expects(s, FeedEvent::BucketMax(m)),
        feed_step(s, FeedEvent::BucketMax(m), now, t, a),
    ensures
        t.phase is LastLine ==> {
            &&& m matches Some(max)
            &&& 0 < max.0 < s.cursor.0 - 1
            &&& emits(a, txid_line("reset "@, max), false)
        },
        t.phase is Ping && m is Some ==> emits(a, txid_line("ping "@, m->0), true),
{
}

} // verus!
