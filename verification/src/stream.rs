//! The client's side of the live stream: the grammar of frame lines, and the
//! reader that turns the response body into events.
use crate::cancel::check_flag;
use crate::copy::Cancellable;
use crate::error::StorageError;
use crate::io::{run_bytes, ErrorKind, Fault, IoError, Script, Sink, Source};
use crate::ltx;
use crate::ltx::{txid_of, FileInfo, Txid};
use crate::storage::StreamEvent;
use crate::text;
use crate::text::{debug_quoted, decimal, parsed, starts, trimmed, words};
use crate::time::{span_between, Span};
use crate::wire::{is_timeout, line_step, LineBuf, PROTOCOL_VERSION};
use vstd::prelude::*;

verus! {

/// A clock: nanoseconds that steadily rise, or stand still at `stopped`. Code
/// that is not verified may leave that out.
pub trait Clock {
    open spec fn stopped(&self) -> Option<u128> {
        None
    }

    fn now(&self) -> (r: u128)
        ensures
            self.stopped() matches Some(t) ==> r == t,
    ;
}

/// A clock that stands still: for sources that are never silent.
#[derive(Clone, Copy, Debug)]
pub struct StoppedClock(pub u128);

impl Clock for StoppedClock {
    open spec fn stopped(&self) -> Option<u128> {
        Some(self.0)
    }

    fn now(&self) -> (r: u128) {
        self.0
    }
}

/// Where a stream reader stands.
#[derive(Clone, Copy, Debug, PartialEq, Eq, Structural)]
pub enum HttpStreamState {
    /// Expecting the preamble line.
    Preamble,
    /// Expecting a frame line.
    Frame,
    /// Copying a frame body into the caller's sink.
    Body { info: FileInfo, remaining: u64 },
}

/// The whole position of a stream reader: its state, the partial line it
/// holds, and what the body has left.
pub struct StreamPos {
    pub state: HttpStreamState,
    pub held: Seq<u8>,
    pub rest: Script,
}

/// Why a stream fails: a transport failure, which is worth a retry, or a
/// violation of the protocol.
pub enum Failure {
    Unavailable(Seq<char>),
    Protocol(Seq<char>),
}

/// What reading the next event comes to: the event, the bytes that go to the
/// sink, and the position after them.
pub struct StreamStep {
    pub result: Result<StreamEvent, Failure>,
    pub data: Seq<u8>,
    pub pos: StreamPos,
}

/// The file that a frame line announces.
pub open spec fn announced(line: Seq<char>) -> Option<FileInfo> {
    let w = words(line);
    if w.len() == 5 && w[0] == "ltx"@ {
        match (
            parsed(w[1], 10, u8::MAX as int),
            txid_of(w[2]),
            txid_of(w[3]),
            parsed(w[4], 10, u64::MAX as int),
        ) {
            (Some(level), Some(min_txid), Some(max_txid), Some(size)) => Some(
                FileInfo {
                    level: level as u8,
                    min_txid,
                    max_txid,
                    size: size as u64,
                    created_at: None,
                },
            ),
            _ => None,
        }
    } else {
        None
    }
}

/// Parses the line that announces a file: its level, transactions and size,
/// nothing else.
pub fn parse_frame_line(line: &str) -> (r: Result<HttpStreamState, StorageError>)
    ensures
        match announced(line@) {
            Some(info) => r == Ok::<HttpStreamState, StorageError>(
                HttpStreamState::Body { info, remaining: info.size },
            ),
            None => r matches Err(StorageError::Other(m)) && m@ == "bad stream frame "@
                + debug_quoted(line@),
        },
{
    let cs = text::chars_of(line);
    let w = text::split_words(&cs);
    let ltx_word = text::chars_of("ltx");
    assert(text::views(w@).len() == w@.len());
    assert(forall|i: int| 0 <= i < w@.len() ==> text::views(w@)[i] == (#[trigger] w@[i])@);
    if w.len() == 5 && text::same_chars(w[0], &ltx_word) {
        let level = text::parse_number(w[1], 10, u8::MAX as u64);
        let min = ltx::parse_txid(w[2]);
        let max = ltx::parse_txid(w[3]);
        let size = text::parse_number(w[4], 10, u64::MAX);
        if let (Some(level), Some(min_txid), Some(max_txid), Some(size)) = (level, min, max, size) {
            let info = FileInfo { level: level as u8, min_txid, max_txid, size, created_at: None };
            return Ok(HttpStreamState::Body { info, remaining: size });
        }
    }
    let m = crate::error::join("bad stream frame ", text::quoted(line).as_str());
    Err(StorageError::Other(m))
}

/// What a frame line says.
pub enum FrameLine {
    Event(StreamEvent),
    File(FileInfo),
    Bad(Seq<char>),
}

/// The transaction after a frame's word.
pub open spec fn frame_txid(line: Seq<char>, word: Seq<char>) -> Option<Txid> {
    txid_of(trimmed(line.skip(word.len() as int)))
}

/// What a frame line says: a ping, a gap, a reset or a file.
pub open spec fn frame_of(line: Seq<char>) -> FrameLine {
    if starts(line, "ping "@) {
        match frame_txid(line, "ping "@) {
            Some(t) => FrameLine::Event(StreamEvent::Idle { bucket_max: Some(t) }),
            None => FrameLine::Bad("bad ping frame "@ + debug_quoted(line)),
        }
    } else if starts(line, "gap "@) {
        match frame_txid(line, "gap "@) {
            Some(t) => FrameLine::Event(StreamEvent::Gap { next: t }),
            None => FrameLine::Bad("bad gap frame "@ + debug_quoted(line)),
        }
    } else if starts(line, "reset "@) {
        match frame_txid(line, "reset "@) {
            Some(t) => FrameLine::Event(StreamEvent::Reset { bucket_max: t }),
            None => FrameLine::Bad("bad reset frame "@ + debug_quoted(line)),
        }
    } else {
        match announced(line) {
            Some(f) => FrameLine::File(f),
            None => FrameLine::Bad("bad stream frame "@ + debug_quoted(line)),
        }
    }
}

/// What a frame line says, as the reader takes it.
enum Taken {
    Event(StreamEvent),
    State(HttpStreamState),
    Fail(StorageError),
}

fn txid_after(cs: &[char], word: &str) -> (r: Option<Option<Txid>>)
    ensures
        match r {
            Some(t) => starts(cs@, word@) && t == frame_txid(cs@, word@),
            None => !starts(cs@, word@),
        },
{
    let w = text::chars_of(word);
    match text::after_prefix(cs, &w) {
        Some(rest) => Some(ltx::parse_txid(text::trim(rest))),
        None => None,
    }
}

fn bad_frame(what: &str, line: &str) -> (r: StorageError)
    ensures
        r matches StorageError::Other(m) && m@ == what@ + debug_quoted(line@),
{
    StorageError::Other(crate::error::join(what, text::quoted(line).as_str()))
}

fn take_frame(line: &str) -> (r: Taken)
    ensures
        match frame_of(line@) {
            FrameLine::Event(e) => r == Taken::Event(e),
            FrameLine::File(info) => r == Taken::State(
                HttpStreamState::Body { info, remaining: info.size },
            ),
            FrameLine::Bad(m) => r matches Taken::Fail(StorageError::Other(t)) && t@ == m,
        },
{
    let cs = text::chars_of(line);
    if let Some(t) = txid_after(&cs, "ping ") {
        return match t {
            Some(t) => Taken::Event(StreamEvent::Idle { bucket_max: Some(t) }),
            None => Taken::Fail(bad_frame("bad ping frame ", line)),
        };
    }
    if let Some(t) = txid_after(&cs, "gap ") {
        return match t {
            Some(t) => Taken::Event(StreamEvent::Gap { next: t }),
            None => Taken::Fail(bad_frame("bad gap frame ", line)),
        };
    }
    if let Some(t) = txid_after(&cs, "reset ") {
        return match t {
            Some(t) => Taken::Event(StreamEvent::Reset { bucket_max: t }),
            None => Taken::Fail(bad_frame("bad reset frame ", line)),
        };
    }
    match parse_frame_line(line) {
        Ok(state) => Taken::State(state),
        Err(e) => Taken::Fail(e),
    }
}

/// Whether a fault is a timeout.
pub open spec fn fault_is_timeout(f: Fault) -> bool {
    f.kind == ErrorKind::WouldBlock || f.kind == ErrorKind::TimedOut
}

/// What a fault in the stream means: malformed framing violates the protocol,
/// anything else is a transport failure.
pub open spec fn stream_failure(f: Fault) -> Failure {
    if f.kind == ErrorKind::InvalidData {
        Failure::Protocol("ltx stream: "@ + f.message)
    } else {
        Failure::Unavailable("ltx stream: "@ + f.message)
    }
}

/// The failure that an error tells of.
pub open spec fn fails_as(e: StorageError, f: Failure) -> bool {
    match f {
        Failure::Unavailable(m) => e is Unavailable && e->Unavailable_0@ == m,
        Failure::Protocol(m) => e is Other && e->Other_0@ == m,
    }
}

/// Malformed framing is a protocol error; everything else is a transport
/// failure.
pub fn stream_io_err(e: &IoError) -> (r: StorageError)
    ensures
        fails_as(r, stream_failure(e@)),
{
    let m = crate::error::join("ltx stream: ", e.message.as_str());
    if e.kind == ErrorKind::InvalidData {
        StorageError::Other(m)
    } else {
        StorageError::Unavailable(m)
    }
}

/// The rest of a frame body: `n` bytes more, timeouts between them ignored.
pub enum BodyTake {
    /// The bytes, and what the source has left.
    Whole(Seq<u8>, Script),
    /// The source ended first.
    Short,
    Fault(Fault),
}

/// Takes the rest of a frame body off a source.
pub open spec fn take_body(s: Script, n: int) -> BodyTake
    decreases s.len(),
{
    if n <= 0 {
        BodyTake::Whole(Seq::empty(), s)
    } else if s.len() == 0 {
        BodyTake::Short
    } else {
        match s[0] {
            Ok(b) => match take_body(s.skip(1), n - 1) {
                BodyTake::Whole(d, rest) => BodyTake::Whole(seq![b] + d, rest),
                t => t,
            },
            Err(f) => if fault_is_timeout(f) {
                take_body(s.skip(1), n)
            } else {
                BodyTake::Fault(f)
            },
        }
    }
}

/// The next event from within a frame body.
pub open spec fn next_in_body(p: StreamPos, info: FileInfo, remaining: u64) -> StreamStep {
    match take_body(p.rest, remaining as int) {
        BodyTake::Whole(data, rest) => StreamStep {
            result: Ok(StreamEvent::Ltx(info)),
            data,
            pos: StreamPos { state: HttpStreamState::Frame, held: p.held, rest },
        },
        BodyTake::Short => StreamStep {
            result: Err(Failure::Unavailable("stream ended mid-frame"@)),
            data: Seq::empty(),
            pos: p,
        },
        BodyTake::Fault(f) => StreamStep {
            result: Err(stream_failure(f)),
            data: Seq::empty(),
            pos: p,
        },
    }
}

/// The preamble line, without its end.
pub open spec fn preamble_line() -> Seq<char> {
    "liters-stream "@ + PROTOCOL_VERSION@
}

/// The next event from between frames. A timeout there is an idle tick, and
/// the partial line survives it.
pub open spec fn next_in_frame(p: StreamPos) -> StreamStep {
    let st = line_step(p.held, p.rest);
    let q = StreamPos { state: p.state, held: st.held, rest: st.rest };
    match st.result {
        Err(f) => StreamStep {
            result: if fault_is_timeout(f) {
                Ok(StreamEvent::Idle { bucket_max: None })
            } else {
                Err(stream_failure(f))
            },
            data: Seq::empty(),
            pos: q,
        },
        Ok(None) => StreamStep { result: Ok(StreamEvent::Closed), data: Seq::empty(), pos: q },
        Ok(Some(line)) => match frame_of(line) {
            FrameLine::Event(e) => StreamStep { result: Ok(e), data: Seq::empty(), pos: q },
            FrameLine::File(info) => next_in_body(
                StreamPos { state: HttpStreamState::Body { info, remaining: info.size }, ..q },
                info,
                info.size,
            ),
            FrameLine::Bad(m) => StreamStep {
                result: Err(Failure::Protocol(m)),
                data: Seq::empty(),
                pos: q,
            },
        },
    }
}

/// The next event from before the preamble.
pub open spec fn next_in_preamble(p: StreamPos) -> StreamStep {
    let st = line_step(p.held, p.rest);
    let q = StreamPos { state: p.state, held: st.held, rest: st.rest };
    match st.result {
        Err(f) => StreamStep {
            result: if fault_is_timeout(f) {
                Ok(StreamEvent::Idle { bucket_max: None })
            } else {
                Err(stream_failure(f))
            },
            data: Seq::empty(),
            pos: q,
        },
        Ok(None) => StreamStep {
            result: Err(Failure::Unavailable("stream closed before preamble"@)),
            data: Seq::empty(),
            pos: q,
        },
        Ok(Some(line)) => if line == preamble_line() {
            next_in_frame(StreamPos { state: HttpStreamState::Frame, ..q })
        } else {
            StreamStep {
                result: Err(
                    Failure::Protocol(
                        "bad stream preamble "@ + debug_quoted(line) + " (expected "@
                            + debug_quoted(preamble_line()) + ")"@,
                    ),
                ),
                data: Seq::empty(),
                pos: q,
            }
        },
    }
}

/// The next event.
pub open spec fn stream_next(p: StreamPos) -> StreamStep {
    match p.state {
        HttpStreamState::Preamble => next_in_preamble(p),
        HttpStreamState::Frame => next_in_frame(p),
        HttpStreamState::Body { info, remaining } => next_in_body(p, info, remaining),
    }
}

/// What is said of a stream that has been silent for too long.
pub open spec fn stalled_text(deadman: Span) -> Seq<char> {
    "ltx stream stalled: no data for "@ + decimal(deadman.nanos as int / 1_000_000_000) + "s"@
}

/// Whether a reading of the clock comes too late after the stream was last
/// heard.
pub open spec fn overdue(heard: u128, now: u128, limit: Span) -> bool {
    span_between(heard, now) >= limit.nanos
}

/// Whether a clock stands still before a stream that was last heard at
/// `heard` has been silent for too long.
pub open spec fn punctual(stopped: Option<u128>, heard: u128, limit: Span) -> bool {
    stopped matches Some(t) && !overdue(heard, t, limit)
}

/// Whether a clock stands still when such a stream has been silent for too
/// long.
pub open spec fn late(stopped: Option<u128>, heard: u128, limit: Span) -> bool {
    stopped matches Some(t) && overdue(heard, t, limit)
}

/// Whether an error says that the stream stalled.
pub open spec fn is_stall(e: StorageError, limit: Span) -> bool {
    e matches StorageError::Unavailable(m) && m@ == stalled_text(limit)
}

/// What a reading of the clock means for a stream that was last heard at
/// `heard`: a failure once it has been silent for too long.
pub fn check_silence(heard: u128, now: u128, limit: Span) -> (r: Result<(), StorageError>)
    requires
        limit.nanos as int / 1_000_000_000 <= u64::MAX,
    ensures
        match r {
            Ok(()) => !overdue(heard, now, limit),
            Err(e) => overdue(heard, now, limit) && is_stall(e, limit),
        },
{
    let silent = crate::time::elapsed(heard, now);
    if silent.nanos >= limit.nanos {
        let secs: u128 = limit.nanos / 1_000_000_000;
        let mut m = crate::error::join(
            "ltx stream stalled: no data for ",
            text::decimal_text(secs as u64).as_str(),
        );
        m.append("s");
        return Err(StorageError::Unavailable(m));
    }
    Ok(())
}

/// Whether a stream reader waits for bytes, and its source times out before
/// the first.
pub open spec fn times_out(p: StreamPos) -> bool {
    &&& p.rest.len() > 0
    &&& p.rest[0] matches Err(f) && fault_is_timeout(f)
    &&& p.state matches HttpStreamState::Body { remaining, .. } ==> remaining > 0
}

/// Whether there is a byte among the first `n` items of a script.
pub open spec fn took_bytes(s: Script, n: int) -> bool {
    exists|i: int| 0 <= i < n && (#[trigger] s[i]) is Ok
}

/// When a stream was last heard after its source yielded `n` items of a
/// script, if a clock stands still at `now`.
pub open spec fn heard_after(s: Script, n: int, heard: u128, now: u128) -> u128 {
    if took_bytes(s, n) {
        now
    } else {
        heard
    }
}

proof fn lemma_took_line(s: Script, n: int, held: Seq<u8>)
    requires
        0 <= n <= s.len(),
    ensures
        ({
            let rest = s.skip(n);
            let step = line_step(held, rest);
            let m = s.len() - step.rest.len();
            &&& n <= m <= s.len()
            &&& step.rest == s.skip(m)
            &&& step.result matches Ok(Some(_)) ==> took_bytes(s, m)
            &&& step.result matches Ok(None) ==> m == n
            &&& step.result matches Err(f) ==> fault_is_timeout(f) ==> {
                took_bytes(s, m) == (took_bytes(s, n) || step.held.len() > held.len())
            }
        }),
{
    let rest = s.skip(n);
    let held_n = held.len() as int;
    crate::wire::lemma_line_stop(held_n, rest);
    let j = crate::wire::line_stop(held_n, rest);
    let step = line_step(held, rest);
    if j < rest.len() {
        assert(rest.skip(j + 1) =~= s.skip(n + j + 1));
        assert(rest[j] == s[n + j]);
        if step.result matches Err(f) && fault_is_timeout(f) {
            if j > 0 {
                assert(rest[0] == s[n]);
                assert(s[n] is Ok);
            }
            if took_bytes(s, n + j + 1) && j == 0 {
                let i = choose|i: int| 0 <= i < n + j + 1 && (#[trigger] s[i]) is Ok;
                assert(i < n);
            }
            if took_bytes(s, n) {
                let i = choose|i: int| 0 <= i < n && (#[trigger] s[i]) is Ok;
                assert(0 <= i < n + j + 1 && s[i] is Ok);
            }
        }
    } else {
        assert(rest.skip(j) =~= s.skip(n + j));
    }
}

/// A live stream of complete level-0 files, read off a response body.
pub struct HttpLtxStream<R: Source> {
    body: R,
    line: LineBuf,
    state: HttpStreamState,
    last_byte: u128,
    deadman: Span,
}

proof fn lemma_take_run(s: Script, n: int, left: int)
    requires
        0 <= n <= left,
        crate::io::good_run(s, n),
    ensures
        take_body(s, left) == (match take_body(s.skip(n), left - n) {
            BodyTake::Whole(d, rest) => BodyTake::Whole(run_bytes(s, n) + d, rest),
            t => t,
        }),
    decreases n,
{
    if n == 0 {
        assert(s.skip(0) =~= s);
        match take_body(s, left) {
            BodyTake::Whole(d, rest) => {
                assert(run_bytes(s, 0) + d =~= d);
            },
            _ => {},
        }
    } else {
        let t = s.skip(1);
        assert forall|i: int| 0 <= i < n - 1 implies (#[trigger] t[i]) is Ok by {
            assert(t[i] == s[i + 1]);
        }
        lemma_take_run(t, n - 1, left - 1);
        assert(s[0] is Ok);
        assert(t.skip(n - 1) =~= s.skip(n));
        match take_body(s.skip(n), left - n) {
            BodyTake::Whole(d, rest) => {
                assert(seq![s[0]->Ok_0] + (run_bytes(t, n - 1) + d) =~= run_bytes(s, n) + d);
            },
            _ => {},
        }
    }
}

impl<R: Source> HttpLtxStream<R> {
    /// Where the reader stands.
    pub closed spec fn pos(&self) -> StreamPos {
        StreamPos { state: self.state, held: self.line.held(), rest: self.body.script() }
    }

    /// How long the stream may be silent.
    pub closed spec fn limit(&self) -> Span {
        self.deadman
    }

    /// When the last byte came.
    pub closed spec fn heard(&self) -> u128 {
        self.last_byte
    }

    /// A reader at the start of a response body. The seconds of `deadman`
    /// fit a 64-bit number.
    pub fn new(body: R, deadman: Span, now: u128) -> (r: HttpLtxStream<R>)
        requires
            deadman.nanos as int / 1_000_000_000 <= u64::MAX,
        ensures
            r.wf(),
            r.limit() == deadman,
            r.heard() == now,
            r.pos() == (StreamPos {
                state: HttpStreamState::Preamble,
                held: Seq::empty(),
                rest: body.script(),
            }),
    {
        HttpLtxStream {
            body,
            line: LineBuf::default(),
            state: HttpStreamState::Preamble,
            last_byte: now,
            deadman,
        }
    }

    /// The seconds that a stream may be silent fit a 64-bit number.
    pub open spec fn wf(&self) -> bool {
        self.limit().nanos as int / 1_000_000_000 <= u64::MAX
    }

    /// Fails once the stream was silent for too long. What the clock reads is
    /// up to it; the answer for each reading is [`check_silence`]'s.
    fn check_deadman<K: Clock>(&self, clock: &K) -> (r: Result<(), StorageError>)
        requires
            self.wf(),
        ensures
            r matches Err(e) ==> is_stall(e, self.limit()),
            punctual(clock.stopped(), self.heard(), self.limit()) ==> r is Ok,
            late(clock.stopped(), self.heard(), self.limit()) ==> r is Err,
    {
        check_silence(self.last_byte, clock.now(), self.deadman)
    }

    /// Waits for the next event. For a file, its whole body has been written
    /// to `sink` before this returns; an idle tick comes only between
    /// frames. Once this fails the stream is dead: drop it and reconnect.
    ///
    /// A cancellation and the passing of time can end the wait at any point:
    /// they come as [`StorageError::Cancelled`], and as a failure that says
    /// that the stream stalled. A source that times out when the stream has
    /// been silent for too long always ends it; every byte that comes, of a
    /// line or of a body, breaks the silence.
    #[verifier::rlimit(80)]
    pub fn next<W: Sink, C: Cancellable, K: Clock>(
        &mut self,
        sink: &mut W,
        cancel: &C,
        clock: &K,
    ) -> (r: Result<StreamEvent, StorageError>)
        requires
            old(self).wf(),
        ensures
            final(self).wf(),
            final(self).limit() == old(self).limit(),
            clock.stopped() matches Some(t) ==> final(self).heard() == old(self).heard()
                || final(self).heard() == t,
            r is Ok && clock.stopped() is Some ==> final(self).heard() == heard_after(
                old(self).pos().rest,
                old(self).pos().rest.len() - final(self).pos().rest.len(),
                old(self).heard(),
                clock.stopped()->0,
            ),
            cancel.cancelled() ==> r == Err::<StreamEvent, StorageError>(StorageError::Cancelled),
            ({
                let step = stream_next(old(self).pos());
                match r {
                    Ok(ev) => {
                        &&& step.result == Ok::<StreamEvent, Failure>(ev)
                        &&& final(sink).written() == old(sink).written() + step.data
                        &&& final(self).pos() == step.pos
                    },
                    Err(StorageError::Cancelled) => !cancel.quiet(),
                    Err(StorageError::Io(_)) => !old(sink).healthy(),
                    Err(e) => {
                        ||| is_stall(e, old(self).limit()) && !punctual(
                            clock.stopped(),
                            old(self).heard(),
                            old(self).limit(),
                        )
                        ||| step.result is Err && fails_as(e, step.result->Err_0)
                    },
                }
            }),
            late(clock.stopped(), old(self).heard(), old(self).limit()) && times_out(
                old(self).pos(),
            ) ==> r is Err && (r->Err_0 is Cancelled || is_stall(r->Err_0, old(self).limit())),
    {
        let ghost goal = stream_next(self.pos());
        let ghost w0 = sink.written();
        let ghost s0 = self.body.script();
        let ghost mut used: int = 0;
        assert(w0 + Seq::<u8>::empty() =~= w0);
        assert(s0.skip(0) =~= s0);
        loop
            invariant
                s0 == old(self).pos().rest,
                0 <= used <= s0.len(),
                self.body.script() == s0.skip(used),
                clock.stopped() matches Some(t) ==> self.heard() == heard_after(
                    s0,
                    used,
                    old(self).heard(),
                    t,
                ),
                self.wf(),
                self.limit() == old(self).limit(),
                clock.stopped() matches Some(t) ==> self.heard() == old(self).heard()
                    || self.heard() == t,
                goal == stream_next(old(self).pos()),
                w0 == old(sink).written(),
                old(sink).healthy() ==> sink.healthy(),
                late(clock.stopped(), old(self).heard(), old(self).limit()) && times_out(
                    old(self).pos(),
                ) ==> self.pos() == old(self).pos() && self.heard() == old(self).heard(),
                ({
                    let now = stream_next(self.pos());
                    match goal.result {
                        Ok(ev) => {
                            &&& now.result == goal.result
                            &&& now.pos == goal.pos
                            &&& sink.written() + now.data == w0 + goal.data
                        },
                        Err(_) => now.result == goal.result,
                    }
                }),
            decreases
                    self.body.script().len(),
                    if self.state is Body {
                        0int
                    } else if self.state is Frame {
                        1int
                    } else {
                        2int
                    },
        {
            // Every pass (idle ticks, frame lines and body chunks) observes
            // the cancellation.
            match check_flag(cancel.is_cancelled()) {
                Ok(()) => {},
                Err(e) => return Err(e),
            }
            let ghost p = self.pos();
            proof {
                crate::wire::lemma_line_stop(p.held.len() as int, p.rest);
                assert(sink.written() + Seq::<u8>::empty() =~= sink.written());
            }
            match self.state {
                HttpStreamState::Body { info, remaining } => {
                    if remaining == 0 {
                        self.state = HttpStreamState::Frame;
                        return Ok(StreamEvent::Ltx(info));
                    }
                    let want: usize = if remaining < 8192 {
                        remaining as usize
                    } else {
                        8192
                    };
                    let mut buf: Vec<u8> = vec![0u8; want];
                    match self.body.read(buf.as_mut_slice()) {
                        Ok(n) => {
                            if n == 0 {
                                return Err(
                                    StorageError::Unavailable("stream ended mid-frame".to_owned()),
                                );
                            }
                            self.last_byte = clock.now();
                            let data = vstd::slice::slice_subrange(&buf, 0, n);
                            proof {
                                assert(p.rest[0] == s0[used]);
                                assert(p.rest.skip(n as int) =~= s0.skip(used + n));
                                used = used + n;
                                assert(took_bytes(s0, used));
                                assert forall|i: int| 0 <= i < n implies (
                                #[trigger] p.rest[i]) is Ok by {}
                                lemma_take_run(p.rest, n as int, remaining as int);
                                assert(data@ =~= run_bytes(p.rest, n as int));
                            }
                            let ghost before = sink.written();
                            match sink.write_all(data) {
                                Ok(()) => {},
                                Err(e) => return Err(StorageError::Io(e)),
                            }
                            self.state = HttpStreamState::Body {
                                info,
                                remaining: remaining - n as u64,
                            };
                            proof {
                                match take_body(p.rest.skip(n as int), remaining - n) {
                                    BodyTake::Whole(d, rest) => {
                                        assert(before + data@ + d =~= before + (data@ + d));
                                    },
                                    _ => {},
                                }
                            }
                        },
                        Err(e) => {
                            proof {
                                assert(p.rest[0] == s0[used]);
                                assert(p.rest.skip(1) =~= s0.skip(used + 1));
                                assert(took_bytes(s0, used + 1) == took_bytes(s0, used)) by {
                                    if took_bytes(s0, used) {
                                        let i = choose|i: int|
                                            0 <= i < used && (#[trigger] s0[i]) is Ok;
                                        assert(0 <= i < used + 1 && s0[i] is Ok);
                                    }
                                }
                                used = used + 1;
                            }
                            // Timeouts mid-body are absorbed: the caller may
                            // empty its sink between calls.
                            if is_timeout(&e) {
                                match self.check_deadman(clock) {
                                    Ok(()) => {},
                                    Err(e) => return Err(e),
                                }
                            } else {
                                return Err(stream_io_err(&e));
                            }
                        },
                    }
                },
                HttpStreamState::Preamble => {
                    let held = self.line.held_len();
                    proof {
                        lemma_took_line(s0, used, p.held);
                    }
                    let answer = self.line.read_line(&mut self.body);
                    proof {
                        used = s0.len() - self.body.script().len();
                    }
                    let line = match answer {
                        Ok(l) => l,
                        Err(e) => {
                            // What is held of a line was heard, too.
                            if self.line.held_len() > held {
                                self.last_byte = clock.now();
                            }
                            if is_timeout(&e) {
                                match self.check_deadman(clock) {
                                    Ok(()) => {},
                                    Err(e) => return Err(e),
                                }
                                return Ok(StreamEvent::Idle { bucket_max: None });
                            }
                            return Err(stream_io_err(&e));
                        },
                    };
                    let line = match line {
                        Some(l) => l,
                        None => return Err(
                            StorageError::Unavailable("stream closed before preamble".to_owned()),
                        ),
                    };
                    self.last_byte = clock.now();
                    let expected = crate::error::join("liters-stream ", PROTOCOL_VERSION);
                    if !text::same_text(line.as_str(), expected.as_str()) {
                        let mut m = crate::error::join(
                            "bad stream preamble ",
                            text::quoted(line.as_str()).as_str(),
                        );
                        m.append(" (expected ");
                        m.append(text::quoted(expected.as_str()).as_str());
                        m.append(")");
                        return Err(StorageError::Other(m));
                    }
                    self.state = HttpStreamState::Frame;
                },
                HttpStreamState::Frame => {
                    let held = self.line.held_len();
                    proof {
                        lemma_took_line(s0, used, p.held);
                    }
                    let answer = self.line.read_line(&mut self.body);
                    proof {
                        used = s0.len() - self.body.script().len();
                    }
                    let line = match answer {
                        Ok(l) => l,
                        Err(e) => {
                            // What is held of a line was heard, too.
                            if self.line.held_len() > held {
                                self.last_byte = clock.now();
                            }
                            // A partial line survives, so an idle tick is
                            // safe.
                            if is_timeout(&e) {
                                match self.check_deadman(clock) {
                                    Ok(()) => {},
                                    Err(e) => return Err(e),
                                }
                                return Ok(StreamEvent::Idle { bucket_max: None });
                            }
                            return Err(stream_io_err(&e));
                        },
                    };
                    let line = match line {
                        Some(l) => l,
                        None => return Ok(StreamEvent::Closed),
                    };
                    self.last_byte = clock.now();
                    match take_frame(line.as_str()) {
                        Taken::Event(e) => return Ok(e),
                        Taken::Fail(e) => return Err(e),
                        Taken::State(state) => {
                            self.state = state;
                        },
                    }
                },
            }
        }
    }
}

} // verus!
