//! HTTP/1.1 wire primitives shared by the client and the server: lines, heads
//! of requests and responses, query strings and chunked bodies. There is no
//! percent-encoding: the protocol's paths and query values are plain
//! hexadecimal and decimal numbers.
use crate::io::{good_run, run_bytes, ErrorKind, Fault, IoError, Script, Sink, Source};
use crate::text;
use crate::text::{digits, index_of, lower, parsed, pieces, split_first, trimmed};
use vstd::utf8::{decode_utf8, valid_utf8};
use vstd::prelude::*;

verus! {

/// Protocol version spoken by this build. Any frame-type or format change
/// bumps this.
pub const PROTOCOL_VERSION: &'static str = "1";

/// Header carried on every response; clients validate it on every response,
/// so foreign servers (proxies, wrong ports) fail loudly instead of being
/// misparsed.
pub const PROTOCOL_HEADER: &'static str = "x-liters-protocol";

/// Max length of any protocol line (request line, header, listing line,
/// stream frame line, chunk-size line).
pub const MAX_LINE: usize = 8192;

/// Max number of request or response header lines.
pub const MAX_HEADERS: usize = 100;

/// Whether `e` is a read or write timeout rather than a failure.
pub fn is_timeout(e: &IoError) -> (r: bool)
    ensures
        r == (e.kind == ErrorKind::WouldBlock || e.kind == ErrorKind::TimedOut),
{
    e.kind == ErrorKind::WouldBlock || e.kind == ErrorKind::TimedOut
}

// ---------------------------------------------------------------------------
// Lines

/// Decodes UTF-8 with `String::from_utf8`, which accepts exactly the valid
/// byte sequences and returns the text that they encode.
#[verifier::external_body]
pub(crate) fn utf8_string(bytes: Vec<u8>) -> (r: Option<String>)
    ensures
        match r {
            Some(s) => valid_utf8(bytes@) && s@ == decode_utf8(bytes@),
            None => !valid_utf8(bytes@),
        },
{
    String::from_utf8(bytes).ok()
}

/// How many items a line reader that holds `held` bytes takes into its
/// buffer: up to the end of the script, a fault, a newline, or the first
/// byte that no longer fits.
pub open spec fn line_stop(held: int, s: Script) -> int
    decreases s.len(),
{
    if s.len() == 0 || s[0] is Err || s[0] == Ok::<u8, Fault>(10u8) || held >= MAX_LINE {
        0
    } else {
        1 + line_stop(held + 1, s.skip(1))
    }
}

/// A line without the carriage return it may end in.
pub open spec fn strip_cr(b: Seq<u8>) -> Seq<u8> {
    if b.len() > 0 && b.last() == 13 {
        b.drop_last()
    } else {
        b
    }
}

/// What a complete line's bytes read as.
pub open spec fn line_text(b: Seq<u8>) -> Result<Option<Seq<char>>, Fault> {
    if valid_utf8(strip_cr(b)) {
        Ok(Some(decode_utf8(strip_cr(b))))
    } else {
        Err(Fault { kind: ErrorKind::InvalidData, message: "non-utf8 line"@ })
    }
}

/// The outcome of reading one line: the result, the partial line that is
/// kept, and what the source has left.
pub struct LineStep {
    pub result: Result<Option<Seq<char>>, Fault>,
    pub held: Seq<u8>,
    pub rest: Script,
}

/// Reading a line, with `held` kept from before, off a source with script
/// `s`.
pub open spec fn line_step(held: Seq<u8>, s: Script) -> LineStep {
    let j = line_stop(held.len() as int, s);
    let got = held + run_bytes(s, j);
    if j == s.len() {
        LineStep {
            result: if got.len() == 0 {
                Ok(None)
            } else {
                Err(Fault { kind: ErrorKind::UnexpectedEof, message: "eof mid-line"@ })
            },
            held: got,
            rest: s.skip(j),
        }
    } else {
        match s[j] {
            Err(e) => LineStep { result: Err(e), held: got, rest: s.skip(j + 1) },
            Ok(b) => if b == 10 {
                LineStep { result: line_text(got), held: Seq::empty(), rest: s.skip(j + 1) }
            } else {
                LineStep {
                    result: Err(
                        Fault {
                            kind: ErrorKind::InvalidData,
                            message: "line exceeds max length"@,
                        },
                    ),
                    held: got,
                    rest: s.skip(j + 1),
                }
            },
        }
    }
}

/// The mathematical value of a line reader's answer.
pub open spec fn line_answer(r: Result<Option<String>, IoError>) -> Result<
    Option<Seq<char>>,
    Fault,
> {
    match r {
        Ok(Some(l)) => Ok(Some(l@)),
        Ok(None) => Ok(None),
        Err(e) => Err(e@),
    }
}

pub proof fn lemma_line_stop(held: int, s: Script)
    ensures
        0 <= line_stop(held, s) <= s.len(),
        good_run(s, line_stop(held, s)),
        forall|i: int| 0 <= i < line_stop(held, s) ==> (#[trigger] s[i]) != Ok::<u8, Fault>(10u8),
        line_stop(held, s) < s.len() ==> {
            let e = s[line_stop(held, s)];
            e is Err || e == Ok::<u8, Fault>(10u8) || held + line_stop(held, s) >= MAX_LINE
        },
    decreases s.len(),
{
    if !(s.len() == 0 || s[0] is Err || s[0] == Ok::<u8, Fault>(10u8) || held >= MAX_LINE) {
        let t = s.skip(1);
        lemma_line_stop(held + 1, t);
        let k = line_stop(held + 1, t);
        assert forall|i: int| 0 <= i < k + 1 implies (#[trigger] s[i]) is Ok && s[i] != Ok::<
            u8,
            Fault,
        >(10u8) by {
            if i > 0 {
                assert(s[i] == t[i - 1]);
            }
        }
        if k < t.len() {
            assert(t[k] == s[k + 1]);
        }
    }
}

/// Byte-at-a-time line accumulator. Reading byte-wise keeps the consumer
/// positioned exactly at the start of what follows the line (no over-read
/// buffering), and the partial line survives read timeouts, so streaming
/// callers can resume mid-line.
pub struct LineBuf {
    buf: Vec<u8>,
}

impl Default for LineBuf {
    fn default() -> (r: LineBuf)
        ensures
            r.held() == Seq::<u8>::empty(),
    {
        LineBuf { buf: Vec::new() }
    }
}

impl LineBuf {
    /// The partial line held so far.
    pub closed spec fn held(&self) -> Seq<u8> {
        self.buf@
    }

    /// How much of a line is held so far.
    pub fn held_len(&self) -> (r: usize)
        ensures
            r == self.held().len(),
    {
        self.buf.len()
    }

    /// Reads until `\n`. `Ok(Some(line))` strips the trailing `\n` or
    /// `\r\n`. `Ok(None)` is a clean end at a line boundary; an end mid-line
    /// is an error. Faults propagate with the partial line preserved.
    pub fn read_line<R: Source>(&mut self, r: &mut R) -> (res: Result<Option<String>, IoError>)
        ensures
            ({
                let step = line_step(old(self).held(), old(r).script());
                &&& line_answer(res) == step.result
                &&& final(self).held() == step.held
                &&& final(r).script() == step.rest
            }),
    {
        let mut byte: Vec<u8> = Vec::new();
        byte.push(0);
        let ghost h0 = self.buf@;
        let ghost s0 = r.script();
        let ghost mut i: int = 0;
        proof {
            assert(s0.skip(0) =~= s0);
            assert(h0 + run_bytes(s0, 0) =~= h0);
            lemma_line_stop(h0.len() as int, s0);
        }
        loop
            invariant
                byte@.len() == 1,
                h0 == old(self).buf@,
                s0 == old(r).script(),
                0 <= i <= s0.len(),
                r.script() == s0.skip(i),
                self.buf@ == h0 + run_bytes(s0, i),
                line_stop(h0.len() as int, s0) == i + line_stop(h0.len() + i, s0.skip(i)),
            decreases s0.len() - i,
        {
            let ghost t = s0.skip(i);
            match r.read(byte.as_mut_slice()) {
                Ok(n) => {
                    if n == 0 {
                        assert(t.len() == 0);
                        assert(s0.skip(i) =~= t.skip(0));
                        if self.buf.len() == 0 {
                            return Ok(None);
                        }
                        return Err(IoError::new(ErrorKind::UnexpectedEof, "eof mid-line"));
                    }
                    let b: u8 = byte[0];
                    proof {
                        assert(t[0] == Ok::<u8, Fault>(b));
                        assert(s0[i] == t[0]);
                        assert(t.skip(1) =~= s0.skip(i + 1));
                    }
                    if b == 10 {
                        let mut line: Vec<u8> = Vec::new();
                        std::mem::swap(&mut line, &mut self.buf);
                        let ghost got = line@;
                        if line.len() > 0 && line[line.len() - 1] == 13 {
                            line.pop();
                        }
                        assert(line@ =~= strip_cr(got));
                        assert(self.buf@ =~= Seq::<u8>::empty());
                        return match utf8_string(line) {
                            Some(text) => Ok(Some(text)),
                            None => Err(IoError::new(ErrorKind::InvalidData, "non-utf8 line")),
                        };
                    }
                    if self.buf.len() >= MAX_LINE {
                        return Err(IoError::new(ErrorKind::InvalidData, "line exceeds max length"));
                    }
                    self.buf.push(b);
                    proof {
                        assert(self.buf@ =~= h0 + run_bytes(s0, i + 1));
                        i = i + 1;
                    }
                },
                Err(e) => {
                    proof {
                        assert(s0[i] == t[0]);
                        assert(t.skip(1) =~= s0.skip(i + 1));
                    }
                    return Err(e);
                },
            }
        }
    }
}

// ---------------------------------------------------------------------------
// Heads

/// Header names and values.
pub type HeaderSeq = Seq<(Seq<char>, Seq<char>)>;

/// The mathematical value of a header list.
pub open spec fn header_seq(h: Seq<(String, String)>) -> HeaderSeq {
    h.map_values(|p: (String, String)| (p.0@, p.1@))
}

/// What a header line says: the name in lower case and the value, both
/// without the white space around them. A line without a colon says nothing.
pub open spec fn header_line(line: Seq<char>) -> Option<(Seq<char>, Seq<char>)> {
    match split_first(line, ':') {
        Some((n, v)) => Some((lower(trimmed(n)), trimmed(v))),
        None => None,
    }
}

/// `h` with what `line` says at its end.
pub open spec fn with_header_line(h: HeaderSeq, line: Seq<char>) -> HeaderSeq {
    match header_line(line) {
        Some(p) => h.push(p),
        None => h,
    }
}

/// The outcome of reading a head: the start line and the headers, or a
/// fault; and what the source has left.
pub struct HeadStep {
    pub result: Result<(Seq<char>, HeaderSeq), Fault>,
    pub rest: Script,
}

/// Reading header lines up to the blank one, with `h` read so far.
pub open spec fn header_lines(start: Seq<char>, h: HeaderSeq, held: Seq<u8>, s: Script) -> HeadStep
    decreases s.len() via header_lines_decreases
{
    let st = line_step(held, s);
    match st.result {
        Err(e) => HeadStep { result: Err(e), rest: st.rest },
        Ok(None) => HeadStep {
            result: Err(Fault { kind: ErrorKind::UnexpectedEof, message: "eof in headers"@ }),
            rest: st.rest,
        },
        Ok(Some(line)) => if line.len() == 0 {
            HeadStep { result: Ok((start, h)), rest: st.rest }
        } else if h.len() >= MAX_HEADERS {
            HeadStep {
                result: Err(Fault { kind: ErrorKind::InvalidData, message: "too many headers"@ }),
                rest: st.rest,
            }
        } else {
            header_lines(start, with_header_line(h, line), st.held, st.rest)
        },
    }
}

#[via_fn]
proof fn header_lines_decreases(start: Seq<char>, h: HeaderSeq, held: Seq<u8>, s: Script) {
    lemma_line_stop(held.len() as int, s);
}

/// Reading a whole head off a source with script `s`.
pub open spec fn head_step(s: Script) -> HeadStep {
    let st = line_step(Seq::empty(), s);
    match st.result {
        Err(e) => HeadStep { result: Err(e), rest: st.rest },
        Ok(Some(line)) if line.len() > 0 => header_lines(line, Seq::empty(), st.held, st.rest),
        _ => HeadStep {
            result: Err(Fault { kind: ErrorKind::UnexpectedEof, message: "empty request head"@ }),
            rest: st.rest,
        },
    }
}

/// The mathematical value of a head reader's answer.
pub open spec fn head_answer(r: Result<(String, Vec<(String, String)>), IoError>) -> Result<
    (Seq<char>, HeaderSeq),
    Fault,
> {
    match r {
        Ok((start, h)) => Ok((start@, header_seq(h@))),
        Err(e) => Err(e@),
    }
}

/// Reads a request or response head: the start line plus header lines up to
/// the blank separator. Returns the start line and the headers as pairs with
/// lower-case names. Malformed header lines are skipped.
pub fn read_head<R: Source>(r: &mut R) -> (res: Result<(String, Vec<(String, String)>), IoError>)
    ensures
        head_answer(res) == head_step(old(r).script()).result,
        final(r).script() == head_step(old(r).script()).rest,
{
    let mut lines = LineBuf::default();
    let start = match lines.read_line(r) {
        Err(e) => return Err(e),
        Ok(None) => return Err(IoError::new(ErrorKind::UnexpectedEof, "empty request head")),
        Ok(Some(l)) => l,
    };
    let start_chars = text::chars_of(start.as_str());
    if start_chars.len() == 0 {
        return Err(IoError::new(ErrorKind::UnexpectedEof, "empty request head"));
    }
    let mut headers: Vec<(String, String)> = Vec::new();
    assert(header_seq(headers@) =~= Seq::empty());
    loop
        invariant
            header_lines(start@, header_seq(headers@), lines.held(), r.script()) == head_step(
                old(r).script(),
            ),
        decreases r.script().len(),
    {
        proof {
            lemma_line_stop(lines.held().len() as int, r.script());
        }
        let line = match lines.read_line(r) {
            Err(e) => return Err(e),
            Ok(None) => return Err(IoError::new(ErrorKind::UnexpectedEof, "eof in headers")),
            Ok(Some(l)) => l,
        };
        let cs = text::chars_of(line.as_str());
        if cs.len() == 0 {
            return Ok((start, headers));
        }
        if headers.len() >= MAX_HEADERS {
            return Err(IoError::new(ErrorKind::InvalidData, "too many headers"));
        }
        if let Some((name, value)) = text::split_at_first(&cs, ':') {
            let ghost before = headers@;
            let name = text::lower_chars(text::trim(name));
            let value = text::trim(value);
            headers.push((text::string_of(&name), text::string_of(value)));
            assert(header_seq(headers@) =~= with_header_line(header_seq(before), line@));
        }
    }
}

/// The value of the first header called `name`.
pub open spec fn header_value(h: HeaderSeq, name: Seq<char>) -> Option<Seq<char>>
    decreases h.len(),
{
    if h.len() == 0 {
        None
    } else if h[0].0 == name {
        Some(h[0].1)
    } else {
        header_value(h.skip(1), name)
    }
}

/// The mathematical value of an optional string slice.
pub open spec fn opt_text(o: Option<&str>) -> Option<Seq<char>> {
    match o {
        Some(s) => Some(s@),
        None => None,
    }
}

/// The value of the first header called `name` (in lower case).
pub fn header<'a>(headers: &'a [(String, String)], name: &str) -> (r: Option<&'a str>)
    ensures
        opt_text(r) == header_value(header_seq(headers@), name@),
{
    let mut i: usize = 0;
    let ghost h = header_seq(headers@);
    assert(h.skip(0) =~= h);
    while i < headers.len()
        invariant
            h == header_seq(headers@),
            i <= headers@.len(),
            header_value(h.skip(i as int), name@) == header_value(h, name@),
        decreases headers@.len() - i,
    {
        assert(h.skip(i as int)[0] == (headers@[i as int].0@, headers@[i as int].1@));
        assert(h.skip(i as int).skip(1) =~= h.skip(i + 1));
        if text::same_text(headers[i].0.as_str(), name) {
            return Some(headers[i].1.as_str());
        }
        i += 1;
    }
    None
}

/// The value that the first piece `name=..` gives.
pub open spec fn query_value(parts: Seq<Seq<char>>, name: Seq<char>) -> Option<Seq<char>>
    decreases parts.len(),
{
    if parts.len() == 0 {
        None
    } else {
        match split_first(parts[0], '=') {
            Some((k, v)) if k == name => Some(v),
            _ => query_value(parts.skip(1), name),
        }
    }
}

/// `k=v&k=v` query parsing; no percent-decoding by design.
pub fn query_param<'a>(query: &'a str, name: &str) -> (r: Option<&'a str>)
    ensures
        opt_text(r) == query_value(pieces(query@, '&'), name@),
{
    let cs = text::chars_of(query);
    let want = text::chars_of(name);
    let mut from: usize = 0;
    assert(cs@.skip(0) =~= cs@);
    loop
        invariant
            cs@ == query@,
            want@ == name@,
            from <= cs@.len(),
            query_value(pieces(cs@.skip(from as int), '&'), name@) == query_value(
                pieces(cs@, '&'),
                name@,
            ),
        decreases cs@.len() - from,
    {
        let rest = text::part(&cs, from, cs.len());
        assert(rest@ =~= cs@.skip(from as int));
        let end = text::find(rest, '&');
        let kv = text::part(rest, 0, end);
        assert(kv@ =~= rest@.take(end as int));
        let eq = text::find(kv, '=');
        let ghost ps = pieces(rest@, '&');
        proof {
            assert(end == rest@.len() ==> kv@ =~= rest@);
            assert(ps[0] == kv@);
            if end < rest@.len() {
                assert(ps.skip(1) =~= pieces(rest@.skip(end + 1), '&'));
                assert(rest@.skip(end + 1) =~= cs@.skip(from + end + 1));
            } else {
                assert(ps.skip(1) =~= Seq::<Seq<char>>::empty());
                assert(query_value(ps.skip(1), name@) is None);
            }
        }
        if eq < kv.len() {
            let key = text::part(kv, 0, eq);
            assert(key@ =~= kv@.take(eq as int));
            if text::same_chars(key, &want) {
                let value = query.substring_char(from + eq + 1, from + end);
                assert(value@ =~= kv@.skip(eq + 1));
                return Some(value);
            }
        }
        if end == rest.len() {
            return None;
        }
        from = from + end + 1;
    }
}

// ---------------------------------------------------------------------------
// Chunked bodies

/// The bytes of ASCII text.
pub open spec fn ascii_bytes(s: Seq<char>) -> Seq<u8> {
    s.map_values(|c: char| c as u8)
}

/// Carriage return and line feed.
pub open spec fn crlf() -> Seq<u8> {
    seq![13u8, 10u8]
}

/// One chunk: its length in hexadecimal, the data, each with a line end. No
/// data is no chunk, since an empty chunk would terminate the body.
pub open spec fn chunk_bytes(data: Seq<u8>) -> Seq<u8> {
    if data.len() == 0 {
        Seq::empty()
    } else {
        ascii_bytes(digits(data.len(), 16)) + crlf() + data + crlf()
    }
}

/// What terminates a chunked body: a chunk of length zero and no trailer.
pub open spec fn final_chunk() -> Seq<u8> {
    seq![48u8, 13u8, 10u8, 13u8, 10u8]
}

/// ASCII characters as bytes.
pub(crate) fn ascii(cs: &[char]) -> (r: Vec<u8>)
    ensures
        r@ == ascii_bytes(cs@),
{
    let mut out: Vec<u8> = Vec::new();
    let mut i: usize = 0;
    while i < cs.len()
        invariant
            i <= cs@.len(),
            out@.len() == i,
            forall|j: int| 0 <= j < i ==> out@[j] == cs@[j] as u8,
        decreases cs@.len() - i,
    {
        out.push(cs[i] as u8);
        i += 1;
    }
    assert(out@ =~= ascii_bytes(cs@));
    out
}

/// Chunked transfer-encoding writer. Each chunk is flushed by the caller
/// when timeliness matters (stream frames, pings).
pub struct ChunkedWriter<W: Sink> {
    inner: W,
}

impl<W: Sink> ChunkedWriter<W> {
    /// The sink that the chunks go to.
    pub closed spec fn sink(&self) -> W {
        self.inner
    }

    pub fn new(inner: W) -> (r: ChunkedWriter<W>)
        ensures
            r.sink() == inner,
    {
        ChunkedWriter { inner }
    }

    /// Writes `data` as one chunk.
    pub fn chunk(&mut self, data: &[u8]) -> (r: Result<(), IoError>)
        ensures
            r is Ok ==> final(self).sink().written() == old(self).sink().written() + chunk_bytes(
                data@,
            ),
            data@.len() == 0 ==> r is Ok && final(self).sink() == old(self).sink(),
            old(self).sink().healthy() ==> r is Ok && final(self).sink().healthy(),
    {
        if data.len() == 0 {
            assert(old(self).sink().written() + Seq::<u8>::empty()
                =~= old(self).sink().written());
            return Ok(());
        }
        let digits = text::write_number(data.len() as u64, 16);
        let mut head = ascii(&digits);
        head.push(13);
        head.push(10);
        let mut tail: Vec<u8> = Vec::new();
        tail.push(13);
        tail.push(10);
        match self.inner.write_all(&head) {
            Ok(()) => {},
            Err(e) => return Err(e),
        }
        match self.inner.write_all(data) {
            Ok(()) => {},
            Err(e) => return Err(e),
        }
        let r = self.inner.write_all(&tail);
        proof {
            assert(head@ =~= ascii_bytes(digits@) + crlf());
            assert(tail@ =~= crlf());
            assert(old(self).sink().written() + head@ + data@ + tail@ =~= old(self).sink().written()
                + chunk_bytes(data@));
        }
        r
    }

    /// Writes `data` as one chunk, so that a producer's writes are framed.
    /// All of it is taken.
    pub fn write(&mut self, data: &[u8]) -> (r: Result<usize, IoError>)
        ensures
            match r {
                Ok(n) => n == data@.len() && final(self).sink().written()
                    == old(self).sink().written() + chunk_bytes(data@),
                Err(_) => data@.len() > 0,
            },
            old(self).sink().healthy() ==> r is Ok && final(self).sink().healthy(),
    {
        match self.chunk(data) {
            Ok(()) => Ok(data.len()),
            Err(e) => Err(e),
        }
    }

    /// Flushes the wrapped sink. Nothing is added to the body, and nothing of
    /// it is held back any more.
    pub fn flush(&mut self) -> (r: Result<(), IoError>)
        ensures
            r is Ok ==> final(self).sink().written() == old(self).sink().written(),
            r is Ok ==> final(self).sink().flushed() == final(self).sink().written(),
            old(self).sink().healthy() ==> r is Ok && final(self).sink().healthy(),
    {
        self.inner.flush()
    }

    /// Terminates the body cleanly and hands the sink back. Dropping without
    /// `finish` leaves the peer with an unexpected end of stream: that is
    /// the deliberate abort signal.
    pub fn finish(self) -> (r: Result<W, IoError>)
        ensures
            r matches Ok(w) ==> w.written() == self.sink().written() + final_chunk(),
            r matches Ok(w) ==> w.flushed() == w.written(),
            self.sink().healthy() ==> r is Ok && r->Ok_0.healthy(),
    {
        let mut inner = self.inner;
        let mut tail: Vec<u8> = Vec::new();
        tail.push(48);
        tail.push(13);
        tail.push(10);
        tail.push(13);
        tail.push(10);
        assert(tail@ =~= final_chunk());
        match inner.write_all(&tail) {
            Ok(()) => {},
            Err(e) => return Err(e),
        }
        match inner.flush() {
            Ok(()) => {},
            Err(e) => return Err(e),
        }
        Ok(inner)
    }
}

/// Where a chunked reader stands.
#[derive(Clone, Copy, Debug, PartialEq, Eq, Structural)]
pub enum ChunkState {
    /// Next: a chunk-size line.
    Size,
    /// Mid-chunk with this many data bytes left.
    Data(u64),
    /// Chunk data done; the trailing line end still unread.
    DataEnd,
    /// Final chunk seen; trailer lines until the blank line.
    Trailer,
    Eof,
}

/// The whole position of a chunked reader: its state, the partial line it
/// holds, and what its source has left.
pub struct ChunkPos {
    pub state: ChunkState,
    pub held: Seq<u8>,
    pub rest: Script,
}

/// What a chunked reader comes to before it can hand out data.
pub enum Advance {
    /// A fault, and the position to resume from.
    Fail(Fault, ChunkPos),
    /// So many bytes of a chunk come next.
    Ready(u64, ChunkPos),
    /// The body is over.
    End(ChunkPos),
}

/// The length that a chunk-size line states: a hexadecimal number, up to the
/// first semicolon.
pub open spec fn chunk_size(line: Seq<char>) -> Option<int> {
    parsed(trimmed(line.take(index_of(line, ';'))), 16, u64::MAX as int)
}

/// Reads framing lines from `p` until data, the end or a fault comes next.
pub open spec fn advance(p: ChunkPos) -> Advance
    decreases p.rest.len() via advance_decreases
{
    let st = line_step(p.held, p.rest);
    let stay = ChunkPos { state: p.state, held: st.held, rest: st.rest };
    match p.state {
        ChunkState::Size => match st.result {
            Err(e) => Advance::Fail(e, stay),
            Ok(None) => Advance::Fail(
                Fault { kind: ErrorKind::UnexpectedEof, message: "eof before chunk size"@ },
                stay,
            ),
            Ok(Some(line)) => match chunk_size(line) {
                None => Advance::Fail(
                    Fault { kind: ErrorKind::InvalidData, message: "bad chunk size"@ },
                    stay,
                ),
                Some(n) => if n == 0 {
                    advance(ChunkPos { state: ChunkState::Trailer, ..stay })
                } else {
                    Advance::Ready(
                        n as u64,
                        ChunkPos { state: ChunkState::Data(n as u64), ..stay },
                    )
                },
            },
        },
        ChunkState::Data(n) => Advance::Ready(n, p),
        ChunkState::DataEnd => match st.result {
            Err(e) => Advance::Fail(e, stay),
            Ok(None) => Advance::Fail(
                Fault { kind: ErrorKind::UnexpectedEof, message: "eof after chunk"@ },
                stay,
            ),
            Ok(Some(line)) => if line.len() == 0 {
                advance(ChunkPos { state: ChunkState::Size, ..stay })
            } else {
                Advance::Fail(
                    Fault { kind: ErrorKind::InvalidData, message: "missing chunk terminator"@ },
                    stay,
                )
            },
        },
        ChunkState::Trailer => match st.result {
            Err(e) => Advance::Fail(e, stay),
            Ok(None) => Advance::Fail(
                Fault { kind: ErrorKind::UnexpectedEof, message: "eof in trailer"@ },
                stay,
            ),
            Ok(Some(line)) => if line.len() == 0 {
                Advance::End(ChunkPos { state: ChunkState::Eof, ..stay })
            } else {
                advance(stay)
            },
        },
        ChunkState::Eof => Advance::End(p),
    }
}

#[via_fn]
proof fn advance_decreases(p: ChunkPos) {
    lemma_line_stop(p.held.len() as int, p.rest);
}

/// The state after `n` of `left` data bytes were read.
pub open spec fn after_data(left: u64, n: int) -> ChunkState {
    if left - n == 0 {
        ChunkState::DataEnd
    } else {
        ChunkState::Data((left - n) as u64)
    }
}

/// What one read with room for `room` bytes may do from position `p`: give
/// the answer `r` (with the bytes `data` on success) and leave position `q`.
pub open spec fn chunked_read(
    p: ChunkPos,
    room: int,
    r: Result<int, Fault>,
    data: Seq<u8>,
    q: ChunkPos,
) -> bool {
    match advance(p) {
        Advance::Fail(e, at) => r == Err::<int, Fault>(e) && q == at,
        Advance::End(at) => r == Ok::<int, Fault>(0) && q == at,
        Advance::Ready(left, at) => if room == 0 {
            r == Ok::<int, Fault>(0) && q == at
        } else if at.rest.len() == 0 {
            &&& r == Err::<int, Fault>(
                Fault { kind: ErrorKind::UnexpectedEof, message: "eof mid-chunk"@ },
            )
            &&& q == at
        } else {
            match at.rest[0] {
                Err(e) => r == Err::<int, Fault>(e) && q == (ChunkPos {
                    rest: at.rest.skip(1),
                    ..at
                }),
                Ok(_) => match r {
                    Ok(n) => {
                        &&& 1 <= n <= room
                        &&& n <= left
                        &&& good_run(at.rest, n)
                        &&& data == run_bytes(at.rest, n)
                        &&& q == (ChunkPos {
                            state: after_data(left, n),
                            rest: at.rest.skip(n),
                            ..at
                        })
                    },
                    Err(_) => false,
                },
            }
        },
    }
}

/// Chunked transfer-encoding reader. All state advances only on successful
/// reads, so a read timeout at any byte position is resumable: propagate the
/// error, call `read` again later.
pub struct ChunkedReader<R: Source> {
    inner: R,
    state: ChunkState,
    line: LineBuf,
}

impl<R: Source> ChunkedReader<R> {
    /// Where the reader stands.
    pub closed spec fn pos(&self) -> ChunkPos {
        ChunkPos { state: self.state, held: self.line.held(), rest: self.inner.script() }
    }

    /// A chunk in progress has at least one byte left.
    pub open spec fn wf(&self) -> bool {
        self.pos().state != ChunkState::Data(0)
    }

    pub fn new(inner: R) -> (r: ChunkedReader<R>)
        ensures
            r.pos() == (ChunkPos {
                state: ChunkState::Size,
                held: Seq::empty(),
                rest: inner.script(),
            }),
            r.wf(),
    {
        ChunkedReader { inner, state: ChunkState::Size, line: LineBuf::default() }
    }

    /// Reads body bytes into the front of `buf`. Zero bytes mean the end of
    /// the body, or an empty `buf`.
    pub fn read(&mut self, buf: &mut [u8]) -> (r: Result<usize, IoError>)
        requires
            old(self).wf(),
        ensures
            final(self).wf(),
            final(buf)@.len() == old(buf)@.len(),
            match r {
                Ok(n) => n <= old(buf)@.len() && chunked_read(
                    old(self).pos(),
                    old(buf)@.len() as int,
                    Ok(n as int),
                    final(buf)@.take(n as int),
                    final(self).pos(),
                ),
                Err(e) => chunked_read(
                    old(self).pos(),
                    old(buf)@.len() as int,
                    Err(e@),
                    Seq::empty(),
                    final(self).pos(),
                ),
            },
    {
        loop
            invariant
                self.wf(),
                buf@ == old(buf)@,
                advance(self.pos()) == advance(old(self).pos()),
            decreases
                    self.inner.script().len(),
                    if self.state == ChunkState::Eof || self.state is Data {
                        0int
                    } else {
                        1int
                    },
        {
            let ghost p = self.pos();
            proof {
                lemma_line_stop(p.held.len() as int, p.rest);
            }
            match self.state {
                ChunkState::Size => {
                    let line = match self.line.read_line(&mut self.inner) {
                        Err(e) => return Err(e),
                        Ok(None) => return Err(
                            IoError::new(ErrorKind::UnexpectedEof, "eof before chunk size"),
                        ),
                        Ok(Some(l)) => l,
                    };
                    let cs = text::chars_of(line.as_str());
                    let end = text::find(&cs, ';');
                    let size = text::part(&cs, 0, end);
                    assert(size@ =~= line@.take(index_of(line@, ';')));
                    match text::parse_number(text::trim(size), 16, u64::MAX) {
                        None => return Err(IoError::new(ErrorKind::InvalidData, "bad chunk size")),
                        Some(n) => {
                            self.state = if n == 0 {
                                ChunkState::Trailer
                            } else {
                                ChunkState::Data(n)
                            };
                        },
                    }
                },
                ChunkState::Data(remaining) => {
                    if buf.len() == 0 {
                        return Ok(0);
                    }
                    let want: usize = if (buf.len() as u64) < remaining {
                        buf.len()
                    } else {
                        remaining as usize
                    };
                    let (front, _) = buf.split_at_mut(want);
                    let n = match self.inner.read(front) {
                        Err(e) => return Err(e),
                        Ok(n) => n,
                    };
                    if n == 0 {
                        assert(p.rest.skip(0) =~= p.rest);
                        return Err(IoError::new(ErrorKind::UnexpectedEof, "eof mid-chunk"));
                    }
                    proof {
                        let got = front@;
                        assert(p.rest[0] is Ok);
                        assert forall|i: int| 0 <= i < n implies run_bytes(p.rest, n as int)[i]
                            == got[i] by {
                            assert(p.rest[i] == Ok::<u8, Fault>(got[i]));
                        }
                        assert(got.take(n as int) =~= run_bytes(p.rest, n as int));
                    }
                    self.state = if remaining - n as u64 == 0 {
                        ChunkState::DataEnd
                    } else {
                        ChunkState::Data(remaining - n as u64)
                    };
                    assert(buf@.take(n as int) =~= run_bytes(p.rest, n as int));
                    return Ok(n);
                },
                ChunkState::DataEnd => {
                    let line = match self.line.read_line(&mut self.inner) {
                        Err(e) => return Err(e),
                        Ok(None) => return Err(
                            IoError::new(ErrorKind::UnexpectedEof, "eof after chunk"),
                        ),
                        Ok(Some(l)) => l,
                    };
                    let cs = text::chars_of(line.as_str());
                    if cs.len() != 0 {
                        return Err(IoError::new(ErrorKind::InvalidData, "missing chunk terminator"));
                    }
                    self.state = ChunkState::Size;
                },
                ChunkState::Trailer => {
                    let line = match self.line.read_line(&mut self.inner) {
                        Err(e) => return Err(e),
                        Ok(None) => return Err(
                            IoError::new(ErrorKind::UnexpectedEof, "eof in trailer"),
                        ),
                        Ok(Some(l)) => l,
                    };
                    let cs = text::chars_of(line.as_str());
                    if cs.len() == 0 {
                        self.state = ChunkState::Eof;
                    }
                },
                ChunkState::Eof => return Ok(0),
            }
        }
    }
}

} // verus!
