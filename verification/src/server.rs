//! The built-in server's part that needs no socket: its options, what it does
//! with a request before the mount sees it, and how a response goes out.
use crate::copy::{faults_with, is_front, lemma_run_extend, Cancellable};
use crate::io::{good_run, run_bytes, ErrorKind, Fault, IoError, Script, Sink, Source};
use crate::mount::{segments, MountOptions};
use crate::text;
use crate::text::{decimal, pieces, split_first, words};
use crate::time::Span;
use crate::transport::{
    append_headers, body_framing, chunk_frame, chunk_run, framing_of, grew_by_chunks, header_block,
    last_chunk, says_chunked, stated_length, Framing,
};
use crate::wire::{
    final_chunk, header, header_seq, HeaderSeq, PROTOCOL_HEADER, PROTOCOL_VERSION,
};
use crate::wire_laws::{encoded, joined};
use vstd::prelude::*;
use vstd::utf8::encode_utf8;

verus! {

/// How much of an unread request body is drained after a response.
pub const DRAIN_LIMIT: u64 = 4_194_304;

/// Options of the built-in server.
#[derive(Clone, Debug)]
pub struct HttpServerOptions {
    /// How often a stream lists level 0 again when idle.
    pub poll_interval: Span,
    /// Keepalive cadence on a stream. Must stay well under the client's
    /// dead-stream timeout.
    pub ping_interval: Span,
    /// Accept pushed replication. Set `auth_token`, or keep a writable server
    /// on a private interface.
    pub writable: bool,
    /// When set, every route except the bare-root health check requires
    /// `authorization: Bearer <token>`.
    pub auth_token: Option<String>,
    /// How long a writer lease is held after the owner's last accepted write.
    pub lease_ttl: Span,
    /// Mount every endpoint under a path prefix, so that the server can share
    /// an origin with unrelated applications behind a path-routing proxy.
    /// Leading and trailing slashes are optional and repeated ones collapse.
    pub base_path: Option<String>,
}

impl Default for HttpServerOptions {
    fn default() -> (r: HttpServerOptions)
        ensures
            r.poll_interval.nanos == 1_000_000_000,
            r.ping_interval.nanos == 15 * 1_000_000_000,
            !r.writable,
            r.auth_token is None,
            r.lease_ttl.nanos == 24 * 60 * 60 * 1_000_000_000,
            r.base_path is None,
    {
        HttpServerOptions {
            poll_interval: Span::from_secs(1),
            ping_interval: Span::from_secs(15),
            writable: false,
            auth_token: None,
            lease_ttl: Span::from_secs(24 * 60 * 60),
            base_path: None,
        }
    }
}

impl HttpServerOptions {
    /// The options of the mount that the server drives.
    pub fn mount_options(&self) -> (r: MountOptions)
        ensures
            r.writable == self.writable,
            crate::mount::opt_string(r.auth_token) == crate::mount::opt_string(self.auth_token),
            r.lease_ttl == self.lease_ttl,
            r.poll_interval == self.poll_interval,
            r.ping_interval == self.ping_interval,
    {
        MountOptions {
            writable: self.writable,
            auth_token: match &self.auth_token {
                Some(t) => Some(t.as_str().to_owned()),
                None => None,
            },
            lease_ttl: self.lease_ttl,
            poll_interval: self.poll_interval,
            ping_interval: self.ping_interval,
        }
    }
}

/// The pieces that are not empty.
pub open spec fn non_empty(p: Seq<Seq<char>>) -> Seq<Seq<char>>
    decreases p.len(),
{
    if p.len() == 0 {
        Seq::empty()
    } else if p.last().len() == 0 {
        non_empty(p.drop_last())
    } else {
        non_empty(p.drop_last()).push(p.last())
    }
}

/// The views of a list of strings.
pub open spec fn texts(v: Seq<String>) -> Seq<Seq<char>> {
    v.map_values(|s: String| s@)
}

/// Splits a mount prefix into its non-empty path segments. No prefix, an
/// empty one and one of slashes only all mean the root.
pub fn normalize_base(base: Option<&str>) -> (r: Vec<String>)
    ensures
        texts(r@) == match base {
            Some(b) => non_empty(pieces(b@, '/')),
            None => Seq::empty(),
        },
{
    let mut out: Vec<String> = Vec::new();
    assert(texts(out@) =~= Seq::<Seq<char>>::empty());
    let b = match base {
        None => return out,
        Some(b) => b,
    };
    let cs = text::chars_of(b);
    let parts = text::split_all(&cs, '/');
    let ghost all = text::views(parts@);
    let mut i: usize = 0;
    assert(all.take(0) =~= Seq::<Seq<char>>::empty());
    while i < parts.len()
        invariant
            all == text::views(parts@),
            i <= parts@.len(),
            texts(out@) == non_empty(all.take(i as int)),
        decreases parts@.len() - i,
    {
        assert(all[i as int] == parts@[i as int]@);
        assert(all.take(i + 1).drop_last() =~= all.take(i as int));
        if parts[i].len() > 0 {
            let ghost before = out@;
            out.push(text::string_of(parts[i]));
            assert(texts(out@) =~= texts(before).push(parts@[i as int]@));
        }
        i += 1;
    }
    assert(all.take(i as int) =~= all);
    out
}

/// A request line's method, path and query: its first two words, the second
/// cut at the first question mark.
pub open spec fn request_parts(line: Seq<char>) -> Option<(Seq<char>, Seq<char>, Seq<char>)> {
    let w = words(line);
    if w.len() < 2 {
        None
    } else {
        match split_first(w[1], '?') {
            Some((path, query)) => Some((w[0], path, query)),
            None => Some((w[0], w[1], Seq::empty())),
        }
    }
}

/// Splits a request line into method, path and query.
pub fn parse_request_line(line: &str) -> (r: Option<(String, String, String)>)
    ensures
        match request_parts(line@) {
            Some((m, p, q)) => r matches Some(t) && t.0@ == m && t.1@ == p && t.2@ == q,
            None => r is None,
        },
{
    let cs = text::chars_of(line);
    let w = text::split_words(&cs);
    assert(text::views(w@).len() == w@.len());
    if w.len() < 2 {
        return None;
    }
    assert(text::views(w@)[0] == w@[0]@);
    assert(text::views(w@)[1] == w@[1]@);
    let method = text::string_of(w[0]);
    match text::split_at_first(w[1], '?') {
        Some((path, query)) => Some((method, text::string_of(path), text::string_of(query))),
        None => {
            let none = String::new();
            assert(none@ =~= Seq::<char>::empty());
            Some((method, text::string_of(w[1]), none))
        },
    }
}

/// Whether a request head declares a body: one in chunks, or one of some
/// length.
pub open spec fn declares_body(h: HeaderSeq) -> bool {
    says_chunked(h) || (stated_length(h) is Some && stated_length(h)->0 > 0)
}

/// Whether the request head declares a body: error responses must drain it
/// (up to a bound) before the connection is closed.
pub fn has_body(headers: &[(String, String)]) -> (r: bool)
    ensures
        r == declares_body(header_seq(headers@)),
{
    proof {
        let h = header_seq(headers@);
        if let Some(v) = crate::wire::header_value(h, "content-length"@) {
            text::lemma_parsed_range(v, 10, u64::MAX as int);
        }
    }
    match body_framing(headers) {
        Framing::Chunked => true,
        Framing::Length(n) => n > 0,
        Framing::UntilClose => false,
    }
}

/// What the server does with a request.
#[derive(Debug)]
pub enum ServerRoute {
    /// Answer with the version line: liveness probes carry no secrets.
    Health,
    /// The path lies outside the mount.
    NotFound,
    /// A push must declare the length of its body.
    LengthRequired,
    /// Hand the request to the mount, under this path. A push has its body
    /// framed so; any other request has none.
    Mount(String, Option<Framing>),
}

/// The segments joined by slashes.
pub open spec fn join_segments(s: Seq<Seq<char>>) -> Seq<char>
    decreases s.len(),
{
    if s.len() == 0 {
        Seq::empty()
    } else if s.len() == 1 {
        s[0]
    } else {
        join_segments(s.drop_last()) + "/"@ + s.last()
    }
}

/// Whether a path lies under the mount's prefix.
pub open spec fn under_mount(base: Seq<Seq<char>>, s: Seq<Seq<char>>) -> bool {
    base.len() <= s.len() && s.take(base.len() as int) == base
}

/// Whether the server does `r` with a request.
pub open spec fn server_route(
    base: Seq<Seq<char>>,
    method: Seq<char>,
    path: Seq<char>,
    h: HeaderSeq,
    r: ServerRoute,
) -> bool {
    let s = segments(path);
    let f = framing_of(h);
    if method == "GET"@ && s.len() == 1 && s[0].len() == 0 {
        r is Health
    } else if !under_mount(base, s) {
        r is NotFound
    } else if method == "PUT"@ && f is UntilClose {
        r is LengthRequired
    } else {
        &&& r is Mount
        &&& r->Mount_0@ == join_segments(s.skip(base.len() as int))
        &&& r->Mount_1 == if method == "PUT"@ {
            Some(f)
        } else {
            None
        }
    }
}

/// Decides what to do with a request: the bare-root health check is answered
/// before everything else, whatever the prefix; a path outside the prefix
/// belongs to some other application; what is left is the mount's.
pub fn route(
    base_segments: &Vec<String>,
    method: &str,
    path: &str,
    headers: &[(String, String)],
) -> (r: ServerRoute)
    ensures
        server_route(texts(base_segments@), method@, path@, header_seq(headers@), r),
{
    let cs = text::chars_of(path);
    let s = text::split_all(text::drop_trailing(text::drop_leading(&cs, '/'), '/'), '/');
    let ghost v = text::views(s@);
    let ghost base = texts(base_segments@);
    assert(v == segments(path@));
    assert(forall|i: int| 0 <= i < s@.len() ==> v[i] == (#[trigger] s@[i])@);
    if text::same_text(method, "GET") && s.len() == 1 && s[0].len() == 0 {
        return ServerRoute::Health;
    }
    if s.len() < base_segments.len() {
        return ServerRoute::NotFound;
    }
    let mut i: usize = 0;
    while i < base_segments.len()
        invariant
            v == text::views(s@),
            base == texts(base_segments@),
            base_segments@.len() <= s@.len(),
            i <= base_segments@.len(),
            forall|j: int| 0 <= j < i ==> v[j] == base[j],
            v == segments(path@),
            !(method@ == "GET"@ && v.len() == 1 && v[0].len() == 0),
        decreases base_segments@.len() - i,
    {
        let want = text::chars_of(base_segments[i].as_str());
        assert(v[i as int] == s@[i as int]@);
        assert(base[i as int] == base_segments@[i as int]@);
        if !text::same_chars(s[i], &want) {
            assert(v.take(base.len() as int)[i as int] != base[i as int]);
            return ServerRoute::NotFound;
        }
        i += 1;
    }
    assert(v.take(base.len() as int) =~= base);
    let put = text::same_text(method, "PUT");
    let framing = body_framing(headers);
    if put && framing == Framing::UntilClose {
        return ServerRoute::LengthRequired;
    }
    let ghost tail = v.skip(base.len() as int);
    let mut out = String::new();
    let mut k: usize = base_segments.len();
    assert(out@ =~= Seq::<char>::empty());
    assert(tail.take(0) =~= Seq::<Seq<char>>::empty());
    while k < s.len()
        invariant
            v == text::views(s@),
            base_segments@.len() <= k <= s@.len(),
            tail == v.skip(base_segments@.len() as int),
            out@ == join_segments(tail.take(k - base_segments@.len())),
        decreases s@.len() - k,
    {
        let ghost n = k - base_segments@.len();
        proof {
            assert(tail[n] == s@[k as int]@) by {
                assert(v[k as int] == s@[k as int]@);
            }
            assert(tail.take(n + 1).drop_last() =~= tail.take(n));
            assert(tail.take(n + 1).last() == tail[n]);
        }
        if k > base_segments.len() {
            out.append("/");
            out.append(text::string_of(s[k]).as_str());
        } else {
            out = text::string_of(s[k]);
            assert(tail.take(1)[0] == tail[0]);
        }
        k += 1;
    }
    assert(tail.take(s@.len() - base_segments@.len()) =~= tail);
    ServerRoute::Mount(
        out,
        if put {
            Some(framing)
        } else {
            None
        },
    )
}

/// The words for a status.
pub open spec fn reason_text(status: u16) -> Seq<char> {
    if status == 200 {
        "OK"@
    } else if status == 400 {
        "Bad Request"@
    } else if status == 401 {
        "Unauthorized"@
    } else if status == 403 {
        "Forbidden"@
    } else if status == 404 {
        "Not Found"@
    } else if status == 405 {
        "Method Not Allowed"@
    } else if status == 409 {
        "Conflict"@
    } else if status == 411 {
        "Length Required"@
    } else {
        "Internal Server Error"@
    }
}

/// The words for a status.
pub fn reason(status: u16) -> (r: &'static str)
    ensures
        r@ == reason_text(status),
{
    if status == 200 {
        "OK"
    } else if status == 400 {
        "Bad Request"
    } else if status == 401 {
        "Unauthorized"
    } else if status == 403 {
        "Forbidden"
    } else if status == 404 {
        "Not Found"
    } else if status == 405 {
        "Method Not Allowed"
    } else if status == 409 {
        "Conflict"
    } else if status == 411 {
        "Length Required"
    } else {
        "Internal Server Error"
    }
}

/// The head of a response: the status, the protocol header on every response,
/// the mount's headers, and the length of the body if it is in memory.
pub open spec fn response_text(status: u16, h: HeaderSeq, length: Option<int>) -> Seq<char> {
    "HTTP/1.1 "@ + decimal(status as int) + " "@ + reason_text(status) + "\r\n"@ + PROTOCOL_HEADER@
        + ": "@ + PROTOCOL_VERSION@ + "\r\nserver: liters\r\nconnection: close\r\n"@ + header_block(
        h,
    ) + match length {
        Some(n) => "content-length: "@ + decimal(n) + "\r\n\r\n"@,
        None => "transfer-encoding: chunked\r\n\r\n"@,
    }
}

/// The head of a response. A body of known length is announced with it, any
/// other goes out in chunks.
pub fn response_head(status: u16, headers: &[(String, String)], length: Option<u64>) -> (r: String)
    ensures
        r@ == response_text(
            status,
            header_seq(headers@),
            match length {
                Some(n) => Some(n as int),
                None => None,
            },
        ),
{
    let mut s = crate::error::join("HTTP/1.1 ", text::decimal_text(status as u64).as_str());
    s.append(" ");
    s.append(reason(status));
    s.append("\r\n");
    s.append(PROTOCOL_HEADER);
    s.append(": ");
    s.append(PROTOCOL_VERSION);
    s.append("\r\nserver: liters\r\nconnection: close\r\n");
    append_headers(&mut s, headers);
    match length {
        Some(n) => {
            let mut t = crate::error::join("content-length: ", text::decimal_text(n).as_str());
            t.append("\r\n\r\n");
            s.append(t.as_str());
        },
        None => {
            s.append("transfer-encoding: chunked\r\n\r\n");
        },
    }
    s
}

/// Sends a response with an in-memory body.
pub fn write_bytes_response<W: Sink>(
    status: u16,
    headers: &[(String, String)],
    body: &Vec<u8>,
    out: &mut W,
) -> (r: Result<(), IoError>)
    ensures
        r is Ok ==> final(out).written() == old(out).written() + encode_utf8(
            response_text(status, header_seq(headers@), Some(body@.len() as int)),
        ) + body@,
        old(out).healthy() ==> r is Ok && final(out).healthy(),
{
    let head = response_head(status, headers, Some(body.len() as u64));
    let bytes = head.as_str().as_bytes_vec();
    match out.write_all(&bytes) {
        Ok(()) => {},
        Err(e) => return Err(e),
    }
    out.write_all(body)
}

/// Sends a response whose body is read from a source, in chunks. A failure of
/// the source, or a shutdown, aborts: the body is left without its terminator,
/// so that the client sees a truncated body, never a short file.
pub fn write_reader_response<R: Source, W: Sink, C: Cancellable>(
    status: u16,
    headers: &[(String, String)],
    body: &mut R,
    out: &mut W,
    stop: &C,
) -> (r: Result<(), IoError>)
    ensures
        match r {
            Ok(_) => {
                let s = old(body).script();
                &&& good_run(s, s.len() as int)
                &&& exists|chunks: Seq<Seq<u8>>|
                    {
                        &&& joined(chunks) == run_bytes(s, s.len() as int)
                        &&& final(out).written() == old(out).written() + encode_utf8(
                            response_text(status, header_seq(headers@), None),
                        ) + #[trigger] encoded(chunks)
                    }
                &&& final(out).flushed() == final(out).written()
            },
            Err(e) => {
                ||| !old(out).healthy()
                ||| faults_with(old(body).script(), e@)
                ||| !stop.quiet() && e@ == (Fault {
                    kind: ErrorKind::Other,
                    message: "server shutting down"@,
                })
            },
        },
        r is Err && old(out).healthy() ==> grew_by_chunks(
            old(out).written() + encode_utf8(response_text(status, header_seq(headers@), None)),
            old(body).script(),
            final(out).written(),
        ),
        stop.cancelled() ==> r is Err,
        stop.cancelled() && old(out).healthy() ==> r->Err_0@ == (Fault {
            kind: ErrorKind::Other,
            message: "server shutting down"@,
        }),
{
    let ghost s = body.script();
    let head = response_head(status, headers, None);
    let bytes = head.as_str().as_bytes_vec();
    match out.write_all(&bytes) {
        Ok(()) => {},
        Err(e) => return Err(e),
    }
    let ghost w1 = out.written();
    let mut buf: Vec<u8> = vec![0u8; 65536];
    let ghost mut chunks: Seq<Seq<u8>> = Seq::empty();
    let ghost mut len: int = 0;
    proof {
        assert(s.skip(0) =~= s);
        assert(run_bytes(s, 0) =~= Seq::<u8>::empty());
        assert(w1 + chunk_run(chunks) =~= w1);
    }
    loop
        invariant_except_break
            body.script() == s.skip(len),
        invariant
            s == old(body).script(),
            w1 == old(out).written() + encode_utf8(
                response_text(status, header_seq(headers@), None),
            ),
            buf@.len() == 65536,
            0 <= len <= s.len(),
            good_run(s, len),
            joined(chunks) == run_bytes(s, len),
            out.written() == w1 + chunk_run(chunks),
            old(out).healthy() ==> out.healthy(),
        ensures
            len == s.len(),
            !stop.cancelled(),
        decreases s.len() - len,
    {
        proof {
            assert(is_front(s, joined(chunks)));
            assert(grew_by_chunks(w1, s, out.written()));
        }
        if stop.is_cancelled() {
            return Err(IoError::new(ErrorKind::Other, "server shutting down"));
        }
        let n = match body.read(buf.as_mut_slice()) {
            Ok(n) => n,
            Err(e) => {
                assert(s.skip(len)[0] == s[len]);
                return Err(e);
            },
        };
        if n == 0 {
            break;
        }
        let data = vstd::slice::slice_subrange(&buf, 0, n);
        let frame = chunk_frame(data);
        match out.write_all(&frame) {
            Ok(()) => {},
            Err(e) => return Err(e),
        }
        proof {
            lemma_run_extend(s, len, n as int, data@);
            let before = chunks;
            chunks = chunks.push(data@);
            crate::transport::lemma_chunk_run_push(before, data@);
            assert(w1 + chunk_run(before) + crate::wire::chunk_bytes(data@) =~= w1 + chunk_run(
                chunks,
            ));
            len = len + n;
        }
    }
    let tail = last_chunk();
    match out.write_all(&tail) {
        Ok(()) => {},
        Err(e) => return Err(e),
    }
    proof {
        crate::transport::lemma_encoded_run(chunks);
        assert(w1 + chunk_run(chunks) + final_chunk() =~= w1 + encoded(chunks));
    }
    out.flush()
}

/// Reads exactly so many bytes from a source; an end any earlier is an error
/// rather than a short read.
pub struct ExactLen<R: Source> {
    inner: R,
    remaining: u64,
}

impl<R: Source> ExactLen<R> {
    /// What the source has left.
    pub closed spec fn rest(&self) -> Script {
        self.inner.script()
    }

    /// How many bytes are still to come.
    pub closed spec fn left(&self) -> u64 {
        self.remaining
    }

    pub fn new(inner: R, length: u64) -> (r: ExactLen<R>)
        ensures
            r.rest() == inner.script(),
            r.left() == length,
    {
        ExactLen { inner, remaining: length }
    }

    /// Reads some of the bytes that are still to come into the front of
    /// `buf`. Zero bytes mean that none are, or that `buf` is empty.
    pub fn read(&mut self, buf: &mut [u8]) -> (r: Result<usize, IoError>)
        ensures
            final(buf)@.len() == old(buf)@.len(),
            match r {
                Ok(n) => {
                    &&& n <= old(buf)@.len()
                    &&& n <= old(self).left()
                    &&& n == 0 ==> old(buf)@.len() == 0 || old(self).left() == 0
                    &&& good_run(old(self).rest(), n as int)
                    &&& final(buf)@.take(n as int) == run_bytes(old(self).rest(), n as int)
                    &&& final(self).rest() == old(self).rest().skip(n as int)
                    &&& final(self).left() == old(self).left() - n
                },
                Err(e) => {
                    &&& old(buf)@.len() > 0
                    &&& old(self).left() > 0
                    &&& final(self).left() == old(self).left()
                    &&& if old(self).rest().len() == 0 {
                        &&& e@ == (Fault {
                            kind: ErrorKind::UnexpectedEof,
                            message: "request body shorter than content-length"@,
                        })
                        &&& final(self).rest() == old(self).rest()
                    } else {
                        &&& old(self).rest()[0] == Err::<u8, Fault>(e@)
                        &&& final(self).rest() == old(self).rest().skip(1)
                    }
                },
            },
    {
        let ghost s = self.inner.script();
        if self.remaining == 0 || buf.len() == 0 {
            assert(s.skip(0) =~= s);
            assert(buf@.take(0) =~= run_bytes(s, 0));
            return Ok(0);
        }
        let want: usize = if (buf.len() as u64) < self.remaining {
            buf.len()
        } else {
            self.remaining as usize
        };
        let (front, _) = buf.split_at_mut(want);
        let n = match self.inner.read(front) {
            Ok(n) => n,
            Err(e) => return Err(e),
        };
        if n == 0 {
            assert(s.skip(0) =~= s);
            return Err(
                IoError::new(
                    ErrorKind::UnexpectedEof,
                    "request body shorter than content-length",
                ),
            );
        }
        proof {
            let got = front@;
            assert forall|i: int| 0 <= i < n implies (#[trigger] s[i]) is Ok && run_bytes(
                s,
                n as int,
            )[i] == got[i] by {
                assert(s[i] == Ok::<u8, Fault>(got[i]));
            }
            assert(got.take(n as int) =~= run_bytes(s, n as int));
        }
        self.remaining = self.remaining - n as u64;
        assert(buf@.take(n as int) =~= run_bytes(s, n as int));
        Ok(n)
    }
}

/// Drains what is left of a request body, up to a bound: closing with unread
/// data would reset the connection and could destroy the response that the
/// peer is about to read. Tells how much was drained.
pub fn drain_body<R: Source>(body: &mut R) -> (r: u64)
    ensures
        r < DRAIN_LIMIT + 8192,
        ({
            let s = old(body).script();
            &&& r <= s.len()
            &&& good_run(s, r as int)
            &&& final(body).script() == if r < DRAIN_LIMIT && r < s.len() {
                s.skip(r + 1)
            } else {
                s.skip(r as int)
            }
            &&& r < DRAIN_LIMIT && r < s.len() ==> s[r as int] is Err
        }),
{
    let ghost s = body.script();
    let mut buf: Vec<u8> = vec![0u8; 8192];
    let mut got: u64 = 0;
    assert(s.skip(0) =~= s);
    while got < DRAIN_LIMIT
        invariant
            s == old(body).script(),
            buf@.len() == 8192,
            got < DRAIN_LIMIT + 8192,
            got <= s.len(),
            good_run(s, got as int),
            body.script() == s.skip(got as int),
        decreases s.len() - got,
    {
        match body.read(buf.as_mut_slice()) {
            Ok(n) => {
                if n == 0 {
                    return got;
                }
                proof {
                    lemma_run_extend(s, got as int, n as int, buf@.take(n as int));
                }
                got = got + n as u64;
            },
            Err(_) => {
                assert(s.skip(got as int)[0] == s[got as int]);
                assert(s.skip(got as int).skip(1) =~= s.skip(got + 1));
                return got;
            },
        }
    }
    got
}

} // verus!
