//! The built-in transport's part that needs no socket: where a url points,
//! what a request and a response head say, how a body is framed, and how bytes
//! are written to a peer that may stall.
use crate::cancel::check_flag;
use crate::copy::{faults_with, is_front, Cancellable};
use crate::error::StorageError;
use crate::io::{good_run, run_bytes, ErrorKind, Fault, IoError, Script, Source};
use crate::stream::{fault_is_timeout, Clock};
use crate::text;
use crate::text::{
    debug_quoted, decimal, index_of, lower, parsed, split_first, starts, words,
};
use crate::time::{elapsed, Span};
use crate::wire::{
    chunk_bytes, final_chunk, header, header_seq, header_value, is_timeout, HeaderSeq,
};
use crate::wire_laws::{encoded, joined};
use vstd::prelude::*;
use vstd::utf8::encode_utf8;

verus! {

/// The outcome of one read of a response body.
#[derive(Clone, Copy, Debug, PartialEq, Eq, Structural)]
pub enum BodyRead {
    /// So many decoded body bytes (at least one) were written to the buffer.
    Bytes(usize),
    /// No bytes right now, but the connection is believed alive: an idle tick
    /// on a long-lived body.
    Idle,
    /// The body is complete.
    Eof,
}

/// What a read of the connection means for the body. A quiet long-lived body
/// is idle, not stalled; a quiet body of any other kind timed out.
pub fn body_outcome(read: Result<usize, IoError>, long_lived: bool) -> (r: Result<
    BodyRead,
    IoError,
>)
    ensures
        match read {
            Ok(n) => r == Ok::<BodyRead, IoError>(
                if n == 0 {
                    BodyRead::Eof
                } else {
                    BodyRead::Bytes(n)
                },
            ),
            Err(e) => if fault_is_timeout(e@) && long_lived {
                r == Ok::<BodyRead, IoError>(BodyRead::Idle)
            } else {
                r == Err::<BodyRead, IoError>(e)
            },
        },
{
    match read {
        Ok(n) => if n == 0 {
            Ok(BodyRead::Eof)
        } else {
            Ok(BodyRead::Bytes(n))
        },
        Err(e) => if is_timeout(&e) && long_lived {
            Ok(BodyRead::Idle)
        } else {
            Err(e)
        },
    }
}

/// A body read as a plain read: an idle tick looks like a read timeout, the
/// end of the body like the end of a stream.
pub fn read_outcome(read: Result<BodyRead, IoError>) -> (r: Result<usize, IoError>)
    ensures
        match read {
            Ok(BodyRead::Bytes(n)) => r == Ok::<usize, IoError>(n),
            Ok(BodyRead::Eof) => r == Ok::<usize, IoError>(0),
            Ok(BodyRead::Idle) => r matches Err(e) && e@ == (Fault {
                kind: ErrorKind::WouldBlock,
                message: "idle tick"@,
            }),
            Err(e) => r == Err::<usize, IoError>(e),
        },
{
    match read {
        Ok(BodyRead::Bytes(n)) => Ok(n),
        Ok(BodyRead::Eof) => Ok(0),
        Ok(BodyRead::Idle) => Err(IoError::new(ErrorKind::WouldBlock, "idle tick")),
        Err(e) => Err(e),
    }
}

/// The default transport's settings: one connection per request, plain
/// `http://` only.
#[derive(Clone, Copy, Debug, PartialEq, Eq, Structural)]
pub struct StdNetTransport {
    /// Connect timeout, per resolved address.
    pub connect_timeout: Span,
    /// Read timeout for bodies that are not long-lived, and the cumulative
    /// zero-progress budget for writes.
    pub io_timeout: Span,
}

impl StdNetTransport {
    pub fn new(connect_timeout: Span, io_timeout: Span) -> (r: StdNetTransport)
        ensures
            r == (StdNetTransport { connect_timeout, io_timeout }),
    {
        StdNetTransport { connect_timeout, io_timeout }
    }

    /// The write timeout of a connection: each expiry is one look at the
    /// cancellation, two seconds at most.
    pub fn write_tick(&self) -> (r: Span)
        ensures
            r.nanos == if self.io_timeout.nanos <= 2_000_000_000 {
                self.io_timeout.nanos as int
            } else {
                2_000_000_000
            },
    {
        self.io_timeout.shorter(Span::from_secs(2))
    }
}

/// What is said when no resolved address could be connected to: the last
/// failure, if an address was tried at all.
pub fn connect_failure(host: &str, port: u16, last: Option<IoError>) -> (r: StorageError)
    ensures
        r matches StorageError::Unavailable(m) && m@ == match last {
            Some(e) => "connect "@ + host@ + ":"@ + decimal(port as int) + ": "@ + e@.message,
            None => "no addresses for "@ + host@ + ":"@ + decimal(port as int),
        },
{
    match last {
        Some(e) => {
            let mut m = crate::error::join("connect ", host);
            m.append(":");
            m.append(text::decimal_text(port as u64).as_str());
            m.append(": ");
            m.append(e.message.as_str());
            StorageError::Unavailable(m)
        },
        None => {
            let mut m = crate::error::join("no addresses for ", host);
            m.append(":");
            m.append(text::decimal_text(port as u64).as_str());
            StorageError::Unavailable(m)
        },
    }
}

// ---------------------------------------------------------------------------
// Urls

/// Where a url points: host, port and request target.
pub struct UrlParts {
    pub host: Seq<char>,
    pub port: int,
    pub target: Seq<char>,
}

/// Where `c` last stands in `s`; -1 if it does not.
pub open spec fn last_index_of(s: Seq<char>, c: char) -> int
    decreases s.len(),
{
    if s.len() == 0 {
        -1
    } else if s.last() == c {
        s.len() - 1
    } else {
        last_index_of(s.drop_last(), c)
    }
}

/// The host and port that an authority states; port 80 if it states none.
pub open spec fn host_port(authority: Seq<char>) -> Result<(Seq<char>, int), Seq<char>> {
    if authority.len() > 0 && authority[0] == '[' {
        match split_first(authority.skip(1), ']') {
            None => Err("bad ipv6 authority "@ + debug_quoted(authority)),
            Some((host, rest)) => if rest.len() == 0 {
                Ok((host, 80))
            } else if rest[0] == ':' && parsed(rest.skip(1), 10, u16::MAX as int) is Some {
                Ok((host, parsed(rest.skip(1), 10, u16::MAX as int)->0))
            } else {
                Err("bad port in "@ + debug_quoted(authority))
            },
        }
    } else {
        let i = last_index_of(authority, ':');
        if i < 0 {
            Ok((authority, 80))
        } else {
            match parsed(authority.skip(i + 1), 10, u16::MAX as int) {
                Some(port) => Ok((authority.take(i), port)),
                None => Err("bad port in "@ + debug_quoted(authority)),
            }
        }
    }
}

/// Where an absolute url points, or what is wrong with it.
pub open spec fn url_parts(url: Seq<char>) -> Result<UrlParts, Seq<char>> {
    if !starts(url, "http://"@) {
        if starts(url, "https://"@) {
            Err(
                "https is not supported by the built-in transport; terminate TLS with a reverse proxy, or inject a transport that owns TLS"@,
            )
        } else {
            Err("invalid liters url "@ + debug_quoted(url) + ": expected http://host:port[/path]"@)
        }
    } else {
        let rest = url.skip("http://"@.len() as int);
        let i = index_of(rest, '/');
        match host_port(rest.take(i)) {
            Err(m) => Err(m),
            Ok((host, port)) => if host.len() == 0 {
                Err("missing host in url "@ + debug_quoted(url))
            } else {
                Ok(
                    UrlParts {
                        host,
                        port,
                        target: if i < rest.len() {
                            rest.skip(i)
                        } else {
                            "/"@
                        },
                    },
                )
            },
        }
    }
}

fn find_last(cs: &[char], c: char) -> (r: Option<usize>)
    ensures
        match r {
            Some(i) => i == last_index_of(cs@, c) && i < cs@.len(),
            None => last_index_of(cs@, c) == -1,
        },
{
    let mut n: usize = cs.len();
    assert(cs@.take(n as int) =~= cs@);
    while n > 0
        invariant
            n <= cs@.len(),
            last_index_of(cs@.take(n as int), c) == last_index_of(cs@, c),
        decreases n,
    {
        let ghost t = cs@.take(n as int);
        assert(t.last() == cs@[n - 1]);
        assert(t.drop_last() =~= cs@.take(n - 1));
        if cs[n - 1] == c {
            return Some(n - 1);
        }
        n -= 1;
    }
    None
}

fn bad_authority(what: &str, authority: &[char]) -> (r: StorageError)
    ensures
        r matches StorageError::Other(m) && m@ == what@ + debug_quoted(authority@),
{
    let a = text::string_of(authority);
    StorageError::Other(crate::error::join(what, text::quoted(a.as_str()).as_str()))
}

fn split_authority(authority: &[char]) -> (r: Result<(String, u16), StorageError>)
    ensures
        match host_port(authority@) {
            Ok((host, port)) => r matches Ok(p) && p.0@ == host && p.1 == port,
            Err(m) => r matches Err(StorageError::Other(t)) && t@ == m,
        },
{
    if authority.len() > 0 && authority[0] == '[' {
        let v6 = text::part(authority, 1, authority.len());
        assert(v6@ =~= authority@.skip(1));
        match text::split_at_first(v6, ']') {
            None => Err(bad_authority("bad ipv6 authority ", authority)),
            Some((host, rest)) => {
                if rest.len() == 0 {
                    return Ok((text::string_of(host), 80));
                }
                if rest[0] == ':' {
                    let digits = text::part(rest, 1, rest.len());
                    assert(digits@ =~= rest@.skip(1));
                    if let Some(port) = text::parse_number(digits, 10, u16::MAX as u64) {
                        return Ok((text::string_of(host), port as u16));
                    }
                }
                Err(bad_authority("bad port in ", authority))
            },
        }
    } else {
        match find_last(authority, ':') {
            None => Ok((text::string_of(authority), 80)),
            Some(i) => {
                let host = text::part(authority, 0, i);
                let digits = text::part(authority, i + 1, authority.len());
                assert(host@ =~= authority@.take(i as int));
                assert(digits@ =~= authority@.skip(i + 1));
                match text::parse_number(digits, 10, u16::MAX as u64) {
                    Some(port) => Ok((text::string_of(host), port as u16)),
                    None => Err(bad_authority("bad port in ", authority)),
                }
            },
        }
    }
}

/// Splits an absolute `http://host[:port]/path?query` into the host, the port
/// and the request target (at least `/`). Supports bracketed IPv6 hosts.
/// `https` is rejected: there is no TLS here.
pub fn parse_http_url(url: &str) -> (r: Result<(String, u16, String), StorageError>)
    ensures
        match url_parts(url@) {
            Ok(p) => r matches Ok(t) && t.0@ == p.host && t.1 == p.port && t.2@ == p.target,
            Err(m) => r matches Err(StorageError::Other(t)) && t@ == m,
        },
{
    let cs = text::chars_of(url);
    let http = text::chars_of("http://");
    let rest = match text::after_prefix(&cs, &http) {
        Some(rest) => rest,
        None => {
            let https = text::chars_of("https://");
            if text::after_prefix(&cs, &https).is_some() {
                return Err(
                    StorageError::Other(
                        "https is not supported by the built-in transport; terminate TLS with a reverse proxy, or inject a transport that owns TLS".to_owned(),
                    ),
                );
            }
            let mut m = crate::error::join("invalid liters url ", text::quoted(url).as_str());
            m.append(": expected http://host:port[/path]");
            return Err(StorageError::Other(m));
        },
    };
    let i = text::find(rest, '/');
    let authority = text::part(rest, 0, i);
    assert(authority@ =~= rest@.take(i as int));
    let (host, port) = match split_authority(authority) {
        Ok(p) => p,
        Err(e) => return Err(e),
    };
    let host_chars = text::chars_of(host.as_str());
    if host_chars.len() == 0 {
        let m = crate::error::join("missing host in url ", text::quoted(url).as_str());
        return Err(StorageError::Other(m));
    }
    let target = if i < rest.len() {
        let t = text::part(rest, i, rest.len());
        assert(t@ =~= rest@.skip(i as int));
        text::string_of(t)
    } else {
        "/".to_owned()
    };
    Ok((host, port, target))
}

// ---------------------------------------------------------------------------
// Heads

/// Header lines, each with its line end.
pub open spec fn header_block(h: HeaderSeq) -> Seq<char>
    decreases h.len(),
{
    if h.len() == 0 {
        Seq::empty()
    } else {
        header_block(h.drop_last()) + h.last().0 + ": "@ + h.last().1 + "\r\n"@
    }
}

/// Appends header lines.
pub fn append_headers(out: &mut String, headers: &[(String, String)])
    ensures
        final(out)@ == old(out)@ + header_block(header_seq(headers@)),
{
    let ghost h = header_seq(headers@);
    let ghost start = out@;
    let mut i: usize = 0;
    assert(h.take(0) =~= Seq::empty());
    assert(start + Seq::<char>::empty() =~= start);
    while i < headers.len()
        invariant
            h == header_seq(headers@),
            i <= headers@.len(),
            out@ == start + header_block(h.take(i as int)),
        decreases headers@.len() - i,
    {
        out.append(headers[i].0.as_str());
        out.append(": ");
        out.append(headers[i].1.as_str());
        out.append("\r\n");
        proof {
            let before = h.take(i as int);
            let after = h.take(i + 1);
            assert(after.drop_last() =~= before);
            assert(after.last() == h[i as int]);
            assert(start + header_block(before) + h[i as int].0 + ": "@ + h[i as int].1 + "\r\n"@
                =~= start + header_block(after));
        }
        i += 1;
    }
    assert(h.take(i as int) =~= h);
}

/// The head of a request.
pub open spec fn request_text(
    method: Seq<char>,
    target: Seq<char>,
    host: Seq<char>,
    port: u16,
    h: HeaderSeq,
    has_body: bool,
) -> Seq<char> {
    method + " "@ + target + " HTTP/1.1\r\nhost: "@ + host + ":"@ + decimal(port as int) + "\r\n"@
        + header_block(h) + (if has_body {
        "transfer-encoding: chunked\r\nconnection: close\r\n\r\n"@
    } else {
        "connection: close\r\n\r\n"@
    })
}

/// The head of a request. A body goes out in chunks.
pub fn request_head(
    method: &str,
    target: &str,
    host: &str,
    port: u16,
    headers: &[(String, String)],
    has_body: bool,
) -> (r: String)
    ensures
        r@ == request_text(method@, target@, host@, port, header_seq(headers@), has_body),
{
    let mut s = crate::error::join(method, " ");
    s.append(target);
    s.append(" HTTP/1.1\r\nhost: ");
    s.append(host);
    s.append(":");
    s.append(text::decimal_text(port as u64).as_str());
    s.append("\r\n");
    append_headers(&mut s, headers);
    if has_body {
        s.append("transfer-encoding: chunked\r\nconnection: close\r\n\r\n");
    } else {
        s.append("connection: close\r\n\r\n");
    }
    s
}

/// The status that a status line states: its second word.
pub open spec fn stated_status(line: Seq<char>) -> Option<int> {
    let w = words(line);
    if w.len() >= 2 {
        parsed(w[1], 10, u16::MAX as int)
    } else {
        None
    }
}

/// Reads the status off a status line.
pub fn parse_status(line: &str) -> (r: Result<u16, StorageError>)
    ensures
        match stated_status(line@) {
            Some(n) => r == Ok::<u16, StorageError>(n as u16),
            None => r matches Err(StorageError::Other(m)) && m@ == "bad status line "@
                + debug_quoted(line@),
        },
{
    let cs = text::chars_of(line);
    let w = text::split_words(&cs);
    assert(text::views(w@).len() == w@.len());
    if w.len() >= 2 {
        assert(text::views(w@)[1] == w@[1]@);
        if let Some(n) = text::parse_number(w[1], 10, u16::MAX as u64) {
            return Ok(n as u16);
        }
    }
    let m = crate::error::join("bad status line ", text::quoted(line).as_str());
    Err(StorageError::Other(m))
}

/// How a body is delimited on the wire.
#[derive(Clone, Copy, Debug, PartialEq, Eq, Structural)]
pub enum Framing {
    Chunked,
    Length(u64),
    /// The connection's end is the body's.
    UntilClose,
}

/// Whether a head says that the body comes in chunks.
pub open spec fn says_chunked(h: HeaderSeq) -> bool {
    match header_value(h, "transfer-encoding"@) {
        Some(v) => lower(v) == "chunked"@,
        None => false,
    }
}

/// The length that a head states, if it states one.
pub open spec fn stated_length(h: HeaderSeq) -> Option<int> {
    match header_value(h, "content-length"@) {
        Some(v) => parsed(v, 10, u64::MAX as int),
        None => None,
    }
}

/// How the body after a head is delimited.
pub open spec fn framing_of(h: HeaderSeq) -> Framing {
    if says_chunked(h) {
        Framing::Chunked
    } else {
        match stated_length(h) {
            Some(n) => Framing::Length(n as u64),
            None => Framing::UntilClose,
        }
    }
}

/// How the body after a head is delimited: in chunks, by a length, or by the
/// connection's end.
pub fn body_framing(headers: &[(String, String)]) -> (r: Framing)
    ensures
        r == framing_of(header_seq(headers@)),
{
    if let Some(v) = header(headers, "transfer-encoding") {
        let cs = text::chars_of(v);
        let low = text::lower_chars(&cs);
        let chunked = text::chars_of("chunked");
        if text::same_chars(&low, &chunked) {
            return Framing::Chunked;
        }
    }
    if let Some(v) = header(headers, "content-length") {
        let cs = text::chars_of(v);
        if let Some(n) = text::parse_number(&cs, 10, u64::MAX) {
            return Framing::Length(n);
        }
    }
    Framing::UntilClose
}

// ---------------------------------------------------------------------------
// Writing to a peer that may stall

/// Something bytes are written to piece by piece. A write that fails took
/// nothing; only so many failures are still to come. Code that is not verified
/// may leave the model out.
pub trait Connection {
    open spec fn written(&self) -> Seq<u8> {
        Seq::empty()
    }

    open spec fn failures_left(&self) -> nat {
        0
    }

    /// Whether a write from here on may fail in this way.
    open spec fn may_fail(&self, f: Fault) -> bool {
        true
    }

    /// Whether every write from here on takes something.
    open spec fn eager(&self) -> bool {
        false
    }

    /// Whether every write from here on takes something, or fails in a way
    /// that is worth another try.
    open spec fn patient(&self) -> bool {
        false
    }

    /// Writes some of `data` and tells how much.
    fn write(&mut self, data: &[u8]) -> (r: Result<usize, IoError>)
        ensures
            match r {
                Ok(n) => {
                    &&& n <= data@.len()
                    &&& final(self).written() == old(self).written() + data@.take(n as int)
                    &&& final(self).failures_left() <= old(self).failures_left()
                },
                Err(e) => {
                    &&& final(self).written() == old(self).written()
                    &&& final(self).failures_left() < old(self).failures_left()
                    &&& old(self).may_fail(e@)
                },
            },
            forall|f: Fault| #[trigger] final(self).may_fail(f) ==> old(self).may_fail(f),
            old(self).eager() ==> {
                &&& final(self).eager()
                &&& r matches Ok(n) && (data@.len() > 0 ==> n > 0)
            },
            old(self).patient() ==> {
                &&& final(self).patient()
                &&& match r {
                    Ok(n) => data@.len() > 0 ==> n > 0,
                    Err(e) => fault_is_passing(e@),
                }
            },
    ;
}

/// Whether a failed write is worth another try: it timed out, or was
/// interrupted.
pub open spec fn fault_is_passing(f: Fault) -> bool {
    fault_is_timeout(f) || f.kind == ErrorKind::Interrupted
}

impl Connection for Vec<u8> {
    open spec fn written(&self) -> Seq<u8> {
        self@
    }

    open spec fn failures_left(&self) -> nat {
        0
    }

    open spec fn may_fail(&self, f: Fault) -> bool {
        false
    }

    open spec fn eager(&self) -> bool {
        true
    }

    open spec fn patient(&self) -> bool {
        true
    }

    fn write(&mut self, data: &[u8]) -> (r: Result<usize, IoError>) {
        self.extend_from_slice(data);
        assert(data@.take(data@.len() as int) =~= data@);
        assert(self@ =~= old(self)@ + data@);
        Ok(data.len())
    }
}

/// What is said of a connection that takes nothing for too long.
pub open spec fn stall_text(io_timeout: Span) -> Seq<char> {
    "write stalled: no progress for "@ + decimal(io_timeout.nanos as int / 1_000_000_000) + "s"@
}

/// What is said of a connection that fails.
pub open spec fn write_text(why: Seq<char>) -> Seq<char> {
    "write: "@ + why
}

/// What is done about a failed write.
#[derive(Debug)]
pub enum WriteVerdict {
    /// Offer the same bytes again.
    Retry,
    Fail(StorageError),
}

/// Judges a failed write when nothing was taken for `silent`: a timeout is
/// tried again until the time is up, an interruption always, and any other
/// failure ends the write; as a cancellation, if one landed meanwhile.
pub fn judge_write(e: &IoError, silent: Span, io_timeout: Span, cancelled: bool) -> (r: WriteVerdict)
    requires
        io_timeout.nanos as int / 1_000_000_000 <= u64::MAX,
    ensures
        if fault_is_timeout(e@) {
            if silent.nanos >= io_timeout.nanos {
                r matches WriteVerdict::Fail(StorageError::Unavailable(m)) && m@ == stall_text(
                    io_timeout,
                )
            } else {
                r is Retry
            }
        } else if e@.kind == ErrorKind::Interrupted {
            r is Retry
        } else if cancelled {
            r == WriteVerdict::Fail(StorageError::Cancelled)
        } else {
            r matches WriteVerdict::Fail(StorageError::Unavailable(m)) && m@ == write_text(
                e@.message,
            )
        },
{
    if is_timeout(e) {
        if silent.nanos >= io_timeout.nanos {
            let secs: u128 = io_timeout.nanos / 1_000_000_000;
            let mut m = crate::error::join(
                "write stalled: no progress for ",
                text::decimal_text(secs as u64).as_str(),
            );
            m.append("s");
            return WriteVerdict::Fail(StorageError::Unavailable(m));
        }
        WriteVerdict::Retry
    } else if e.kind == ErrorKind::Interrupted {
        WriteVerdict::Retry
    } else {
        match check_flag(cancelled) {
            Ok(()) => {},
            Err(e) => return WriteVerdict::Fail(e),
        }
        let m = crate::error::join("write: ", e.message.as_str());
        WriteVerdict::Fail(StorageError::Unavailable(m))
    }
}

/// Whether a connection that is given time goes on taking bytes until all are
/// written: its failures pass, and no time passes while they do.
pub open spec fn gets_through<N: Connection>(
    conn: N,
    stopped: Option<u128>,
    io_timeout: Span,
) -> bool {
    conn.eager() || conn.patient() && stopped is Some && io_timeout.nanos > 0
}

/// Whether a write to `conn` can fail with this text.
pub open spec fn write_fails<N: Connection>(
    conn: N,
    stopped: Option<u128>,
    io_timeout: Span,
    m: Seq<char>,
) -> bool {
    ||| m == "socket write returned 0"@ && !conn.patient()
    ||| exists|f: Fault| #[trigger]
        conn.may_fail(f) && !fault_is_passing(f) && !conn.patient() && m == write_text(f.message)
    ||| m == stall_text(io_timeout) && (stopped is None || io_timeout.nanos == 0) && exists|
        f: Fault,
    | #[trigger]
        conn.may_fail(f) && fault_is_timeout(f)
}

/// Writes all of `buf`, looking at the cancellation before every write and
/// giving up after `io_timeout` without any progress. A write that fails took
/// nothing, so the same bytes can be offered again; any progress resets the
/// budget, so a slow but flowing uplink is never killed. Whatever happens,
/// what was written is a front part of `buf`, and not all of it if the write
/// fails.
pub fn write_full<N: Connection, C: Cancellable, K: Clock>(
    conn: &mut N,
    buf: &[u8],
    cancel: &C,
    clock: &K,
    io_timeout: Span,
) -> (r: Result<(), StorageError>)
    requires
        io_timeout.nanos as int / 1_000_000_000 <= u64::MAX,
    ensures
        final(conn).failures_left() <= old(conn).failures_left(),
        forall|f: Fault| #[trigger] final(conn).may_fail(f) ==> old(conn).may_fail(f),
        old(conn).eager() ==> final(conn).eager(),
        old(conn).patient() ==> final(conn).patient(),
        r is Ok ==> final(conn).written() == old(conn).written() + buf@,
        r is Err ==> exists|k: int|
            0 <= k < buf@.len() && final(conn).written() == old(conn).written()
                + #[trigger] buf@.take(k),
        match r {
            Ok(_) => true,
            Err(StorageError::Cancelled) => !cancel.quiet(),
            Err(StorageError::Unavailable(m)) => {
                &&& !gets_through(*old(conn), clock.stopped(), io_timeout)
                &&& write_fails(*old(conn), clock.stopped(), io_timeout, m@)
            },
            Err(_) => false,
        },
        buf@.len() == 0 ==> r is Ok,
        cancel.cancelled() && buf@.len() > 0 ==> r == Err::<(), StorageError>(
            StorageError::Cancelled,
        ),
{
    let ghost w0 = conn.written();
    let ghost f0 = conn.failures_left();
    let mut pos: usize = 0;
    let mut progress = clock.now();
    assert(w0 + buf@.take(0) =~= w0);
    while pos < buf.len()
        invariant
            io_timeout.nanos as int / 1_000_000_000 <= u64::MAX,
            w0 == old(conn).written(),
            f0 == old(conn).failures_left(),
            pos <= buf@.len(),
            conn.written() == w0 + buf@.take(pos as int),
            conn.failures_left() <= f0,
            forall|f: Fault| #[trigger] conn.may_fail(f) ==> old(conn).may_fail(f),
            old(conn).eager() ==> conn.eager(),
            old(conn).patient() ==> conn.patient(),
            clock.stopped() matches Some(t) ==> progress == t,
            cancel.cancelled() ==> pos == 0,
        decreases buf@.len() - pos, conn.failures_left(),
    {
        match check_flag(cancel.is_cancelled()) {
            Ok(()) => {},
            Err(e) => return Err(e),
        }
        let rest = vstd::slice::slice_subrange(buf, pos, buf.len());
        match conn.write(rest) {
            Ok(n) => {
                if n == 0 {
                    assert(rest@.take(0) =~= Seq::<u8>::empty());
                    assert(w0 + buf@.take(pos as int) + Seq::<u8>::empty() =~= w0 + buf@.take(
                        pos as int,
                    ));
                    return Err(StorageError::Unavailable("socket write returned 0".to_owned()));
                }
                proof {
                    assert(buf@.take(pos as int) + rest@.take(n as int) =~= buf@.take(pos + n));
                    assert(w0 + buf@.take(pos as int) + rest@.take(n as int) =~= w0 + buf@.take(
                        pos + n,
                    ));
                }
                pos = pos + n;
                progress = clock.now();
            },
            Err(e) => {
                assert(old(conn).may_fail(e@));
                let silent = elapsed(progress, clock.now());
                match judge_write(&e, silent, io_timeout, cancel.is_cancelled()) {
                    WriteVerdict::Retry => {},
                    WriteVerdict::Fail(e) => return Err(e),
                }
            },
        }
    }
    assert(buf@.take(pos as int) =~= buf@);
    Ok(())
}

/// Whether what was written grew by whole chunks of a front part of what a
/// script yields, without a terminator.
pub open spec fn grew_by_chunks(before: Seq<u8>, s: Script, after: Seq<u8>) -> bool {
    exists|chunks: Seq<Seq<u8>>|
        is_front(s, joined(chunks)) && after == before + #[trigger] chunk_run(chunks)
}

/// Whether what was written grew by a cut upload: a part of the head and of a
/// chunked front part of what a script yields, in which at least the end of
/// the terminator is missing.
pub open spec fn grew_by_cut(before: Seq<u8>, head: Seq<u8>, s: Script, after: Seq<u8>) -> bool {
    exists|chunks: Seq<Seq<u8>>, k: int|
        {
            &&& is_front(s, joined(chunks))
            &&& 0 <= k < (head + encoded(chunks)).len()
            &&& after == before + #[trigger] (head + encoded(chunks)).take(k)
        }
}

proof fn lemma_cut(
    before: Seq<u8>,
    head: Seq<u8>,
    s: Script,
    chunks: Seq<Seq<u8>>,
    sent: Seq<u8>,
    left: Seq<u8>,
)
    requires
        is_front(s, joined(chunks)),
        head + encoded(chunks) == sent + left,
        left.len() > 0,
    ensures
        grew_by_cut(before, head, s, before + sent),
{
    let whole = head + encoded(chunks);
    assert(whole.take(sent.len() as int) =~= sent);
    assert(before + whole.take(sent.len() as int) == before + sent);
}

/// Sends a request with a body: the head, the body in chunks, and the
/// terminator. Failures of the body's source are local; a cancellation is
/// noticed before every chunk. A body that fails stays without its
/// terminator, so that the peer never takes it for a whole one.
#[verifier::rlimit(60)]
pub fn upload<R: Source, N: Connection, C: Cancellable, K: Clock>(
    conn: &mut N,
    head: &str,
    body: &mut R,
    cancel: &C,
    clock: &K,
    io_timeout: Span,
) -> (r: Result<(), StorageError>)
    requires
        io_timeout.nanos as int / 1_000_000_000 <= u64::MAX,
    ensures
        match r {
            Ok(_) => {
                let s = old(body).script();
                &&& good_run(s, s.len() as int)
                &&& exists|chunks: Seq<Seq<u8>>|
                    {
                        &&& joined(chunks) == run_bytes(s, s.len() as int)
                        &&& final(conn).written() == old(conn).written() + encode_utf8(head@)
                            + #[trigger] encoded(chunks)
                    }
            },
            Err(StorageError::Io(e)) => {
                &&& faults_with(old(body).script(), e@)
                &&& grew_by_chunks(
                    old(conn).written() + encode_utf8(head@),
                    old(body).script(),
                    final(conn).written(),
                )
            },
            Err(StorageError::Cancelled) => !cancel.quiet(),
            Err(StorageError::Unavailable(m)) => {
                &&& !gets_through(*old(conn), clock.stopped(), io_timeout)
                &&& write_fails(*old(conn), clock.stopped(), io_timeout, m@)
            },
            Err(_) => false,
        },
        r is Err ==> grew_by_cut(
            old(conn).written(),
            encode_utf8(head@),
            old(body).script(),
            final(conn).written(),
        ),
        cancel.cancelled() ==> r == Err::<(), StorageError>(StorageError::Cancelled),
{
    let ghost s = body.script();
    let ghost w0 = conn.written();
    let ghost h = encode_utf8(head@);
    let head_bytes = head.as_bytes_vec();
    proof {
        assert(run_bytes(s, 0) =~= Seq::<u8>::empty());
        assert(joined(Seq::<Seq<u8>>::empty()) == run_bytes(s, 0));
        assert(is_front(s, joined(Seq::<Seq<u8>>::empty())));
    }
    match write_full(conn, &head_bytes, cancel, clock, io_timeout) {
        Ok(()) => {},
        Err(e) => {
            proof {
                let k = choose|k: int|
                    0 <= k < h.len() && conn.written() == w0 + #[trigger] h.take(k);
                let none = Seq::<Seq<u8>>::empty();
                assert(h + encoded(none) =~= h.take(k) + (h.skip(k) + encoded(none)));
                lemma_cut(w0, h, s, none, h.take(k), h.skip(k) + encoded(none));
            }
            return Err(e);
        },
    }
    let ghost w1 = conn.written();
    let mut buf: Vec<u8> = vec![0u8; 65536];
    let ghost mut chunks: Seq<Seq<u8>> = Seq::empty();
    let ghost mut len: int = 0;
    proof {
        assert(s.skip(0) =~= s);
        assert(w1 + chunk_run(chunks) =~= w1);
    }
    loop
        invariant_except_break
            body.script() == s.skip(len),
        invariant
            io_timeout.nanos as int / 1_000_000_000 <= u64::MAX,
            s == old(body).script(),
            w0 == old(conn).written(),
            h == encode_utf8(head@),
            w1 == w0 + h,
            buf@.len() == 65536,
            0 <= len <= s.len(),
            good_run(s, len),
            joined(chunks) == run_bytes(s, len),
            conn.written() == w1 + chunk_run(chunks),
            forall|f: Fault| #[trigger] conn.may_fail(f) ==> old(conn).may_fail(f),
            old(conn).eager() ==> conn.eager(),
            old(conn).patient() ==> conn.patient(),
        ensures
            len == s.len(),
            !cancel.cancelled(),
        decreases s.len() - len,
    {
        proof {
            lemma_encoded_run(chunks);
            assert(is_front(s, joined(chunks)));
            assert(grew_by_chunks(w1, s, conn.written()));
            assert(h + encoded(chunks) =~= (h + chunk_run(chunks)) + final_chunk());
            assert(w0 + (h + chunk_run(chunks)) =~= w1 + chunk_run(chunks));
            lemma_cut(w0, h, s, chunks, h + chunk_run(chunks), final_chunk());
        }
        match check_flag(cancel.is_cancelled()) {
            Ok(()) => {},
            Err(e) => return Err(e),
        }
        let n = match body.read(buf.as_mut_slice()) {
            Ok(n) => n,
            Err(e) => {
                assert(s.skip(len)[0] == s[len]);
                return Err(StorageError::Io(e));
            },
        };
        if n == 0 {
            break;
        }
        let data = vstd::slice::slice_subrange(&buf, 0, n);
        let frame = chunk_frame(data);
        let ghost before = chunks;
        proof {
            crate::copy::lemma_run_extend(s, len, n as int, data@);
            chunks = chunks.push(data@);
            lemma_chunk_run_push(before, data@);
            len = len + n;
            lemma_encoded_run(chunks);
            assert(is_front(s, joined(chunks)));
        }
        match write_full(conn, &frame, cancel, clock, io_timeout) {
            Ok(()) => {},
            Err(e) => {
                proof {
                    let k = choose|k: int|
                        0 <= k < frame@.len() && conn.written() == w1 + chunk_run(before)
                            + #[trigger] frame@.take(k);
                    let sent = h + chunk_run(before) + frame@.take(k);
                    let left = frame@.skip(k) + final_chunk();
                    assert(h + encoded(chunks) =~= sent + left);
                    assert(w0 + sent =~= w1 + chunk_run(before) + frame@.take(k));
                    lemma_cut(w0, h, s, chunks, sent, left);
                }
                return Err(e);
            },
        }
        assert(w1 + chunk_run(before) + chunk_bytes(data@) =~= w1 + chunk_run(chunks));
    }
    let tail = last_chunk();
    proof {
        lemma_encoded_run(chunks);
        assert(is_front(s, joined(chunks)));
    }
    match write_full(conn, &tail, cancel, clock, io_timeout) {
        Ok(()) => {},
        Err(e) => {
            proof {
                let k = choose|k: int|
                    0 <= k < tail@.len() && conn.written() == w1 + chunk_run(chunks)
                        + #[trigger] tail@.take(k);
                let sent = h + chunk_run(chunks) + tail@.take(k);
                assert(h + encoded(chunks) =~= sent + tail@.skip(k));
                assert(w0 + sent =~= w1 + chunk_run(chunks) + tail@.take(k));
                lemma_cut(w0, h, s, chunks, sent, tail@.skip(k));
            }
            return Err(e);
        },
    }
    assert(w1 + chunk_run(chunks) + final_chunk() =~= w1 + encoded(chunks));
    Ok(())
}

/// The terminator of a chunked body.
pub(crate) fn last_chunk() -> (r: Vec<u8>)
    ensures
        r@ == final_chunk(),
{
    let mut tail: Vec<u8> = Vec::new();
    tail.push(48);
    tail.push(13);
    tail.push(10);
    tail.push(13);
    tail.push(10);
    assert(tail@ =~= final_chunk());
    tail
}

/// One chunk, framed.
pub(crate) fn chunk_frame(data: &[u8]) -> (r: Vec<u8>)
    requires
        data@.len() > 0,
    ensures
        r@ == chunk_bytes(data@),
{
    let digits = text::write_number(data.len() as u64, 16);
    let mut out = crate::wire::ascii(&digits);
    out.push(13);
    out.push(10);
    out.extend_from_slice(data);
    out.push(13);
    out.push(10);
    assert(out@ =~= crate::wire::ascii_bytes(digits@) + crate::wire::crlf() + data@
        + crate::wire::crlf());
    out
}

/// The chunks one after the other, without the terminator.
pub open spec fn chunk_run(chunks: Seq<Seq<u8>>) -> Seq<u8>
    decreases chunks.len(),
{
    if chunks.len() == 0 {
        Seq::empty()
    } else {
        chunk_bytes(chunks[0]) + chunk_run(chunks.skip(1))
    }
}

pub(crate) proof fn lemma_chunk_run_push(chunks: Seq<Seq<u8>>, data: Seq<u8>)
    ensures
        chunk_run(chunks.push(data)) == chunk_run(chunks) + chunk_bytes(data),
        joined(chunks.push(data)) == joined(chunks) + data,
    decreases chunks.len(),
{
    let p = chunks.push(data);
    if chunks.len() == 0 {
        assert(p.skip(1) =~= Seq::<Seq<u8>>::empty());
        assert(chunk_run(p.skip(1)) =~= Seq::<u8>::empty());
        assert(joined(p.skip(1)) =~= Seq::<u8>::empty());
        assert(chunk_run(p) =~= chunk_run(chunks) + chunk_bytes(data));
        assert(joined(p) =~= joined(chunks) + data);
    } else {
        lemma_chunk_run_push(chunks.skip(1), data);
        assert(p.skip(1) =~= chunks.skip(1).push(data));
        assert(chunk_run(p) =~= chunk_run(chunks) + chunk_bytes(data));
        assert(joined(p) =~= joined(chunks) + data);
    }
}

pub(crate) proof fn lemma_encoded_run(chunks: Seq<Seq<u8>>)
    ensures
        encoded(chunks) == chunk_run(chunks) + final_chunk(),
    decreases chunks.len(),
{
    if chunks.len() == 0 {
        assert(encoded(chunks) =~= chunk_run(chunks) + final_chunk());
    } else {
        lemma_encoded_run(chunks.skip(1));
        assert(encoded(chunks) =~= chunk_run(chunks) + final_chunk());
    }
}

/// Whether a failed upload is worth a look at the response: the server may
/// have refused early and stopped reading, and its answer tells more than a
/// broken connection. A cancellation returns at once.
pub fn may_have_answered(e: &StorageError) -> (r: bool)
    ensures
        r == !(*e is Cancelled),
{
    match e {
        StorageError::Cancelled => false,
        _ => true,
    }
}

} // verus!
