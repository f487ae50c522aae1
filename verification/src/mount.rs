//! What the HTTP protocol does to one database's bucket: which request asks
//! for what, how it is answered, and when a pushed file is let in.
//!
//! Nothing here touches a socket or a bucket. The embedding program asks
//! [`MountOptions::route`] what a request wants, does that to the bucket, and
//! sends the [`Response`] that the outcome calls for.
use crate::error::{storage_text, StorageError};
use crate::listing::{listing_text, render_listing};
use crate::ltx;
use crate::ltx::{filename_of, txid_of, FileInfo, Txid};
use crate::text;
use crate::text::{lower, parsed, pieces, trimmed, without_leading, without_trailing};
use crate::time::Span;
use crate::wire::{header, header_seq, header_value, query_param, query_value, HeaderSeq};
use vstd::prelude::*;
use vstd::utf8::encode_utf8;

verus! {

/// The release of this library, as the version line tells it.
pub const VERSION: &'static str = "0.1.0";

/// Options of one mount.
#[derive(Clone, Debug)]
pub struct MountOptions {
    /// Accept pushed replication (`PUT`, `DELETE` and `DELETE /all`) written
    /// through to the backing client. An unauthenticated writable mount
    /// accepts `DELETE /all` from anyone who can reach it: set `auth_token`
    /// or keep it on a private interface.
    pub writable: bool,
    /// When set, every route requires `authorization: Bearer <token>`
    /// (case-insensitive scheme, exact token).
    pub auth_token: Option<String>,
    /// How long a writer lease is held after the owner's last accepted write
    /// before another writer may claim the bucket without a takeover header.
    pub lease_ttl: Span,
    /// How often a stream lists level 0 again when idle.
    pub poll_interval: Span,
    /// Keepalive cadence on a stream.
    pub ping_interval: Span,
}

impl Default for MountOptions {
    fn default() -> (r: MountOptions)
        ensures
            !r.writable,
            r.auth_token is None,
            r.lease_ttl.nanos == 24 * 60 * 60 * 1_000_000_000,
            r.poll_interval.nanos == 1_000_000_000,
            r.ping_interval.nanos == 15 * 1_000_000_000,
    {
        MountOptions {
            writable: false,
            auth_token: None,
            lease_ttl: Span::from_secs(24 * 60 * 60),
            poll_interval: Span::from_secs(1),
            ping_interval: Span::from_secs(15),
        }
    }
}

/// The response payload, unframed: the host applies HTTP transfer-encoding.
#[derive(Debug)]
pub enum Body {
    /// A complete in-memory body.
    Bytes(Vec<u8>),
    /// The bytes of the file that was opened. A read error mid-body means
    /// that the host must abort the connection, never send a short file.
    Reader,
    /// The live stream.
    Stream,
}

/// What a request is answered. The host adds transport framing.
#[derive(Debug)]
pub struct Response {
    pub status: u16,
    pub headers: Vec<(String, String)>,
    pub body: Body,
}

/// Whether `r` is a plain-text answer.
pub open spec fn replies(r: Response, status: u16, body: Seq<char>) -> bool {
    &&& r.status == status
    &&& header_seq(r.headers@) == seq![("content-type"@, "text/plain; charset=utf-8"@)]
    &&& r.body is Bytes
    &&& r.body->Bytes_0@ == encode_utf8(body)
}

/// A header list with one entry more.
fn push_header(h: &mut Vec<(String, String)>, name: &str, value: &str)
    ensures
        header_seq(final(h)@) == header_seq(old(h)@).push((name@, value@)),
{
    h.push((name.to_owned(), value.to_owned()));
    assert(header_seq(h@) =~= header_seq(old(h)@).push((name@, value@)));
}

impl Response {
    /// A plain-text response with an in-memory body.
    pub fn text(status: u16, body: &str) -> (r: Response)
        ensures
            replies(r, status, body@),
    {
        let mut headers: Vec<(String, String)> = Vec::new();
        assert(header_seq(headers@) =~= Seq::empty());
        push_header(&mut headers, "content-type", "text/plain; charset=utf-8");
        assert(header_seq(headers@) =~= seq![("content-type"@, "text/plain; charset=utf-8"@)]);
        Response { status, headers, body: Body::Bytes(body.as_bytes_vec()) }
    }

    /// A one-line error body, the shape every error path uses.
    pub fn error(status: u16, msg: &str) -> (r: Response)
        ensures
            replies(r, status, msg@ + "\n"@),
    {
        let line = crate::error::join(msg, "\n");
        Response::text(status, line.as_str())
    }

    /// An error body that names what failed and why.
    pub(crate) fn failure(status: u16, what: &str, why: &str) -> (r: Response)
        ensures
            replies(r, status, what@ + why@ + "\n"@),
    {
        let msg = crate::error::join(what, why);
        Response::error(status, msg.as_str())
    }
}

/// The version line of a mount's root.
pub open spec fn version_text() -> Seq<char> {
    "liters "@ + VERSION@ + "\n"@
}

/// The version line of a mount's root.
pub fn version_line() -> (r: String)
    ensures
        r@ == version_text(),
{
    let mut s = "liters ".to_owned();
    s.append(VERSION);
    s.append("\n");
    s
}

// ---------------------------------------------------------------------------
// Routing

/// What a request wants.
#[derive(Debug)]
pub enum Route {
    /// Nothing of the bucket: it is answered with this status and text.
    Text(u16, String),
    /// The listing of a level.
    List { level: u8, seek: Txid, use_metadata: bool },
    /// The bytes of a file.
    File { level: u8, min_txid: Txid, max_txid: Txid, offset: u64, size: u64 },
    /// The live stream from a transaction on.
    Stream { seek: Txid },
    /// To push a file.
    Put { level: u8, min_txid: Txid, max_txid: Txid },
    /// To delete a file.
    Delete { level: u8, min_txid: Txid, max_txid: Txid },
    /// To wipe the bucket.
    DeleteAll,
}

/// The mathematical value of a [`Route`].
pub enum RouteView {
    Text(u16, Seq<char>),
    List { level: u8, seek: Txid, use_metadata: bool },
    File { level: u8, min_txid: Txid, max_txid: Txid, offset: u64, size: u64 },
    Stream { seek: Txid },
    Put { level: u8, min_txid: Txid, max_txid: Txid },
    Delete { level: u8, min_txid: Txid, max_txid: Txid },
    DeleteAll,
}

impl View for Route {
    type V = RouteView;

    open spec fn view(&self) -> RouteView {
        match *self {
            Route::Text(status, body) => RouteView::Text(status, body@),
            Route::List { level, seek, use_metadata } => RouteView::List {
                level,
                seek,
                use_metadata,
            },
            Route::File { level, min_txid, max_txid, offset, size } => RouteView::File {
                level,
                min_txid,
                max_txid,
                offset,
                size,
            },
            Route::Stream { seek } => RouteView::Stream { seek },
            Route::Put { level, min_txid, max_txid } => RouteView::Put {
                level,
                min_txid,
                max_txid,
            },
            Route::Delete { level, min_txid, max_txid } => RouteView::Delete {
                level,
                min_txid,
                max_txid,
            },
            Route::DeleteAll => RouteView::DeleteAll,
        }
    }
}

/// The level that a path segment names: one decimal digit.
pub open spec fn level_of(s: Seq<char>) -> Option<u8> {
    if s.len() == 1 && '0' <= s[0] <= '9' {
        Some((s[0] as int - 48) as u8)
    } else {
        None
    }
}

/// Reads a level: strictly one decimal digit, no leading zeros.
pub fn parse_level(s: &str) -> (r: Option<u8>)
    ensures
        r == level_of(s@),
{
    let cs = text::chars_of(s);
    level_from(&cs)
}

fn level_from(cs: &[char]) -> (r: Option<u8>)
    ensures
        r == level_of(cs@),
{
    if cs.len() == 1 && '0' <= cs[0] && cs[0] <= '9' {
        Some(cs[0] as u8 - 48)
    } else {
        None
    }
}

/// Where the first white space stands; the length without any.
pub open spec fn first_white(s: Seq<char>) -> int {
    text::word_len(s)
}

/// Whether the `authorization` header carries `Bearer` and the token: the
/// scheme in any case, the token exactly.
pub open spec fn is_authorized(h: HeaderSeq, expected: Seq<char>) -> bool {
    match header_value(h, "authorization"@) {
        None => false,
        Some(v) => {
            let i = first_white(v);
            i < v.len() && lower(v.take(i)) == "bearer"@ && trimmed(v.skip(i + 1)) == expected
        },
    }
}

/// `authorization: Bearer <token>`: case-insensitive scheme, exact token.
pub fn authorized(headers: &[(String, String)], expected: &str) -> (r: bool)
    ensures
        r == is_authorized(header_seq(headers@), expected@),
{
    let value = match header(headers, "authorization") {
        None => return false,
        Some(v) => v,
    };
    let cs = text::chars_of(value);
    let i = text::first_word_len(&cs);
    if i == cs.len() {
        return false;
    }
    let scheme = text::lower_chars(text::part(&cs, 0, i));
    let token = text::trim(text::part(&cs, i + 1, cs.len()));
    proof {
        assert(cs@.subrange(0, i as int) =~= cs@.take(i as int));
        assert(cs@.subrange(i + 1, cs@.len() as int) =~= cs@.skip(i + 1));
    }
    let bearer = text::chars_of("bearer");
    let want = text::chars_of(expected);
    text::same_chars(&scheme, &bearer) && text::same_chars(token, &want)
}

/// The path without the slashes around it, cut at the slashes in it.
pub open spec fn segments(path: Seq<char>) -> Seq<Seq<char>> {
    pieces(without_trailing(without_leading(path, '/'), '/'), '/')
}

/// A query value that is a number, zero if it is not there.
pub open spec fn query_number(query: Seq<char>, name: Seq<char>) -> Option<int> {
    match query_value(pieces(query, '&'), name) {
        None => Some(0),
        Some(v) => parsed(v, 10, u64::MAX as int),
    }
}

/// What a request for a level's listing wants.
pub open spec fn list_route(level: Seq<char>, query: Seq<char>) -> RouteView {
    let seek = query_value(pieces(query, '&'), "seek"@);
    match level_of(level) {
        None => RouteView::Text(404, "no such level\n"@),
        Some(level) => if seek is Some && txid_of(seek->0) is None {
            RouteView::Text(400, "bad seek\n"@)
        } else {
            RouteView::List {
                level,
                seek: match seek {
                    None => Txid(0),
                    Some(s) => txid_of(s)->0,
                },
                use_metadata: query_value(pieces(query, '&'), "meta"@) == Some("1"@),
            }
        },
    }
}

/// What a request for a file wants.
pub open spec fn file_route(level: Seq<char>, name: Seq<char>, query: Seq<char>) -> RouteView {
    match level_of(level) {
        None => RouteView::Text(404, "no such level\n"@),
        Some(level) => match filename_of(name) {
            None => RouteView::Text(404, "no such file\n"@),
            Some((min_txid, max_txid)) => match (
                query_number(query, "offset"@),
                query_number(query, "size"@),
            ) {
                (Some(offset), Some(size)) => RouteView::File {
                    level,
                    min_txid,
                    max_txid,
                    offset: offset as u64,
                    size: size as u64,
                },
                _ => RouteView::Text(400, "bad offset/size\n"@),
            },
        },
    }
}

/// What a request for the stream wants: it must say from where.
pub open spec fn stream_route(query: Seq<char>) -> RouteView {
    match query_value(pieces(query, '&'), "seek"@) {
        Some(s) if txid_of(s) is Some && txid_of(s) != Some(Txid(0)) => RouteView::Stream {
            seek: txid_of(s)->0,
        },
        _ => RouteView::Text(400, "stream requires seek >= 1\n"@),
    }
}

/// The file that a write names, or the answer to a write that is refused
/// before the bucket is looked at.
pub open spec fn write_target(writable: bool, level: Seq<char>, name: Seq<char>) -> Result<
    (u8, Txid, Txid),
    (u16, Seq<char>),
> {
    if !writable {
        Err((403u16, "server is read-only (writable: false)\n"@))
    } else {
        match level_of(level) {
            None => Err((404u16, "no such level\n"@)),
            Some(level) => match filename_of(name) {
                None => Err((404u16, "bad ltx filename\n"@)),
                Some((min_txid, max_txid)) => Ok((level, min_txid, max_txid)),
            },
        }
    }
}

/// What a request wants of a mount.
pub open spec fn route_of(
    writable: bool,
    token: Option<Seq<char>>,
    method: Seq<char>,
    path: Seq<char>,
    query: Seq<char>,
    h: HeaderSeq,
) -> RouteView {
    let s = segments(path);
    let names_file = s.len() == 3 && s[0] == "ltx"@;
    if token is Some && !is_authorized(h, token->0) {
        RouteView::Text(401, "authorization required\n"@)
    } else if method == "GET"@ {
        if s.len() == 1 && s[0].len() == 0 {
            RouteView::Text(200, version_text())
        } else if s.len() == 2 && s[0] == "ltx"@ {
            list_route(s[1], query)
        } else if names_file {
            file_route(s[1], s[2], query)
        } else if s.len() == 1 && s[0] == "stream"@ {
            stream_route(query)
        } else {
            RouteView::Text(404, "not found\n"@)
        }
    } else if method == "PUT"@ {
        if names_file {
            match write_target(writable, s[1], s[2]) {
                Ok((level, min_txid, max_txid)) => RouteView::Put { level, min_txid, max_txid },
                Err((status, text)) => RouteView::Text(status, text),
            }
        } else {
            RouteView::Text(404, "not found\n"@)
        }
    } else if method == "DELETE"@ {
        if names_file {
            match write_target(writable, s[1], s[2]) {
                Ok((level, min_txid, max_txid)) => RouteView::Delete { level, min_txid, max_txid },
                Err((status, text)) => RouteView::Text(status, text),
            }
        } else if s.len() == 1 && s[0] == "all"@ {
            if writable {
                RouteView::DeleteAll
            } else {
                RouteView::Text(403, "server is read-only (writable: false)\n"@)
            }
        } else {
            RouteView::Text(404, "not found\n"@)
        }
    } else {
        RouteView::Text(405, "method not allowed\n"@)
    }
}

/// The mathematical value of an optional string.
pub open spec fn opt_string(o: Option<String>) -> Option<Seq<char>> {
    match o {
        Some(s) => Some(s@),
        None => None,
    }
}

fn text_route(status: u16, body: &str) -> (r: Route)
    ensures
        r@ == RouteView::Text(status, body@),
{
    Route::Text(status, body.to_owned())
}

fn route_list(level: &[char], query: &str) -> (r: Route)
    ensures
        r@ == list_route(level@, query@),
{
    let level = match level_from(level) {
        None => return text_route(404, "no such level\n"),
        Some(l) => l,
    };
    let seek = match query_param(query, "seek") {
        None => Txid(0),
        Some(s) => match Txid::parse(s) {
            Some(t) => t,
            None => return text_route(400, "bad seek\n"),
        },
    };
    let use_metadata = match query_param(query, "meta") {
        Some(m) => text::same_text(m, "1"),
        None => false,
    };
    Route::List { level, seek, use_metadata }
}

fn number_param(query: &str, name: &str) -> (r: Option<u64>)
    ensures
        match r {
            Some(n) => query_number(query@, name@) == Some(n as int),
            None => query_number(query@, name@) is None,
        },
{
    match query_param(query, name) {
        None => Some(0),
        Some(v) => {
            let cs = text::chars_of(v);
            text::parse_number(&cs, 10, u64::MAX)
        },
    }
}

fn route_file(level: &[char], name: &[char], query: &str) -> (r: Route)
    ensures
        r@ == file_route(level@, name@, query@),
{
    let level = match level_from(level) {
        None => return text_route(404, "no such level\n"),
        Some(l) => l,
    };
    let name = text::string_of(name);
    let (min_txid, max_txid) = match ltx::parse_filename(name.as_str()) {
        None => return text_route(404, "no such file\n"),
        Some(p) => p,
    };
    match (number_param(query, "offset"), number_param(query, "size")) {
        (Some(offset), Some(size)) => Route::File { level, min_txid, max_txid, offset, size },
        _ => text_route(400, "bad offset/size\n"),
    }
}

fn route_stream(query: &str) -> (r: Route)
    ensures
        r@ == stream_route(query@),
{
    if let Some(s) = query_param(query, "seek") {
        if let Some(seek) = Txid::parse(s) {
            if !seek.is_zero() {
                return Route::Stream { seek };
            }
        }
    }
    text_route(400, "stream requires seek >= 1\n")
}

fn target_of(writable: bool, level: &[char], name: &[char]) -> (r: Result<(u8, Txid, Txid), Route>)
    ensures
        match r {
            Ok(t) => write_target(writable, level@, name@) == Ok::<
                (u8, Txid, Txid),
                (u16, Seq<char>),
            >(t),
            Err(route) => match write_target(writable, level@, name@) {
                Ok(_) => false,
                Err((status, text)) => route@ == RouteView::Text(status, text),
            },
        },
{
    if !writable {
        return Err(text_route(403, "server is read-only (writable: false)\n"));
    }
    let level = match level_from(level) {
        None => return Err(text_route(404, "no such level\n")),
        Some(l) => l,
    };
    let name = text::string_of(name);
    match ltx::parse_filename(name.as_str()) {
        None => Err(text_route(404, "bad ltx filename\n")),
        Some((min_txid, max_txid)) => Ok((level, min_txid, max_txid)),
    }
}

fn is_text(cs: &[char], s: &str) -> (r: bool)
    ensures
        r == (cs@ == s@),
{
    let t = text::chars_of(s);
    text::same_chars(cs, &t)
}

impl MountOptions {
    /// Decides what a request wants of this mount. `path` has any mount
    /// prefix already stripped. Authorization, if it is required, comes
    /// before everything else.
    pub fn route(
        &self,
        method: &str,
        path: &str,
        query: &str,
        headers: &[(String, String)],
    ) -> (r: Route)
        ensures
            r@ == route_of(
                self.writable,
                opt_string(self.auth_token),
                method@,
                path@,
                query@,
                header_seq(headers@),
            ),
    {
        if let Some(expected) = &self.auth_token {
            if !authorized(headers, expected.as_str()) {
                return text_route(401, "authorization required\n");
            }
        }
        let cs = text::chars_of(path);
        let s = text::split_all(text::drop_trailing(text::drop_leading(&cs, '/'), '/'), '/');
        let ghost v = text::views(s@);
        assert(v == segments(path@));
        assert(forall|i: int| 0 <= i < s@.len() ==> v[i] == (#[trigger] s@[i])@);
        let names_file = s.len() == 3 && is_text(s[0], "ltx");
        if text::same_text(method, "GET") {
            if s.len() == 1 && s[0].len() == 0 {
                return Route::Text(200, version_line());
            }
            if s.len() == 2 && is_text(s[0], "ltx") {
                return route_list(s[1], query);
            }
            if names_file {
                return route_file(s[1], s[2], query);
            }
            if s.len() == 1 && is_text(s[0], "stream") {
                return route_stream(query);
            }
            return text_route(404, "not found\n");
        }
        if text::same_text(method, "PUT") {
            if names_file {
                return match target_of(self.writable, s[1], s[2]) {
                    Ok((level, min_txid, max_txid)) => Route::Put { level, min_txid, max_txid },
                    Err(route) => route,
                };
            }
            return text_route(404, "not found\n");
        }
        if text::same_text(method, "DELETE") {
            if names_file {
                return match target_of(self.writable, s[1], s[2]) {
                    Ok((level, min_txid, max_txid)) => Route::Delete { level, min_txid, max_txid },
                    Err(route) => route,
                };
            }
            if s.len() == 1 && is_text(s[0], "all") {
                if self.writable {
                    return Route::DeleteAll;
                }
                return text_route(403, "server is read-only (writable: false)\n");
            }
            return text_route(404, "not found\n");
        }
        text_route(405, "method not allowed\n")
    }
}

// ---------------------------------------------------------------------------
// Answers

/// The answer to a listing request.
pub fn listing_reply(files: Result<Vec<FileInfo>, StorageError>) -> (r: Response)
    ensures
        match files {
            Ok(files) => replies(r, 200, listing_text(files@)),
            Err(e) => replies(r, 500, "list: "@ + storage_text(e) + "\n"@),
        },
{
    match files {
        Ok(files) => {
            let body = render_listing(&files);
            Response::text(200, body.as_str())
        },
        Err(e) => Response::failure(500, "list: ", e.message().as_str()),
    }
}

/// The answer to a file request, once the file was opened or could not be.
pub fn open_reply(opened: Result<(), StorageError>) -> (r: Response)
    ensures
        match opened {
            Ok(_) => {
                &&& r.status == 200
                &&& header_seq(r.headers@) == seq![
                    ("content-type"@, "application/octet-stream"@),
                ]
                &&& r.body is Reader
            },
            Err(e) => if e is NotFound {
                replies(r, 404, "no such file\n"@)
            } else {
                replies(r, 500, "open: "@ + storage_text(e) + "\n"@)
            },
        },
{
    match opened {
        Ok(_) => {
            let mut headers: Vec<(String, String)> = Vec::new();
            assert(header_seq(headers@) =~= Seq::empty());
            push_header(&mut headers, "content-type", "application/octet-stream");
            assert(header_seq(headers@) =~= seq![("content-type"@, "application/octet-stream"@)]);
            Response { status: 200, headers, body: Body::Reader }
        },
        Err(e) => match e {
            StorageError::NotFound { .. } => Response::text(404, "no such file\n"),
            e => Response::failure(500, "open: ", e.message().as_str()),
        },
    }
}

/// The answer to a stream request. Reverse proxies must not buffer or
/// transform it.
pub fn stream_reply() -> (r: Response)
    ensures
        r.status == 200,
        header_seq(r.headers@) == seq![
            ("content-type"@, "application/x-liters-ltx-stream"@),
            ("cache-control"@, "no-cache, no-transform"@),
            ("x-accel-buffering"@, "no"@),
        ],
        r.body is Stream,
{
    let mut headers: Vec<(String, String)> = Vec::new();
    assert(header_seq(headers@) =~= Seq::empty());
    push_header(&mut headers, "content-type", "application/x-liters-ltx-stream");
    push_header(&mut headers, "cache-control", "no-cache, no-transform");
    push_header(&mut headers, "x-accel-buffering", "no");
    assert(header_seq(headers@) =~= seq![
        ("content-type"@, "application/x-liters-ltx-stream"@),
        ("cache-control"@, "no-cache, no-transform"@),
        ("x-accel-buffering"@, "no"@),
    ]);
    Response { status: 200, headers, body: Body::Stream }
}

/// The answer to a request to delete one file (or, with `all`, everything),
/// once that was done or failed.
pub fn delete_reply(all: bool, deleted: Result<(), StorageError>) -> (r: Response)
    ensures
        match deleted {
            Ok(_) => replies(r, 200, "deleted\n"@),
            Err(e) => replies(
                r,
                500,
                (if all {
                    "delete all: "@
                } else {
                    "delete: "@
                }) + storage_text(e) + "\n"@,
            ),
        },
{
    match deleted {
        Ok(_) => Response::text(200, "deleted\n"),
        Err(e) => {
            let what = if all {
                "delete all: "
            } else {
                "delete: "
            };
            Response::failure(500, what, e.message().as_str())
        },
    }
}

/// With a token set, nothing of the bucket is reached without it.
pub proof fn law_token_gates_every_route(
    writable: bool,
    token: Seq<char>,
    method: Seq<char>,
    path: Seq<char>,
    query: Seq<char>,
    h: HeaderSeq,
)
    requires
        !is_authorized(h, token),
    ensures
        route_of(writable, Some(token), method, path, query, h) == RouteView::Text(
            401,
            "authorization required\n"@,
        ),
{
}

/// A read-only mount lets no write through.
pub proof fn law_read_only_mount_refuses_writes(
    token: Option<Seq<char>>,
    method: Seq<char>,
    path: Seq<char>,
    query: Seq<char>,
    h: HeaderSeq,
)
    ensures
        ({
            let r = route_of(false, token, method, path, query, h);
            !(r is Put || r is Delete || r is DeleteAll)
        }),
{
}

} // verus!
