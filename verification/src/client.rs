//! The protocol of the HTTP replica client: request targets and headers, the
//! check of every response's protocol header, what a status means, and the
//! reading of listings. Requests are carried by the embedding program.
use crate::copy::{drain, faults_with, Cancellable};
use crate::error::StorageError;
use crate::io::{good_run, run_bytes, Fault, Source};
use crate::listing::{listed_file, listed_files, parse_listing, parse_listing_line, sorted};
use crate::ltx;
use crate::ltx::{filename, txid_text, FileInfo, Txid};
use crate::text;
use crate::text::{
    debug_quoted, decimal, index_of, parsed, pieces, starts, trimmed, without_trailing,
};
use crate::time::Span;
use crate::wire::{header, header_seq, header_value, HeaderSeq, PROTOCOL_HEADER, PROTOCOL_VERSION};
use vstd::prelude::*;
use vstd::utf8::{decode_utf8, valid_utf8};

verus! {

/// The largest listing that is taken for real.
pub const MAX_LISTING: u64 = 67_108_864;

/// Options for [`HttpReplicaClient`].
#[derive(Clone, Debug)]
pub struct HttpClientOptions {
    /// Sent as `authorization: Bearer <token>` on every request. Must be
    /// visible ASCII (no white space or control bytes).
    pub auth_token: Option<String>,
    /// Sent as `x-liters-writer-id` on write requests: this writer's
    /// identity for server-side fencing. Same character rule.
    pub writer_id: Option<String>,
    /// Sent as `x-liters-writer-takeover: 1` on write requests: claim the
    /// bucket even if another writer holds the lease.
    pub takeover: bool,
    /// Connect timeout, per resolved address.
    pub connect_timeout: Span,
    /// Read timeout, and the cumulative zero-progress budget for writes.
    pub io_timeout: Span,
    /// A stream that has produced no bytes at all (not even a ping) for this
    /// long is declared dead. Must comfortably exceed the server's ping
    /// interval.
    pub stream_deadman: Span,
}

/// Whether these are the options that a client has unless told otherwise.
pub open spec fn usual_options(o: HttpClientOptions) -> bool {
    &&& o.auth_token is None
    &&& o.writer_id is None
    &&& !o.takeover
    &&& o.connect_timeout.nanos == 10 * 1_000_000_000
    &&& o.io_timeout.nanos == 30 * 1_000_000_000
    &&& o.stream_deadman.nanos == 45 * 1_000_000_000
}

impl Default for HttpClientOptions {
    fn default() -> (r: HttpClientOptions)
        ensures
            usual_options(r),
    {
        HttpClientOptions {
            auth_token: None,
            writer_id: None,
            takeover: false,
            connect_timeout: Span::from_secs(10),
            io_timeout: Span::from_secs(30),
            stream_deadman: Span::from_secs(45),
        }
    }
}

/// Whether a value can stand in a request head: visible ASCII, and some of
/// it.
pub open spec fn header_safe(s: Seq<char>) -> bool {
    s.len() > 0 && forall|i: int| 0 <= i < s.len() ==> '!' <= #[trigger] s[i] <= '~'
}

/// Whether an option is unset or can stand in a request head.
pub open spec fn opt_header_safe(o: Option<String>) -> bool {
    o matches Some(s) ==> header_safe(s@)
}

/// What is said of a value that cannot stand in a request head.
pub open spec fn unsafe_text(name: Seq<char>) -> Seq<char> {
    name + " must be non-empty visible ASCII (no spaces, CR/LF, or control bytes)"@
}

/// Whether a value can stand in a request head.
pub fn is_header_safe(s: &str) -> (r: bool)
    ensures
        r == header_safe(s@),
{
    let cs = text::chars_of(s);
    if cs.len() == 0 {
        return false;
    }
    let mut i: usize = 0;
    while i < cs.len()
        invariant
            cs@ == s@,
            i <= cs@.len(),
            forall|j: int| 0 <= j < i ==> '!' <= #[trigger] cs@[j] <= '~',
        decreases cs@.len() - i,
    {
        if cs[i] < '!' || cs[i] > '~' {
            return false;
        }
        i += 1;
    }
    true
}

impl HttpClientOptions {
    /// Token and writer id stand in request heads verbatim, so anything
    /// outside visible ASCII, notably line ends, could split headers and is
    /// rejected up front.
    pub fn validate(&self) -> (r: Result<(), StorageError>)
        ensures
            match r {
                Ok(_) => opt_header_safe(self.auth_token) && opt_header_safe(self.writer_id),
                Err(e) => e matches StorageError::Other(m) && m@ == unsafe_text(
                    if !opt_header_safe(self.auth_token) {
                        "auth_token"@
                    } else {
                        "writer_id"@
                    },
                ) && !(opt_header_safe(self.auth_token) && opt_header_safe(self.writer_id)),
            },
    {
        if let Some(v) = &self.auth_token {
            if !is_header_safe(v.as_str()) {
                return Err(StorageError::Other(unsafe_value("auth_token")));
            }
        }
        if let Some(v) = &self.writer_id {
            if !is_header_safe(v.as_str()) {
                return Err(StorageError::Other(unsafe_value("writer_id")));
            }
        }
        Ok(())
    }
}

fn unsafe_value(name: &str) -> (r: String)
    ensures
        r@ == unsafe_text(name@),
{
    crate::error::join(
        name,
        " must be non-empty visible ASCII (no spaces, CR/LF, or control bytes)",
    )
}

/// The base url in its normal form: scheme, authority and path, without the
/// slashes the path ends in; or what is wrong with it.
pub open spec fn base_url(url: Seq<char>, allow_https: bool) -> Result<Seq<char>, Seq<char>> {
    if starts(url, "http://"@) {
        base_parts(url, "http"@, url.skip("http://"@.len() as int))
    } else if starts(url, "https://"@) {
        if allow_https {
            base_parts(url, "https"@, url.skip("https://"@.len() as int))
        } else {
            Err(
                "https is not supported; terminate TLS with a reverse proxy and use http://, or inject a transport that owns TLS"@,
            )
        }
    } else {
        Err("invalid liters url "@ + debug_quoted(url) + ": expected http://host:port[/path]"@)
    }
}

/// The base url with the given scheme and what follows it.
pub open spec fn base_parts(url: Seq<char>, scheme: Seq<char>, rest: Seq<char>) -> Result<
    Seq<char>,
    Seq<char>,
> {
    let i = index_of(rest, '/');
    let authority = rest.take(i);
    if authority.contains('@') {
        Err("userinfo in url is not supported"@)
    } else if authority.len() == 0 {
        Err("missing host in url "@ + debug_quoted(url))
    } else {
        Ok(scheme + "://"@ + authority + without_trailing(rest.skip(i), '/'))
    }
}

fn normal_parts(url: &str, scheme: &str, rest: &[char]) -> (r: Result<String, StorageError>)
    ensures
        match base_parts(url@, scheme@, rest@) {
            Ok(u) => r matches Ok(s) && s@ == u,
            Err(m) => r matches Err(StorageError::Other(t)) && t@ == m,
        },
{
    let i = text::find(rest, '/');
    let authority = text::part(rest, 0, i);
    let path = text::part(rest, i, rest.len());
    proof {
        assert(authority@ =~= rest@.take(i as int));
        assert(path@ =~= rest@.skip(i as int));
    }
    let at = text::find(authority, '@');
    proof {
        text::lemma_index_of(authority@, '@');
        if authority@.contains('@') {
            let k = choose|k: int| 0 <= k < authority@.len() && authority@[k] == '@';
            assert(at <= k);
        } else if at < authority@.len() {
            assert(authority@[at as int] == '@');
        }
    }
    if at < authority.len() {
        return Err(StorageError::Other("userinfo in url is not supported".to_owned()));
    }
    if authority.len() == 0 {
        let m = crate::error::join("missing host in url ", text::quoted(url).as_str());
        return Err(StorageError::Other(m));
    }
    let mut s = scheme.to_owned();
    s.append("://");
    s.append(text::string_of(authority).as_str());
    s.append(text::string_of(text::drop_trailing(path, '/')).as_str());
    Ok(s)
}

/// Normalizes a client base url to `scheme://authority[/prefix]`, without a
/// trailing slash. Rejects user names and, unless `allow_https`, `https://`.
pub fn normalize_base_url(url: &str, allow_https: bool) -> (r: Result<String, StorageError>)
    ensures
        match base_url(url@, allow_https) {
            Ok(u) => r matches Ok(s) && s@ == u,
            Err(m) => r matches Err(StorageError::Other(t)) && t@ == m,
        },
{
    let cs = text::chars_of(url);
    let http = text::chars_of("http://");
    if let Some(rest) = text::after_prefix(&cs, &http) {
        return normal_parts(url, "http", rest);
    }
    let https = text::chars_of("https://");
    if let Some(rest) = text::after_prefix(&cs, &https) {
        if !allow_https {
            return Err(
                StorageError::Other(
                    "https is not supported; terminate TLS with a reverse proxy and use http://, or inject a transport that owns TLS".to_owned(),
                ),
            );
        }
        return normal_parts(url, "https", rest);
    }
    let mut m = crate::error::join("invalid liters url ", text::quoted(url).as_str());
    m.append(": expected http://host:port[/path]");
    Err(StorageError::Other(m))
}

/// Client for a bucket served over HTTP by another instance.
#[derive(Debug)]
pub struct HttpReplicaClient {
    /// Absolute request base (`scheme://authority[/prefix]`, no trailing
    /// slash). Every request target is built by appending to it.
    pub base_url: String,
    pub opts: HttpClientOptions,
}

/// Whether a client was made of the url and the options.
pub open spec fn client_of(
    url: Seq<char>,
    allow_https: bool,
    options: HttpClientOptions,
    r: Result<HttpReplicaClient, StorageError>,
) -> bool {
    if !opt_header_safe(options.auth_token) || !opt_header_safe(options.writer_id) {
        &&& r is Err
        &&& r->Err_0 is Other
        &&& r->Err_0->Other_0@ == unsafe_text(
            if !opt_header_safe(options.auth_token) {
                "auth_token"@
            } else {
                "writer_id"@
            },
        )
    } else {
        match base_url(url, allow_https) {
            Ok(u) => r is Ok && r->Ok_0.base_url@ == u && r->Ok_0.opts == options,
            Err(m) => r is Err && r->Err_0 is Other && r->Err_0->Other_0@ == m,
        }
    }
}

fn make_client(url: &str, allow_https: bool, options: HttpClientOptions) -> (r: Result<
    HttpReplicaClient,
    StorageError,
>)
    ensures
        client_of(url@, allow_https, options, r),
{
    match options.validate() {
        Ok(()) => {},
        Err(e) => return Err(e),
    }
    match normalize_base_url(url, allow_https) {
        Ok(base_url) => Ok(HttpReplicaClient { base_url, opts: options }),
        Err(e) => Err(e),
    }
}

/// The optional request headers: `authorization` on every request, the
/// fencing headers on writes only.
pub open spec fn request_headers(opts: HttpClientOptions, write_op: bool) -> HeaderSeq {
    let auth = match opts.auth_token {
        Some(t) => seq![("authorization"@, "Bearer "@ + t@)],
        None => Seq::empty(),
    };
    let id = match opts.writer_id {
        Some(id) if write_op => seq![("x-liters-writer-id"@, id@)],
        _ => Seq::empty(),
    };
    let takeover = if write_op && opts.takeover {
        seq![("x-liters-writer-takeover"@, "1"@)]
    } else {
        Seq::empty()
    };
    auth + id + takeover
}

fn add_header(h: &mut Vec<(String, String)>, name: &str, value: &str)
    ensures
        header_seq(final(h)@) == header_seq(old(h)@) + seq![(name@, value@)],
{
    h.push((name.to_owned(), value.to_owned()));
    assert(header_seq(h@) =~= header_seq(old(h)@) + seq![(name@, value@)]);
}

/// What is said of a response without the right protocol header.
pub open spec fn foreign_text(url: Seq<char>, status: u16, h: HeaderSeq) -> Seq<char> {
    match header_value(h, PROTOCOL_HEADER@) {
        Some(v) => "server speaks liters protocol "@ + debug_quoted(v) + ", this client speaks "@
            + PROTOCOL_VERSION@,
        None => url + " is not a liters server (status "@ + decimal(status as int) + ", no "@
            + PROTOCOL_HEADER@ + " header)"@,
    }
}

/// What is said of a response that is no success.
pub open spec fn status_text(context: Seq<char>, status: u16, excerpt: Seq<char>) -> Seq<char> {
    context + ": http status "@ + decimal(status as int) + (if trimmed(excerpt).len() == 0 {
        Seq::empty()
    } else {
        ": "@ + trimmed(excerpt)
    })
}

/// The target of a request for one file.
pub open spec fn file_target(base: Seq<char>, level: u8, min: Txid, max: Txid) -> Seq<char> {
    base + "/ltx/"@ + decimal(level as int) + "/"@ + filename(min, max)
}

/// Whether `e` is the error that a response stands for that is no success.
pub open spec fn refuses(
    e: StorageError,
    context: Seq<char>,
    write_op: bool,
    status: u16,
    excerpt: Seq<char>,
) -> bool {
    let text = status_text(context, status, excerpt);
    if status == 401 {
        e matches StorageError::Unauthorized(m) && m@ == text
    } else if status == 403 && write_op {
        e matches StorageError::ReadOnly(m) && m@ == text
    } else if status == 409 {
        e matches StorageError::Conflict(m) && m@ == text
    } else {
        e matches StorageError::Other(m) && m@ == text
    }
}

impl HttpReplicaClient {
    /// A client with the default options, over plain `http://`.
    pub fn new(url: &str) -> (r: Result<HttpReplicaClient, StorageError>)
        ensures
            match base_url(url@, false) {
                Ok(u) => r matches Ok(c) && c.base_url@ == u && usual_options(c.opts),
                Err(m) => r matches Err(StorageError::Other(t)) && t@ == m,
            },
    {
        HttpReplicaClient::with_options(url, HttpClientOptions::default())
    }

    /// A client with explicit options, over plain `http://`.
    pub fn with_options(url: &str, options: HttpClientOptions) -> (r: Result<
        HttpReplicaClient,
        StorageError,
    >)
        ensures
            client_of(url@, false, options, r),
    {
        make_client(url, false, options)
    }

    /// A client whose requests are carried by a transport that owns TLS:
    /// `https://` urls are accepted.
    pub fn with_transport(url: &str, options: HttpClientOptions) -> (r: Result<
        HttpReplicaClient,
        StorageError,
    >)
        ensures
            client_of(url@, true, options, r),
    {
        make_client(url, true, options)
    }

    /// Optional request headers: `authorization` on every request, the
    /// fencing headers on writes only.
    pub fn extra_headers(&self, write_op: bool) -> (r: Vec<(String, String)>)
        ensures
            header_seq(r@) == request_headers(self.opts, write_op),
    {
        let mut h: Vec<(String, String)> = Vec::new();
        let none = Ghost(Seq::<(Seq<char>, Seq<char>)>::empty());
        assert(header_seq(h@) =~= none@);
        if let Some(token) = &self.opts.auth_token {
            let value = crate::error::join("Bearer ", token.as_str());
            add_header(&mut h, "authorization", value.as_str());
        }
        let ghost auth = header_seq(h@);
        assert(auth + none@ =~= auth);
        if write_op {
            if let Some(id) = &self.opts.writer_id {
                add_header(&mut h, "x-liters-writer-id", id.as_str());
            }
            assert(header_seq(h@) + none@ =~= header_seq(h@));
            if self.opts.takeover {
                add_header(&mut h, "x-liters-writer-takeover", "1");
            }
        }
        assert(header_seq(h@) =~= request_headers(self.opts, write_op));
        h
    }

    /// Checks the protocol header: every response must carry it, so proxies
    /// and foreign servers fail loudly rather than being misparsed.
    pub fn check_protocol(url: &str, status: u16, headers: &[(String, String)]) -> (r: Result<
        (),
        StorageError,
    >)
        ensures
            if header_value(header_seq(headers@), PROTOCOL_HEADER@) == Some(PROTOCOL_VERSION@) {
                r is Ok
            } else {
                r matches Err(StorageError::Other(m)) && m@ == foreign_text(
                    url@,
                    status,
                    header_seq(headers@),
                )
            },
    {
        match header(headers, PROTOCOL_HEADER) {
            Some(v) => {
                if text::same_text(v, PROTOCOL_VERSION) {
                    return Ok(());
                }
                let mut m = crate::error::join(
                    "server speaks liters protocol ",
                    text::quoted(v).as_str(),
                );
                m.append(", this client speaks ");
                m.append(PROTOCOL_VERSION);
                Err(StorageError::Other(m))
            },
            None => {
                let mut m = crate::error::join(url, " is not a liters server (status ");
                m.append(text::decimal_text(status as u64).as_str());
                m.append(", no ");
                m.append(PROTOCOL_HEADER);
                m.append(" header)");
                Err(StorageError::Other(m))
            },
        }
    }

    /// Maps a response that is no success to an error, with an excerpt of
    /// its body. A 403 on a read is a proxy or a misconfiguration, not a
    /// read-only server.
    pub fn status_error(context: &str, write_op: bool, status: u16, excerpt: &str) -> (r: StorageError)
        ensures
            refuses(r, context@, write_op, status, excerpt@),
    {
        let mut m = crate::error::join(context, ": http status ");
        m.append(text::decimal_text(status as u64).as_str());
        let cs = text::chars_of(excerpt);
        let t = text::trim(&cs);
        let detail = if t.len() == 0 {
            String::new()
        } else {
            crate::error::join(": ", text::string_of(t).as_str())
        };
        m.append(detail.as_str());
        assert(t@.len() == 0 ==> detail@ =~= Seq::<char>::empty());
        if status == 401 {
            StorageError::Unauthorized(m)
        } else if status == 403 && write_op {
            StorageError::ReadOnly(m)
        } else if status == 409 {
            StorageError::Conflict(m)
        } else {
            StorageError::Other(m)
        }
    }

    /// The target of a listing request.
    pub fn list_url(&self, level: u8, seek: Txid, use_metadata: bool) -> (r: String)
        ensures
            r@ == self.base_url@ + "/ltx/"@ + decimal(level as int) + "?seek="@ + txid_text(seek)
                + (if use_metadata {
                "&meta=1"@
            } else {
                Seq::empty()
            }),
    {
        let mut u = crate::error::join(self.base_url.as_str(), "/ltx/");
        u.append(text::decimal_text(level as u64).as_str());
        u.append("?seek=");
        u.append(seek.text().as_str());
        let ghost short = u@;
        assert(short + Seq::<char>::empty() =~= short);
        if use_metadata {
            u.append("&meta=1");
        }
        u
    }

    /// The target of a write or delete request for one file.
    pub fn file_url(&self, level: u8, min_txid: Txid, max_txid: Txid) -> (r: String)
        ensures
            r@ == file_target(self.base_url@, level, min_txid, max_txid),
    {
        let mut u = crate::error::join(self.base_url.as_str(), "/ltx/");
        u.append(text::decimal_text(level as u64).as_str());
        u.append("/");
        u.append(ltx::format_filename(min_txid, max_txid).as_str());
        u
    }

    /// The target of a read request for one file, or a part of it.
    pub fn open_url(&self, level: u8, min_txid: Txid, max_txid: Txid, offset: u64, size: u64) -> (r:
        String)
        ensures
            r@ == file_target(self.base_url@, level, min_txid, max_txid) + (if offset > 0 || size
                > 0 {
                "?offset="@ + decimal(offset as int) + "&size="@ + decimal(size as int)
            } else {
                Seq::empty()
            }),
    {
        let mut u = self.file_url(level, min_txid, max_txid);
        let ghost whole = u@;
        assert(whole + Seq::<char>::empty() =~= whole);
        if offset > 0 || size > 0 {
            let mut q = crate::error::join("?offset=", text::decimal_text(offset).as_str());
            q.append("&size=");
            q.append(text::decimal_text(size).as_str());
            u.append(q.as_str());
        }
        u
    }

    /// The target of a request to wipe the bucket.
    pub fn wipe_url(&self) -> (r: String)
        ensures
            r@ == self.base_url@ + "/all"@,
    {
        crate::error::join(self.base_url.as_str(), "/all")
    }

    /// The target of a stream request.
    pub fn stream_url(&self, seek: Txid) -> (r: String)
        ensures
            r@ == self.base_url@ + "/stream?seek="@ + txid_text(seek),
    {
        let mut u = crate::error::join(self.base_url.as_str(), "/stream?seek=");
        u.append(seek.text().as_str());
        u
    }
}

/// A message that begins with the level it is about.
pub open spec fn list_text(level: u8, what: Seq<char>) -> Seq<char> {
    "list level "@ + decimal(level as int) + ": "@ + what
}

fn list_message(level: u8, what: &str) -> (r: String)
    ensures
        r@ == list_text(level, what@),
{
    let mut m = crate::error::join("list level ", text::decimal_text(level as u64).as_str());
    m.append(": ");
    m.append(what);
    m
}

/// The length that a listing response declares. Listings always carry one: a
/// body that ends with the connection cannot tell completion from a cut, and
/// a silently shortened listing could look like divergence.
pub open spec fn declared_length(h: HeaderSeq) -> Option<int> {
    match header_value(h, "content-length"@) {
        Some(v) => parsed(v, 10, u64::MAX as int),
        None => None,
    }
}

/// Reads the body of a successful listing response: exactly as many bytes as
/// it declares, as text, one file per well-formed line, in order.
pub fn read_listing<R: Source, C: Cancellable>(
    level: u8,
    headers: &[(String, String)],
    body: &mut R,
    cancel: &C,
) -> (r: Result<Vec<FileInfo>, StorageError>)
    ensures
        match declared_length(header_seq(headers@)) {
            None => r matches Err(StorageError::Other(m)) && m@ == list_text(
                level,
                "missing content-length"@,
            ),
            Some(n) => {
                let s = old(body).script();
                let got = run_bytes(s, s.len() as int);
                if n > MAX_LISTING {
                    r matches Err(StorageError::Other(m)) && m@ == list_text(
                        level,
                        "implausible listing size "@ + decimal(n),
                    )
                } else {
                    match r {
                        Ok(files) => {
                            &&& good_run(s, s.len() as int)
                            &&& s.len() == n
                            &&& valid_utf8(got)
                            &&& files@ == sorted(
                                listed_files(pieces(decode_utf8(got), '\n'), level),
                            )
                        },
                        Err(StorageError::Cancelled) => !cancel.quiet(),
                        Err(StorageError::Unavailable(m)) => {
                            ||| good_run(s, s.len() as int) && s.len() != n && m@ == list_text(
                                level,
                                "truncated listing ("@ + decimal(s.len() as int) + " of "@
                                    + decimal(n) + " bytes)"@,
                            )
                            ||| exists|f: Fault| #[trigger]
                                faults_with(s, f) && m@ == "list level "@ + decimal(level as int)
                                    + ": "@ + f.message
                        },
                        Err(StorageError::Other(m)) => good_run(s, s.len() as int) && s.len() == n
                            && !valid_utf8(got) && m@ == list_text(level, "non-utf8 listing"@),
                        Err(_) => false,
                    }
                }
            },
        },
        cancel.cancelled() && (declared_length(header_seq(headers@)) matches Some(n) && n
            <= MAX_LISTING) ==> r == Err::<Vec<FileInfo>, StorageError>(StorageError::Cancelled),
{
    let declared: u64 = match header(headers, "content-length") {
        None => return Err(StorageError::Other(list_message(level, "missing content-length"))),
        Some(v) => {
            let cs = text::chars_of(v);
            match text::parse_number(&cs, 10, u64::MAX) {
                Some(n) => n,
                None => return Err(
                    StorageError::Other(list_message(level, "missing content-length")),
                ),
            }
        },
    };
    if declared > MAX_LISTING {
        let what = crate::error::join(
            "implausible listing size ",
            text::decimal_text(declared).as_str(),
        );
        return Err(StorageError::Other(list_message(level, what.as_str())));
    }
    let mut raw: Vec<u8> = Vec::new();
    let context = crate::error::join("list level ", text::decimal_text(level as u64).as_str());
    match drain(body, &mut raw, cancel, context.as_str()) {
        Ok(()) => {},
        Err(e) => return Err(e),
    }
    let ghost s = old(body).script();
    assert(raw@ =~= run_bytes(s, s.len() as int));
    if raw.len() as u64 != declared {
        let mut what = crate::error::join(
            "truncated listing (",
            text::decimal_text(raw.len() as u64).as_str(),
        );
        what.append(" of ");
        what.append(text::decimal_text(declared).as_str());
        what.append(" bytes)");
        return Err(StorageError::Unavailable(list_message(level, what.as_str())));
    }
    match crate::wire::utf8_string(raw) {
        Some(body) => Ok(parse_listing(body.as_str(), level)),
        None => Err(StorageError::Other(list_message(level, "non-utf8 listing"))),
    }
}

/// Reads the body of a successful push response: the listing line of the file
/// that was stored.
pub fn read_put_reply(level: u8, body: &str) -> (r: Result<FileInfo, StorageError>)
    ensures
        match listed_file(pieces(body@, '\n')[0], level) {
            Some(f) => r == Ok::<FileInfo, StorageError>(f),
            None => r matches Err(StorageError::Other(m)) && m@ == "push L"@ + decimal(
                level as int,
            ) + ": bad put response "@ + debug_quoted(body@),
        },
{
    let cs = text::chars_of(body);
    let end = text::find(&cs, '\n');
    let line = text::part(&cs, 0, end);
    proof {
        assert(line@ =~= cs@.take(end as int));
        if end == cs@.len() {
            assert(line@ =~= cs@);
        }
        assert(pieces(body@, '\n')[0] == line@);
    }
    let first = text::string_of(line);
    match parse_listing_line(first.as_str(), level) {
        Some(f) => Ok(f),
        None => {
            let mut m = crate::error::join("push L", text::decimal_text(level as u64).as_str());
            m.append(": bad put response ");
            m.append(text::quoted(body).as_str());
            Err(StorageError::Other(m))
        },
    }
}

/// What a request for a file's transactions is called in messages.
pub open spec fn file_context(what: Seq<char>, level: u8, min: Txid, max: Txid) -> Seq<char> {
    what + " L"@ + decimal(level as int) + " "@ + txid_text(min) + "-"@ + txid_text(max)
}

/// What a request for a file's transactions is called in messages.
pub fn request_context(what: &str, level: u8, min_txid: Txid, max_txid: Txid) -> (r: String)
    ensures
        r@ == file_context(what@, level, min_txid, max_txid),
{
    let mut s = crate::error::join(what, " L");
    s.append(text::decimal_text(level as u64).as_str());
    s.append(" ");
    s.append(min_txid.text().as_str());
    s.append("-");
    s.append(max_txid.text().as_str());
    s
}

/// What to do with the answer to a request for a file.
#[derive(Debug)]
pub enum OpenAnswer {
    /// Receive all of the body into a local spool: a reader that merges many
    /// files may not come back to this one for minutes.
    Spool,
    /// Hand the body out as it comes.
    Stream,
    Fail(StorageError),
}

/// What to do with the answer to a request for a file: whole files are
/// spooled, ranges are small and stay streaming, a missing file is told apart.
pub fn open_answer(
    level: u8,
    min_txid: Txid,
    max_txid: Txid,
    whole: bool,
    status: u16,
    excerpt: &str,
) -> (r: OpenAnswer)
    ensures
        if status == 200 {
            if whole {
                r is Spool
            } else {
                r is Stream
            }
        } else if status == 404 {
            r == OpenAnswer::Fail(StorageError::NotFound { level, min_txid, max_txid })
        } else {
            r matches OpenAnswer::Fail(e) && refuses(
                e,
                file_context("open"@, level, min_txid, max_txid),
                false,
                status,
                excerpt@,
            )
        },
{
    if status == 200 {
        if whole {
            OpenAnswer::Spool
        } else {
            OpenAnswer::Stream
        }
    } else if status == 404 {
        OpenAnswer::Fail(StorageError::NotFound { level, min_txid, max_txid })
    } else {
        let context = request_context("open", level, min_txid, max_txid);
        OpenAnswer::Fail(
            HttpReplicaClient::status_error(context.as_str(), false, status, excerpt),
        )
    }
}

/// Judges the answer to a request that only has to succeed.
pub fn checked_answer(context: &str, write_op: bool, status: u16, excerpt: &str) -> (r: Result<
    (),
    StorageError,
>)
    ensures
        status == 200 ==> r is Ok,
        status != 200 ==> (r matches Err(e) && refuses(
            e,
            context@,
            write_op,
            status,
            excerpt@,
        )),
{
    if status == 200 {
        Ok(())
    } else {
        Err(HttpReplicaClient::status_error(context, write_op, status, excerpt))
    }
}

/// What the server answers an accepted push with tells the client of the
/// stored file.
pub proof fn law_put_reply_reads_back(f: FileInfo, level: u8)
    ensures
        listed_file(pieces(crate::listing::listed_line(f), '\n')[0], level) == Some(
            crate::listing::as_listed(f, level),
        ),
{
    crate::listing::law_listing_line_reads_back(f, level);
    crate::listing::lemma_first_line(f);
}

} // verus!
