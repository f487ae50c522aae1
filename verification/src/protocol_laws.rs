//! What a client asks for is what a mount understands: every request that a
//! client makes leads to the route it is meant for.
use crate::client::{request_headers, HttpClientOptions, HttpReplicaClient};
use crate::fence::{bucket_is_open_to, WriterLease};
use crate::ltx::{filename, law_filename_reads_back, law_txid_text_reads_back, txid_text, Txid};
use crate::mount::{is_authorized, level_of, route_of, segments, MountOptions, Route, RouteView};
use crate::text::{
    all_digits, decimal, digit_value, law_digits_write_the_number, law_written_number_reads_back,
    lemma_index_of_is, pieces, split_first, without_leading,
    without_trailing,
};
use crate::time::Span;
use crate::wire::{header_seq, header_value, query_value, HeaderSeq};
use vstd::prelude::*;

verus! {

/// Whether a text has none of the characters that cut a request target.
pub open spec fn plain(s: Seq<char>) -> bool {
    forall|i: int|
        0 <= i < s.len() ==> (#[trigger] s[i]) != '/' && s[i] != '&' && s[i] != '=' && s[i] != '?'
}

proof fn lemma_pieces_one(s: Seq<char>, c: char)
    requires
        forall|i: int| 0 <= i < s.len() ==> s[i] != c,
    ensures
        pieces(s, c) == seq![s],
{
    lemma_index_of_is(s, c, s.len() as int);
}

proof fn lemma_pieces_cons(a: Seq<char>, c: char, rest: Seq<char>)
    requires
        forall|i: int| 0 <= i < a.len() ==> a[i] != c,
    ensures
        pieces(a + seq![c] + rest, c) == seq![a] + pieces(rest, c),
        split_first(a + seq![c] + rest, c) == Some((a, rest)),
{
    let s = a + seq![c] + rest;
    lemma_index_of_is(s, c, a.len() as int);
    assert(s.take(a.len() as int) =~= a);
    assert(s.skip(a.len() as int + 1) =~= rest);
}

proof fn lemma_segments(a: Seq<char>, rest: Seq<char>)
    requires
        a.len() > 0,
        plain(a),
        rest.len() > 0 ==> rest[0] == '/' && rest.len() > 1 && rest.last() != '/',
    ensures
        segments("/"@ + a + rest) == if rest.len() == 0 {
            seq![a]
        } else {
            seq![a] + pieces(rest.skip(1), '/')
        },
{
    reveal_strlit("/");
    let s = "/"@ + a + rest;
    let t = a + rest;
    assert(s.skip(1) =~= t);
    assert(s[0] == '/');
    assert(t[0] == a[0] && t[0] != '/');
    assert(without_leading(t, '/') == t);
    assert(without_leading(s, '/') == t);
    assert(t.last() == if rest.len() > 0 {
        rest.last()
    } else {
        a.last()
    });
    assert(a.last() == a[a.len() - 1]);
    assert(without_trailing(t, '/') == t);
    if rest.len() == 0 {
        assert(t =~= a);
        lemma_pieces_one(a, '/');
    } else {
        assert(t =~= a + seq!['/'] + rest.skip(1));
        lemma_pieces_cons(a, '/', rest.skip(1));
    }
}

proof fn lemma_digits_plain(s: Seq<char>)
    requires
        all_digits(s, 16),
    ensures
        plain(s),
{
    assert forall|i: int| 0 <= i < s.len() implies (#[trigger] s[i]) != '/' && s[i] != '&' && s[i]
        != '=' && s[i] != '?' by {
        assert(digit_value(s[i]) < 16);
    }
}

pub proof fn lemma_decimal_plain(n: u64)
    ensures
        plain(decimal(n as int)),
        decimal(n as int).len() > 0,
{
    law_digits_write_the_number(n as nat, 10);
    let s = decimal(n as int);
    assert forall|i: int| 0 <= i < s.len() implies digit_value(#[trigger] s[i]) < 16 by {
        assert(digit_value(s[i]) < 10);
    }
    lemma_digits_plain(s);
}

proof fn lemma_txid_plain(t: Txid)
    ensures
        plain(txid_text(t)),
        txid_text(t).len() == 16,
{
    law_txid_text_reads_back(t);
    lemma_digits_plain(txid_text(t));
}

pub proof fn lemma_name_plain(min: Txid, max: Txid)
    ensures
        plain(filename(min, max)),
        filename(min, max).len() == 37,
        filename(min, max).last() == 'x',
{
    lemma_txid_plain(min);
    lemma_txid_plain(max);
    reveal_strlit("-");
    reveal_strlit(".ltx");
    let s = filename(min, max);
    let a = txid_text(min);
    let b = txid_text(max);
    assert forall|i: int| 0 <= i < s.len() implies (#[trigger] s[i]) != '/' && s[i] != '&' && s[i]
        != '=' && s[i] != '?' by {
        if i < 16 {
            assert(s[i] == a[i]);
        } else if 17 <= i < 33 {
            assert(s[i] == b[i - 17]);
        } else if i >= 33 {
            assert(s[i] == ".ltx"@[i - 33]);
        }
    }
    assert(s.last() == s[36] && s[36] == ".ltx"@[3]);
}

proof fn lemma_level(level: u8)
    requires
        level <= 9,
    ensures
        level_of(decimal(level as int)) == Some(level),
        decimal(level as int).len() == 1,
        decimal(level as int)[0] != '/',
{
    lemma_decimal_plain(level as u64);
}

proof fn lemma_ltx_list(level: u8)
    requires
        level <= 9,
    ensures
        segments("/ltx/"@ + decimal(level as int)) == seq!["ltx"@, decimal(level as int)],
{
    reveal_strlit("/ltx/");
    reveal_strlit("ltx");
    reveal_strlit("/");
    let d = decimal(level as int);
    lemma_level(level);
    let rest = seq!['/'] + d;
    assert("/"@ + "ltx"@ + rest =~= "/ltx/"@ + d);
    assert(plain("ltx"@));
    assert(rest.last() == d[0]);
    lemma_segments("ltx"@, rest);
    assert(rest.skip(1) =~= d);
    lemma_decimal_plain(level as u64);
    lemma_pieces_one(d, '/');
    assert(seq!["ltx"@] + seq![d] =~= seq!["ltx"@, d]);
}

proof fn lemma_ltx_file(level: u8, min: Txid, max: Txid)
    requires
        level <= 9,
    ensures
        segments("/ltx/"@ + decimal(level as int) + "/"@ + filename(min, max)) == seq![
            "ltx"@,
            decimal(level as int),
            filename(min, max),
        ],
{
    reveal_strlit("/ltx/");
    reveal_strlit("ltx");
    reveal_strlit("/");
    let d = decimal(level as int);
    let f = filename(min, max);
    lemma_level(level);
    lemma_name_plain(min, max);
    let rest = seq!['/'] + d + seq!['/'] + f;
    assert("/"@ + "ltx"@ + rest =~= "/ltx/"@ + d + "/"@ + f);
    assert(plain("ltx"@));
    assert(rest.last() == f.last());
    lemma_segments("ltx"@, rest);
    assert(rest.skip(1) =~= d + seq!['/'] + f);
    lemma_decimal_plain(level as u64);
    lemma_pieces_cons(d, '/', f);
    lemma_pieces_one(f, '/');
    assert(seq!["ltx"@] + (seq![d] + seq![f]) =~= seq!["ltx"@, d, f]);
}

proof fn lemma_query_one(name: Seq<char>, value: Seq<char>, other: Seq<char>)
    requires
        plain(name),
        plain(value),
        name != other,
    ensures
        query_value(pieces(name + seq!['='] + value, '&'), name) == Some(value),
        query_value(pieces(name + seq!['='] + value, '&'), other) is None,
{
    let q = name + seq!['='] + value;
    assert forall|i: int| 0 <= i < q.len() implies q[i] != '&' by {
        if i < name.len() {
            assert(q[i] == name[i]);
        } else if i > name.len() {
            assert(q[i] == value[i - name.len() - 1]);
        }
    }
    lemma_pieces_one(q, '&');
    lemma_pieces_cons(name, '=', value);
    let p = pieces(q, '&');
    assert(p[0] == q);
    assert(p.skip(1).len() == 0);
    reveal_with_fuel(query_value, 3);
}

proof fn lemma_query_two(
    a: Seq<char>,
    v: Seq<char>,
    b: Seq<char>,
    w: Seq<char>,
)
    requires
        plain(a),
        plain(v),
        plain(b),
        plain(w),
        a != b,
    ensures
        query_value(pieces(a + seq!['='] + v + seq!['&'] + b + seq!['='] + w, '&'), a) == Some(v),
        query_value(pieces(a + seq!['='] + v + seq!['&'] + b + seq!['='] + w, '&'), b) == Some(w),
{
    let q1 = a + seq!['='] + v;
    let q2 = b + seq!['='] + w;
    let q = a + seq!['='] + v + seq!['&'] + b + seq!['='] + w;
    assert(q =~= q1 + seq!['&'] + q2);
    assert forall|i: int| 0 <= i < q1.len() implies q1[i] != '&' by {
        if i < a.len() {
            assert(q1[i] == a[i]);
        } else if i > a.len() {
            assert(q1[i] == v[i - a.len() - 1]);
        }
    }
    assert forall|i: int| 0 <= i < q2.len() implies q2[i] != '&' by {
        if i < b.len() {
            assert(q2[i] == b[i]);
        } else if i > b.len() {
            assert(q2[i] == w[i - b.len() - 1]);
        }
    }
    lemma_pieces_cons(q1, '&', q2);
    lemma_pieces_one(q2, '&');
    lemma_pieces_cons(a, '=', v);
    lemma_pieces_cons(b, '=', w);
    let p = pieces(q, '&');
    assert(p =~= seq![q1, q2]);
    assert(p.skip(1) =~= seq![q2]);
    assert(p.skip(1).skip(1).len() == 0);
    reveal_with_fuel(query_value, 4);
}

/// The query of a listing request.
pub open spec fn list_query(seek: Txid, use_metadata: bool) -> Seq<char> {
    "seek="@ + txid_text(seek) + (if use_metadata {
        "&meta=1"@
    } else {
        Seq::empty()
    })
}

/// A client's listing request leads a mount to that level, from that
/// transaction on, with or without times as asked.
pub proof fn law_listing_request_is_understood(
    client: HttpReplicaClient,
    url: String,
    writable: bool,
    h: HeaderSeq,
    level: u8,
    seek: Txid,
    use_metadata: bool,
)
    requires
        level <= 9,
        call_ensures(HttpReplicaClient::list_url, (&client, level, seek, use_metadata), url),
    ensures
        url@ == client.base_url@ + ("/ltx/"@ + decimal(level as int)) + "?"@ + list_query(
            seek,
            use_metadata,
        ),
        route_of(
            writable,
            None,
            "GET"@,
            "/ltx/"@ + decimal(level as int),
            list_query(seek, use_metadata),
            h,
        ) == (RouteView::List { level, seek, use_metadata }),
{
    reveal_strlit("?seek=");
    reveal_strlit("?");
    reveal_strlit("seek=");
    reveal_strlit("seek");
    reveal_strlit("meta");
    reveal_strlit("&meta=1");
    reveal_strlit("1");
    assert(url@ =~= client.base_url@ + ("/ltx/"@ + decimal(level as int)) + "?"@ + list_query(
        seek,
        use_metadata,
    ));
    lemma_ltx_list(level);
    lemma_level(level);
    law_txid_text_reads_back(seek);
    lemma_txid_plain(seek);
    let t = txid_text(seek);
    assert("seek"@[0] != "meta"@[0]);
    assert("seek"@ != "meta"@);
    if use_metadata {
        lemma_query_two("seek"@, t, "meta"@, "1"@);
        assert(list_query(seek, true) =~= "seek"@ + seq!['='] + t + seq!['&'] + "meta"@ + seq!['=']
            + "1"@);
    } else {
        lemma_query_one("seek"@, t, "meta"@);
        assert(list_query(seek, false) =~= "seek"@ + seq!['='] + t);
    }
}

/// The query of a request for part of a file; empty for all of it.
pub open spec fn part_query(offset: u64, size: u64) -> Seq<char> {
    if offset > 0 || size > 0 {
        "offset="@ + decimal(offset as int) + "&size="@ + decimal(size as int)
    } else {
        Seq::empty()
    }
}

/// A client's request for a file, or part of it, leads a mount to that file
/// and that part.
pub proof fn law_file_request_is_understood(
    client: HttpReplicaClient,
    url: String,
    writable: bool,
    h: HeaderSeq,
    level: u8,
    min: Txid,
    max: Txid,
    offset: u64,
    size: u64,
)
    requires
        level <= 9,
        call_ensures(HttpReplicaClient::open_url, (&client, level, min, max, offset, size), url),
    ensures
        ({
            let path = "/ltx/"@ + decimal(level as int) + "/"@ + filename(min, max);
            let query = part_query(offset, size);
            &&& url@ == client.base_url@ + path + (if query.len() > 0 {
                "?"@ + query
            } else {
                Seq::empty()
            })
            &&& route_of(writable, None, "GET"@, path, query, h) == (RouteView::File {
                level,
                min_txid: min,
                max_txid: max,
                offset,
                size,
            })
        }),
{
    reveal_strlit("?offset=");
    reveal_strlit("offset=");
    reveal_strlit("&size=");
    reveal_strlit("offset");
    reveal_strlit("size");
    reveal_strlit("?");
    let path = "/ltx/"@ + decimal(level as int) + "/"@ + filename(min, max);
    let query = part_query(offset, size);
    assert(url@ =~= client.base_url@ + path + (if query.len() > 0 {
        "?"@ + query
    } else {
        Seq::empty()
    }));
    lemma_ltx_file(level, min, max);
    lemma_level(level);
    law_filename_reads_back(min, max);
    lemma_decimal_plain(offset);
    lemma_decimal_plain(size);
    law_written_number_reads_back(offset as nat, 10, u64::MAX as int);
    law_written_number_reads_back(size as nat, 10, u64::MAX as int);
    assert("offset"@.len() != "size"@.len());
    if offset > 0 || size > 0 {
        let a = decimal(offset as int);
        let b = decimal(size as int);
        lemma_query_two("offset"@, a, "size"@, b);
        assert(query =~= "offset"@ + seq!['='] + a + seq!['&'] + "size"@ + seq!['='] + b);
    } else {
        lemma_pieces_one(query, '&');
        lemma_index_of_is(query, '=', 0);
        let p = pieces(query, '&');
        assert(p[0] == query);
        assert(p.skip(1).len() == 0);
        reveal_with_fuel(query_value, 3);
    }
}

/// A client's write and delete requests lead a writable mount to that file,
/// and are refused by any other.
pub proof fn law_write_requests_are_understood(
    client: HttpReplicaClient,
    url: String,
    h: HeaderSeq,
    level: u8,
    min: Txid,
    max: Txid,
)
    requires
        level <= 9,
        call_ensures(HttpReplicaClient::file_url, (&client, level, min, max), url),
    ensures
        ({
            let path = "/ltx/"@ + decimal(level as int) + "/"@ + filename(min, max);
            &&& url@ == client.base_url@ + path
            &&& route_of(true, None, "PUT"@, path, Seq::empty(), h) == (RouteView::Put {
                level,
                min_txid: min,
                max_txid: max,
            })
            &&& route_of(true, None, "DELETE"@, path, Seq::empty(), h) == (RouteView::Delete {
                level,
                min_txid: min,
                max_txid: max,
            })
            &&& route_of(false, None, "PUT"@, path, Seq::empty(), h) matches RouteView::Text(s, _)
            && s == 403
            &&& route_of(false, None, "DELETE"@, path, Seq::empty(), h) matches RouteView::Text(
                s,
                _,
            ) && s == 403
        }),
{
    reveal_strlit("GET");
    reveal_strlit("PUT");
    reveal_strlit("DELETE");
    assert("PUT"@[0] != "GET"@[0]);
    assert("PUT"@.len() != "DELETE"@.len() && "GET"@.len() != "DELETE"@.len());
    let path = "/ltx/"@ + decimal(level as int) + "/"@ + filename(min, max);
    assert(url@ =~= client.base_url@ + path);
    lemma_ltx_file(level, min, max);
    lemma_level(level);
    law_filename_reads_back(min, max);
}

/// A client's request to wipe the bucket, and its request for the live stream
/// from a transaction on, lead a mount there.
pub proof fn law_wipe_and_stream_requests_are_understood(
    client: HttpReplicaClient,
    wipe: String,
    stream: String,
    writable: bool,
    h: HeaderSeq,
    seek: Txid,
)
    requires
        seek.0 > 0,
        call_ensures(HttpReplicaClient::wipe_url, (&client,), wipe),
        call_ensures(HttpReplicaClient::stream_url, (&client, seek), stream),
    ensures
        wipe@ == client.base_url@ + "/all"@,
        route_of(true, None, "DELETE"@, "/all"@, Seq::empty(), h) is DeleteAll,
        stream@ == client.base_url@ + "/stream"@ + "?"@ + ("seek="@ + txid_text(seek)),
        route_of(writable, None, "GET"@, "/stream"@, "seek="@ + txid_text(seek), h) == (
        RouteView::Stream { seek }),
{
    reveal_strlit("GET");
    reveal_strlit("PUT");
    reveal_strlit("DELETE");
    assert("PUT"@.len() != "DELETE"@.len() && "GET"@.len() != "DELETE"@.len());
    reveal_strlit("/all");
    reveal_strlit("all");
    reveal_strlit("/stream");
    reveal_strlit("stream");
    reveal_strlit("/");
    reveal_strlit("/stream?seek=");
    reveal_strlit("?");
    reveal_strlit("seek=");
    reveal_strlit("seek");
    reveal_strlit("meta");
    let none = Seq::<char>::empty();
    assert("/"@ + "all"@ + none =~= "/all"@);
    lemma_segments("all"@, none);
    assert("/"@ + "stream"@ + none =~= "/stream"@);
    lemma_segments("stream"@, none);
    assert(stream@ =~= client.base_url@ + "/stream"@ + "?"@ + ("seek="@ + txid_text(seek)));
    law_txid_text_reads_back(seek);
    lemma_txid_plain(seek);
    let t = txid_text(seek);
    assert("seek"@[0] != "meta"@[0]);
    lemma_query_one("seek"@, t, "meta"@);
    assert("seek="@ + t =~= "seek"@ + seq!['='] + t);
    assert(seq!["stream"@][0].len() > 0);
    assert(seq!["all"@].len() == 1);
}

proof fn lemma_bearer(t: Seq<char>)
    requires
        crate::client::header_safe(t),
    ensures
        ({
            let v = "Bearer "@ + t;
            let i = crate::mount::first_white(v);
            &&& i == 6 && i < v.len()
            &&& crate::text::lower(v.take(i)) == "bearer"@
            &&& crate::text::trimmed(v.skip(i + 1)) == t
        }),
{
    reveal_strlit("Bearer ");
    reveal_strlit("bearer");
    let v = "Bearer "@ + t;
    assert(v[0] == 'B' && v[1] == 'e' && v[2] == 'a' && v[3] == 'r' && v[4] == 'e' && v[5] == 'r'
        && v[6] == ' ');
    let v1 = v.skip(1);
    let v2 = v1.skip(1);
    let v3 = v2.skip(1);
    let v4 = v3.skip(1);
    let v5 = v4.skip(1);
    let v6 = v5.skip(1);
    assert(v1[0] == 'e' && v2[0] == 'a' && v3[0] == 'r' && v4[0] == 'e' && v5[0] == 'r' && v6[0]
        == ' ');
    assert(crate::text::word_len(v6) == 0);
    assert(crate::text::word_len(v5) == 1);
    assert(crate::text::word_len(v4) == 2);
    assert(crate::text::word_len(v3) == 3);
    assert(crate::text::word_len(v2) == 4);
    assert(crate::text::word_len(v1) == 5);
    assert(crate::text::word_len(v) == 6);
    assert(crate::text::lower(v.take(6)) =~= "bearer"@);
    assert(v.skip(7) =~= t);
    assert('!' <= t[0] <= '~');
    assert('!' <= t[t.len() - 1] <= '~');
    assert(crate::text::trim_front(t) == t);
    assert(t.last() == t[t.len() - 1]);
    assert(crate::text::trim_back(t) == t);
}

/// A mount with a token lets in just the clients that bear it, on reads and
/// on writes; a client without a token is turned away.
pub proof fn law_client_is_let_in_by_its_token(
    opts: HttpClientOptions,
    write_op: bool,
    token: Seq<char>,
)
    requires
        opts.auth_token matches Some(t) ==> crate::client::header_safe(t@),
    ensures
        is_authorized(request_headers(opts, write_op), token) <==> opts.auth_token is Some
            && opts.auth_token->0@ == token,
{
    reveal_strlit("authorization");
    reveal_strlit("x-liters-writer-id");
    reveal_strlit("x-liters-writer-takeover");
    let h = request_headers(opts, write_op);
    reveal_with_fuel(header_value, 5);
    if let Some(t) = opts.auth_token {
        lemma_bearer(t@);
        assert(h[0] == ("authorization"@, "Bearer "@ + t@));
    } else {
        assert("authorization"@.len() == 13);
        assert("x-liters-writer-id"@.len() == 18);
        assert("x-liters-writer-takeover"@.len() == 24);
        assert forall|i: int| 0 <= i < h.len() implies (#[trigger] h[i]).0 != "authorization"@ by {
            assert(h[i].0.len() != 13);
        }
        lemma_no_header(h, "authorization"@);
    }
}

proof fn lemma_no_header(h: HeaderSeq, name: Seq<char>)
    requires
        forall|i: int| 0 <= i < h.len() ==> (#[trigger] h[i]).0 != name,
    ensures
        header_value(h, name) is None,
    decreases h.len(),
{
    if h.len() > 0 {
        assert(h[0].0 != name);
        let t = h.skip(1);
        assert forall|i: int| 0 <= i < t.len() implies (#[trigger] t[i]).0 != name by {
            assert(t[i] == h[i + 1]);
        }
        lemma_no_header(t, name);
    }
}

/// The value of a header is that of the first entry of this name.
pub proof fn law_first_header_counts(h: HeaderSeq, name: Seq<char>, k: int)
    requires
        0 <= k < h.len(),
        h[k].0 == name,
        forall|i: int| 0 <= i < k ==> (#[trigger] h[i]).0 != name,
    ensures
        header_value(h, name) == Some(h[k].1),
    decreases k,
{
    if k > 0 {
        assert(h[0].0 != name);
        let t = h.skip(1);
        assert(t[k - 1] == h[k]);
        assert forall|i: int| 0 <= i < k - 1 implies (#[trigger] t[i]).0 != name by {
            assert(t[i] == h[i + 1]);
        }
        law_first_header_counts(t, name, k - 1);
    }
}

/// A client's writes tell who writes, and whether it takes over; its reads
/// tell neither. So a bucket is open to the writes of its owner, and to those
/// of one that takes over.
pub proof fn law_writes_tell_who_writes(
    opts: HttpClientOptions,
    lease: WriterLease,
    ttl: Span,
    now: u128,
)
    ensures
        ({
            let w = request_headers(opts, true);
            let r = request_headers(opts, false);
            let id = header_value(w, "x-liters-writer-id"@);
            &&& opts.writer_id is Some ==> id == Some(opts.writer_id->0@)
            &&& opts.writer_id is None ==> id is None
            &&& header_value(w, "x-liters-writer-takeover"@) == Some("1"@) <==> opts.takeover
            &&& header_value(r, "x-liters-writer-id"@) is None
            &&& header_value(r, "x-liters-writer-takeover"@) is None
            &&& opts.takeover || opts.writer_id is None || opts.writer_id->0@ == lease.id@
                ==> bucket_is_open_to(Some(lease), ttl, now, w)
            &&& opts.writer_id is Some && opts.writer_id->0@ != lease.id@ && !opts.takeover
                && now < lease.last_seen + ttl.nanos && ttl.nanos > 0 ==> !bucket_is_open_to(
                Some(lease),
                ttl,
                now,
                w,
            )
        }),
{
    reveal_strlit("authorization");
    reveal_strlit("x-liters-writer-id");
    reveal_strlit("x-liters-writer-takeover");
    assert("authorization"@.len() == 13);
    assert("x-liters-writer-id"@.len() == 18);
    assert("x-liters-writer-takeover"@.len() == 24);
    let w = request_headers(opts, true);
    let r = request_headers(opts, false);
    lemma_lengths(opts);
    let a: int = if opts.auth_token is Some {
        1
    } else {
        0
    };
    let b: int = if opts.writer_id is Some {
        1
    } else {
        0
    };
    if opts.writer_id is Some {
        law_first_header_counts(w, "x-liters-writer-id"@, a);
    } else {
        lemma_no_header(w, "x-liters-writer-id"@);
    }
    if opts.takeover {
        law_first_header_counts(w, "x-liters-writer-takeover"@, a + b);
    } else {
        lemma_no_header(w, "x-liters-writer-takeover"@);
    }
    lemma_no_header(r, "x-liters-writer-id"@);
    lemma_no_header(r, "x-liters-writer-takeover"@);
}

proof fn lemma_lengths(opts: HttpClientOptions)
    requires
        "authorization"@.len() == 13,
        "x-liters-writer-id"@.len() == 18,
        "x-liters-writer-takeover"@.len() == 24,
    ensures
        ({
            let w = request_headers(opts, true);
            let r = request_headers(opts, false);
            let a: int = if opts.auth_token is Some {
                1
            } else {
                0
            };
            let b: int = if opts.writer_id is Some {
                1
            } else {
                0
            };
            &&& w.len() == a + b + if opts.takeover {
                1int
            } else {
                0
            }
            &&& r.len() == a
            &&& a == 1 ==> w[0].0.len() == 13 && r[0].0.len() == 13
            &&& b == 1 ==> w[a] == ("x-liters-writer-id"@, opts.writer_id->0@)
            &&& opts.takeover ==> w[a + b] == ("x-liters-writer-takeover"@, "1"@)
            &&& forall|i: int|
                0 <= i < w.len() ==> (#[trigger] w[i]).0.len() == (if i < a {
                    13int
                } else if i < a + b {
                    18
                } else {
                    24
                })
        }),
{
}

/// A client tells the refusals of a mount apart: a missing token, a read-only
/// mount where it wanted to write, and a conflict each become their own error,
/// none of which is worth a retry.
pub proof fn law_refusals_are_told_apart(
    e: crate::error::StorageError,
    context: Seq<char>,
    write_op: bool,
    status: u16,
    excerpt: Seq<char>,
)
    requires
        crate::client::refuses(e, context, write_op, status, excerpt),
    ensures
        status == 401 <==> e is Unauthorized,
        status == 403 && write_op <==> e is ReadOnly,
        status == 409 <==> e is Conflict,
        status != 401 && status != 409 && !(status == 403 && write_op) ==> e is Other,
        !crate::error::storage_transient(e),
{
}

/// A mount says no in ways that tell why: without the token nothing but that
/// is said; a bucket that is not writable is never written to or deleted from,
/// and a write to a file of it is refused as such; a method that it does not
/// know is none; a stream starts at a transaction; and only reads read, only
/// writes write and only deletions delete.
pub proof fn law_mount_says_why_not(
    mount: MountOptions,
    method: &str,
    path: &str,
    query: &str,
    headers: &[(String, String)],
    r: Route,
)
    requires
        call_ensures(MountOptions::route, (&mount, method, path, query, headers), r),
    ensures
        ({
            let h = header_seq(headers@);
            let barred = mount.auth_token is Some && !is_authorized(h, mount.auth_token->0@);
            let names_file = segments(path@).len() == 3 && segments(path@)[0] == "ltx"@;
            &&& barred ==> r is Text && r->Text_0 == 401
            &&& !barred && r is Text ==> r->Text_0 == 200 || r->Text_0 == 400 || r->Text_0 == 403
                || r->Text_0 == 404 || r->Text_0 == 405
            &&& !barred && r is Text && r->Text_0 == 200 ==> method@ == "GET"@
            &&& !barred ==> (r is Text && r->Text_0 == 405 <==> method@ != "GET"@ && method@
                != "PUT"@ && method@ != "DELETE"@)
            &&& !barred && !mount.writable && names_file && (method@ == "PUT"@ || method@
                == "DELETE"@) ==> r is Text && r->Text_0 == 403
            &&& r is Put || r is Delete || r is DeleteAll ==> mount.writable && !barred
            &&& r is Put ==> method@ == "PUT"@
            &&& r is Delete || r is DeleteAll ==> method@ == "DELETE"@
            &&& r is List || r is File || r is Stream ==> method@ == "GET"@ && !barred
            &&& r is Stream ==> r->Stream_seek.0 >= 1
            &&& r is List ==> r->List_level <= 9
            &&& r is File ==> r->File_level <= 9
            &&& r is Put ==> r->Put_level <= 9
            &&& r is Delete ==> r->Delete_level <= 9
        }),
{
    reveal_strlit("GET");
    reveal_strlit("PUT");
    reveal_strlit("DELETE");
    assert("GET"@[0] != "PUT"@[0] && "GET"@[0] != "DELETE"@[0] && "PUT"@[0] != "DELETE"@[0]);
}

} // verus!
