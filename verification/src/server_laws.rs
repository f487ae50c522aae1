//! What one end of a connection writes, the other end reads: request lines,
//! status lines, urls, and the paths that a mount sees.
use crate::listing::{lemma_digits_not_white, lemma_words_cons};
use crate::mount::segments;
use crate::protocol_laws::plain;
use crate::server::{
    join_segments, reason_text, request_parts, server_route, under_mount, ServerRoute,
};
use crate::text::{
    decimal, index_of, is_white, law_digits_write_the_number, law_written_number_reads_back,
    lemma_index_of_is, pieces, without_leading, without_trailing, words,
};
use crate::transport::{
    framing_of, host_port, last_index_of, stated_status, url_parts, Framing, UrlParts,
};
use crate::wire::{header_value, HeaderSeq};
use vstd::prelude::*;

verus! {

/// Whether a text is one word.
pub open spec fn one_word(s: Seq<char>) -> bool {
    s.len() > 0 && forall|i: int| 0 <= i < s.len() ==> !is_white(#[trigger] s[i])
}

/// A request line reads as the method, the path and the query that it was made
/// of, whatever follows.
pub proof fn law_request_line_reads_back(
    method: Seq<char>,
    path: Seq<char>,
    query: Seq<char>,
    rest: Seq<char>,
)
    requires
        one_word(method),
        one_word(path),
        !path.contains('?'),
        query.len() > 0 ==> one_word(query),
    ensures
        request_parts(method + seq![' '] + (path + seq!['?'] + query) + seq![' '] + rest) == Some(
            (method, path, query),
        ),
        request_parts(method + seq![' '] + path + seq![' '] + rest) == Some(
            (method, path, Seq::<char>::empty()),
        ),
{
    assert forall|i: int| 0 <= i < path.len() implies path[i] != '?' by {
        if path[i] == '?' {
            assert(path.contains('?'));
        }
    }
    let target = path + seq!['?'] + query;
    assert forall|i: int| 0 <= i < target.len() implies !is_white(#[trigger] target[i]) by {
        if i < path.len() {
            assert(target[i] == path[i]);
        } else if i > path.len() {
            assert(target[i] == query[i - path.len() - 1]);
        }
    }
    lemma_two_words(method, target, rest);
    lemma_two_words(method, path, rest);
    lemma_index_of_is(target, '?', path.len() as int);
    assert(target.take(path.len() as int) =~= path);
    assert(target.skip(path.len() as int + 1) =~= query);
    lemma_index_of_is(path, '?', path.len() as int);
}

proof fn lemma_two_words(a: Seq<char>, b: Seq<char>, rest: Seq<char>)
    requires
        one_word(a),
        one_word(b),
    ensures
        words(a + seq![' '] + b + seq![' '] + rest).len() >= 2,
        words(a + seq![' '] + b + seq![' '] + rest)[0] == a,
        words(a + seq![' '] + b + seq![' '] + rest)[1] == b,
{
    let tail = b + seq![' '] + rest;
    assert(a + seq![' '] + b + seq![' '] + rest =~= a + seq![' '] + tail);
    lemma_words_cons(a, ' ', tail);
    lemma_words_cons(b, ' ', rest);
    let w = words(a + seq![' '] + tail);
    assert(w == seq![a] + (seq![b] + words(rest)));
    assert(w[0] == a && w[1] == b);
}

/// A status line reads as the status that it was made of.
pub proof fn law_status_line_reads_back(status: u16)
    ensures
        stated_status("HTTP/1.1"@ + seq![' '] + decimal(status as int) + seq![' '] + reason_text(
            status,
        )) == Some(status as int),
{
    reveal_strlit("HTTP/1.1");
    let d = decimal(status as int);
    lemma_digits_not_white(status as nat);
    assert(one_word("HTTP/1.1"@));
    assert(one_word(d));
    lemma_two_words("HTTP/1.1"@, d, reason_text(status));
    law_written_number_reads_back(status as nat, 10, u16::MAX as int);
}

/// Whether a text can be the host of a url as it is.
pub open spec fn is_host(host: Seq<char>) -> bool {
    &&& host.len() > 0
    &&& host[0] != '['
    &&& forall|i: int| 0 <= i < host.len() ==> (#[trigger] host[i]) != '/' && host[i] != ':'
}

proof fn lemma_last_index(s: Seq<char>, c: char, k: int)
    requires
        -1 <= k < s.len(),
        k >= 0 ==> s[k] == c,
        forall|i: int| k < i < s.len() ==> s[i] != c,
    ensures
        last_index_of(s, c) == k,
    decreases s.len(),
{
    if s.len() > 0 && k < s.len() - 1 {
        assert(s[s.len() - 1] != c);
        lemma_last_index(s.drop_last(), c, k);
    }
}

/// A url points at the host and port that stand in it, at port 80 if it names
/// none, and at the path that follows, or the root.
pub proof fn law_url_points_where_it_says(host: Seq<char>, port: u16, target: Seq<char>)
    requires
        is_host(host),
        target.len() > 0 ==> target[0] == '/',
    ensures
        ({
            let path = if target.len() > 0 {
                target
            } else {
                "/"@
            };
            &&& url_parts("http://"@ + (host + seq![':'] + decimal(port as int)) + target) == Ok::<
                UrlParts,
                Seq<char>,
            >(UrlParts { host, port: port as int, target: path })
            &&& url_parts("http://"@ + host + target) == Ok::<UrlParts, Seq<char>>(
                UrlParts { host, port: 80, target: path },
            )
        }),
{
    let d = decimal(port as int);
    let full = host + seq![':'] + d;
    crate::protocol_laws::lemma_decimal_plain(port as u64);
    law_written_number_reads_back(port as nat, 10, u16::MAX as int);
    law_digits_write_the_number(port as nat, 10);
    assert forall|i: int| 0 <= i < full.len() implies full[i] != '/' by {
        if i < host.len() {
            assert(full[i] == host[i]);
        } else if i > host.len() {
            assert(full[i] == d[i - host.len() - 1]);
        }
    }
    assert forall|i: int| host.len() < i < full.len() implies full[i] != ':' by {
        assert(full[i] == d[i - host.len() - 1]);
        assert(crate::text::digit_value(d[i - host.len() - 1]) < 10);
    }
    lemma_last_index(full, ':', host.len() as int);
    assert(full.skip(host.len() as int + 1) =~= d);
    assert(full.take(host.len() as int) =~= host);
    assert(full[0] == host[0]);
    lemma_url(full, target);
    assert forall|i: int| -1 < i < host.len() implies host[i] != ':' by {}
    lemma_last_index(host, ':', -1);
    assert forall|i: int| 0 <= i < host.len() implies host[i] != '/' by {}
    lemma_url(host, target);
}

proof fn lemma_url(authority: Seq<char>, target: Seq<char>)
    requires
        forall|i: int| 0 <= i < authority.len() ==> authority[i] != '/',
        target.len() > 0 ==> target[0] == '/',
        host_port(authority) is Ok,
        (host_port(authority)->Ok_0).0.len() > 0,
    ensures
        url_parts("http://"@ + authority + target) == Ok::<UrlParts, Seq<char>>(
            UrlParts {
                host: (host_port(authority)->Ok_0).0,
                port: (host_port(authority)->Ok_0).1,
                target: if target.len() > 0 {
                    target
                } else {
                    "/"@
                },
            },
        ),
{
    let url = "http://"@ + authority + target;
    let n = "http://"@.len() as int;
    let rest = url.skip(n);
    assert(url.take(n) =~= "http://"@);
    assert(rest =~= authority + target);
    lemma_index_of_is(rest, '/', authority.len() as int);
    assert(rest.take(authority.len() as int) =~= authority);
    assert(rest.skip(authority.len() as int) =~= target);
}

/// Whether these can be the segments of a path: none is empty, and none holds
/// a slash.
pub open spec fn are_segments(s: Seq<Seq<char>>) -> bool {
    forall|i: int| 0 <= i < s.len() ==> (#[trigger] s[i]).len() > 0 && plain(s[i])
}

proof fn lemma_pieces_last(a: Seq<char>, b: Seq<char>, c: char)
    requires
        forall|i: int| 0 <= i < b.len() ==> b[i] != c,
    ensures
        pieces(a + seq![c] + b, c) == pieces(a, c).push(b),
    decreases a.len(),
{
    let s = a + seq![c] + b;
    crate::text::lemma_index_of(a, c);
    let i = index_of(a, c);
    if i < a.len() {
        lemma_index_of_is(s, c, i);
        assert(s.take(i) =~= a.take(i));
        assert(s.skip(i + 1) =~= a.skip(i + 1) + seq![c] + b);
        lemma_pieces_last(a.skip(i + 1), b, c);
        assert(pieces(s, c) =~= pieces(a, c).push(b));
    } else {
        lemma_index_of_is(s, c, a.len() as int);
        assert(s.take(a.len() as int) =~= a);
        assert(s.skip(a.len() as int + 1) =~= b);
        lemma_index_of_is(b, c, b.len() as int);
        assert(pieces(b, c) == seq![b]);
        assert(pieces(s, c) == seq![a] + pieces(b, c));
        assert(pieces(a, c) == seq![a]);
        assert(pieces(s, c) =~= pieces(a, c).push(b));
    }
}

proof fn lemma_join(s: Seq<Seq<char>>)
    requires
        s.len() > 0,
        are_segments(s),
    ensures
        pieces(join_segments(s), '/') == s,
        join_segments(s).len() > 0,
        join_segments(s)[0] != '/',
        join_segments(s).last() != '/',
    decreases s.len(),
{
    reveal_strlit("/");
    let last = s.last();
    assert(last == s[s.len() - 1]);
    assert(last.len() > 0 && plain(last));
    assert(last[last.len() - 1] != '/');
    if s.len() == 1 {
        lemma_index_of_is(last, '/', last.len() as int);
        assert(join_segments(s) == s[0]);
        assert(seq![last] =~= s);
        assert(s[0][0] != '/');
    } else {
        let t = s.drop_last();
        assert forall|i: int| 0 <= i < t.len() implies (#[trigger] t[i]).len() > 0 && plain(
            t[i],
        ) by {
            assert(t[i] == s[i]);
        }
        lemma_join(t);
        let a = join_segments(t);
        assert(join_segments(s) =~= a + seq!['/'] + last);
        lemma_pieces_last(a, last, '/');
        assert(t.push(last) =~= s);
    }
}

/// A mount under a prefix sees the segments of a path that follow the prefix,
/// and paths elsewhere are not found; the bare root answers that the server is
/// up. A push must say how its body is delimited.
pub proof fn law_mount_sees_what_follows_its_prefix(
    base: Seq<Seq<char>>,
    rest: Seq<Seq<char>>,
    method: Seq<char>,
    path: Seq<char>,
    h: HeaderSeq,
    r: ServerRoute,
)
    requires
        segments(path) == base + rest,
        are_segments(rest),
        rest.len() > 0,
        are_segments(base),
        server_route(base, method, path, h, r),
    ensures
        method != "PUT"@ ==> r is Mount && r->Mount_1 is None,
        method == "PUT"@ && framing_of(h) is UntilClose ==> r is LengthRequired,
        method == "PUT"@ && framing_of(h) !is UntilClose ==> r is Mount && r->Mount_1 == Some(
            framing_of(h),
        ),
        r is Mount ==> segments(r->Mount_0@) == rest,
{
    let s = segments(path);
    assert(s.take(base.len() as int) =~= base);
    assert(s.skip(base.len() as int) =~= rest);
    assert(s.len() == base.len() + rest.len());
    if s.len() == 1 {
        assert(s[0] == rest[0]);
        assert(rest[0].len() > 0);
    }
    lemma_join(rest);
    let j = join_segments(rest);
    assert(without_leading(j, '/') == j);
    assert(without_trailing(j, '/') == j);
}

/// A path that does not start with the prefix is not found, unless it is the
/// bare root.
pub proof fn law_paths_elsewhere_are_not_found(
    base: Seq<Seq<char>>,
    method: Seq<char>,
    path: Seq<char>,
    h: HeaderSeq,
    r: ServerRoute,
    i: int,
)
    requires
        0 <= i < base.len(),
        i >= segments(path).len() || segments(path)[i] != base[i],
        server_route(base, method, path, h, r),
    ensures
        r is NotFound || (r is Health && method == "GET"@ && segments(path).len() == 1
            && segments(path)[0].len() == 0),
{
    let s = segments(path);
    if under_mount(base, s) {
        assert(s.take(base.len() as int)[i] == base[i]);
    }
}

/// Chunks take precedence over a stated length; a length counts if it is a
/// number; and without either the body ends with the connection.
pub proof fn law_bodies_are_delimited_as_stated(h: HeaderSeq, n: u64)
    ensures
        header_value(h, "transfer-encoding"@) == Some("chunked"@) ==> framing_of(h) is Chunked,
        header_value(h, "transfer-encoding"@) is None && header_value(h, "content-length"@)
            == Some(decimal(n as int)) ==> framing_of(h) == Framing::Length(n),
        header_value(h, "transfer-encoding"@) is None && header_value(h, "content-length"@)
            is None ==> framing_of(h) is UntilClose,
{
    reveal_strlit("chunked");
    assert(crate::text::lower("chunked"@) =~= "chunked"@);
    law_written_number_reads_back(n as nat, 10, u64::MAX as int);
}

} // verus!
