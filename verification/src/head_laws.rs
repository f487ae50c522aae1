//! What is read of a head is what was written: the start line and every
//! header.
use crate::io::all_good;
use crate::server::{reason_text, response_head, response_text};
use crate::server_laws::law_status_line_reads_back;
use crate::text::{
    decimal, digit_value, is_white, law_digits_write_the_number, lemma_index_of_is, lower,
    trim_front, trimmed,
};
use crate::transport::{header_block, request_head, stated_status};
use crate::wire::{
    ascii_bytes, head_step, header_line, header_lines, header_seq, header_value, line_step,
    strip_cr, with_header_line, HeadStep, HeaderSeq, LineStep, PROTOCOL_HEADER, PROTOCOL_VERSION,
};
use crate::wire_laws::{lemma_ascii_text, lemma_whole_line};
use vstd::prelude::*;
use vstd::utf8::encode_utf8;

verus! {

/// Whether a text is made of printable ASCII.
pub open spec fn printable(s: Seq<char>) -> bool {
    forall|i: int| 0 <= i < s.len() ==> ' ' <= #[trigger] s[i] <= '~'
}

/// Whether a header arrives as it is sent: its name is in lower case and has
/// no colon, neither its name nor its value has white space around it, and it
/// fits a line.
pub open spec fn is_header(p: (Seq<char>, Seq<char>)) -> bool {
    &&& printable(p.0) && printable(p.1)
    &&& p.0.len() > 0 && !p.0.contains(':')
    &&& lower(p.0) == p.0 && trimmed(p.0) == p.0 && trimmed(p.1) == p.1
    &&& p.0.len() + p.1.len() + 3 <= 8192
}

/// Whether all of these arrive as they are sent.
pub open spec fn are_headers(h: HeaderSeq) -> bool {
    forall|i: int| 0 <= i < h.len() ==> is_header(#[trigger] h[i])
}

proof fn lemma_printable_concat(a: Seq<char>, b: Seq<char>)
    requires
        printable(a),
        printable(b),
    ensures
        printable(a + b),
{
    assert forall|i: int| 0 <= i < (a + b).len() implies ' ' <= #[trigger] (a + b)[i] <= '~' by {
        if i < a.len() {
            assert((a + b)[i] == a[i]);
        } else {
            assert((a + b)[i] == b[i - a.len()]);
        }
    }
}

/// The bytes of a line that ends in a carriage return and a line feed.
pub open spec fn line_bytes(line: Seq<char>) -> Seq<u8> {
    ascii_bytes(line) + seq![13u8, 10u8]
}

pub proof fn lemma_line_arrives(line: Seq<char>, more: Seq<u8>)
    requires
        printable(line),
        line.len() < 8192,
    ensures
        line_step(Seq::empty(), all_good(line_bytes(line) + more)) == (LineStep {
            result: Ok(Some(line)),
            held: Seq::empty(),
            rest: all_good(more),
        }),
{
    let b = ascii_bytes(line) + seq![13u8];
    assert forall|i: int| 0 <= i < line.len() implies 0 <= (#[trigger] line[i]) as int && (
    line[i] as int) < 128 by {}
    lemma_ascii_text(line);
    assert forall|i: int| 0 <= i < b.len() implies b[i] != 10 by {
        if i < line.len() {
            assert(' ' <= line[i] <= '~');
            assert(b[i] == line[i] as u8);
        }
    }
    assert(line_bytes(line) + more =~= b + seq![10u8] + more);
    lemma_whole_line(b, more);
    assert(b.last() == 13);
    assert(b.drop_last() =~= ascii_bytes(line));
    assert(strip_cr(b) == ascii_bytes(line));
}

/// The lines of headers as bytes, the first one first.
spec fn block_bytes(h: HeaderSeq) -> Seq<u8>
    decreases h.len(),
{
    if h.len() == 0 {
        Seq::empty()
    } else {
        line_bytes(h[0].0 + ": "@ + h[0].1) + block_bytes(h.skip(1))
    }
}

proof fn lemma_header_line(p: (Seq<char>, Seq<char>))
    requires
        is_header(p),
    ensures
        header_line(p.0 + ": "@ + p.1) == Some(p),
        printable(p.0 + ": "@ + p.1),
        (p.0 + ": "@ + p.1).len() > 0,
{
    reveal_strlit(": ");
    let line = p.0 + ": "@ + p.1;
    assert forall|i: int| 0 <= i < p.0.len() implies p.0[i] != ':' by {
        if p.0[i] == ':' {
            assert(p.0.contains(':'));
        }
    }
    assert forall|i: int| 0 <= i < p.0.len() implies line[i] != ':' by {
        assert(line[i] == p.0[i]);
    }
    assert(line[p.0.len() as int] == ':');
    lemma_index_of_is(line, ':', p.0.len() as int);
    assert(line.take(p.0.len() as int) =~= p.0);
    let v = line.skip(p.0.len() as int + 1);
    assert(v =~= seq![' '] + p.1);
    assert(v[0] == ' ' && is_white(' '));
    assert(v.skip(1) =~= p.1);
    assert(trim_front(v) == trim_front(p.1));
    lemma_printable_concat(p.0, ": "@);
    lemma_printable_concat(p.0 + ": "@, p.1);
}

proof fn lemma_block_arrives(
    start: Seq<char>,
    got: HeaderSeq,
    h: HeaderSeq,
    more: Seq<u8>,
)
    requires
        are_headers(h),
        got.len() + h.len() <= 100,
    ensures
        header_lines(
            start,
            got,
            Seq::empty(),
            all_good(block_bytes(h) + (seq![13u8, 10u8] + more)),
        ) == (HeadStep { result: Ok((start, got + h)), rest: all_good(more) }),
    decreases h.len(),
{
    let end = seq![13u8, 10u8] + more;
    let s = all_good(block_bytes(h) + end);
    if h.len() == 0 {
        let none = Seq::<char>::empty();
        assert(block_bytes(h) + end =~= line_bytes(none) + more);
        lemma_line_arrives(none, more);
        assert(got + h =~= got);
    } else {
        assert(is_header(h[0]));
        lemma_header_line(h[0]);
        let line = h[0].0 + ": "@ + h[0].1;
        reveal_strlit(": ");
        let rest = h.skip(1);
        assert forall|i: int| 0 <= i < rest.len() implies is_header(#[trigger] rest[i]) by {
            assert(rest[i] == h[i + 1]);
        }
        let after = block_bytes(rest) + end;
        assert(block_bytes(h) + end =~= line_bytes(line) + after);
        lemma_line_arrives(line, after);
        assert(with_header_line(got, line) == got.push(h[0]));
        lemma_block_arrives(start, got.push(h[0]), rest, more);
        assert(got.push(h[0]) + rest =~= got + h);
    }
}

proof fn lemma_block_front(h: HeaderSeq)
    requires
        h.len() > 0,
    ensures
        header_block(h) == h[0].0 + ": "@ + h[0].1 + "\r\n"@ + header_block(h.skip(1)),
    decreases h.len(),
{
    let t = h.drop_last();
    let rest = h.skip(1);
    if h.len() == 1 {
        assert(t.len() == 0 && rest.len() == 0);
        assert(h.last() == h[0]);
        assert(header_block(t) == Seq::<char>::empty());
        assert(header_block(rest) == Seq::<char>::empty());
        assert(header_block(h) == header_block(t) + h.last().0 + ": "@ + h.last().1 + "\r\n"@);
        assert(header_block(h) =~= h[0].0 + ": "@ + h[0].1 + "\r\n"@ + header_block(rest));
    } else {
        lemma_block_front(t);
        assert(t.skip(1) =~= rest.drop_last());
        assert(rest.last() == h.last());
        assert(t[0] == h[0]);
        assert(header_block(h) == header_block(t) + h.last().0 + ": "@ + h.last().1 + "\r\n"@);
        assert(header_block(rest) == header_block(rest.drop_last()) + rest.last().0 + ": "@
            + rest.last().1 + "\r\n"@);
        assert(header_block(h) =~= h[0].0 + ": "@ + h[0].1 + "\r\n"@ + header_block(rest));
    }
}

proof fn lemma_ascii_concat(a: Seq<char>, b: Seq<char>)
    ensures
        ascii_bytes(a + b) == ascii_bytes(a) + ascii_bytes(b),
{
    assert(ascii_bytes(a + b) =~= ascii_bytes(a) + ascii_bytes(b));
}

/// Whether a text can be encoded byte by byte.
spec fn is_ascii(s: Seq<char>) -> bool {
    forall|i: int| 0 <= i < s.len() ==> 0 <= (#[trigger] s[i]) as int && (s[i] as int) < 128
}

proof fn lemma_block_bytes(h: HeaderSeq)
    requires
        are_headers(h),
    ensures
        ascii_bytes(header_block(h)) == block_bytes(h),
        is_ascii(header_block(h)),
    decreases h.len(),
{
    reveal_strlit("\r\n");
    if h.len() == 0 {
        assert(ascii_bytes(header_block(h)) =~= block_bytes(h));
    } else {
        lemma_block_front(h);
        let rest = h.skip(1);
        assert forall|i: int| 0 <= i < rest.len() implies is_header(#[trigger] rest[i]) by {
            assert(rest[i] == h[i + 1]);
        }
        lemma_block_bytes(rest);
        assert(is_header(h[0]));
        lemma_header_line(h[0]);
        let line = h[0].0 + ": "@ + h[0].1;
        lemma_ascii_concat(line, "\r\n"@);
        lemma_ascii_concat(line + "\r\n"@, header_block(rest));
        assert(ascii_bytes("\r\n"@) =~= seq![13u8, 10u8]);
        let all = line + "\r\n"@ + header_block(rest);
        assert forall|i: int| 0 <= i < all.len() implies 0 <= (#[trigger] all[i]) as int && (
        all[i] as int) < 128 by {
            if i < line.len() {
                assert(all[i] == line[i]);
                assert(' ' <= line[i] <= '~');
            } else if i >= line.len() + 2 {
                assert(all[i] == header_block(rest)[i - line.len() - 2]);
            }
        }
    }
}

/// A head that is sent is read as it was: the start line, every header in
/// order, and nothing of what follows the blank line.
pub proof fn law_head_reads_back(start: Seq<char>, h: HeaderSeq, more: Seq<u8>)
    requires
        printable(start),
        0 < start.len() < 8192,
        are_headers(h),
        h.len() <= 100,
    ensures
        head_step(
            all_good(encode_utf8(start + "\r\n"@ + header_block(h) + "\r\n"@) + more),
        ) == (HeadStep { result: Ok((start, h)), rest: all_good(more) }),
{
    reveal_strlit("\r\n");
    let text = start + "\r\n"@ + header_block(h) + "\r\n"@;
    lemma_block_bytes(h);
    assert forall|i: int| 0 <= i < text.len() implies 0 <= (#[trigger] text[i]) as int && (
    text[i] as int) < 128 by {
        if i < start.len() {
            assert(text[i] == start[i]);
            assert(' ' <= start[i] <= '~');
        } else if start.len() + 2 <= i < start.len() + 2 + header_block(h).len() {
            assert(text[i] == header_block(h)[i - start.len() - 2]);
        }
    }
    assert(vstd::utf8::is_ascii_chars(text));
    vstd::utf8::is_ascii_chars_encode_utf8(text);
    assert(encode_utf8(text) =~= ascii_bytes(text));
    lemma_ascii_concat(start, "\r\n"@);
    lemma_ascii_concat(start + "\r\n"@, header_block(h));
    lemma_ascii_concat(start + "\r\n"@ + header_block(h), "\r\n"@);
    assert(ascii_bytes("\r\n"@) =~= seq![13u8, 10u8]);
    let after = block_bytes(h) + (seq![13u8, 10u8] + more);
    assert(encode_utf8(text) + more =~= line_bytes(start) + after);
    lemma_line_arrives(start, after);
    lemma_block_arrives(start, Seq::empty(), h, more);
    assert(Seq::<(Seq<char>, Seq<char>)>::empty() + h =~= h);
}

proof fn lemma_plain_header(n: Seq<char>, v: Seq<char>)
    requires
        0 < n.len() < 4000,
        0 < v.len() < 4000,
        forall|i: int| 0 <= i < n.len() ==> 'a' <= #[trigger] n[i] <= 'z' || n[i] == '-',
        forall|i: int| 0 <= i < v.len() ==> '!' <= #[trigger] v[i] <= '~',
    ensures
        is_header((n, v)),
{
    assert(lower(n) =~= n);
    assert forall|i: int| 0 <= i < n.len() implies ' ' <= #[trigger] n[i] <= '~' by {}
    assert forall|i: int| 0 <= i < v.len() implies ' ' <= #[trigger] v[i] <= '~' by {}
    assert(!n.contains(':')) by {
        if n.contains(':') {
            let i = choose|i: int| 0 <= i < n.len() && n[i] == ':';
            assert('a' <= n[i] <= 'z' || n[i] == '-');
        }
    }
    assert('a' <= n[0] <= 'z' || n[0] == '-');
    assert('a' <= n[n.len() - 1] <= 'z' || n[n.len() - 1] == '-');
    assert('!' <= v[0] <= '~' && '!' <= v[v.len() - 1] <= '~');
}

proof fn lemma_fixed_headers()
    ensures
        is_header((PROTOCOL_HEADER@, PROTOCOL_VERSION@)),
        is_header(("server"@, "liters"@)),
        is_header(("connection"@, "close"@)),
        is_header(("transfer-encoding"@, "chunked"@)),
{
    reveal_strlit("x-liters-protocol");
    reveal_strlit("1");
    reveal_strlit("server");
    reveal_strlit("liters");
    reveal_strlit("connection");
    reveal_strlit("close");
    reveal_strlit("transfer-encoding");
    reveal_strlit("chunked");
    lemma_plain_header(PROTOCOL_HEADER@, PROTOCOL_VERSION@);
    lemma_plain_header("server"@, "liters"@);
    lemma_plain_header("connection"@, "close"@);
    lemma_plain_header("transfer-encoding"@, "chunked"@);
}

/// The first number with more than `k` digits.
spec fn tens(k: nat) -> nat
    decreases k,
{
    if k == 0 {
        1
    } else {
        10 * tens((k - 1) as nat)
    }
}

proof fn lemma_digit_count(n: nat, k: nat)
    requires
        k > 0,
        n < tens(k),
    ensures
        decimal(n as int).len() <= k,
    decreases n,
{
    if n >= 10 {
        assert(k > 1) by {
            reveal_with_fuel(tens, 2);
        }
        lemma_digit_count(n / 10, (k - 1) as nat);
    }
}

proof fn lemma_number_is_short(n: nat)
    requires
        n <= u64::MAX,
    ensures
        0 < decimal(n as int).len() <= 20,
        forall|i: int| 0 <= i < decimal(n as int).len() ==> '!' <= #[trigger] decimal(n as int)[i]
            <= '~',
{
    law_digits_write_the_number(n, 10);
    let d = decimal(n as int);
    assert forall|i: int| 0 <= i < d.len() implies '!' <= #[trigger] d[i] <= '~' by {
        assert(digit_value(d[i]) < 10);
    }
    assert(n < tens(20)) by {
        reveal_with_fuel(tens, 21);
    }
    lemma_digit_count(n, 20);
}

proof fn lemma_reason_is_printable(status: u16)
    ensures
        printable(reason_text(status)),
        reason_text(status).len() < 100,
{
    reveal_strlit("OK");
    reveal_strlit("Bad Request");
    reveal_strlit("Unauthorized");
    reveal_strlit("Forbidden");
    reveal_strlit("Not Found");
    reveal_strlit("Method Not Allowed");
    reveal_strlit("Conflict");
    reveal_strlit("Length Required");
    reveal_strlit("Internal Server Error");
}

proof fn lemma_blocks_join(a: HeaderSeq, b: HeaderSeq)
    ensures
        header_block(a + b) == header_block(a) + header_block(b),
    decreases b.len(),
{
    if b.len() == 0 {
        assert(a + b =~= a);
        assert(header_block(a) + header_block(b) =~= header_block(a));
    } else {
        lemma_blocks_join(a, b.drop_last());
        assert((a + b).drop_last() =~= a + b.drop_last());
        assert((a + b).last() == b.last());
        assert(header_block(a + b) =~= header_block(a) + header_block(b));
    }
}

proof fn lemma_block_of_one(p: (Seq<char>, Seq<char>))
    ensures
        header_block(seq![p]) == p.0 + ": "@ + p.1 + "\r\n"@,
{
    reveal_with_fuel(header_block, 2);
    assert(seq![p].drop_last() =~= Seq::empty());
    assert(header_block(seq![p]) =~= p.0 + ": "@ + p.1 + "\r\n"@);
}

/// The headers of a request: where it goes to, what the client has to say, how
/// its body goes out, and that the connection ends with it.
pub open spec fn request_lines(
    host: Seq<char>,
    port: u16,
    h: HeaderSeq,
    has_body: bool,
) -> HeaderSeq {
    seq![("host"@, host + ":"@ + decimal(port as int))] + h + (if has_body {
        seq![("transfer-encoding"@, "chunked"@)]
    } else {
        Seq::empty()
    }) + seq![("connection"@, "close"@)]
}

/// The headers of a response: that it is one of this protocol, who sends it,
/// that the connection ends with it, what the mount has to say, and how the
/// body is delimited.
pub open spec fn response_lines(h: HeaderSeq, length: Option<int>) -> HeaderSeq {
    seq![
        (PROTOCOL_HEADER@, PROTOCOL_VERSION@),
        ("server"@, "liters"@),
        ("connection"@, "close"@),
    ] + h + match length {
        Some(n) => seq![("content-length"@, decimal(n))],
        None => seq![("transfer-encoding"@, "chunked"@)],
    }
}

/// A request is read as it was sent: the method and the target in its first
/// line, and its headers.
pub proof fn law_request_head_reads_back(
    method: &str,
    target: &str,
    host: &str,
    port: u16,
    headers: &[(String, String)],
    has_body: bool,
    head: String,
    more: Seq<u8>,
)
    requires
        call_ensures(request_head, (method, target, host, port, headers, has_body), head),
        printable(method@),
        printable(target@),
        method@.len() + target@.len() < 8000,
        is_header(("host"@, host@ + ":"@ + decimal(port as int))),
        are_headers(header_seq(headers@)),
        headers@.len() <= 97,
    ensures
        head_step(all_good(encode_utf8(head@) + more)) == (HeadStep {
            result: Ok(
                (
                    method@ + " "@ + target@ + " HTTP/1.1"@,
                    request_lines(host@, port, header_seq(headers@), has_body),
                ),
            ),
            rest: all_good(more),
        }),
{
    reveal_strlit(" ");
    reveal_strlit(" HTTP/1.1");
    reveal_strlit(" HTTP/1.1\r\nhost: ");
    reveal_strlit("\r\n");
    reveal_strlit("host");
    reveal_strlit(": ");
    reveal_strlit("transfer-encoding");
    reveal_strlit("chunked");
    reveal_strlit("connection");
    reveal_strlit("close");
    reveal_strlit("transfer-encoding: chunked\r\nconnection: close\r\n\r\n");
    reveal_strlit("connection: close\r\n\r\n");
    let h = header_seq(headers@);
    let first = ("host"@, host@ + ":"@ + decimal(port as int));
    let body = if has_body {
        seq![("transfer-encoding"@, "chunked"@)]
    } else {
        Seq::empty()
    };
    let last = ("connection"@, "close"@);
    lemma_blocks_join(seq![first] + h + body, seq![last]);
    lemma_blocks_join(seq![first] + h, body);
    lemma_blocks_join(seq![first], h);
    lemma_block_of_one(first);
    lemma_block_of_one(last);
    lemma_block_of_one(("transfer-encoding"@, "chunked"@));
    let start = method@ + " "@ + target@ + " HTTP/1.1"@;
    let all = request_lines(host@, port, h, has_body);
    assert(head@ =~= start + "\r\n"@ + header_block(all) + "\r\n"@);
    lemma_fixed_headers();
    assert forall|i: int| 0 <= i < all.len() implies is_header(#[trigger] all[i]) by {
        if i == 0 {
            assert(all[i] == first);
        } else if i <= h.len() {
            assert(all[i] == h[i - 1]);
        } else if i == all.len() - 1 {
            assert(all[i] == last);
        } else {
            assert(all[i] == body[0]);
        }
    }
    lemma_printable_concat(method@, " "@);
    lemma_printable_concat(method@ + " "@, target@);
    lemma_printable_concat(method@ + " "@ + target@, " HTTP/1.1"@);
    law_head_reads_back(start, all, more);
}

/// The last header of a response.
spec fn last_line(n: Option<int>) -> (Seq<char>, Seq<char>) {
    match n {
        Some(k) => ("content-length"@, decimal(k)),
        None => ("transfer-encoding"@, "chunked"@),
    }
}

proof fn lemma_response_block(h: HeaderSeq, n: Option<int>)
    ensures
        header_block(response_lines(h, n)) == header_block(
            seq![(PROTOCOL_HEADER@, PROTOCOL_VERSION@)],
        ) + header_block(seq![("server"@, "liters"@)]) + header_block(
            seq![("connection"@, "close"@)],
        ) + header_block(h) + header_block(seq![last_line(n)]),
{
    let a = (PROTOCOL_HEADER@, PROTOCOL_VERSION@);
    let b = ("server"@, "liters"@);
    let c = ("connection"@, "close"@);
    let front = seq![a, b, c];
    assert(front =~= seq![a] + seq![b] + seq![c]);
    lemma_blocks_join(seq![a] + seq![b], seq![c]);
    lemma_blocks_join(seq![a], seq![b]);
    lemma_blocks_join(front + h, seq![last_line(n)]);
    lemma_blocks_join(front, h);
    assert(response_lines(h, n) =~= front + h + seq![last_line(n)]);
}

proof fn lemma_response_end(n: Option<int>)
    ensures
        header_block(seq![last_line(n)]) + "\r\n"@ == match n {
            Some(k) => "content-length: "@ + decimal(k) + "\r\n\r\n"@,
            None => "transfer-encoding: chunked\r\n\r\n"@,
        },
{
    reveal_strlit("\r\n");
    reveal_strlit(": ");
    reveal_strlit("content-length");
    reveal_strlit("content-length: ");
    reveal_strlit("\r\n\r\n");
    reveal_strlit("transfer-encoding");
    reveal_strlit("chunked");
    reveal_strlit("transfer-encoding: chunked\r\n\r\n");
    lemma_block_of_one(last_line(n));
    match n {
        Some(k) => {
            assert(header_block(seq![last_line(n)]) + "\r\n"@ =~= "content-length: "@ + decimal(k)
                + "\r\n\r\n"@);
        },
        None => {
            assert(header_block(seq![last_line(n)]) + "\r\n"@
                =~= "transfer-encoding: chunked\r\n\r\n"@);
        },
    }
}

proof fn lemma_response_front()
    ensures
        header_block(seq![("server"@, "liters"@)]) + header_block(seq![("connection"@, "close"@)])
            == "server: liters\r\nconnection: close\r\n"@,
        "\r\nserver: liters\r\nconnection: close\r\n"@ == "\r\n"@
            + "server: liters\r\nconnection: close\r\n"@,
{
    reveal_strlit("\r\n");
    reveal_strlit(": ");
    reveal_strlit("server");
    reveal_strlit("liters");
    reveal_strlit("connection");
    reveal_strlit("close");
    reveal_strlit("server: liters\r\nconnection: close\r\n");
    reveal_strlit("\r\nserver: liters\r\nconnection: close\r\n");
    lemma_block_of_one(("server"@, "liters"@));
    lemma_block_of_one(("connection"@, "close"@));
    assert(header_block(seq![("server"@, "liters"@)]) + header_block(
        seq![("connection"@, "close"@)],
    ) =~= "server: liters\r\nconnection: close\r\n"@);
    assert("\r\nserver: liters\r\nconnection: close\r\n"@ =~= "\r\n"@
        + "server: liters\r\nconnection: close\r\n"@);
}

/// The first line of a response.
spec fn status_line(status: u16) -> Seq<char> {
    "HTTP/1.1"@ + seq![' '] + decimal(status as int) + seq![' '] + reason_text(status)
}

proof fn lemma_response_text(status: u16, h: HeaderSeq, n: Option<int>)
    ensures
        response_text(status, h, n) == status_line(status) + "\r\n"@ + header_block(
            response_lines(h, n),
        ) + "\r\n"@,
{
    reveal_strlit(" ");
    reveal_strlit("HTTP/1.1");
    reveal_strlit("HTTP/1.1 ");
    lemma_response_block(h, n);
    lemma_response_end(n);
    lemma_response_front();
    lemma_block_of_one((PROTOCOL_HEADER@, PROTOCOL_VERSION@));
    let a = header_block(seq![(PROTOCOL_HEADER@, PROTOCOL_VERSION@)]);
    let b = header_block(seq![("server"@, "liters"@)]);
    let c = header_block(seq![("connection"@, "close"@)]);
    let d = header_block(h);
    let e = header_block(seq![last_line(n)]);
    let start = status_line(status);
    assert("HTTP/1.1 "@ + decimal(status as int) + " "@ + reason_text(status) =~= start);
    assert(response_text(status, h, n) =~= start + "\r\n"@ + PROTOCOL_HEADER@ + ": "@
        + PROTOCOL_VERSION@ + ("\r\n"@ + (b + c)) + d + (e + "\r\n"@));
    assert(start + "\r\n"@ + PROTOCOL_HEADER@ + ": "@ + PROTOCOL_VERSION@ + ("\r\n"@ + (b + c)) + d
        + (e + "\r\n"@) =~= start + "\r\n"@ + (a + b + c + d + e) + "\r\n"@);
}

proof fn lemma_response_headers(h: HeaderSeq, n: Option<int>)
    requires
        are_headers(h),
        n is Some ==> 0 <= n->0 <= u64::MAX,
    ensures
        are_headers(response_lines(h, n)),
{
    let all = response_lines(h, n);
    lemma_fixed_headers();
    if n is Some {
        reveal_strlit("content-length");
        lemma_number_is_short(n->0 as nat);
        lemma_plain_header("content-length"@, decimal(n->0));
    }
    assert forall|i: int| 0 <= i < all.len() implies is_header(#[trigger] all[i]) by {
        if i >= 3 + h.len() {
            assert(all[i] == last_line(n));
        } else if i >= 3 {
            assert(all[i] == h[i - 3]);
        }
    }
}

proof fn lemma_status_line(status: u16)
    ensures
        printable(status_line(status)),
        0 < status_line(status).len() < 8192,
{
    reveal_strlit("HTTP/1.1");
    lemma_number_is_short(status as nat);
    lemma_reason_is_printable(status);
    let d = decimal(status as int);
    let start = status_line(status);
    assert forall|i: int| 0 <= i < start.len() implies ' ' <= #[trigger] start[i] <= '~' by {
        if 9 <= i < 9 + d.len() {
            assert(start[i] == d[i - 9]);
        } else if i > 9 + d.len() {
            assert(start[i] == reason_text(status)[i - 10 - d.len()]);
        }
    }
}

/// A response is read as it was sent: its status, that it is one of this
/// protocol, the mount's headers, and how its body is delimited.
pub proof fn law_response_head_reads_back(
    status: u16,
    headers: &[(String, String)],
    length: Option<u64>,
    head: String,
    more: Seq<u8>,
)
    requires
        call_ensures(response_head, (status, headers, length), head),
        are_headers(header_seq(headers@)),
        headers@.len() <= 96,
    ensures
        ({
            let step = head_step(all_good(encode_utf8(head@) + more));
            let all = response_lines(
                header_seq(headers@),
                match length {
                    Some(n) => Some(n as int),
                    None => None,
                },
            );
            &&& step.result is Ok
            &&& stated_status((step.result->Ok_0).0) == Some(status as int)
            &&& (step.result->Ok_0).1 == all
            &&& header_value(all, PROTOCOL_HEADER@) == Some(PROTOCOL_VERSION@)
            &&& step.rest == all_good(more)
        }),
{
    let h = header_seq(headers@);
    let n: Option<int> = match length {
        Some(n) => Some(n as int),
        None => None,
    };
    let all = response_lines(h, n);
    lemma_response_text(status, h, n);
    lemma_response_headers(h, n);
    lemma_status_line(status);
    law_head_reads_back(status_line(status), all, more);
    law_status_line_reads_back(status);
    assert(all[0] == (PROTOCOL_HEADER@, PROTOCOL_VERSION@));
}

} // verus!
