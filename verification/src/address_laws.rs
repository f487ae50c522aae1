//! Where things are found: the addresses of servers, the prefixes of mounts,
//! and the places of files.
use crate::client::{declared_length, normalize_base_url};
use crate::dir::DirReplicaClient;
use crate::error::StorageError;
use crate::io::all_good;
use crate::ltx::{filename, FileInfo, Txid};
use crate::meta::{is_tmp_file, MetaDir};
use crate::s3::dated;
use crate::server::{non_empty, normalize_base, texts};
use crate::storage::{law_max_file_is_newest, max_file};
use crate::text::{
    decimal, index_of, law_written_number_reads_back, lemma_index_of, lemma_index_of_is, pieces,
    without_trailing,
};
use crate::transport::host_port;
use crate::wire::{head_step, header_value, line_step, HeaderSeq};
use vstd::prelude::*;

verus! {

// ---------------------------------------------------------------------------
// Servers

/// Whether a text can stand between the scheme and the path of a base url.
pub open spec fn is_authority(s: Seq<char>) -> bool {
    s.len() > 0 && !s.contains('/') && !s.contains('@')
}

proof fn lemma_trailing(s: Seq<char>, c: char)
    requires
        s.len() > 0 ==> s.last() != c,
    ensures
        without_trailing(s, c) == s,
        without_trailing(s.push(c), c) == s,
        without_trailing(s.push(c).push(c), c) == s,
{
    reveal_with_fuel(without_trailing, 3);
    assert(s.push(c).drop_last() =~= s);
    assert(s.push(c).push(c).drop_last() =~= s.push(c));
}

proof fn lemma_base(url: Seq<char>, scheme: Seq<char>, authority: Seq<char>, path: Seq<char>)
    requires
        is_authority(authority),
        path.len() > 0 ==> path[0] == '/',
    ensures
        crate::client::base_parts(url, scheme, authority + path) == Ok::<Seq<char>, Seq<char>>(
            scheme + "://"@ + authority + without_trailing(path, '/'),
        ),
{
    let rest = authority + path;
    assert forall|i: int| 0 <= i < authority.len() implies rest[i] != '/' by {
        if rest[i] == '/' {
            assert(authority[i] == '/');
            assert(authority.contains('/'));
        }
    }
    lemma_index_of_is(rest, '/', authority.len() as int);
    assert(rest.take(authority.len() as int) =~= authority);
    assert(rest.skip(authority.len() as int) =~= path);
}

/// A base url is taken as it is, but for slashes at its end, which do not
/// count. It can be https only where that is allowed, and never names a user.
pub proof fn law_base_url_is_taken_as_it_is(
    authority: Seq<char>,
    path: Seq<char>,
    allow_https: bool,
    a: &str,
    b: &str,
    c: &str,
    ra: Result<String, StorageError>,
    rb: Result<String, StorageError>,
    rc: Result<String, StorageError>,
)
    requires
        is_authority(authority),
        path.len() > 0 ==> path[0] == '/' && path.last() != '/',
        a@ == "http://"@ + authority + path,
        b@ == (a@).push('/'),
        c@ == "https://"@ + authority + path,
        call_ensures(normalize_base_url, (a, allow_https), ra),
        call_ensures(normalize_base_url, (b, allow_https), rb),
        call_ensures(normalize_base_url, (c, allow_https), rc),
    ensures
        ra is Ok && ra->Ok_0@ == a@,
        rb is Ok && rb->Ok_0@ == a@,
        rc is Ok <==> allow_https,
        rc is Ok ==> rc->Ok_0@ == c@,
{
    reveal_strlit("http://");
    reveal_strlit("https://");
    reveal_strlit("http");
    reveal_strlit("https");
    reveal_strlit("://");
    let n = "http://"@.len() as int;
    let m = "https://"@.len() as int;
    assert(a@.take(n) =~= "http://"@);
    assert(b@.take(n) =~= "http://"@);
    assert(c@.take(m) =~= "https://"@);
    assert(c@[4] == 's' && "http://"@[4] == ':');
    assert(c@.take(n)[4] == 's');
    assert(a@.skip(n) =~= authority + path);
    assert(b@.skip(n) =~= authority + path.push('/'));
    assert(c@.skip(m) =~= authority + path);
    lemma_base(a@, "http"@, authority, path);
    lemma_base(b@, "http"@, authority, path.push('/'));
    lemma_base(c@, "https"@, authority, path);
    lemma_trailing(path, '/');
    assert("http"@ + "://"@ + authority + path =~= a@);
    assert("https"@ + "://"@ + authority + path =~= c@);
}

/// An address in brackets is one of IPv6: what stands in the brackets is the
/// host, and the port follows them, or is 80.
pub proof fn law_bracketed_host_is_taken_whole(host: Seq<char>, port: u16)
    requires
        !host.contains(']'),
    ensures
        host_port(seq!['['] + host + seq![']']) == Ok::<(Seq<char>, int), Seq<char>>((host, 80)),
        host_port(seq!['['] + host + seq![']'] + (seq![':'] + decimal(port as int))) == Ok::<
            (Seq<char>, int),
            Seq<char>,
        >((host, port as int)),
{
    assert forall|i: int| 0 <= i < host.len() implies host[i] != ']' by {
        if host[i] == ']' {
            assert(host.contains(']'));
        }
    }
    let none = Seq::<char>::empty();
    let tail = seq![':'] + decimal(port as int);
    let a = seq!['['] + host + seq![']'];
    let b = a + tail;
    assert(a.skip(1) =~= host + seq![']'] + none);
    assert(b.skip(1) =~= host + seq![']'] + tail);
    lemma_index_of_is(host + seq![']'] + none, ']', host.len() as int);
    lemma_index_of_is(host + seq![']'] + tail, ']', host.len() as int);
    assert((host + seq![']'] + none).take(host.len() as int) =~= host);
    assert((host + seq![']'] + none).skip(host.len() as int + 1) =~= none);
    assert((host + seq![']'] + tail).take(host.len() as int) =~= host);
    assert((host + seq![']'] + tail).skip(host.len() as int + 1) =~= tail);
    assert(tail.skip(1) =~= decimal(port as int));
    law_written_number_reads_back(port as nat, 10, u16::MAX as int);
}

/// The length that a listing declares is the decimal number in the first
/// header that states one.
pub proof fn law_declared_length_is_decimal(h: HeaderSeq, n: u64)
    requires
        header_value(h, "content-length"@) == Some(decimal(n as int)),
    ensures
        declared_length(h) == Some(n as int),
{
    law_written_number_reads_back(n as nat, 10, u64::MAX as int);
}

/// A head that starts with a blank line, or with nothing, is none.
pub proof fn law_empty_head_is_refused(more: Seq<u8>)
    ensures
        head_step(Seq::empty()).result is Err,
        head_step(all_good(seq![13u8, 10u8] + more)).result is Err,
{
    let line = Seq::<char>::empty();
    assert(line_step(Seq::empty(), Seq::empty()).result is Ok);
    crate::head_laws::lemma_line_arrives(line, more);
    assert(crate::head_laws::line_bytes(line) + more =~= seq![13u8, 10u8] + more);
}

// ---------------------------------------------------------------------------
// Mounts

proof fn lemma_pieces_without(s: Seq<char>, c: char)
    ensures
        forall|k: int|
            0 <= k < pieces(s, c).len() ==> !(#[trigger] pieces(s, c)[k]).contains(c),
    decreases s.len(),
{
    lemma_index_of(s, c);
    let i = index_of(s, c);
    let p = pieces(s, c);
    if i < s.len() {
        lemma_pieces_without(s.skip(i + 1), c);
        assert forall|k: int| 0 <= k < p.len() implies !(#[trigger] p[k]).contains(c) by {
            if k == 0 {
                assert(p[0] == s.take(i));
                if p[0].contains(c) {
                    let j = choose|j: int| 0 <= j < p[0].len() && p[0][j] == c;
                    assert(s[j] == c);
                }
            } else {
                assert(p[k] == pieces(s.skip(i + 1), c)[k - 1]);
            }
        }
    } else {
        assert forall|k: int| 0 <= k < p.len() implies !(#[trigger] p[k]).contains(c) by {
            assert(p[k] == s);
            if s.contains(c) {
                let j = choose|j: int| 0 <= j < s.len() && s[j] == c;
                assert(s[j] == c);
            }
        }
    }
}

proof fn lemma_non_empty(p: Seq<Seq<char>>, x: Seq<char>)
    ensures
        non_empty(p).contains(x) <==> p.contains(x) && x.len() > 0,
    decreases p.len(),
{
    if p.len() > 0 {
        let t = p.drop_last();
        lemma_non_empty(t, x);
        if p.contains(x) {
            let k = choose|k: int| 0 <= k < p.len() && p[k] == x;
            if k < t.len() {
                assert(t[k] == x);
            }
        }
        if t.contains(x) {
            let k = choose|k: int| 0 <= k < t.len() && t[k] == x;
            assert(p[k] == x);
        }
        assert(p[p.len() - 1] == p.last());
        let q = non_empty(p);
        if p.last().len() > 0 {
            assert(q == non_empty(t).push(p.last()));
            if non_empty(t).contains(x) {
                let k = choose|k: int| 0 <= k < non_empty(t).len() && non_empty(t)[k] == x;
                assert(q[k] == x);
            }
            if q.contains(x) {
                let k = choose|k: int| 0 <= k < q.len() && q[k] == x;
                if k < non_empty(t).len() {
                    assert(non_empty(t)[k] == x);
                }
            }
            assert(q[q.len() - 1] == p.last());
        }
    }
}

/// A mount's prefix is made of its parts between slashes, all of them but the
/// empty ones; without a prefix there are none.
pub proof fn law_mount_prefix_is_its_parts(base: &str, r: Vec<String>, none: Vec<String>, x: Seq<char>)
    requires
        call_ensures(normalize_base, (Some(base),), r),
        call_ensures(normalize_base, (None,), none),
    ensures
        none@.len() == 0,
        texts(r@).contains(x) ==> x.len() > 0 && !x.contains('/'),
        texts(r@).contains(x) <==> x.len() > 0 && pieces(base@, '/').contains(x),
{
    assert(texts(none@).len() == 0);
    lemma_non_empty(pieces(base@, '/'), x);
    lemma_pieces_without(base@, '/');
    if texts(r@).contains(x) {
        let p = pieces(base@, '/');
        let k = choose|k: int| 0 <= k < p.len() && p[k] == x;
        assert(!p[k].contains('/'));
    }
}

// ---------------------------------------------------------------------------
// Files

/// A writer keeps its level-0 files as a bucket in its directory would: level
/// 0 lies at the same place, and so does the file of each transaction.
pub proof fn law_local_files_lie_as_in_a_bucket(
    meta: MetaDir,
    bucket: DirReplicaClient,
    txid: Txid,
    a: String,
    b: String,
    c: String,
    d: String,
)
    requires
        bucket@ == meta@,
        call_ensures(MetaDir::l0_dir, (&meta,), a),
        call_ensures(DirReplicaClient::level_dir, (&bucket, 0), b),
        call_ensures(MetaDir::l0_path, (&meta, txid), c),
        call_ensures(DirReplicaClient::ltx_path, (&bucket, 0, txid, txid), d),
    ensures
        a@ == b@,
        c@ == d@,
{
    reveal_strlit("0");
    assert(decimal(0) =~= "0"@);
}

/// A file that is being written is told from a finished one by its name, so
/// that what a crash left behind can be swept without touching a file.
pub proof fn law_staged_names_are_told_apart(
    bucket: DirReplicaClient,
    level: u8,
    min: Txid,
    max: Txid,
    pid: u64,
    seq: u64,
    path: String,
    staged: &str,
    finished: &str,
    s: bool,
    f: bool,
)
    requires
        call_ensures(DirReplicaClient::tmp_path, (&bucket, level, min, max, pid, seq), path),
        staged@ == path@,
        finished@ == filename(min, max),
        call_ensures(is_tmp_file, (staged,), s),
        call_ensures(is_tmp_file, (finished,), f),
    ensures
        s,
        !f,
{
    reveal_strlit(".tmp");
    reveal_strlit(".ltx");
    let n = path@.len() - 4;
    assert(path@.skip(n) =~= ".tmp"@);
    let m = finished@.len() - 4;
    assert(finished@.skip(m) =~= ".ltx"@);
    assert(".ltx"@[1] == 'l' && ".tmp"@[1] == 't');
}

/// A file is dated by the seconds and nanoseconds that were read, and keeps
/// its date where none were.
pub proof fn law_file_is_dated_by_what_was_read(
    info: FileInfo,
    secs: i64,
    nanos: u32,
    r: FileInfo,
    q: FileInfo,
)
    requires
        call_ensures(dated, (info, Some((secs, nanos))), r),
        call_ensures(dated, (info, None), q),
    ensures
        r.created_at is Some,
        r.created_at->0 == secs * 1_000_000_000 + nanos,
        r == (FileInfo { created_at: r.created_at, ..info }),
        q == info,
{
}

/// Of the files that reach furthest, the one listed last counts.
pub proof fn law_last_of_the_furthest_counts(files: Seq<FileInfo>)
    requires
        files.len() > 0,
    ensures
        exists|k: int|
            0 <= k < files.len() && max_file(files) == Some(#[trigger] files[k]) && forall|j: int|
                k < j < files.len() ==> (#[trigger] files[j]).max_txid.0 < files[k].max_txid.0,
    decreases files.len(),
{
    let t = files.drop_last();
    let last = files.len() - 1;
    law_max_file_is_newest(t);
    if t.len() == 0 || files.last().max_txid.0 >= max_file(t)->0.max_txid.0 {
        assert(max_file(files) == Some(files[last]));
    } else {
        law_last_of_the_furthest_counts(t);
        let k = choose|k: int|
            0 <= k < t.len() && max_file(t) == Some(#[trigger] t[k]) && forall|j: int|
                k < j < t.len() ==> (#[trigger] t[j]).max_txid.0 < t[k].max_txid.0;
        assert(files[k] == t[k]);
        assert forall|j: int| k < j < files.len() implies (#[trigger] files[j]).max_txid.0
            < files[k].max_txid.0 by {
            if j < t.len() {
                assert(files[j] == t[j]);
            }
        }
    }
}

} // verus!
