//! What buckets show of their files, and how requests to them are carried out.
use crate::dir::{entry_files, header_nanos, DirEntry};
use crate::error::StorageError;
use crate::exchange::{exchange_next, Exchange, ExchangeAction, ExchangePhase};
use crate::listing::sorted;
use crate::ltx::{filename, filename_of, law_filename_reads_back, FileInfo, Txid};
use crate::paths::last_slash;
use crate::s3::{key_text, object_file, object_files, read_range, ReadRange, S3Object};
use vstd::prelude::*;

verus! {

/// Whether a directory entry shows the file `f` of a level.
pub open spec fn shows_file(e: DirEntry, level: u8, f: FileInfo) -> bool {
    &&& e.name@ == filename(f.min_txid, f.max_txid)
    &&& f.level == level
    &&& f.size == e.size
    &&& f.created_at == e.modified
}

/// The listing of a directory shows just the files that are in it and start no
/// earlier than asked, with their sizes and times, and on the level asked for.
pub proof fn law_directory_lists_its_files(
    entries: Seq<DirEntry>,
    level: u8,
    seek: Txid,
    f: FileInfo,
)
    ensures
        sorted(entry_files(entries, level, seek)).contains(f) <==> f.min_txid.0 >= seek.0
            && exists|i: int|
            0 <= i < entries.len() && #[trigger] shows_file(entries[i], level, f),
{
    lemma_entries(entries, level, seek, f);
    lemma_sorted_contains(entry_files(entries, level, seek), f);
}

proof fn lemma_sorted_contains(s: Seq<FileInfo>, f: FileInfo)
    ensures
        sorted(s).contains(f) <==> s.contains(f),
{
    broadcast use vstd::seq_lib::group_to_multiset_ensures;

    crate::listing::law_sorting_keeps_every_file(s);
    assert(sorted(s).contains(f) <==> sorted(s).to_multiset().count(f) > 0);
    assert(s.contains(f) <==> s.to_multiset().count(f) > 0);
}

proof fn lemma_push_contains(s: Seq<FileInfo>, g: FileInfo, f: FileInfo)
    ensures
        s.push(g).contains(f) <==> s.contains(f) || f == g,
{
    let t = s.push(g);
    if s.contains(f) {
        let i = choose|i: int| 0 <= i < s.len() && s[i] == f;
        assert(t[i] == f);
    }
    if f == g {
        assert(t[s.len() as int] == f);
    }
    if t.contains(f) {
        let i = choose|i: int| 0 <= i < t.len() && t[i] == f;
        if i < s.len() {
            assert(s[i] == f);
        }
    }
}

proof fn lemma_entries(entries: Seq<DirEntry>, level: u8, seek: Txid, f: FileInfo)
    ensures
        entry_files(entries, level, seek).contains(f) <==> f.min_txid.0 >= seek.0 && exists|i: int|
            0 <= i < entries.len() && #[trigger] shows_file(entries[i], level, f),
    decreases entries.len(),
{
    if entries.len() > 0 {
        let rest = entries.drop_last();
        let n = entries.len() - 1;
        let e = entries[n];
        lemma_entries(rest, level, seek, f);
        law_filename_reads_back(f.min_txid, f.max_txid);
        let before = entry_files(rest, level, seek);
        let made = crate::dir::entry_file(e, level, seek);
        if made is Some {
            lemma_push_contains(before, made->0, f);
            let p = filename_of(e.name@)->0;
            assert(e.name@ == filename(p.0, p.1));
        }
        if f.min_txid.0 >= seek.0 {
            assert(shows_file(e, level, f) <==> made == Some(f)) by {
                if made == Some(f) {
                    let p = filename_of(e.name@)->0;
                    assert(e.name@ == filename(p.0, p.1));
                }
            }
        }
        if exists|i: int| 0 <= i < rest.len() && #[trigger] shows_file(rest[i], level, f) {
            let i = choose|i: int| 0 <= i < rest.len() && #[trigger] shows_file(rest[i], level, f);
            assert(shows_file(entries[i], level, f));
        }
        if exists|i: int| 0 <= i < entries.len() && #[trigger] shows_file(entries[i], level, f) {
            let i = choose|i: int|
                0 <= i < entries.len() && #[trigger] shows_file(entries[i], level, f);
            if i < n {
                assert(shows_file(rest[i], level, f));
            }
        }
    }
}

proof fn lemma_last_slash(s: Seq<char>, k: int)
    requires
        -1 <= k < s.len(),
        k >= 0 ==> s[k] == '/',
        forall|i: int| k < i < s.len() ==> s[i] != '/',
    ensures
        last_slash(s) == k,
    decreases s.len(),
{
    if s.len() > 0 && k < s.len() - 1 {
        assert(s[s.len() - 1] != '/');
        lemma_last_slash(s.drop_last(), k);
    }
}

/// An object under the key of a file is listed as that file, whatever the
/// prefix, unless it starts earlier than asked.
pub proof fn law_object_reads_as_its_file(
    prefix: Seq<char>,
    level: u8,
    min: Txid,
    max: Txid,
    o: S3Object,
    seek: Txid,
)
    requires
        o.key@ == key_text(prefix, level, min, max),
    ensures
        min.0 >= seek.0 ==> object_file(o, level, seek) == Some(
            FileInfo {
                level,
                min_txid: min,
                max_txid: max,
                size: o.size,
                created_at: Some(o.modified),
            },
        ),
        min.0 < seek.0 ==> object_file(o, level, seek) is None,
{
    reveal_strlit("/");
    let f = filename(min, max);
    crate::protocol_laws::lemma_name_plain(min, max);
    let k = o.key@;
    let at = k.len() - f.len() - 1;
    assert(k.skip(at + 1) =~= f);
    assert(k[at] == '/');
    assert forall|i: int| at < i < k.len() implies k[i] != '/' by {
        assert(k[i] == f[i - at - 1]);
    }
    lemma_last_slash(k, at);
    law_filename_reads_back(min, max);
}

/// What is listed of objects is just what each of them reads as.
pub proof fn law_objects_are_listed_each(
    objects: Seq<S3Object>,
    level: u8,
    seek: Txid,
    f: FileInfo,
)
    ensures
        object_files(objects, level, seek).contains(f) <==> exists|i: int|
            0 <= i < objects.len() && #[trigger] object_file(objects[i], level, seek) == Some(f),
    decreases objects.len(),
{
    if objects.len() > 0 {
        let rest = objects.drop_last();
        let n = objects.len() - 1;
        law_objects_are_listed_each(rest, level, seek, f);
        let before = object_files(rest, level, seek);
        let made = object_file(objects[n], level, seek);
        if made is Some {
            lemma_push_contains(before, made->0, f);
        }
        if exists|i: int|
            0 <= i < rest.len() && #[trigger] object_file(rest[i], level, seek) == Some(f) {
            let i = choose|i: int|
                0 <= i < rest.len() && #[trigger] object_file(rest[i], level, seek) == Some(f);
            assert(object_file(objects[i], level, seek) == Some(f));
        }
        if exists|i: int|
            0 <= i < objects.len() && #[trigger] object_file(objects[i], level, seek) == Some(f) {
            let i = choose|i: int|
                0 <= i < objects.len() && #[trigger] object_file(objects[i], level, seek) == Some(
                    f,
                );
            if i < n {
                assert(object_file(rest[i], level, seek) == Some(f));
            }
        }
    }
}

/// A header's timestamp counts milliseconds from the Unix epoch; one before it
/// stands for the epoch.
pub proof fn law_header_time_is_in_milliseconds(timestamp: i64)
    ensures
        timestamp >= 0 ==> header_nanos(timestamp) == timestamp * 1000 * 1000,
        timestamp < 0 ==> header_nanos(timestamp) == 0,
{
}

/// Whether the byte at `i` belongs to a range.
pub open spec fn in_range(r: ReadRange, i: int) -> bool {
    match r {
        ReadRange::Whole => i >= 0,
        ReadRange::From(a) => i >= a,
        ReadRange::Bounded(a, b) => a <= i < b,
    }
}

/// A read from an offset on covers what follows it, as many bytes as asked
/// for, or all of the rest if none are.
pub proof fn law_range_covers_what_was_asked(offset: u64, size: u64, r: ReadRange, i: int)
    requires
        offset + size <= u64::MAX,
        i >= 0,
        call_ensures(read_range, (offset, size), r),
    ensures
        in_range(r, i) <==> offset <= i && (size == 0 || i < offset + size),
{
}

/// A request connects, is sent, and its answer is read; whatever fails ends
/// it. A body that could not be sent in full may have been refused early, so
/// the answer is looked at all the same, and counts if there is one; if not,
/// the failure to send does.
pub proof fn law_request_is_carried_through(s: Exchange, e: StorageError, f: StorageError)
    ensures
        s.phase is Connect ==> {
            let (t, a) = exchange_next(s, Ok(()));
            &&& a is Send && t.phase is Send && t.has_body == s.has_body
            &&& exchange_next(s, Err(e)).1 == ExchangeAction::Finish(Err(e))
        },
        s.phase is Send ==> {
            let (t, a) = exchange_next(s, Ok(()));
            &&& a is ReadHead && t.phase == ExchangePhase::Read(None)
            &&& s.has_body && !(e is Cancelled) ==> exchange_next(s, Err(e)).1 is ReadHead
                && exchange_next(s, Err(e)).0.phase == ExchangePhase::Read(Some(e))
            &&& !s.has_body || e is Cancelled ==> exchange_next(s, Err(e)).1
                == ExchangeAction::Finish(Err(e))
        },
        s.phase is Read ==> exchange_next(s, Ok(())).1 == ExchangeAction::Finish(Ok(())),
        s.phase == ExchangePhase::Read(Some(e)) ==> exchange_next(s, Err(f)).1
            == ExchangeAction::Finish(Err(e)),
        s.phase == ExchangePhase::Read(None) ==> exchange_next(s, Err(f)).1
            == ExchangeAction::Finish(Err(f)),
{
}

} // verus!
