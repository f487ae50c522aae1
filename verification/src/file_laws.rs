//! What files, names, listings and headers say, in numbers.
use crate::db_header::db_header;
use crate::listing::{as_listed, law_sorting_keeps_every_file, sorted};
use crate::ltx::{continues, filename_of, FileInfo, Txid};
use crate::meta::{newest_name, pruned};
use crate::wal_format_laws::number;
use vstd::prelude::*;

verus! {

/// A chain that ends at `prev` is continued by a file that ends after it and
/// starts no later than right after it.
pub proof fn law_continuing_is_overlapping_or_next(prev: Txid, min: Txid, max: Txid)
    ensures
        continues(prev, min, max) <==> min.0 - 1 <= prev.0 && prev.0 + 1 <= max.0,
{
}

/// A listing keeps a file's transactions and size, and its time of creation to
/// the millisecond; a time before the Unix epoch, or none, is not told.
pub proof fn law_listing_keeps_time_to_the_millisecond(f: FileInfo, level: u8)
    ensures
        ({
            let g = as_listed(f, level);
            &&& g.level == level && g.min_txid == f.min_txid && g.max_txid == f.max_txid
                && g.size == f.size
            &&& f.created_at is None || f.created_at->0 < 0 ==> g.created_at is None
            &&& f.created_at is Some && 0 <= f.created_at->0 <= 0xffff_ffff_ffff_ffff
                * 1_000_000 ==> {
                &&& g.created_at is Some
                &&& g.created_at->0 <= f.created_at->0 < g.created_at->0 + 1_000_000
                &&& g.created_at->0 % 1_000_000 == 0
            }
        }),
{
}

/// A listing is sorted by where its files start and, of those that start
/// alike, by where they end; it holds what it was made of.
pub proof fn law_listing_is_in_order(files: Seq<FileInfo>, i: int, j: int)
    requires
        0 <= i < j < sorted(files).len(),
    ensures
        ({
            let s = sorted(files);
            &&& s.len() == files.len()
            &&& s[i].min_txid.0 <= s[j].min_txid.0
            &&& s[i].min_txid.0 == s[j].min_txid.0 ==> s[i].max_txid.0 <= s[j].max_txid.0
            &&& s.to_multiset() == files.to_multiset()
        }),
{
    law_sorting_keeps_every_file(files);
}

/// A database header starts with the text that SQLite writes there. Its fields
/// are big-endian numbers at fixed places: the page size, in which one stands
/// for 65536, the journal-mode bytes, the change counter and the size in
/// pages.
pub proof fn law_db_header_says_its_fields(b: Seq<u8>)
    ensures
        ({
            let known = b.len() >= 100 && b[0] == 'S' as u8 && b[1] == 'Q' as u8 && b[2]
                == 'L' as u8 && b[3] == 'i' as u8 && b[4] == 't' as u8 && b[5] == 'e' as u8
                && b[6] == ' ' as u8 && b[7] == 'f' as u8 && b[8] == 'o' as u8 && b[9]
                == 'r' as u8 && b[10] == 'm' as u8 && b[11] == 'a' as u8 && b[12] == 't' as u8
                && b[13] == ' ' as u8 && b[14] == '3' as u8 && b[15] == 0;
            let n = b[16] * 256 + b[17];
            &&& db_header(b) is Some <==> known
            &&& known ==> {
                let h = db_header(b)->0;
                &&& n == 1 ==> h.page_size == 65536
                &&& n != 1 ==> h.page_size == n
                &&& h.write_version == b[18] && h.read_version == b[19]
                &&& h.change_counter == number(b, 24)
                &&& h.page_count == number(b, 28)
            }
        }),
{
    let m = crate::db_header::magic();
    if b.len() >= 100 {
        let t = b.take(16);
        assert(t == m <==> forall|i: int| 0 <= i < 16 ==> #[trigger] t[i] == m[i]) by {
            if forall|i: int| 0 <= i < 16 ==> #[trigger] t[i] == m[i] {
                assert(t =~= m);
            }
        }
        if t == m {
            assert(t[0] == m[0] && t[1] == m[1] && t[2] == m[2] && t[3] == m[3]);
            assert(t[4] == m[4] && t[5] == m[5] && t[6] == m[6] && t[7] == m[7]);
            assert(t[8] == m[8] && t[9] == m[9] && t[10] == m[10] && t[11] == m[11]);
            assert(t[12] == m[12] && t[13] == m[13] && t[14] == m[14] && t[15] == m[15]);
        }
    }
}

/// Whether the `i`-th name is that of a file that ends at `t`.
pub open spec fn names_end(names: Seq<String>, i: int, t: Txid) -> bool {
    filename_of(names[i]@) matches Some(p) && p.1 == t
}

proof fn lemma_newest_name(names: Seq<String>)
    ensures
        forall|i: int, t: Txid|
            0 <= i < names.len() && #[trigger] names_end(names, i, t) ==> newest_name(names)
                is Some && t.0 <= (newest_name(names)->0).0,
        newest_name(names) is Some ==> exists|i: int|
            0 <= i < names.len() && #[trigger] names_end(names, i, newest_name(names)->0),
    decreases names.len(),
{
    if names.len() > 0 {
        let rest = names.drop_last();
        let n = names.len() - 1;
        lemma_newest_name(rest);
        assert forall|i: int, t: Txid|
            0 <= i < names.len() && #[trigger] names_end(names, i, t) implies newest_name(names)
            is Some && t.0 <= (newest_name(names)->0).0 by {
            if i < n {
                assert(names_end(rest, i, t));
            }
        }
        if newest_name(names) is Some {
            let m = newest_name(names)->0;
            if names_end(names, n, m) {
            } else {
                assert(newest_name(rest) == Some(m));
                let i = choose|i: int|
                    0 <= i < rest.len() && #[trigger] names_end(rest, i, newest_name(rest)->0);
                assert(names_end(names, i, m));
            }
        }
    }
}

/// A local file is pruned exactly if its name says that it ends before the
/// given transaction and another file ends later than it: so the newest stays,
/// and files of other names stay.
pub proof fn law_pruning_takes_what_is_stored(names: Seq<String>, before: Txid, i: int)
    requires
        0 <= i < names.len() <= usize::MAX,
    ensures
        pruned(names, names.len() as int, before, newest_name(names)).contains(i as usize) <==> {
            let own = filename_of(names[i]@);
            &&& own is Some
            &&& (own->0).1.0 < before.0
            &&& exists|j: int, t: Txid|
                0 <= j < names.len() && #[trigger] names_end(names, j, t) && t.0 > (own->0).1.0
        },
{
    lemma_newest_name(names);
    lemma_pruned(names, names.len() as int, before, newest_name(names), i);
    if filename_of(names[i]@) is Some {
        let t = (filename_of(names[i]@)->0).1;
        assert(names_end(names, i, t));
        let m = newest_name(names)->0;
        let j = choose|j: int|
            0 <= j < names.len() && #[trigger] names_end(names, j, newest_name(names)->0);
        assert(names_end(names, j, m));
    }
}

proof fn lemma_pruned(names: Seq<String>, n: int, before: Txid, newest: Option<Txid>, i: int)
    requires
        0 <= n <= names.len() <= usize::MAX,
        0 <= i < names.len(),
    ensures
        pruned(names, n, before, newest).contains(i as usize) <==> i < n
            && crate::meta::prunable(names[i]@, before, newest),
    decreases n,
{
    if n > 0 {
        lemma_pruned(names, n - 1, before, newest, i);
        let rest = pruned(names, n - 1, before, newest);
        let all = pruned(names, n, before, newest);
        if crate::meta::prunable(names[n - 1]@, before, newest) {
            assert(all == rest.push((n - 1) as usize));
            if rest.contains(i as usize) {
                let k = choose|k: int| 0 <= k < rest.len() && rest[k] == i as usize;
                assert(all[k] == i as usize);
            }
            if i == n - 1 {
                assert(all[rest.len() as int] == i as usize);
            }
            if all.contains(i as usize) {
                let k = choose|k: int| 0 <= k < all.len() && all[k] == i as usize;
                if k < rest.len() {
                    assert(rest[k] == i as usize);
                }
            }
        }
    }
}

} // verus!
