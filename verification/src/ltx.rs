//! Transaction numbers, and the files that carry transactions: what is known
//! of a file, how it is named, and when one continues another.
use crate::text;
use crate::text::{all_digits, hex_fixed, number, pow16};
use vstd::prelude::*;

verus! {

/// The snapshot pseudo-level. Levels 0 to 8 are compaction levels.
pub const SNAPSHOT_LEVEL: u8 = 9;

/// Byte at which SQLite keeps its locks; the page that holds it is never
/// written.
pub const LOCK_BYTE: u32 = 0x4000_0000;

/// A transaction number. Zero stands for "none".
#[derive(Clone, Copy, Debug, PartialEq, Eq, Structural, Hash, PartialOrd, Ord)]
pub struct Txid(pub u64);

/// The sixteen hexadecimal digits that write a transaction number.
pub open spec fn txid_text(t: Txid) -> Seq<char> {
    hex_fixed(t.0 as nat, 16)
}

/// What sixteen hexadecimal digits write.
pub open spec fn txid_of(s: Seq<char>) -> Option<Txid> {
    if s.len() == 16 && all_digits(s, 16) {
        Some(Txid(number(s, 16) as u64))
    } else {
        None
    }
}

impl Default for Txid {
    fn default() -> (r: Txid)
        ensures
            r == Txid(0),
    {
        Txid(0)
    }
}

impl Txid {
    pub fn is_zero(&self) -> (r: bool)
        ensures
            r == (self.0 == 0),
    {
        self.0 == 0
    }

    /// Reads sixteen hexadecimal digits, nothing else.
    pub fn parse(s: &str) -> (r: Option<Txid>)
        ensures
            r == txid_of(s@),
    {
        let cs = text::chars_of(s);
        parse_txid(&cs)
    }

    /// Sixteen hexadecimal digits.
    pub fn text(&self) -> (r: String)
        ensures
            r@ == txid_text(*self),
    {
        text::hex_text(self.0, 16)
    }
}

/// Reads sixteen hexadecimal digits, nothing else.
pub fn parse_txid(cs: &[char]) -> (r: Option<Txid>)
    ensures
        r == txid_of(cs@),
{
    if cs.len() != 16 {
        return None;
    }
    let mut n: u64 = 0;
    let mut i: usize = 0;
    let ghost mut bound: nat = 1;
    assert(cs@.take(0) =~= Seq::<char>::empty());
    while i < 16
        invariant
            cs@.len() == 16,
            i <= 16,
            all_digits(cs@.take(i as int), 16),
            n == number(cs@.take(i as int), 16),
            n < bound,
            bound == pow16(i as nat),
        decreases 16 - i,
    {
        let d = text::digit_of(cs[i]);
        let ghost before = cs@.take(i as int);
        let ghost after = cs@.take(i + 1);
        proof {
            assert(after.drop_last() =~= before);
            assert(after.last() == cs@[i as int]);
        }
        if d >= 16 {
            return None;
        }
        proof {
            assert forall|k: int| 0 <= k < after.len() implies text::digit_value(
                #[trigger] after[k],
            ) < 16 by {
                if k < i {
                    assert(after[k] == before[k]);
                }
            }
            reveal_with_fuel(pow16, 17);
            assert(pow16(i as nat) <= 0x1000_0000_0000_0000);
        }
        n = n * 16 + d;
        i += 1;
        proof {
            bound = bound * 16;
        }
    }
    assert(cs@.take(16) =~= cs@);
    Some(Txid(n))
}

/// Writing a transaction number and reading it back gives it again, and no
/// two numbers are written alike.
pub proof fn law_txid_text_reads_back(t: Txid)
    ensures
        txid_text(t).len() == 16,
        txid_of(txid_text(t)) == Some(t),
{
    assert(pow16(16) > u64::MAX) by {
        reveal_with_fuel(pow16, 17);
    }
    text::law_hex_fixed_writes_the_number(t.0 as nat, 16);
}

/// The flags in the header of a file.
#[derive(Clone, Copy, Debug, PartialEq, Eq, Structural)]
pub struct HeaderFlags {
    /// The file carries no checksums of the database before and after it.
    pub no_checksum: bool,
}

/// The flags of every new file: without checksums of database states, since a
/// restore by other tools rejects files that have them among files that have
/// none. Transactions that follow one another, and each file's own checksum,
/// carry continuity.
pub open spec fn new_file_flags() -> HeaderFlags {
    HeaderFlags { no_checksum: true }
}

/// The flags of every new file.
pub fn file_flags() -> (r: HeaderFlags)
    ensures
        r == new_file_flags(),
{
    HeaderFlags { no_checksum: true }
}

/// A replication position: a transaction and the checksum after it.
#[derive(Clone, Copy, Debug, PartialEq, Eq, Structural)]
pub struct Pos {
    pub txid: Txid,
    pub post_apply_checksum: u64,
}

impl Pos {
    pub fn is_zero(&self) -> (r: bool)
        ensures
            r == (self.txid.0 == 0 && self.post_apply_checksum == 0),
    {
        self.txid.0 == 0 && self.post_apply_checksum == 0
    }
}

/// What is known of a file: the transactions it holds, its size in bytes and
/// when it was created (in nanoseconds from the Unix epoch).
#[derive(Clone, Copy, Debug, PartialEq, Eq, Structural)]
pub struct FileInfo {
    pub level: u8,
    pub min_txid: Txid,
    pub max_txid: Txid,
    pub size: u64,
    pub created_at: Option<i128>,
}

impl Default for FileInfo {
    fn default() -> (r: FileInfo)
        ensures
            r == (FileInfo {
                level: 0,
                min_txid: Txid(0),
                max_txid: Txid(0),
                size: 0,
                created_at: None,
            }),
    {
        FileInfo { level: 0, min_txid: Txid(0), max_txid: Txid(0), size: 0, created_at: None }
    }
}

/// The name of the file that holds `min` to `max`.
pub open spec fn filename(min: Txid, max: Txid) -> Seq<char> {
    txid_text(min) + "-"@ + txid_text(max) + ".ltx"@
}

/// The name of the file that holds `min_txid` to `max_txid`.
pub fn format_filename(min_txid: Txid, max_txid: Txid) -> (r: String)
    ensures
        r@ == filename(min_txid, max_txid),
{
    let mut s = min_txid.text();
    s.append("-");
    s.append(max_txid.text().as_str());
    s.append(".ltx");
    s
}

/// The transactions that a file name states: those it is the name for.
pub open spec fn filename_of(name: Seq<char>) -> Option<(Txid, Txid)> {
    if exists|min: Txid, max: Txid| name == #[trigger] filename(min, max) {
        let (a, b) = choose|min: Txid, max: Txid| name == #[trigger] filename(min, max);
        Some((a, b))
    } else {
        None
    }
}

/// The transactions that a file name states: exactly the names that
/// [`format_filename`] gives are accepted.
pub fn parse_filename(name: &str) -> (r: Option<(Txid, Txid)>)
    ensures
        r == filename_of(name@),
{
    let cs = text::chars_of(name);
    proof {
        reveal_strlit("-");
        reveal_strlit(".ltx");
        assert forall|min: Txid, max: Txid| name@ == #[trigger] filename(min, max) implies {
            &&& name@.len() == 37
            &&& txid_of(name@.subrange(0, 16)) == Some(min)
            &&& txid_of(name@.subrange(17, 33)) == Some(max)
        } by {
            law_txid_text_reads_back(min);
            law_txid_text_reads_back(max);
            assert(name@.subrange(0, 16) =~= txid_text(min));
            assert(name@.subrange(17, 33) =~= txid_text(max));
        }
    }
    if cs.len() != 37 {
        return None;
    }
    let min = match parse_txid(text::part(&cs, 0, 16)) {
        Some(t) => t,
        None => return None,
    };
    let max = match parse_txid(text::part(&cs, 17, 33)) {
        Some(t) => t,
        None => return None,
    };
    if text::same_text(name, format_filename(min, max).as_str()) {
        proof {
            law_filename_reads_back(min, max);
        }
        Some((min, max))
    } else {
        None
    }
}

/// A file name states the transactions it was made of.
pub proof fn law_filename_is_injective(min: Txid, max: Txid, min2: Txid, max2: Txid)
    requires
        filename(min, max) == filename(min2, max2),
    ensures
        min == min2,
        max == max2,
{
    reveal_strlit("-");
    reveal_strlit(".ltx");
    law_txid_text_reads_back(min);
    law_txid_text_reads_back(max);
    law_txid_text_reads_back(min2);
    law_txid_text_reads_back(max2);
    assert(filename(min, max).subrange(0, 16) =~= txid_text(min));
    assert(filename(min2, max2).subrange(0, 16) =~= txid_text(min2));
    assert(filename(min, max).subrange(17, 33) =~= txid_text(max));
    assert(filename(min2, max2).subrange(17, 33) =~= txid_text(max2));
}

/// A file name reads back as the transactions it was made of.
pub proof fn law_filename_reads_back(min: Txid, max: Txid)
    ensures
        filename_of(filename(min, max)) == Some((min, max)),
{
    let name = filename(min, max);
    let (a, b) = choose|a: Txid, b: Txid| name == #[trigger] filename(a, b);
    law_filename_is_injective(min, max, a, b);
}

/// Whether a file with `min` to `max` continues a chain that ends at `prev`:
/// it leaves no hole and brings something new. Overlap is fine.
pub open spec fn continues(prev: Txid, min: Txid, max: Txid) -> bool {
    min.0 <= prev.0 + 1 && max.0 > prev.0
}

/// Whether a file with `min_txid` to `max_txid` continues a chain that ends
/// at `prev_max`.
pub fn is_contiguous(prev_max: Txid, min_txid: Txid, max_txid: Txid) -> (r: bool)
    ensures
        r == continues(prev_max, min_txid, max_txid),
{
    max_txid.0 > prev_max.0 && min_txid.0 <= prev_max.0 + 1
}

/// The number of the page that holds SQLite's lock byte.
pub fn lock_pgno(page_size: u32) -> (r: u32)
    requires
        page_size > 0,
    ensures
        r == LOCK_BYTE as int / page_size as int + 1,
{
    LOCK_BYTE / page_size + 1
}

/// Whether `a` comes before `b` in a listing, or in its place.
pub open spec fn listed_before(a: FileInfo, b: FileInfo) -> bool {
    a.min_txid.0 < b.min_txid.0 || (a.min_txid.0 == b.min_txid.0 && a.max_txid.0 <= b.max_txid.0)
}

/// Whether a listing is in order: ascending by first, then last transaction.
pub open spec fn listing_sorted(files: Seq<FileInfo>) -> bool {
    forall|i: int, j: int|
        0 <= i < j < files.len() ==> listed_before(#[trigger] files[i], #[trigger] files[j])
}

} // verus!
