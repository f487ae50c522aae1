//! SQLite main database file header: just the fields that are needed here.
use crate::wal::{be32, get_be32};
use vstd::prelude::*;

pub mod offsets;

verus! {

/// The text that a database file starts with, and its terminating zero.
pub open spec fn magic() -> Seq<u8> {
    seq![
        83u8, 81u8, 76u8, 105u8, 116u8, 101u8, 32u8, 102u8,
        111u8, 114u8, 109u8, 97u8, 116u8, 32u8, 51u8, 0u8,
    ]
}

/// Parsed fields of a SQLite database header.
#[derive(Clone, Copy, Debug, PartialEq, Eq, Structural)]
pub struct DbHeader {
    pub page_size: u32,
    /// In-header database size in pages. Only trustworthy on a cleanly
    /// checkpointed database; prefer the file size divided by the page size
    /// on live files.
    pub page_count: u32,
    pub write_version: u8,
    pub read_version: u8,
    pub change_counter: u32,
}

/// The page size that a database header states.
pub open spec fn stated_page_size(b: Seq<u8>) -> u32 {
    let n = b[16] * 256 + b[17];
    if n == 1 {
        65536
    } else {
        n as u32
    }
}

/// What the first 100 bytes of a database file say.
pub open spec fn db_header(b: Seq<u8>) -> Option<DbHeader> {
    if b.len() < 100 || b.take(16) != magic() {
        None
    } else {
        Some(
            DbHeader {
                page_size: stated_page_size(b),
                page_count: be32(b, 28),
                write_version: b[18],
                read_version: b[19],
                change_counter: be32(b, 24),
            },
        )
    }
}

/// Whether `b` starts with the magic text.
fn has_magic(b: &[u8]) -> (r: bool)
    requires
        b@.len() >= 16,
    ensures
        r == (b@.take(16) == magic()),
{
    let m: [u8; 16] = [83, 81, 76, 105, 116, 101, 32, 102, 111, 114, 109, 97, 116, 32, 51, 0];
    assert(m@ =~= magic());
    let mut i: usize = 0;
    while i < 16
        invariant
            i <= 16,
            b@.len() >= 16,
            m@ == magic(),
            forall|j: int| 0 <= j < i ==> b@[j] == m@[j],
        decreases 16 - i,
    {
        if b[i] != m[i] {
            assert(b@.take(16)[i as int] != magic()[i as int]);
            return false;
        }
        i += 1;
    }
    assert(b@.take(16) =~= magic());
    true
}

impl DbHeader {
    /// Parses the first 100 bytes of a database file.
    pub fn parse(b: &[u8]) -> (r: Option<DbHeader>)
        ensures
            r == db_header(b@),
    {
        if b.len() < 100 || !has_magic(b) {
            return None;
        }
        let mut page_size: u32 = b[offsets::PAGE_SIZE] as u32 * 256 + b[offsets::PAGE_SIZE
            + 1] as u32;
        if page_size == 1 {
            page_size = 65536;
        }
        Some(
            DbHeader {
                page_size,
                page_count: get_be32(b, offsets::DB_SIZE_PAGES),
                write_version: b[offsets::WRITE_VERSION],
                read_version: b[offsets::READ_VERSION],
                change_counter: get_be32(b, offsets::CHANGE_COUNTER),
            },
        )
    }
}

} // verus!
