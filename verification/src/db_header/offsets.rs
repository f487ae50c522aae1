//! Byte offsets within the 100-byte SQLite database header that are read or
//! patched.
use vstd::prelude::*;

verus! {

/// Big-endian 16-bit number; the value 1 means 65536.
pub const PAGE_SIZE: usize = 16;

/// File-format write version: 1 = rollback journal, 2 = write-ahead log.
pub const WRITE_VERSION: usize = 18;

/// File-format read version.
pub const READ_VERSION: usize = 19;

/// Big-endian 32-bit file change counter; randomized when pages are applied,
/// to invalidate other connections' caches.
pub const CHANGE_COUNTER: usize = 24;

/// Big-endian 32-bit in-header database size in pages; trusted by SQLite
/// only when the change counter matches version-valid-for.
pub const DB_SIZE_PAGES: usize = 28;

/// Big-endian 32-bit change-counter value at which the version number was
/// stored.
pub const VERSION_VALID_FOR: usize = 92;

} // verus!
