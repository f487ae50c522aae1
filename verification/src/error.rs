//! The library's errors, and which of them are worth a retry.
use crate::io::IoError;
use crate::ltx::{txid_text, Txid};
use crate::text;
use crate::text::{debug_quoted, decimal, digits};
use crate::wal::WalError;
use vstd::prelude::*;

verus! {

/// Errors from replica storage.
#[derive(Debug)]
pub enum StorageError {
    /// The requested file does not exist. Readers race compaction and
    /// garbage collection and must treat this as a reason to plan again, not
    /// as a failure.
    NotFound { level: u8, min_txid: Txid, max_txid: Txid },
    /// A file could not be decoded.
    Ltx(String),
    Io(IoError),
    /// Transient transport failure: connect or resolve failure, socket
    /// timeout, connection reset, dead stream, truncated body. Safe to
    /// retry.
    Unavailable(String),
    /// Authentication required or rejected.
    Unauthorized(String),
    /// The server rejected a write for consistency or ownership reasons
    /// (transactions out of order, writer fenced). Not retryable as it is.
    Conflict(String),
    /// The server is read-only.
    ReadOnly(String),
    /// The operation was cancelled.
    Cancelled,
    Other(String),
}

/// What a storage error says.
pub open spec fn storage_text(e: StorageError) -> Seq<char> {
    match e {
        StorageError::NotFound { level, min_txid, max_txid } => "ltx file not found: L"@ + decimal(
            level as int,
        ) + " "@ + txid_text(min_txid) + "-"@ + txid_text(max_txid),
        StorageError::Ltx(m) => "ltx: "@ + m@,
        StorageError::Io(e) => e@.message,
        StorageError::Unavailable(m) => "storage unavailable: "@ + m@,
        StorageError::Unauthorized(m) => "unauthorized: "@ + m@,
        StorageError::Conflict(m) => "conflict: "@ + m@,
        StorageError::ReadOnly(m) => "read-only: "@ + m@,
        StorageError::Cancelled => "operation cancelled"@,
        StorageError::Other(m) => m@,
    }
}

/// Whether retrying the same storage operation later can plausibly succeed.
pub open spec fn storage_transient(e: StorageError) -> bool {
    e is Unavailable || e is Io
}

/// `a` followed by `b`.
pub(crate) fn join(a: &str, b: &str) -> (r: String)
    ensures
        r@ == a@ + b@,
{
    let mut s = a.to_owned();
    s.append(b);
    s
}

impl StorageError {
    /// Whether retrying the same operation later can plausibly succeed:
    /// transport failures and I/O errors. Protocol, authorization,
    /// consistency and cancellation errors are not transient.
    pub fn is_transient(&self) -> (r: bool)
        ensures
            r == storage_transient(*self),
    {
        match self {
            StorageError::Unavailable(_) => true,
            StorageError::Io(_) => true,
            _ => false,
        }
    }

    /// The error in words.
    pub fn message(&self) -> (r: String)
        ensures
            r@ == storage_text(*self),
    {
        match self {
            StorageError::NotFound { level, min_txid, max_txid } => {
                let mut s = "ltx file not found: L".to_owned();
                s.append(text::decimal_text(*level as u64).as_str());
                s.append(" ");
                s.append(min_txid.text().as_str());
                s.append("-");
                s.append(max_txid.text().as_str());
                s
            },
            StorageError::Ltx(m) => join("ltx: ", m.as_str()),
            StorageError::Io(e) => e.message.as_str().to_owned(),
            StorageError::Unavailable(m) => join("storage unavailable: ", m.as_str()),
            StorageError::Unauthorized(m) => join("unauthorized: ", m.as_str()),
            StorageError::Conflict(m) => join("conflict: ", m.as_str()),
            StorageError::ReadOnly(m) => join("read-only: ", m.as_str()),
            StorageError::Cancelled => "operation cancelled".to_owned(),
            StorageError::Other(m) => m.as_str().to_owned(),
        }
    }
}

/// What SQLite said of a failure, as far as it is told apart.
#[derive(Clone, Copy, Debug, PartialEq, Eq, Structural)]
pub enum SqliteCode {
    Busy,
    Locked,
    /// Any other code.
    Failure,
    /// The failure carries no code.
    Unknown,
}

/// A failure that SQLite reported.
#[derive(Debug)]
pub struct SqliteError {
    pub code: SqliteCode,
    pub message: String,
}

/// Errors from replication.
#[derive(Debug)]
pub enum Error {
    Sqlite(SqliteError),
    Ltx(String),
    Wal(WalError),
    Storage(StorageError),
    Io(IoError),
    /// The database is not in write-ahead-log mode and could not be
    /// switched.
    EnableWalFailed(String),
    /// A local level-0 file that the writer expects is missing or corrupt.
    /// Recoverable by resetting local state (which forces a snapshot).
    LocalLtx { txid: Txid, msg: String },
    /// The local replica has diverged from the bucket (bucket wiped or
    /// reseeded at a lower transaction); a reset and a full restore are
    /// required.
    Diverged { local: Txid, remote: Txid },
    /// The requested transaction cannot be reconstructed from the bucket,
    /// typically because the bucket is empty (not yet seeded).
    TxNotAvailable,
    /// The operation was cancelled.
    Cancelled,
    Other(String),
}

/// What a log error says.
pub open spec fn wal_text(e: WalError) -> Seq<char> {
    match e {
        WalError::EmptyWal => "empty or torn wal"@,
        WalError::InvalidMagic(m) => "invalid wal header magic: "@ + digits(m as nat, 16),
        WalError::UnsupportedVersion(v) => "unsupported wal version: "@ + decimal(v as int),
        WalError::UnalignedOffset { offset, page_size } => "unaligned wal offset "@ + decimal(
            offset as int,
        ) + " for page size "@ + decimal(page_size as int),
        WalError::OffsetTooSmall(o) => "offset ("@ + decimal(o as int)
            + ") must be greater than the wal header size (32)"@,
        WalError::PrevFrameMismatch => "prev frame mismatch"@,
        WalError::Io(e) => e@.message,
    }
}

/// What a replication error says.
pub open spec fn error_text(e: Error) -> Seq<char> {
    match e {
        Error::Sqlite(f) => "sqlite: "@ + f.message@,
        Error::Ltx(m) => "ltx: "@ + m@,
        Error::Wal(w) => "wal: "@ + wal_text(w),
        Error::Storage(s) => "storage: "@ + storage_text(s),
        Error::Io(e) => e@.message,
        Error::EnableWalFailed(m) => "enable wal failed, mode="@ + debug_quoted(m@),
        Error::LocalLtx { txid, msg } => "local ltx file missing or corrupt: txid "@ + txid_text(
            txid,
        ) + ": "@ + msg@,
        Error::Diverged { local, remote } => "replica diverged: local txid "@ + txid_text(local)
            + " ahead of bucket max "@ + txid_text(remote),
        Error::TxNotAvailable => "transaction not available"@,
        Error::Cancelled => "operation cancelled"@,
        Error::Other(m) => m@,
    }
}

/// Whether retrying the same replication step later can plausibly succeed.
pub open spec fn error_transient(e: Error) -> bool {
    match e {
        Error::Storage(s) => storage_transient(s),
        Error::Io(_) => true,
        _ => false,
    }
}

/// A storage error as a replication error: cancellation is the same variant
/// whichever layer observed it.
pub open spec fn from_storage(e: StorageError) -> Error {
    match e {
        StorageError::Cancelled => Error::Cancelled,
        _ => Error::Storage(e),
    }
}

impl From<StorageError> for Error {
    fn from(e: StorageError) -> (r: Error) {
        match e {
            StorageError::Cancelled => Error::Cancelled,
            e => Error::Storage(e),
        }
    }
}

impl vstd::std_specs::convert::FromSpecImpl<StorageError> for Error {
    open spec fn obeys_from_spec() -> bool {
        true
    }

    open spec fn from_spec(e: StorageError) -> Error {
        from_storage(e)
    }
}

impl WalError {
    /// The error in words.
    pub fn message(&self) -> (r: String)
        ensures
            r@ == wal_text(*self),
    {
        match self {
            WalError::EmptyWal => "empty or torn wal".to_owned(),
            WalError::InvalidMagic(m) => {
                let d = text::write_number(*m as u64, 16);
                join("invalid wal header magic: ", text::string_of(&d).as_str())
            },
            WalError::UnsupportedVersion(v) => join(
                "unsupported wal version: ",
                text::decimal_text(*v as u64).as_str(),
            ),
            WalError::UnalignedOffset { offset, page_size } => {
                let mut s = join("unaligned wal offset ", text::decimal_text(*offset).as_str());
                s.append(" for page size ");
                s.append(text::decimal_text(*page_size as u64).as_str());
                s
            },
            WalError::OffsetTooSmall(o) => {
                let mut s = join("offset (", text::decimal_text(*o).as_str());
                s.append(") must be greater than the wal header size (32)");
                s
            },
            WalError::PrevFrameMismatch => "prev frame mismatch".to_owned(),
            WalError::Io(e) => e.message.as_str().to_owned(),
        }
    }
}

impl Error {
    /// Whether retrying the same operation later can plausibly succeed:
    /// transient storage failures and local I/O hiccups. Divergence,
    /// integrity errors and cancellation are never transient.
    pub fn is_transient(&self) -> (r: bool)
        ensures
            r == error_transient(*self),
    {
        match self {
            Error::Storage(e) => e.is_transient(),
            Error::Io(_) => true,
            _ => false,
        }
    }

    /// The error in words.
    pub fn message(&self) -> (r: String)
        ensures
            r@ == error_text(*self),
    {
        match self {
            Error::Sqlite(f) => join("sqlite: ", f.message.as_str()),
            Error::Ltx(m) => join("ltx: ", m.as_str()),
            Error::Wal(w) => join("wal: ", w.message().as_str()),
            Error::Storage(s) => join("storage: ", s.message().as_str()),
            Error::Io(e) => e.message.as_str().to_owned(),
            Error::EnableWalFailed(m) => join(
                "enable wal failed, mode=",
                text::quoted(m.as_str()).as_str(),
            ),
            Error::LocalLtx { txid, msg } => {
                let mut s = join(
                    "local ltx file missing or corrupt: txid ",
                    txid.text().as_str(),
                );
                s.append(": ");
                s.append(msg.as_str());
                s
            },
            Error::Diverged { local, remote } => {
                let mut s = join("replica diverged: local txid ", local.text().as_str());
                s.append(" ahead of bucket max ");
                s.append(remote.text().as_str());
                s
            },
            Error::TxNotAvailable => "transaction not available".to_owned(),
            Error::Cancelled => "operation cancelled".to_owned(),
            Error::Other(m) => m.as_str().to_owned(),
        }
    }
}

/// Whether a failure means that the database was busy: by its code, or by its
/// words if it carries none.
pub open spec fn busy(e: Error) -> bool {
    match e {
        Error::Sqlite(f) => match f.code {
            SqliteCode::Busy | SqliteCode::Locked => true,
            SqliteCode::Failure => false,
            SqliteCode::Unknown => text::holds(f.message@, "database is locked"@) || text::holds(
                f.message@,
                "SQLITE_BUSY"@,
            ),
        },
        _ => false,
    }
}

/// Whether the database was busy, which is expected of passive checkpoints
/// under contention.
pub fn is_busy_error(e: &Error) -> (r: bool)
    ensures
        r == busy(*e),
{
    match e {
        Error::Sqlite(f) => match f.code {
            SqliteCode::Busy => true,
            SqliteCode::Locked => true,
            SqliteCode::Failure => false,
            SqliteCode::Unknown => {
                let cs = text::chars_of(f.message.as_str());
                let locked = text::chars_of("database is locked");
                let busy = text::chars_of("SQLITE_BUSY");
                text::contains_text(&cs, &locked) || text::contains_text(&cs, &busy)
            },
        },
        _ => false,
    }
}

/// Divergence, cancellation and a transaction that is not there are never
/// worth a retry; a storage cancellation counts as a cancellation.
pub proof fn law_cancellation_is_one_error(e: StorageError, local: Txid, remote: Txid)
    ensures
        from_storage(e) == Error::Cancelled <==> e is Cancelled,
        e !is Cancelled ==> error_transient(from_storage(e)) == storage_transient(e),
        !error_transient(Error::Cancelled),
        !error_transient(Error::TxNotAvailable),
        !error_transient(Error::Diverged { local, remote }),
{
}

} // verus!
