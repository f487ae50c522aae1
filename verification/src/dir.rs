//! Buckets in a local directory: where files lie, what a directory's entries
//! list, and how files are staged.
//!
//! Files lie at `{root}/ltx/{level}/{min}-{max}.ltx`, with the time their
//! header states as modification time.
use crate::error::StorageError;
use crate::io::{ErrorKind, IoError};
use crate::listing::{sort_listing, sorted};
use crate::ltx::{filename, filename_of, format_filename, parse_filename, FileInfo, Txid};
use crate::paths::{join_path, joined_path};
use crate::text;
use crate::text::decimal;
use vstd::prelude::*;

verus! {

/// Nanoseconds in a millisecond.
const NANOS_PER_MILLI: i128 = 1_000_000;

/// A bucket in a local directory.
#[derive(Debug)]
pub struct DirReplicaClient {
    root: String,
}

impl View for DirReplicaClient {
    type V = Seq<char>;

    closed spec fn view(&self) -> Seq<char> {
        self.root@
    }
}

/// Where the files of a level lie.
pub open spec fn level_path(root: Seq<char>, level: u8) -> Seq<char> {
    joined_path(joined_path(root, "ltx"@), decimal(level as int))
}

/// What a staged file's name ends in.
pub open spec fn staged_suffix(pid: u64, seq: u64) -> Seq<char> {
    "."@ + decimal(pid as int) + "-"@ + decimal(seq as int) + ".tmp"@
}

impl DirReplicaClient {
    pub fn new(root: &str) -> (r: DirReplicaClient)
        ensures
            r@ == root@,
    {
        DirReplicaClient { root: root.to_owned() }
    }

    pub fn root(&self) -> (r: &str)
        ensures
            r@ == self@,
    {
        self.root.as_str()
    }

    /// Where the files of a level lie; the level is in decimal.
    pub fn level_dir(&self, level: u8) -> (r: String)
        ensures
            r@ == level_path(self@, level),
    {
        let l = text::decimal_text(level as u64);
        join_path(join_path(self.root.as_str(), "ltx").as_str(), l.as_str())
    }

    /// Where a file lies.
    pub fn ltx_path(&self, level: u8, min_txid: Txid, max_txid: Txid) -> (r: String)
        ensures
            r@ == joined_path(level_path(self@, level), filename(min_txid, max_txid)),
    {
        join_path(
            self.level_dir(level).as_str(),
            format_filename(min_txid, max_txid).as_str(),
        )
    }

    /// Where a file is staged before it is renamed into place. The name is
    /// unique to one write of one process, so that two writes of the same
    /// file cannot disturb each other.
    pub fn tmp_path(&self, level: u8, min_txid: Txid, max_txid: Txid, pid: u64, seq: u64) -> (r:
        String)
        ensures
            r@ == joined_path(level_path(self@, level), filename(min_txid, max_txid))
                + staged_suffix(pid, seq),
    {
        let mut s = self.ltx_path(level, min_txid, max_txid);
        let ghost base = s@;
        s.append(".");
        s.append(text::decimal_text(pid).as_str());
        s.append("-");
        s.append(text::decimal_text(seq).as_str());
        s.append(".tmp");
        assert(s@ =~= base + staged_suffix(pid, seq));
        s
    }
}

/// A staged file is invisible: its name is no file's name, so no listing shows
/// it.
pub proof fn law_staged_file_is_invisible(min: Txid, max: Txid, pid: u64, seq: u64)
    ensures
        filename_of(filename(min, max) + staged_suffix(pid, seq)) is None,
{
    let name = filename(min, max) + staged_suffix(pid, seq);
    assert forall|a: Txid, b: Txid| name != #[trigger] filename(a, b) by {
        reveal_strlit(".ltx");
        reveal_strlit(".tmp");
        let f = filename(a, b);
        assert(f.last() == 'x');
        assert(name.last() == 'p');
    }
}

/// What a directory shows of a file: its name, its size, and when it was
/// modified, if that is known.
#[derive(Debug)]
pub struct DirEntry {
    pub name: String,
    pub size: u64,
    pub modified: Option<i128>,
}

/// The file of a bucket that a directory entry stands for, if it is one that
/// starts at `seek` or later.
pub open spec fn entry_file(e: DirEntry, level: u8, seek: Txid) -> Option<FileInfo> {
    match filename_of(e.name@) {
        Some((min_txid, max_txid)) => if min_txid.0 >= seek.0 {
            Some(FileInfo { level, min_txid, max_txid, size: e.size, created_at: e.modified })
        } else {
            None
        },
        None => None,
    }
}

/// The files among directory entries, in their order there.
pub open spec fn entry_files(entries: Seq<DirEntry>, level: u8, seek: Txid) -> Seq<FileInfo>
    decreases entries.len(),
{
    if entries.len() == 0 {
        Seq::empty()
    } else {
        let rest = entry_files(entries.drop_last(), level, seek);
        match entry_file(entries.last(), level, seek) {
            Some(f) => rest.push(f),
            None => rest,
        }
    }
}

/// The listing of a level from `seek` on: the entries that name files, in
/// order; staged files and strays do not count.
pub fn ltx_files(entries: &Vec<DirEntry>, level: u8, seek: Txid) -> (r: Vec<FileInfo>)
    ensures
        r@ == sorted(entry_files(entries@, level, seek)),
{
    let mut infos: Vec<FileInfo> = Vec::new();
    let mut i: usize = 0;
    assert(entries@.take(0) =~= Seq::<DirEntry>::empty());
    while i < entries.len()
        invariant
            i <= entries@.len(),
            infos@ == entry_files(entries@.take(i as int), level, seek),
        decreases entries@.len() - i,
    {
        assert(entries@.take(i + 1).drop_last() =~= entries@.take(i as int));
        assert(entries@.take(i + 1).last() == entries@[i as int]);
        let e = &entries[i];
        if let Some((min_txid, max_txid)) = parse_filename(e.name.as_str()) {
            if min_txid.0 >= seek.0 {
                infos.push(
                    FileInfo { level, min_txid, max_txid, size: e.size, created_at: e.modified },
                );
            }
        }
        i += 1;
    }
    assert(entries@.take(i as int) =~= entries@);
    sort_listing(infos)
}

/// The time that a header's timestamp in milliseconds states; negative ones
/// stand for the epoch.
pub open spec fn header_nanos(timestamp: i64) -> int {
    if timestamp >= 0 {
        timestamp * 1_000_000
    } else {
        0
    }
}

/// When a file with this timestamp in its header was created.
pub fn header_time(timestamp: i64) -> (r: i128)
    ensures
        r == header_nanos(timestamp),
{
    if timestamp >= 0 {
        timestamp as i128 * NANOS_PER_MILLI
    } else {
        0
    }
}

/// What a stored file's listing shows.
pub fn stored_info(level: u8, min_txid: Txid, max_txid: Txid, size: u64, timestamp: i64) -> (r:
    FileInfo)
    ensures
        r == (FileInfo {
            level,
            min_txid,
            max_txid,
            size,
            created_at: Some(header_nanos(timestamp) as i128),
        }),
{
    FileInfo { level, min_txid, max_txid, size, created_at: Some(header_time(timestamp)) }
}

/// What a failure to open a file means: a missing one is told apart.
pub fn open_failure(level: u8, min_txid: Txid, max_txid: Txid, e: IoError) -> (r: StorageError)
    ensures
        e.kind is NotFound ==> r == (StorageError::NotFound { level, min_txid, max_txid }),
        e.kind !is NotFound ==> r == StorageError::Io(e),
{
    match e.kind {
        ErrorKind::NotFound => StorageError::NotFound { level, min_txid, max_txid },
        _ => StorageError::Io(e),
    }
}

/// What a failure to delete a file, or to list a level, means: what is missing
/// anyway is no failure.
pub fn unless_missing(result: Result<(), IoError>) -> (r: Result<bool, StorageError>)
    ensures
        match result {
            Ok(_) => r == Ok::<bool, StorageError>(true),
            Err(e) => if e.kind is NotFound {
                r == Ok::<bool, StorageError>(false)
            } else {
                r == Err::<bool, StorageError>(StorageError::Io(e))
            },
        },
{
    match result {
        Ok(_) => Ok(true),
        Err(e) => match e.kind {
            ErrorKind::NotFound => Ok(false),
            _ => Err(StorageError::Io(e)),
        },
    }
}

} // verus!
