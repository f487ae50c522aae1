//! The read side: a local, read-only materialization of a replica bucket.
//! Here stand its options, the decisions around a sync, and what is written
//! into pages and side files.
use crate::error::Error;
use crate::ltx::{txid_of, txid_text, FileInfo, Txid};
use crate::random::random_bytes;
use crate::text;
use crate::text::{debug_quoted, decimal, trimmed};
use vstd::prelude::*;

verus! {

/// Size of the header that every file of transactions starts with.
pub const HEADER_SIZE: u64 = 100;

/// Integrity checking after a restore.
#[derive(Clone, Copy, Debug, PartialEq, Eq, Structural)]
pub enum IntegrityCheck {
    Off,
    Quick,
    Full,
}

/// The pragma that a check runs, if it runs one.
pub open spec fn check_pragma(c: IntegrityCheck) -> Option<Seq<char>> {
    match c {
        IntegrityCheck::Off => None,
        IntegrityCheck::Quick => Some("quick_check"@),
        IntegrityCheck::Full => Some("integrity_check"@),
    }
}

impl IntegrityCheck {
    /// The pragma to run, if any.
    pub fn pragma(&self) -> (r: Option<&'static str>)
        ensures
            crate::wire::opt_text(r) == check_pragma(*self),
    {
        match self {
            IntegrityCheck::Off => None,
            IntegrityCheck::Quick => Some("quick_check"),
            IntegrityCheck::Full => Some("integrity_check"),
        }
    }
}

#[derive(Clone, Copy, Debug, PartialEq, Eq, Structural)]
pub struct ReplicaOptions {
    /// Integrity check to run after a full restore.
    pub integrity_check: IntegrityCheck,
    /// Take SQLite-compatible file locks on the replica during page
    /// application. They protect readers in other processes; readers in this
    /// process must not hold read transactions across a sync.
    pub use_file_locks: bool,
    /// On divergence (bucket reseeded below our position) or local state
    /// that cannot be resumed, restore from scratch instead of failing with
    /// [`Error::Diverged`].
    pub auto_reset: bool,
}

impl Default for ReplicaOptions {
    fn default() -> (r: ReplicaOptions)
        ensures
            r == (ReplicaOptions {
                integrity_check: IntegrityCheck::Quick,
                use_file_locks: true,
                auto_reset: false,
            }),
    {
        ReplicaOptions {
            integrity_check: IntegrityCheck::Quick,
            use_file_locks: true,
            auto_reset: false,
        }
    }
}

/// Result of a sync.
#[derive(Clone, Copy, Debug, PartialEq, Eq, Structural)]
pub struct SyncResult {
    /// Whether a full restore (not an incremental apply) ran.
    pub restored: bool,
    pub from_txid: Txid,
    pub to_txid: Txid,
}

/// How a sync begins.
#[derive(Debug)]
pub enum SyncStart {
    /// Restore the whole database. The result counts from this position.
    Restore(Txid),
    /// Apply what is new after this position.
    Incremental(Txid),
    /// The local file has no recorded position and may not be replaced.
    Refuse(Error),
}

/// What is said of a replica without a recorded position.
pub open spec fn no_sidecar_text(db_path: Seq<char>) -> Seq<char> {
    "replica exists but has no -txid sidecar; delete "@ + db_path + " to re-restore"@
}

/// Decides how a sync begins: a missing file is restored; a file without a
/// recorded position is restored only if resets are allowed; any other is
/// brought up to date from its position.
pub fn sync_start(db_exists: bool, from: Txid, auto_reset: bool, db_path: &str) -> (r: SyncStart)
    ensures
        !db_exists ==> r == SyncStart::Restore(Txid(0)),
        db_exists && from.0 != 0 ==> r == SyncStart::Incremental(from),
        db_exists && from.0 == 0 && auto_reset ==> r == SyncStart::Restore(Txid(0)),
        db_exists && from.0 == 0 && !auto_reset ==> (r matches SyncStart::Refuse(
            Error::Other(m),
        ) && m@ == no_sidecar_text(db_path@)),
{
    if !db_exists {
        return SyncStart::Restore(Txid(0));
    }
    if from.0 == 0 {
        if auto_reset {
            return SyncStart::Restore(Txid(0));
        }
        let mut m = "replica exists but has no -txid sidecar; delete ".to_owned();
        m.append(db_path);
        m.append(" to re-restore");
        return SyncStart::Refuse(Error::Other(m));
    }
    SyncStart::Incremental(from)
}

/// What follows an incremental sync.
#[derive(Debug)]
pub enum SyncNext {
    Finish(Result<SyncResult, Error>),
    /// Restore the whole database; the result counts from this position.
    Restore(Txid),
}

/// Decides what follows an incremental sync from `from`: divergence leads to
/// a restore if resets are allowed, anything else is the result. The healthy
/// replica is never deleted up front.
pub fn after_incremental(from: Txid, outcome: Result<Txid, Error>, auto_reset: bool) -> (r: SyncNext)
    ensures
        match outcome {
            Ok(to) => r == SyncNext::Finish(
                Ok(SyncResult { restored: false, from_txid: from, to_txid: to }),
            ),
            Err(e) => if e is Diverged && auto_reset {
                r == SyncNext::Restore(from)
            } else {
                r == SyncNext::Finish(Err(e))
            },
        },
{
    match outcome {
        Ok(to) => SyncNext::Finish(
            Ok(SyncResult { restored: false, from_txid: from, to_txid: to }),
        ),
        Err(e) => {
            if auto_reset {
                match e {
                    Error::Diverged { .. } => SyncNext::Restore(from),
                    e => SyncNext::Finish(Err(e)),
                }
            } else {
                SyncNext::Finish(Err(e))
            }
        },
    }
}

/// What a sync reports that restored the whole database: that it did, from
/// the position that the sync counts from, to where the restore ended. A
/// failed restore is the sync's failure.
pub fn after_restore(from: Txid, outcome: Result<Txid, Error>) -> (r: Result<SyncResult, Error>)
    ensures
        r == match outcome {
            Ok(to) => Ok::<SyncResult, Error>(
                SyncResult { restored: true, from_txid: from, to_txid: to },
            ),
            Err(e) => Err::<SyncResult, Error>(e),
        },
{
    match outcome {
        Ok(to) => Ok(SyncResult { restored: true, from_txid: from, to_txid: to }),
        Err(e) => Err(e),
    }
}

/// What is said of a file that is too small to be one.
pub open spec fn small_file_text(f: FileInfo) -> Seq<char> {
    "invalid ltx file: level="@ + decimal(f.level as int) + " min="@ + txid_text(f.min_txid)
        + " max="@ + txid_text(f.max_txid) + " has size "@ + decimal(f.size as int) + " bytes"@
}

/// The first file of a plan that is too small to hold a header.
pub open spec fn first_small(plan: Seq<FileInfo>) -> Option<FileInfo>
    decreases plan.len(),
{
    if plan.len() == 0 {
        None
    } else if plan[0].size < HEADER_SIZE {
        Some(plan[0])
    } else {
        first_small(plan.skip(1))
    }
}

proof fn lemma_first_small(plan: Seq<FileInfo>, i: int)
    requires
        0 <= i <= plan.len(),
        forall|j: int| 0 <= j < i ==> (#[trigger] plan[j]).size >= HEADER_SIZE,
        i < plan.len() ==> plan[i].size < HEADER_SIZE,
    ensures
        first_small(plan) == if i < plan.len() {
            Some(plan[i])
        } else {
            None
        },
    decreases i,
{
    if i > 0 {
        let t = plan.skip(1);
        assert(plan[0].size >= HEADER_SIZE);
        assert forall|j: int| 0 <= j < i - 1 implies (#[trigger] t[j]).size >= HEADER_SIZE by {
            assert(t[j] == plan[j + 1]);
        }
        if i < plan.len() {
            assert(t[i - 1] == plan[i]);
        }
        lemma_first_small(t, i - 1);
    }
}

/// Checks a plan before any of its files is fetched, and tells where it
/// ends: every file must at least hold a header.
pub fn check_plan(plan: &Vec<FileInfo>) -> (r: Result<Txid, Error>)
    requires
        plan@.len() > 0,
    ensures
        match first_small(plan@) {
            None => r == Ok::<Txid, Error>(plan@.last().max_txid),
            Some(f) => r matches Err(Error::Other(m)) && m@ == small_file_text(f),
        },
{
    let mut i: usize = 0;
    while i < plan.len()
        invariant
            i <= plan@.len(),
            forall|j: int| 0 <= j < i ==> (#[trigger] plan@[j]).size >= HEADER_SIZE,
        decreases plan@.len() - i,
    {
        let f = plan[i];
        if f.size < HEADER_SIZE {
            let mut m = "invalid ltx file: level=".to_owned();
            m.append(text::decimal_text(f.level as u64).as_str());
            m.append(" min=");
            m.append(f.min_txid.text().as_str());
            m.append(" max=");
            m.append(f.max_txid.text().as_str());
            m.append(" has size ");
            m.append(text::decimal_text(f.size).as_str());
            m.append(" bytes");
            proof {
                lemma_first_small(plan@, i as int);
            }
            return Err(Error::Other(m));
        }
        i += 1;
    }
    proof {
        lemma_first_small(plan@, i as int);
    }
    Ok(plan[plan.len() - 1].max_txid)
}

/// Judges what an integrity check answered.
pub fn check_verdict(answer: &str) -> (r: Result<(), Error>)
    ensures
        answer@ == "ok"@ ==> r is Ok,
        answer@ != "ok"@ ==> (r matches Err(Error::Other(m)) && m@
            == "post-restore integrity check failed: "@ + answer@),
{
    if text::same_text(answer, "ok") {
        return Ok(());
    }
    let mut m = "post-restore integrity check failed: ".to_owned();
    m.append(answer);
    Err(Error::Other(m))
}

/// Checks a file's page size against the replica's. Another page size means
/// that the bucket was reset.
pub fn check_page_size(
    file_page_size: u32,
    page_size: u32,
    min_txid: Txid,
    max_txid: Txid,
) -> (r: Result<(), Error>)
    ensures
        file_page_size == page_size ==> r is Ok,
        file_page_size != page_size ==> r == Err::<(), Error>(
            Error::Diverged { local: min_txid, remote: max_txid },
        ),
{
    if file_page_size != page_size {
        Err(Error::Diverged { local: min_txid, remote: max_txid })
    } else {
        Ok(())
    }
}

/// Page 1 as a replica keeps it: a rollback-journal database with the given
/// change counter.
pub open spec fn page_one(data: Seq<u8>, counter: Seq<u8>) -> Seq<u8> {
    data.update(18, 1).update(19, 1).update(24, counter[0]).update(25, counter[1]).update(
        26,
        counter[2],
    ).update(27, counter[3])
}

/// A page as a replica keeps it: only page 1 is changed, if it is long enough
/// to have a header.
pub open spec fn presented(pgno: u32, data: Seq<u8>, counter: Seq<u8>) -> Seq<u8> {
    if pgno == 1 && data.len() >= 28 {
        page_one(data, counter)
    } else {
        data
    }
}

/// Makes page 1 present itself as a rollback-journal database with the given
/// change counter. Any other page, or one too short to have a header, is
/// left alone.
pub fn present_page(pgno: u32, data: &mut Vec<u8>, counter: [u8; 4])
    ensures
        final(data)@ == presented(pgno, old(data)@, counter@),
{
    if pgno == 1 && data.len() >= 28 {
        data.set(18, 1);
        data.set(19, 1);
        data.set(24, counter[0]);
        data.set(25, counter[1]);
        data.set(26, counter[2]);
        data.set(27, counter[3]);
    }
}

/// Prepares a page for the replica: page 1 presents itself as a
/// rollback-journal database with a random change counter, which invalidates
/// other connections' caches.
pub fn prepare_page(pgno: u32, data: &mut Vec<u8>)
    ensures
        exists|counter: Seq<u8>|
            counter.len() == 4 && final(data)@ == #[trigger] presented(
                pgno,
                old(data)@,
                counter,
            ),
{
    let bytes = random_bytes(4);
    let counter: [u8; 4] = [bytes[0], bytes[1], bytes[2], bytes[3]];
    present_page(pgno, data, counter);
    assert(counter@.len() == 4 && data@ == presented(pgno, old(data)@, counter@));
}

/// Preparing a page changes nothing but the journal mode and the change
/// counter of page 1.
pub proof fn law_prepared_page_keeps_contents(data: Seq<u8>, counter: Seq<u8>, i: int)
    requires
        data.len() >= 28,
        0 <= i < data.len(),
        i != 18 && i != 19 && !(24 <= i < 28),
    ensures
        page_one(data, counter).len() == data.len(),
        page_one(data, counter)[i] == data[i],
        page_one(data, counter)[18] == 1,
        page_one(data, counter)[19] == 1,
{
}

/// Where a page lies in the database file.
pub fn page_offset(pgno: u32, page_size: u32) -> (r: u64)
    requires
        pgno >= 1,
    ensures
        r == (pgno - 1) * page_size,
{
    assert((pgno - 1) * page_size <= 0xffff_ffff * 0xffff_ffff) by (nonlinear_arith)
        requires
            1 <= pgno <= 0xffff_ffff,
            page_size <= 0xffff_ffff,
    ;
    (pgno as u64 - 1) * page_size as u64
}

/// The length to cut the database file to, if a file states its size.
pub fn final_length(commit: u32, page_size: u32) -> (r: Option<u64>)
    ensures
        commit == 0 ==> r is None,
        commit > 0 ==> r is Some && r->0 == commit * page_size,
{
    if commit > 0 {
        assert(commit * page_size <= 0xffff_ffff * 0xffff_ffff) by (nonlinear_arith)
            requires
                commit <= 0xffff_ffff,
                page_size <= 0xffff_ffff,
        ;
        Some(commit as u64 * page_size as u64)
    } else {
        None
    }
}

/// The page size that two header bytes state; the value 1 means 65536.
pub fn page_size_of(high: u8, low: u8) -> (r: u32)
    ensures
        r == if high * 256 + low == 1 {
            65536
        } else {
            high * 256 + low
        },
{
    let n: u32 = high as u32 * 256 + low as u32;
    if n == 1 {
        65536
    } else {
        n
    }
}

/// What the position sidecar of a replica holds: the transaction and a line
/// end.
pub open spec fn sidecar(txid: Txid) -> Seq<char> {
    txid_text(txid) + "\n"@
}

/// The contents of the position sidecar.
pub fn sidecar_text(txid: Txid) -> (r: String)
    ensures
        r@ == sidecar(txid),
{
    let mut s = txid.text();
    s.append("\n");
    s
}

/// Reads a position sidecar: sixteen hexadecimal digits, white space around
/// them aside.
pub fn parse_sidecar(path: &str, contents: &str) -> (r: Result<Txid, Error>)
    ensures
        match txid_of(trimmed(contents@)) {
            Some(t) => r == Ok::<Txid, Error>(t),
            None => r matches Err(Error::Other(m)) && m@ == "parse txid file "@ + debug_quoted(
                path@,
            ) + ": "@ + debug_quoted(contents@),
        },
{
    let cs = text::chars_of(contents);
    match crate::ltx::parse_txid(text::trim(&cs)) {
        Some(t) => Ok(t),
        None => {
            let mut m = "parse txid file ".to_owned();
            m.append(text::quoted(path).as_str());
            m.append(": ");
            m.append(text::quoted(contents).as_str());
            Err(Error::Other(m))
        },
    }
}

/// A recorded position reads back.
pub proof fn law_sidecar_reads_back(txid: Txid)
    ensures
        txid_of(trimmed(sidecar(txid))) == Some(txid),
{
    crate::ltx::law_txid_text_reads_back(txid);
    reveal_strlit("\n");
    let t = txid_text(txid);
    text::lemma_trim_line(t);
    assert(sidecar(txid) =~= t.push('\n'));
}

/// Where the position sidecar of a database lies.
pub fn txid_path(db_path: &str) -> (r: String)
    ensures
        r@ == db_path@ + "-txid"@,
{
    crate::error::join(db_path, "-txid")
}

/// The files that a reset removes: the replica, its sidecar and what an
/// interrupted run left behind.
pub fn reset_paths(db_path: &str) -> (r: Vec<String>)
    ensures
        r@.len() == 4,
        r@[0]@ == db_path@,
        r@[1]@ == db_path@ + "-txid"@,
        r@[2]@ == db_path@ + ".tmp"@,
        r@[3]@ == db_path@ + ".apply.tmp"@,
{
    let mut v: Vec<String> = Vec::new();
    v.push(db_path.to_owned());
    v.push(crate::error::join(db_path, "-txid"));
    v.push(crate::error::join(db_path, ".tmp"));
    v.push(crate::error::join(db_path, ".apply.tmp"));
    v
}

} // verus!
