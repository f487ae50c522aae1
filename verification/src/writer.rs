//! The write side: what of a log's committed content goes into the next
//! level-0 file, which files are uploaded, and when to checkpoint. Driven by
//! explicit pushes.
use crate::error::Error;
use crate::io::{ErrorKind, Fault, IoError};
use crate::ltx::{
    file_flags, lock_pgno, new_file_flags, FileInfo, HeaderFlags, Pos, Txid, LOCK_BYTE,
};
use crate::sort::{sort_numbers, strictly_ascending};
use crate::text;
use crate::text::{debug_quoted, decimal};
use crate::time::Span;
use crate::wal::{
    calc_wal_size, committed_pages, frame_size, header_of, maps_pages, resumed, scan,
    wal_size, Frame, PageMap, ReadAt, WalError, WalReader, WalState, WAL_FRAME_HEADER_SIZE,
    WAL_HEADER_SIZE,
};
use std::collections::HashMap;
use vstd::prelude::*;
use vstd::std_specs::iter::IteratorSpec;

verus! {

broadcast use vstd::std_specs::hash::group_hash_axioms;

/// SQLite's largest page size.
pub const MAX_PAGE_SIZE: u32 = 65536;

/// Checkpoint modes. Restarting checkpoints are deliberately absent.
#[derive(Clone, Copy, Debug, PartialEq, Eq, Structural)]
pub enum CheckpointMode {
    Passive,
    Truncate,
}

/// The mode's name in SQL.
pub open spec fn mode_sql(mode: CheckpointMode) -> Seq<char> {
    match mode {
        CheckpointMode::Passive => "PASSIVE"@,
        CheckpointMode::Truncate => "TRUNCATE"@,
    }
}

impl CheckpointMode {
    /// The mode's name in SQL.
    pub fn as_sql(self) -> (r: &'static str)
        ensures
            r@ == mode_sql(self),
    {
        match self {
            CheckpointMode::Passive => "PASSIVE",
            CheckpointMode::Truncate => "TRUNCATE",
        }
    }
}

/// Tunables of a writer.
#[derive(Clone, Copy, Debug, PartialEq, Eq, Structural)]
pub struct WriterOptions {
    pub busy_timeout: Span,
    /// Passive checkpoint threshold, in log pages.
    pub min_checkpoint_page_n: u32,
    /// Emergency truncating checkpoint threshold, in log pages; 0 disables.
    pub truncate_page_n: u32,
    /// Whether a push runs threshold-based checkpoints automatically.
    pub auto_checkpoint: bool,
}

impl Default for WriterOptions {
    fn default() -> (r: WriterOptions)
        ensures
            r.busy_timeout.nanos == 1_000_000_000,
            r.min_checkpoint_page_n == 1000,
            r.truncate_page_n == 121_359,
            r.auto_checkpoint,
    {
        WriterOptions {
            busy_timeout: Span::from_secs(1),
            min_checkpoint_page_n: 1000,
            truncate_page_n: 121_359,
            auto_checkpoint: true,
        }
    }
}

/// Result of a push.
#[derive(Clone, Copy, Debug, PartialEq, Eq, Structural)]
pub struct PushResult {
    /// Local replication position after the push.
    pub txid: Txid,
    /// Whether a new level-0 file was created by this push.
    pub synced: bool,
    /// Number of level-0 files uploaded to the bucket by this push.
    pub uploaded: u64,
    /// The bucket's last level-0 transaction after the push.
    pub remote_txid: Txid,
    /// Whether a checkpoint ran during this push.
    pub checkpointed: bool,
}

/// What a writer remembers of its syncs.
#[derive(Clone, Copy, Debug, PartialEq, Eq, Structural)]
pub struct SyncState {
    /// Logical end of the log content consumed so far.
    pub last_synced_wal_offset: u64,
    /// Whether the log was consumed exactly to its end.
    pub synced_to_wal_end: bool,
    pub synced_since_checkpoint: bool,
}

/// Where the next sync reads the log from, and whether it must take a full
/// image of the database.
#[derive(Clone, Copy, Debug, PartialEq, Eq, Structural)]
pub struct SyncInfo {
    pub offset: u64,
    pub salt1: u32,
    pub salt2: u32,
    pub snapshotting: bool,
    pub clear_synced_to_wal_end: bool,
}

/// What a sync did.
#[derive(Clone, Copy, Debug, PartialEq, Eq, Structural)]
pub struct SyncOutcome {
    pub synced: bool,
    pub pos: Option<Pos>,
    pub new_wal_size: u64,
    pub synced_to_wal_end: bool,
}

/// Where a page's contents are read from.
#[derive(Clone, Copy, Debug, PartialEq, Eq, Structural)]
pub enum PageSource {
    /// This offset in the log.
    Wal(u64),
    /// This offset in the database file.
    Db(u64),
}

/// A level-0 file to be made: what its header says and which pages it holds,
/// in order.
#[derive(Debug)]
pub struct L0Plan {
    pub flags: HeaderFlags,
    pub txid: Txid,
    pub commit: u32,
    pub wal_offset: u64,
    pub wal_size: u64,
    pub wal_salt1: u32,
    pub wal_salt2: u32,
    pub pages: Vec<(u32, PageSource)>,
}

/// What a sync does: nothing, or a level-0 file.
#[derive(Debug)]
pub enum SyncPlan {
    Nothing(SyncOutcome),
    Encode(L0Plan),
}

/// The pages of a map, in order.
pub fn sorted_pages(pages: &HashMap<u32, u64>) -> (r: Vec<u32>)
    ensures
        strictly_ascending(r@),
        r@.to_set() == pages@.dom(),
{
    let mut keys: Vec<u32> = Vec::new();
    let ghost all = pages.keys().remaining();
    for k in it: pages.keys()
        invariant
            all == it.seq(),
            keys@ == all.unref().take(it.index()),
    {
        keys.push(*k);
    }
    assert(keys@ =~= all.unref());
    let r = sort_numbers(keys);
    proof {
        broadcast use vstd::seq_lib::group_to_multiset_ensures;

        assert forall|i: int, j: int| 0 <= i < j < keys@.len() implies keys@[i] != keys@[j] by {
            assert(all[i] != all[j]);
        }
        assert(keys@.no_duplicates());
        keys@.lemma_multiset_has_no_duplicates();
        r@.lemma_multiset_has_no_duplicates_conv();
        assert(r@.no_duplicates());
        assert forall|i: int, j: int| 0 <= i < j < r@.len() implies #[trigger] r@[i]
            < #[trigger] r@[j] by {
            assert(r@[i] <= r@[j]);
            assert(r@[i] != r@[j]);
        }
        assert(r@.to_set() =~= keys@.to_set()) by {
            assert forall|n: u32| r@.contains(n) == keys@.contains(n) by {
                assert(r@.to_multiset().count(n) == keys@.to_multiset().count(n));
            }
        }
    }
    r
}

/// Where reading the log starts: where the last sync ended or, if that frame
/// has vanished since, at the log's start.
pub open spec fn log_start(c: Seq<u8>, info: SyncInfo) -> Result<(WalState, u64), WalError> {
    let from_top = match header_of(c) {
        Ok(st) => Ok((st, WAL_HEADER_SIZE)),
        Err(e) => Err(e),
    };
    if info.offset == WAL_HEADER_SIZE {
        from_top
    } else {
        match resumed(c, info.offset, info.salt1, info.salt2) {
            Ok(st) => Ok((st, info.offset)),
            Err(WalError::PrevFrameMismatch) => from_top,
            Err(e) => Err(e),
        }
    }
}

/// Where page `p` is read from: its latest committed frame, or the database
/// file.
pub open spec fn source_of(m: Map<u32, u64>, p: int, page_size: u32) -> PageSource {
    if m.contains_key(p as u32) {
        PageSource::Wal((m[p as u32] + WAL_FRAME_HEADER_SIZE) as u64)
    } else {
        PageSource::Db(((p - 1) * page_size) as u64)
    }
}

/// The number of the page that holds SQLite's lock byte.
pub open spec fn lock_page(page_size: u32) -> int {
    LOCK_BYTE as int / page_size as int + 1
}

/// A full image of a database of `commit` pages: every page but the lock
/// page, in order.
pub open spec fn image_pages(m: Map<u32, u64>, commit: int, page_size: u32) -> Seq<
    (u32, PageSource),
>
    decreases commit,
{
    if commit <= 0 {
        Seq::empty()
    } else if commit == lock_page(page_size) {
        image_pages(m, commit - 1, page_size)
    } else {
        image_pages(m, commit - 1, page_size).push((commit as u32, source_of(m, commit, page_size)))
    }
}

/// Whether `r` are the pages of the map, in order, each at its latest
/// committed frame.
pub open spec fn map_pages(m: Map<u32, u64>, r: Seq<(u32, PageSource)>) -> bool {
    let pgnos = r.map_values(|p: (u32, PageSource)| p.0);
    &&& strictly_ascending(pgnos)
    &&& pgnos.to_set() == m.dom()
    &&& forall|i: int|
        0 <= i < r.len() ==> (#[trigger] r[i]).1 == PageSource::Wal(
            (m[r[i].0] + WAL_FRAME_HEADER_SIZE) as u64,
        )
}

/// What is said of a log that ends before the position.
pub open spec fn negative_size_text(max_offset: u64, offset: u64) -> Seq<char> {
    "wal size must be positive: maxOffset="@ + decimal(max_offset as int) + ", offset="@ + decimal(
        offset as int,
    )
}

/// How many pages the database has: what the log's last commit says, or what
/// the file has room for.
pub open spec fn page_count(pm: PageMap, db_len: u64, page_size: u32) -> u32 {
    if pm.commit > 0 {
        pm.commit
    } else {
        (db_len / page_size as u64) as u32
    }
}

/// How much of the log a sync from `offset` consumes: nothing if no page is
/// to be copied.
pub open spec fn consumed(pm: PageMap, offset: u64) -> int {
    if !pm.pages@.is_empty() {
        pm.max_offset - offset
    } else {
        0
    }
}

/// Whether `r` is what a sync does with the committed pages `pm` behind
/// `offset`.
pub open spec fn sync_plan_for(
    pm: PageMap,
    st: WalState,
    offset: u64,
    db_len: u64,
    page_size: u32,
    txid: Txid,
    info: SyncInfo,
    state: SyncState,
    r: Result<SyncPlan, Error>,
) -> bool {
    let size = consumed(pm, offset);
    let commit = page_count(pm, db_len, page_size);
    if size < 0 {
        r is Err && r->Err_0 is Other && r->Err_0->Other_0@ == negative_size_text(
            pm.max_offset,
            offset,
        )
    } else if !info.snapshotting && size == 0 {
        &&& r is Ok
        &&& r->Ok_0 == SyncPlan::Nothing(
            SyncOutcome {
                synced: false,
                pos: None,
                new_wal_size: state.last_synced_wal_offset,
                synced_to_wal_end: state.synced_to_wal_end && !info.clear_synced_to_wal_end,
            },
        )
    } else {
        &&& r is Ok
        &&& r->Ok_0 is Encode
        &&& ({
            let p = r->Ok_0->Encode_0;
            &&& p.flags == new_file_flags()
            &&& p.txid.0 == txid.0 + 1
            &&& p.commit == commit
            &&& p.wal_offset == offset
            &&& p.wal_size == size
            &&& p.wal_salt1 == st.salt1
            &&& p.wal_salt2 == st.salt2
            &&& if info.snapshotting {
                p.pages@ == image_pages(pm.pages@, commit as int, page_size)
            } else {
                map_pages(pm.pages@, p.pages@)
            }
        })
    }
}

/// Whether `r` is what a sync does with the frames `seen` behind `offset`.
pub open spec fn sync_plan_seen(
    seen: Seq<(Frame, u64)>,
    log_page_size: u32,
    after: WalState,
    offset: u64,
    db_len: u64,
    page_size: u32,
    txid: Txid,
    info: SyncInfo,
    state: SyncState,
    r: Result<SyncPlan, Error>,
) -> bool {
    exists|pm: PageMap| #[trigger]
        maps_pages(pm, seen, log_page_size) && sync_plan_for(
            pm,
            after,
            offset,
            db_len,
            page_size,
            txid,
            info,
            state,
            r,
        )
}

/// Whether `r` is what a sync does with the log `c`.
pub open spec fn sync_plan_of(
    c: Seq<u8>,
    db_len: u64,
    page_size: u32,
    txid: Txid,
    info: SyncInfo,
    state: SyncState,
    r: Result<SyncPlan, Error>,
) -> bool {
    match log_start(c, info) {
        Err(e) => r == Err::<SyncPlan, Error>(Error::Wal(e)),
        Ok((st, offset)) => sync_plan_seen(
            scan(c, st, u64::MAX as int).0,
            st.page_size,
            scan(c, st, u64::MAX as int).1,
            offset,
            db_len,
            page_size,
            txid,
            info,
            state,
            r,
        ),
    }
}

/// Whether `r` is what a sync does with the whole of the log `c`.
pub open spec fn sync_plan_from_top(
    c: Seq<u8>,
    db_len: u64,
    page_size: u32,
    txid: Txid,
    info: SyncInfo,
    state: SyncState,
    r: Result<SyncPlan, Error>,
) -> bool {
    header_of(c) matches Ok(st) && sync_plan_seen(
        scan(c, st, u64::MAX as int).0,
        st.page_size,
        scan(c, st, u64::MAX as int).1,
        WAL_HEADER_SIZE,
        db_len,
        page_size,
        txid,
        info,
        state,
        r,
    )
}

/// The pages of a full image and where they are read from.
pub fn plan_image(
    pages: &HashMap<u32, u64>,
    commit: u32,
    page_size: u32,
) -> (r: Vec<(u32, PageSource)>)
    requires
        page_size > 0,
        forall|p: u32| #[trigger]
            pages@.contains_key(p) ==> pages@[p] + WAL_FRAME_HEADER_SIZE <= u64::MAX,
    ensures
        r@ == image_pages(pages@, commit as int, page_size),
{
    let lock = lock_pgno(page_size);
    let mut out: Vec<(u32, PageSource)> = Vec::new();
    let mut n: u32 = 0;
    while n < commit
        invariant
            page_size > 0,
            lock == lock_page(page_size),
            n <= commit,
            out@ == image_pages(pages@, n as int, page_size),
            forall|p: u32| #[trigger]
                pages@.contains_key(p) ==> pages@[p] + WAL_FRAME_HEADER_SIZE <= u64::MAX,
        decreases commit - n,
    {
        let p: u32 = n + 1;
        if p != lock {
            match pages.get(&p) {
                Some(offset) => {
                    out.push((p, PageSource::Wal(*offset + WAL_FRAME_HEADER_SIZE)));
                },
                None => {
                    let at = crate::replica::page_offset(p, page_size);
                    out.push((p, PageSource::Db(at)));
                },
            }
        }
        n = p;
    }
    out
}

/// The pages of a map, in order, and where they are read from.
pub fn plan_pages(pages: &HashMap<u32, u64>) -> (r: Vec<(u32, PageSource)>)
    requires
        forall|p: u32| #[trigger]
            pages@.contains_key(p) ==> pages@[p] + WAL_FRAME_HEADER_SIZE <= u64::MAX,
    ensures
        map_pages(pages@, r@),
{
    let pgnos = sorted_pages(pages);
    let mut out: Vec<(u32, PageSource)> = Vec::new();
    let mut i: usize = 0;
    while i < pgnos.len()
        invariant
            i <= pgnos@.len(),
            pgnos@.to_set() == pages@.dom(),
            out@.len() == i,
            forall|p: u32| #[trigger]
                pages@.contains_key(p) ==> pages@[p] + WAL_FRAME_HEADER_SIZE <= u64::MAX,
            forall|j: int|
                0 <= j < i ==> (#[trigger] out@[j]).0 == pgnos@[j] && out@[j].1 == PageSource::Wal(
                    (pages@[pgnos@[j]] + WAL_FRAME_HEADER_SIZE) as u64,
                ),
        decreases pgnos@.len() - i,
    {
        let p: u32 = pgnos[i];
        assert(pgnos@.to_set().contains(p)) by {
            assert(pgnos@[i as int] == p);
        }
        assert(pages@.contains_key(p));
        if let Some(offset) = pages.get(&p) {
            out.push((p, PageSource::Wal(*offset + WAL_FRAME_HEADER_SIZE)));
        }
        i += 1;
    }
    assert(out@.map_values(|p: (u32, PageSource)| p.0) =~= pgnos@);
    out
}

/// Opens the log where the last sync ended or, if the frame before that has
/// vanished, at its start. Tells where reading starts.
fn open_log<R: ReadAt>(wal: &R, info: SyncInfo) -> (r: Result<(WalReader<&R>, u64), WalError>)
    ensures
        match r {
            Ok((rd, offset)) => {
                &&& rd.wf()
                &&& rd.file() == wal
                &&& {
                    ||| log_start(wal.contents(), info) == Ok::<(WalState, u64), WalError>(
                        (rd.state(), offset),
                    )
                    ||| {
                        &&& !wal.reliable()
                        &&& offset == WAL_HEADER_SIZE
                        &&& header_of(wal.contents()) == Ok::<WalState, WalError>(rd.state())
                    }
                }
            },
            Err(WalError::Io(_)) => !wal.reliable(),
            Err(e) => log_start(wal.contents(), info) == Err::<(WalState, u64), WalError>(e),
        },
{
    proof {
        reveal(resumed);
    }
    if info.offset != WAL_HEADER_SIZE {
        match WalReader::with_offset(wal, info.offset, info.salt1, info.salt2) {
            Ok(rd) => return Ok((rd, info.offset)),
            Err(WalError::PrevFrameMismatch) => {},
            Err(e) => return Err(e),
        }
    }
    match WalReader::new(wal) {
        Ok(rd) => Ok((rd, WAL_HEADER_SIZE)),
        Err(e) => Err(e),
    }
}

/// Decides what a sync does with the committed pages behind `offset`: nothing
/// if there are none and no full image is due, else a level-0 file for the
/// next transaction.
pub fn plan_from_pages(
    pm: &PageMap,
    salts: (u32, u32),
    offset: u64,
    db_len: u64,
    page_size: u32,
    txid: Txid,
    info: SyncInfo,
    state: SyncState,
) -> (r: Result<SyncPlan, Error>)
    requires
        page_size > 0,
        txid.0 < u64::MAX,
        forall|p: u32| #[trigger]
            pm.pages@.contains_key(p) ==> pm.pages@[p] + WAL_FRAME_HEADER_SIZE <= u64::MAX,
    ensures
        forall|st: WalState|
            st.salt1 == salts.0 && st.salt2 == salts.1 ==> #[trigger] sync_plan_for(
                *pm,
                st,
                offset,
                db_len,
                page_size,
                txid,
                info,
                state,
                r,
            ),
{
    let commit: u32 = if pm.commit > 0 {
        pm.commit
    } else {
        (db_len / page_size as u64) as u32
    };
    let size: u64 = if !pm.pages.is_empty() {
        if pm.max_offset < offset {
            let mut m = crate::error::join(
                "wal size must be positive: maxOffset=",
                text::decimal_text(pm.max_offset).as_str(),
            );
            m.append(", offset=");
            m.append(text::decimal_text(offset).as_str());
            return Err(Error::Other(m));
        }
        pm.max_offset - offset
    } else {
        0
    };
    if !info.snapshotting && size == 0 {
        return Ok(
            SyncPlan::Nothing(
                SyncOutcome {
                    synced: false,
                    pos: None,
                    new_wal_size: state.last_synced_wal_offset,
                    synced_to_wal_end: state.synced_to_wal_end && !info.clear_synced_to_wal_end,
                },
            ),
        );
    }
    let pages = if info.snapshotting {
        plan_image(&pm.pages, commit, page_size)
    } else {
        plan_pages(&pm.pages)
    };
    Ok(
        SyncPlan::Encode(
            L0Plan {
                flags: file_flags(),
                txid: Txid(txid.0 + 1),
                commit,
                wal_offset: offset,
                wal_size: size,
                wal_salt1: salts.0,
                wal_salt2: salts.1,
                pages,
            },
        ),
    )
}

/// Decides what a sync does with the log: nothing if it holds nothing new and
/// no full image is due, else a level-0 file for the next transaction. If the
/// frame to resume behind has vanished, or cannot be read, the whole log is
/// read. A read that fails later is the sync's failure, never taken for the
/// end of the log.
pub fn plan_sync<R: ReadAt>(
    wal: &R,
    db_len: u64,
    page_size: u32,
    txid: Txid,
    info: SyncInfo,
    state: SyncState,
) -> (r: Result<SyncPlan, Error>)
    requires
        page_size > 0,
        txid.0 < u64::MAX,
    ensures
        match r {
            Err(Error::Wal(WalError::Io(_))) => !wal.reliable(),
            _ => {
                ||| sync_plan_of(wal.contents(), db_len, page_size, txid, info, state, r)
                ||| !wal.reliable() && sync_plan_from_top(
                    wal.contents(),
                    db_len,
                    page_size,
                    txid,
                    info,
                    state,
                    r,
                )
            },
        },
{
    let (mut rd, offset) = match open_log(wal, info) {
        Ok(p) => p,
        Err(e) => return Err(Error::Wal(e)),
    };
    let ghost st = rd.state();
    let pm = match rd.page_map() {
        Ok(pm) => pm,
        Err(e) => return Err(Error::Wal(e)),
    };
    let ghost seen = scan(wal.contents(), st, u64::MAX as int).0;
    let ghost after = scan(wal.contents(), st, u64::MAX as int).1;
    proof {
        assert(maps_pages(pm, seen, st.page_size));
        assert forall|p: u32| #[trigger] pm.pages@.contains_key(p) implies pm.pages@[p]
            + WAL_FRAME_HEADER_SIZE <= u64::MAX by {
            assert(committed_pages(seen) != Map::<u32, u64>::empty());
        }
    }
    let salts = rd.salts();
    let r = plan_from_pages(&pm, salts, offset, db_len, page_size, txid, info, state);
    proof {
        assert(sync_plan_for(pm, after, offset, db_len, page_size, txid, info, state, r));
        assert(sync_plan_seen(
            seen,
            st.page_size,
            after,
            offset,
            db_len,
            page_size,
            txid,
            info,
            state,
            r,
        ));
    }
    r
}

/// What a sync did, once its file is in place: the position moved to the
/// file's transaction, and the log is consumed up to where the plan says.
pub fn sync_done(plan: &L0Plan, wal_file_size: u64) -> (r: SyncOutcome)
    requires
        plan.wal_offset + plan.wal_size <= u64::MAX,
    ensures
        r == (SyncOutcome {
            synced: true,
            pos: Some(Pos { txid: plan.txid, post_apply_checksum: 0 }),
            new_wal_size: (plan.wal_offset + plan.wal_size) as u64,
            synced_to_wal_end: plan.wal_offset + plan.wal_size == wal_file_size,
        }),
{
    let end: u64 = plan.wal_offset + plan.wal_size;
    SyncOutcome {
        synced: true,
        pos: Some(Pos { txid: plan.txid, post_apply_checksum: 0 }),
        new_wal_size: end,
        synced_to_wal_end: end == wal_file_size,
    }
}

impl SyncState {
    /// Takes over what a sync did. A failed sync never gets here, so it
    /// changes nothing.
    pub fn apply(&mut self, outcome: &SyncOutcome)
        ensures
            *final(self) == (SyncState {
                last_synced_wal_offset: outcome.new_wal_size,
                synced_to_wal_end: outcome.synced_to_wal_end,
                synced_since_checkpoint: old(self).synced_since_checkpoint,
            }),
    {
        self.last_synced_wal_offset = outcome.new_wal_size;
        self.synced_to_wal_end = outcome.synced_to_wal_end;
    }
}

/// Reads a page in full.
pub fn read_full_at<R: ReadAt>(file: &R, page_size: u32, offset: u64) -> (r: Result<Vec<u8>, Error>)
    ensures
        match r {
            Ok(data) => {
                &&& offset + page_size <= file.contents().len() || page_size == 0
                &&& data@.len() == page_size
                &&& forall|i: int|
                    0 <= i < page_size ==> #[trigger] data@[i] == file.contents()[offset + i]
            },
            Err(Error::Io(e)) => {
                ||| !file.reliable()
                ||| offset + page_size > file.contents().len() && e@ == (Fault {
                    kind: ErrorKind::UnexpectedEof,
                    message: "short read at offset "@ + decimal(offset as int),
                })
            },
            Err(_) => false,
        },
{
    let mut data: Vec<u8> = vec![0u8; page_size as usize];
    match file.read_at(data.as_mut_slice(), offset) {
        Err(e) => Err(Error::Io(e)),
        Ok(n) => {
            if n < data.len() {
                let m = crate::error::join(
                    "short read at offset ",
                    text::decimal_text(offset).as_str(),
                );
                return Err(Error::Io(IoError::new(ErrorKind::UnexpectedEof, m.as_str())));
            }
            Ok(data)
        },
    }
}

/// Which checkpoint a push calls for: an emergency one that truncates if the
/// log had grown too large before it, else a passive one at the threshold.
pub open spec fn checkpoint_choice(
    page_size: u32,
    opts: WriterOptions,
    orig_wal_size: u64,
    new_wal_size: u64,
) -> Option<CheckpointMode> {
    if page_size == 0 {
        None
    } else if opts.truncate_page_n > 0 && orig_wal_size >= wal_size(
        page_size,
        opts.truncate_page_n as int,
    ) {
        Some(CheckpointMode::Truncate)
    } else if new_wal_size >= wal_size(page_size, opts.min_checkpoint_page_n as int) {
        Some(CheckpointMode::Passive)
    } else {
        None
    }
}

/// Which checkpoint a push calls for, if any.
pub fn checkpoint_if_needed(
    page_size: u32,
    opts: &WriterOptions,
    orig_wal_size: u64,
    new_wal_size: u64,
) -> (r: Option<CheckpointMode>)
    requires
        page_size <= MAX_PAGE_SIZE,
    ensures
        r == checkpoint_choice(page_size, *opts, orig_wal_size, new_wal_size),
{
    if page_size == 0 {
        return None;
    }
    proof {
        assert(frame_size(page_size) * opts.truncate_page_n <= 65560 * 0xffff_ffff)
            by (nonlinear_arith)
            requires
                0 <= frame_size(page_size) <= 65560,
                opts.truncate_page_n <= 0xffff_ffff,
        ;
        assert(frame_size(page_size) * opts.min_checkpoint_page_n <= 65560 * 0xffff_ffff)
            by (nonlinear_arith)
            requires
                0 <= frame_size(page_size) <= 65560,
                opts.min_checkpoint_page_n <= 0xffff_ffff,
        ;
    }
    if opts.truncate_page_n > 0 && orig_wal_size >= calc_wal_size(
        page_size,
        opts.truncate_page_n as u64,
    ) {
        return Some(CheckpointMode::Truncate);
    }
    if new_wal_size >= calc_wal_size(page_size, opts.min_checkpoint_page_n as u64) {
        return Some(CheckpointMode::Passive);
    }
    None
}

/// Whether a checkpoint ran: a passive one that found the database busy did
/// not, which is expected under contention; any other failure is one.
pub fn checkpoint_outcome(mode: CheckpointMode, result: Result<(), Error>) -> (r: Result<
    bool,
    Error,
>)
    ensures
        match result {
            Ok(_) => r == Ok::<bool, Error>(true),
            Err(e) => if mode == CheckpointMode::Passive && crate::error::busy(e) {
                r == Ok::<bool, Error>(false)
            } else {
                r == Err::<bool, Error>(e)
            },
        },
{
    match result {
        Ok(_) => Ok(true),
        Err(e) => {
            if mode == CheckpointMode::Passive && crate::error::is_busy_error(&e) {
                Ok(false)
            } else {
                Err(e)
            }
        },
    }
}

/// How far the local history is known to reach in the bucket: what was
/// recorded of it, or the local position where nothing was, as in a metadata
/// directory that is older than the record.
pub fn known_position(verified: Option<Txid>, local: Txid) -> (r: Txid)
    ensures
        r == match verified {
            Some(t) => t,
            None => local,
        },
{
    match verified {
        Some(t) => t,
        None => local,
    }
}

/// The bucket's newest file, if it ends after the local history does.
pub open spec fn behind_remote(local: Txid, remote: Option<FileInfo>) -> Option<FileInfo> {
    match remote {
        Some(f) if f.max_txid.0 != 0 && local.0 < f.max_txid.0 => Some(f),
        _ => None,
    }
}

/// Whether the bucket is ahead of the local database (which was restored from
/// an older copy): then the newest bucket file is to become the local
/// baseline, so that the next push continues after it instead of repeating
/// its transactions.
pub fn check_behind_remote(local: Txid, remote: Option<FileInfo>) -> (r: Option<FileInfo>)
    ensures
        r == behind_remote(local, remote),
{
    match remote {
        Some(f) => {
            if f.max_txid.0 != 0 && local.0 < f.max_txid.0 {
                Some(f)
            } else {
                None
            }
        },
        None => None,
    }
}

/// What a writer remembers when it opens a database: how far the log was
/// synced in an earlier life. That the log was consumed to its end is never
/// remembered, because others may have checkpointed since.
pub fn opened_state(last_synced_wal_offset: u64) -> (r: SyncState)
    ensures
        r == (SyncState {
            last_synced_wal_offset,
            synced_to_wal_end: false,
            synced_since_checkpoint: false,
        }),
{
    SyncState { last_synced_wal_offset, synced_to_wal_end: false, synced_since_checkpoint: false }
}

/// Checks what opening a database found: the file must exist.
pub fn check_exists(db_path: &str, exists: bool) -> (r: Result<(), Error>)
    ensures
        exists ==> r is Ok,
        !exists ==> (r matches Err(Error::Other(m)) && m@ == "database file does not exist: "@
            + debug_quoted(db_path@)),
{
    if exists {
        Ok(())
    } else {
        Err(
            Error::Other(
                crate::error::join(
                    "database file does not exist: ",
                    text::quoted(db_path).as_str(),
                ),
            ),
        )
    }
}

/// Checks the page size that SQLite states.
pub fn check_db_page_size(page_size: u32) -> (r: Result<(), Error>)
    ensures
        page_size != 0 ==> r is Ok,
        page_size == 0 ==> (r matches Err(Error::Other(m)) && m@ == "invalid db page size"@),
{
    if page_size == 0 {
        Err(Error::Other("invalid db page size".to_owned()))
    } else {
        Ok(())
    }
}

/// Whether the log is there and long enough to hold its header; otherwise a
/// write must be forced.
pub fn wal_exists(len: Option<u64>) -> (r: bool)
    ensures
        r == (len matches Some(n) && n >= WAL_HEADER_SIZE),
{
    match len {
        Some(n) => n >= WAL_HEADER_SIZE,
        None => false,
    }
}

/// The path of a database's log.
pub fn wal_path_for(db_path: &str) -> (r: String)
    ensures
        r@ == db_path@ + "-wal"@,
{
    crate::error::join(db_path, "-wal")
}

/// A full image leaves no page out but the lock page, and takes each from its
/// latest committed frame if it has one.
pub proof fn law_image_holds_every_page(m: Map<u32, u64>, commit: u32, page_size: u32, p: u32)
    ensures
        image_pages(m, commit as int, page_size).contains((p, source_of(m, p as int, page_size)))
            <==> 1 <= p <= commit && p != lock_page(page_size),
{
    lemma_image(m, commit as int, page_size, p);
}

proof fn lemma_image(m: Map<u32, u64>, n: int, page_size: u32, p: u32)
    requires
        0 <= n <= u32::MAX,
    ensures
        image_pages(m, n, page_size).contains((p, source_of(m, p as int, page_size))) <==> 1 <= p
            <= n && p != lock_page(page_size),
    decreases n,
{
    let s = image_pages(m, n, page_size);
    let e = (p, source_of(m, p as int, page_size));
    if n > 0 {
        lemma_image(m, n - 1, page_size, p);
        let t = image_pages(m, n - 1, page_size);
        if n != lock_page(page_size) {
            let x = (n as u32, source_of(m, n, page_size));
            assert(s == t.push(x));
            if t.contains(e) {
                let i = choose|i: int| 0 <= i < t.len() && t[i] == e;
                assert(s[i] == e);
            }
            if p == n {
                assert(s[t.len() as int] == e);
            }
            if s.contains(e) {
                let i = choose|i: int| 0 <= i < s.len() && s[i] == e;
                if i < t.len() {
                    assert(t[i] == e);
                }
            }
        }
    }
}

} // verus!
