//! Write fencing: which pushed file a bucket lets in, who owns the bucket, and
//! how a push is carried through.
//!
//! Fencing detects two writers; it is no distributed lock. Level-0 files must
//! continue the bucket, higher levels may only summarize what it already has,
//! and the lease always reflects the owner's last accepted write.
use crate::error::{storage_text, StorageError};
use crate::io::{ErrorKind, IoError};
use crate::listing::{listed_line, listing_line};
use crate::ltx::{txid_text, FileInfo, Txid};
use crate::mount::{opt_string, replies, Response};
use crate::text;
use crate::text::decimal;
use crate::time::{span_between, Span};
use crate::wire::{header, header_seq, header_value, HeaderSeq};
use vstd::prelude::*;

verus! {

/// The most recent writer to touch a bucket under an id, and when (on some
/// steadily rising clock, in nanoseconds).
#[derive(Debug)]
pub struct WriterLease {
    pub id: String,
    pub last_seen: u128,
}

/// The file that a push names.
#[derive(Clone, Copy, Debug, PartialEq, Eq, Structural)]
pub struct PutTarget {
    pub level: u8,
    pub min_txid: Txid,
    pub max_txid: Txid,
}

/// What a fence has to know of the bucket: nothing for a deletion, the
/// level-0 listing for a level-0 push, the bucket's last transaction for any
/// other push.
#[derive(Debug)]
pub enum FenceListing {
    Unneeded,
    L0(Result<Vec<FileInfo>, StorageError>),
    Bucket(Result<Txid, StorageError>),
}

/// A passed fence: what the caller may do, and what to commit if the write
/// succeeds.
#[derive(Debug)]
pub struct FencePass {
    /// Writer to record as the lease holder once the write is accepted;
    /// nothing for writers without an id.
    pub claim: Option<String>,
    /// For a level-0 push of transactions that a stored file already holds:
    /// that file, so that the caller can verify that the bytes are equal.
    pub existing_l0: Option<FileInfo>,
}

/// A refused fence.
#[derive(Debug)]
pub enum FenceReject {
    /// Lease conflict, or transactions out of order.
    Conflict(String),
    /// The bucket could not be listed.
    Backend(StorageError),
}

/// Whether another writer holds the lease.
pub open spec fn held_by_other(
    lease: Option<WriterLease>,
    ttl: Span,
    now: u128,
    id: Seq<char>,
) -> bool {
    match lease {
        Some(l) => l.id@ != id && span_between(l.last_seen, now) < ttl.nanos,
        None => false,
    }
}

/// The last transaction among `files`; zero without any.
pub open spec fn last_txid(files: Seq<FileInfo>) -> Txid {
    crate::sync::max_seen(files, Txid(0))
}

/// The first file that holds exactly `min` to `max`.
pub open spec fn exact_file(files: Seq<FileInfo>, min: Txid, max: Txid) -> Option<FileInfo>
    decreases files.len(),
{
    if files.len() == 0 {
        None
    } else if files[0].min_txid == min && files[0].max_txid == max {
        Some(files[0])
    } else {
        exact_file(files.skip(1), min, max)
    }
}

/// What is said of a level-0 push that does not continue the bucket.
pub open spec fn non_monotonic_text(p: PutTarget, cur: Txid) -> Seq<char> {
    "non-monotonic L0 push: "@ + txid_text(p.min_txid) + "-"@ + txid_text(p.max_txid)
        + " offered, bucket at "@ + txid_text(cur)
}

/// What is said of a push that summarizes more than the bucket has.
pub open spec fn beyond_text(p: PutTarget, bucket_max: Txid) -> Seq<char> {
    "L"@ + decimal(p.level as int) + " push beyond bucket max: "@ + txid_text(p.min_txid) + "-"@
        + txid_text(p.max_txid) + " offered, bucket max is "@ + txid_text(bucket_max)
        + "; upload the L0 backlog before pushing compactions or snapshots"@
}

/// The mathematical value of a fence's answer.
pub enum FenceView {
    Pass { claim: Option<Seq<char>>, existing: Option<FileInfo> },
    Conflict(Seq<char>),
    Backend(StorageError),
}

/// Whether the request holds the lease, or may take it.
pub open spec fn lease_allows(
    lease: Option<WriterLease>,
    ttl: Span,
    now: u128,
    h: HeaderSeq,
) -> bool {
    match header_value(h, "x-liters-writer-id"@) {
        None => true,
        Some(id) => !held_by_other(lease, ttl, now, id) || header_value(
            h,
            "x-liters-writer-takeover"@,
        ) == Some("1"@),
    }
}

/// The fence: the lease first, then the order of transactions.
pub open spec fn fence(
    lease: Option<WriterLease>,
    ttl: Span,
    now: u128,
    h: HeaderSeq,
    put: Option<PutTarget>,
    listing: FenceListing,
) -> FenceView {
    let claim = header_value(h, "x-liters-writer-id"@);
    if !lease_allows(lease, ttl, now, h) {
        FenceView::Conflict("bucket is owned by writer "@ + lease->0.id@)
    } else {
        match put {
            None => FenceView::Pass { claim, existing: None },
            Some(p) => match listing {
                FenceListing::L0(Ok(files)) => {
                    let cur = last_txid(files@);
                    let existing = exact_file(files@, p.min_txid, p.max_txid);
                    if existing is Some || files@.len() == 0 || p.min_txid.0 == cur.0 + 1 {
                        FenceView::Pass { claim, existing }
                    } else {
                        FenceView::Conflict(non_monotonic_text(p, cur))
                    }
                },
                FenceListing::Bucket(Ok(bucket_max)) => if p.max_txid.0 > bucket_max.0 {
                    FenceView::Conflict(beyond_text(p, bucket_max))
                } else {
                    FenceView::Pass { claim, existing: None }
                },
                FenceListing::L0(Err(e)) => FenceView::Backend(e),
                FenceListing::Bucket(Err(e)) => FenceView::Backend(e),
                FenceListing::Unneeded => FenceView::Pass { claim, existing: None },
            },
        }
    }
}

/// The mathematical value of a fence's answer.
pub open spec fn fence_view(r: Result<FencePass, FenceReject>) -> FenceView {
    match r {
        Ok(p) => FenceView::Pass { claim: opt_string(p.claim), existing: p.existing_l0 },
        Err(FenceReject::Conflict(m)) => FenceView::Conflict(m@),
        Err(FenceReject::Backend(e)) => FenceView::Backend(e),
    }
}

/// Whether `listing` is what a fence for `put` has to know.
pub open spec fn listing_fits(put: Option<PutTarget>, listing: FenceListing) -> bool {
    match put {
        None => true,
        Some(p) => if p.level == 0 {
            listing is L0
        } else {
            listing is Bucket
        },
    }
}

/// The last transaction among `files`; zero without any.
pub fn last_of(files: &Vec<FileInfo>) -> (r: Txid)
    ensures
        r == last_txid(files@),
{
    let mut max = Txid(0);
    let mut i: usize = 0;
    assert(files@.take(0) =~= Seq::<FileInfo>::empty());
    while i < files.len()
        invariant
            i <= files@.len(),
            max == last_txid(files@.take(i as int)),
        decreases files@.len() - i,
    {
        assert(files@.take(i + 1).drop_last() =~= files@.take(i as int));
        if files[i].max_txid.0 > max.0 {
            max = files[i].max_txid;
        }
        i += 1;
    }
    assert(files@.take(i as int) =~= files@);
    max
}

/// The last transaction of a bucket, from the listings of all its levels.
pub open spec fn bucket_last(levels: Seq<Vec<FileInfo>>) -> Txid
    decreases levels.len(),
{
    if levels.len() == 0 {
        Txid(0)
    } else {
        crate::sync::max_seen(levels.last()@, bucket_last(levels.drop_last()))
    }
}

/// The last transaction of a bucket, from the listings of all its levels: the
/// evidence for divergence.
pub fn bucket_max(levels: &Vec<Vec<FileInfo>>) -> (r: Txid)
    ensures
        r == bucket_last(levels@),
{
    let mut max = Txid(0);
    let mut l: usize = 0;
    assert(levels@.take(0) =~= Seq::<Vec<FileInfo>>::empty());
    while l < levels.len()
        invariant
            l <= levels@.len(),
            max == bucket_last(levels@.take(l as int)),
        decreases levels@.len() - l,
    {
        assert(levels@.take(l + 1).drop_last() =~= levels@.take(l as int));
        let files = &levels[l];
        let ghost start = max;
        let mut i: usize = 0;
        assert(files@.take(0) =~= Seq::<FileInfo>::empty());
        while i < files.len()
            invariant
                i <= files@.len(),
                max == crate::sync::max_seen(files@.take(i as int), start),
            decreases files@.len() - i,
        {
            assert(files@.take(i + 1).drop_last() =~= files@.take(i as int));
            if files[i].max_txid.0 > max.0 {
                max = files[i].max_txid;
            }
            i += 1;
        }
        assert(files@.take(i as int) =~= files@);
        l += 1;
    }
    assert(levels@.take(l as int) =~= levels@);
    max
}

fn find_exact(files: &Vec<FileInfo>, min: Txid, max: Txid) -> (r: Option<FileInfo>)
    ensures
        r == exact_file(files@, min, max),
{
    let mut i: usize = 0;
    assert(files@.skip(0) =~= files@);
    while i < files.len()
        invariant
            i <= files@.len(),
            exact_file(files@.skip(i as int), min, max) == exact_file(files@, min, max),
        decreases files@.len() - i,
    {
        assert(files@.skip(i as int)[0] == files@[i as int]);
        assert(files@.skip(i as int).skip(1) =~= files@.skip(i + 1));
        if files[i].min_txid.0 == min.0 && files[i].max_txid.0 == max.0 {
            return Some(files[i]);
        }
        i += 1;
    }
    None
}

/// Write-fencing gate: a pure check that never changes the lease (that is
/// [`commit_lease`], after the write succeeded). `put` is the file of a push;
/// deletions pass nothing and face the lease rules only.
pub fn check_fence(
    lease: &Option<WriterLease>,
    ttl: Span,
    now: u128,
    headers: &[(String, String)],
    put: Option<PutTarget>,
    listing: FenceListing,
) -> (r: Result<FencePass, FenceReject>)
    requires
        listing_fits(put, listing),
    ensures
        fence_view(r) == fence(*lease, ttl, now, header_seq(headers@), put, listing),
{
    let mut claim: Option<String> = None;
    if let Some(id) = header(headers, "x-liters-writer-id") {
        let takeover = match header(headers, "x-liters-writer-takeover") {
            Some(t) => text::same_text(t, "1"),
            None => false,
        };
        if let Some(l) = lease {
            let live = crate::time::elapsed(l.last_seen, now).nanos < ttl.nanos;
            if !text::same_text(l.id.as_str(), id) && live && !takeover {
                let m = crate::error::join("bucket is owned by writer ", l.id.as_str());
                return Err(FenceReject::Conflict(m));
            }
        }
        claim = Some(id.to_owned());
    }
    let p = match put {
        None => return Ok(FencePass { claim, existing_l0: None }),
        Some(p) => p,
    };
    match listing {
        FenceListing::L0(Ok(files)) => {
            let cur = last_of(&files);
            let existing = find_exact(&files, p.min_txid, p.max_txid);
            if existing.is_none() && files.len() != 0 && !(p.min_txid.0 > 0 && p.min_txid.0 - 1
                == cur.0) {
                let mut m = "non-monotonic L0 push: ".to_owned();
                m.append(p.min_txid.text().as_str());
                m.append("-");
                m.append(p.max_txid.text().as_str());
                m.append(" offered, bucket at ");
                m.append(cur.text().as_str());
                return Err(FenceReject::Conflict(m));
            }
            Ok(FencePass { claim, existing_l0: existing })
        },
        FenceListing::Bucket(Ok(bucket_max)) => {
            if p.max_txid.0 > bucket_max.0 {
                let mut m = "L".to_owned();
                m.append(text::decimal_text(p.level as u64).as_str());
                m.append(" push beyond bucket max: ");
                m.append(p.min_txid.text().as_str());
                m.append("-");
                m.append(p.max_txid.text().as_str());
                m.append(" offered, bucket max is ");
                m.append(bucket_max.text().as_str());
                m.append("; upload the L0 backlog before pushing compactions or snapshots");
                return Err(FenceReject::Conflict(m));
            }
            Ok(FencePass { claim, existing_l0: None })
        },
        FenceListing::L0(Err(e)) => Err(FenceReject::Backend(e)),
        FenceListing::Bucket(Err(e)) => Err(FenceReject::Backend(e)),
        FenceListing::Unneeded => Ok(FencePass { claim, existing_l0: None }),
    }
}

/// The answer to a refused write.
pub fn fence_reject_response(rej: &FenceReject) -> (r: Response)
    ensures
        match *rej {
            FenceReject::Conflict(m) => replies(r, 409, m@ + "\n"@),
            FenceReject::Backend(e) => replies(r, 500, "fence: "@ + storage_text(e) + "\n"@),
        },
{
    match rej {
        FenceReject::Conflict(m) => Response::error(409, m.as_str()),
        FenceReject::Backend(e) => Response::failure(500, "fence: ", e.message().as_str()),
    }
}

/// Records the claim as the lease holder. To be called only after the write
/// succeeded, so that the lease reflects the owner's last accepted write.
pub fn commit_lease(lease: &mut Option<WriterLease>, claim: Option<String>, now: u128)
    ensures
        match claim {
            Some(id) => *final(lease) == Some(WriterLease { id, last_seen: now }),
            None => *final(lease) == *old(lease),
        },
{
    if let Some(id) = claim {
        *lease = Some(WriterLease { id, last_seen: now });
    }
}

// ---------------------------------------------------------------------------
// Carrying a push through

/// What a push waits for.
#[derive(Debug)]
pub enum PutPhase {
    /// The advisory fence, before the body is received.
    Advisory,
    /// The body.
    Spool,
    /// The fence that counts, with other writes to the bucket held off.
    Gate,
    /// The comparison with the stored file, after which the pass is used.
    Compare(FencePass),
    /// The write, after which the claim is committed.
    Write(Option<String>),
    Done,
}

/// What to do next for a push.
#[derive(Debug)]
pub enum PutAction {
    /// List what the fence needs and check it.
    CheckFence,
    /// Receive the whole body into a local spool.
    Spool,
    /// Hold off other writes to the bucket, list what the fence needs again
    /// and check it.
    LockAndCheckFence,
    /// Compare the stored file with the spool.
    Compare(FileInfo),
    /// Write the spool to the bucket.
    Write,
    /// Commit the claim, wake the followers and answer.
    Accept(Option<String>, Response),
    /// Answer.
    Reply(Response),
}

/// What came of an action.
#[derive(Debug)]
pub enum PutEvent {
    Fenced(Result<FencePass, FenceReject>),
    /// The length of the body.
    Spooled(Result<u64, IoError>),
    /// Whether the bytes were equal.
    Compared(Result<bool, StorageError>),
    /// The spool could not be read from its start.
    SpoolLost(IoError),
    Written(Result<FileInfo, StorageError>),
}

/// A push in progress.
#[derive(Debug)]
pub struct AcceptFile {
    pub target: PutTarget,
    /// The length of the body, once it is received.
    pub length: u64,
    pub phase: PutPhase,
}

/// Whether a push waits for an event of this kind.
pub open spec fn put_expects(s: AcceptFile, ev: PutEvent) -> bool {
    match s.phase {
        PutPhase::Advisory | PutPhase::Gate => ev is Fenced,
        PutPhase::Spool => ev is Spooled,
        PutPhase::Compare(pass) => ev is Compared && pass.existing_l0 is Some,
        PutPhase::Write(_) => ev is Written || ev is SpoolLost,
        PutPhase::Done => false,
    }
}

/// Whether `a` answers a refused fence.
pub open spec fn rejects(a: PutAction, rej: FenceReject) -> bool {
    a is Reply && match rej {
        FenceReject::Conflict(m) => replies(a->Reply_0, 409, m@ + "\n"@),
        FenceReject::Backend(e) => replies(
            a->Reply_0,
            500,
            "fence: "@ + storage_text(e) + "\n"@,
        ),
    }
}

/// What is said of a re-push with other bytes.
pub open spec fn mismatch_text(p: PutTarget) -> Seq<char> {
    "L0 re-push of "@ + txid_text(p.min_txid) + "-"@ + txid_text(p.max_txid)
        + " does not match the stored file (divergent writer?)"@
}

/// Whether `a` is a plain-text answer.
pub open spec fn answers(a: PutAction, status: u16, body: Seq<char>) -> bool {
    a is Reply && replies(a->Reply_0, status, body)
}

/// What a push becomes and does next on an event: the state `t` and the
/// action `a`.
pub open spec fn put_step(s: AcceptFile, ev: PutEvent, t: AcceptFile, a: PutAction) -> bool {
    &&& t.target == s.target
    &&& match (s.phase, ev) {
        (PutPhase::Advisory, PutEvent::Fenced(r)) => match r {
            Ok(_) => t.phase is Spool && a is Spool,
            Err(rej) => t.phase is Done && rejects(a, rej),
        },
        (PutPhase::Spool, PutEvent::Spooled(r)) => match r {
            Ok(n) => t.phase is Gate && t.length == n && a is LockAndCheckFence,
            Err(e) => t.phase is Done && answers(
                a,
                if e.kind == ErrorKind::UnexpectedEof {
                    400
                } else {
                    500
                },
                (if e.kind == ErrorKind::UnexpectedEof {
                    "short or truncated ltx body: "@
                } else {
                    "read body: "@
                }) + e.message@ + "\n"@,
            ),
        },
        (PutPhase::Gate, PutEvent::Fenced(r)) => match r {
            Ok(pass) => match pass.existing_l0 {
                None => t.phase == PutPhase::Write(pass.claim) && a is Write,
                Some(f) => if f.size != s.length {
                    t.phase is Done && answers(a, 409, mismatch_text(s.target) + "\n"@)
                } else {
                    t.phase == PutPhase::Compare(pass) && a == PutAction::Compare(f)
                },
            },
            Err(rej) => t.phase is Done && rejects(a, rej),
        },
        (PutPhase::Compare(pass), PutEvent::Compared(r)) => match r {
            Ok(same) => if same {
                t.phase == PutPhase::Write(pass.claim) && a is Write
            } else {
                t.phase is Done && answers(a, 409, mismatch_text(s.target) + "\n"@)
            },
            Err(e) => t.phase is Done && answers(
                a,
                500,
                "fence: "@ + storage_text(e) + "\n"@,
            ),
        },
        (PutPhase::Write(_), PutEvent::SpoolLost(e)) => t.phase is Done && answers(
            a,
            500,
            "spool: "@ + e.message@ + "\n"@,
        ),
        (PutPhase::Write(claim), PutEvent::Written(r)) => t.phase is Done && match r {
            Ok(f) => a is Accept && a->Accept_0 == claim && replies(
                a->Accept_1,
                200,
                listed_line(f),
            ),
            Err(StorageError::Ltx(m)) => answers(a, 400, "bad ltx file: "@ + m@ + "\n"@),
            Err(StorageError::Io(e)) if e.kind == ErrorKind::UnexpectedEof => answers(
                a,
                400,
                "short or truncated ltx body: "@ + e.message@ + "\n"@,
            ),
            Err(e) => answers(a, 500, "write: "@ + storage_text(e) + "\n"@),
        },
        _ => false,
    }
}

impl AcceptFile {
    /// Starts a push of `target`. The first action is the advisory fence,
    /// which rejects clearly bad pushes before the body is received.
    pub fn new(target: PutTarget) -> (r: (AcceptFile, PutAction))
        ensures
            r.0.target == target,
            r.0.phase is Advisory,
            r.1 is CheckFence,
    {
        (AcceptFile { target, length: 0, phase: PutPhase::Advisory }, PutAction::CheckFence)
    }

    fn mismatch(&self) -> (r: Response)
        ensures
            replies(r, 409, mismatch_text(self.target) + "\n"@),
    {
        let mut m = "L0 re-push of ".to_owned();
        m.append(self.target.min_txid.text().as_str());
        m.append("-");
        m.append(self.target.max_txid.text().as_str());
        m.append(" does not match the stored file (divergent writer?)");
        Response::error(409, m.as_str())
    }

    /// Takes the event that came of the last action, and tells what to do
    /// next.
    pub fn step(self, ev: PutEvent) -> (r: (AcceptFile, PutAction))
        requires
            put_expects(self, ev),
        ensures
            put_step(self, ev, r.0, r.1),
    {
        let AcceptFile { target, length, phase } = self;
        let done = AcceptFile { target, length, phase: PutPhase::Done };
        match (phase, ev) {
            (PutPhase::Advisory, PutEvent::Fenced(r)) => match r {
                Ok(_) => (AcceptFile { phase: PutPhase::Spool, ..done }, PutAction::Spool),
                Err(rej) => (done, PutAction::Reply(fence_reject_response(&rej))),
            },
            (PutPhase::Spool, PutEvent::Spooled(r)) => match r {
                Ok(n) => (
                    AcceptFile { length: n, phase: PutPhase::Gate, ..done },
                    PutAction::LockAndCheckFence,
                ),
                Err(e) => {
                    if e.kind == ErrorKind::UnexpectedEof {
                        (
                            done,
                            PutAction::Reply(
                                Response::failure(
                                    400,
                                    "short or truncated ltx body: ",
                                    e.message.as_str(),
                                ),
                            ),
                        )
                    } else {
                        (
                            done,
                            PutAction::Reply(
                                Response::failure(500, "read body: ", e.message.as_str()),
                            ),
                        )
                    }
                },
            },
            (PutPhase::Gate, PutEvent::Fenced(r)) => match r {
                Ok(pass) => match pass.existing_l0 {
                    None => (
                        AcceptFile { phase: PutPhase::Write(pass.claim), ..done },
                        PutAction::Write,
                    ),
                    Some(f) => {
                        if f.size != length {
                            let resp = done.mismatch();
                            (done, PutAction::Reply(resp))
                        } else {
                            (
                                AcceptFile { phase: PutPhase::Compare(pass), ..done },
                                PutAction::Compare(f),
                            )
                        }
                    },
                },
                Err(rej) => (done, PutAction::Reply(fence_reject_response(&rej))),
            },
            (PutPhase::Compare(pass), PutEvent::Compared(r)) => match r {
                Ok(same) => {
                    if same {
                        (
                            AcceptFile { phase: PutPhase::Write(pass.claim), ..done },
                            PutAction::Write,
                        )
                    } else {
                        let resp = done.mismatch();
                        (done, PutAction::Reply(resp))
                    }
                },
                Err(e) => (
                    done,
                    PutAction::Reply(Response::failure(500, "fence: ", e.message().as_str())),
                ),
            },
            (PutPhase::Write(_), PutEvent::SpoolLost(e)) => (
                done,
                PutAction::Reply(Response::failure(500, "spool: ", e.message.as_str())),
            ),
            (PutPhase::Write(claim), PutEvent::Written(r)) => match r {
                Ok(f) => {
                    let line = listing_line(&f);
                    (done, PutAction::Accept(claim, Response::text(200, line.as_str())))
                },
                Err(e) => (done, PutAction::Reply(write_failure(e))),
            },
            (_, _) => {
                assert(false);
                (done, PutAction::CheckFence)
            },
        }
    }
}

/// The answer to a write that the bucket refused or failed.
fn write_failure(e: StorageError) -> (r: Response)
    ensures
        match e {
            StorageError::Ltx(m) => replies(r, 400, "bad ltx file: "@ + m@ + "\n"@),
            StorageError::Io(e) if e.kind == ErrorKind::UnexpectedEof => replies(
                r,
                400,
                "short or truncated ltx body: "@ + e.message@ + "\n"@,
            ),
            e => replies(r, 500, "write: "@ + storage_text(e) + "\n"@),
        },
{
    match e {
        StorageError::Ltx(m) => Response::failure(400, "bad ltx file: ", m.as_str()),
        StorageError::Io(e) => {
            if e.kind == ErrorKind::UnexpectedEof {
                Response::failure(400, "short or truncated ltx body: ", e.message.as_str())
            } else {
                let e = StorageError::Io(e);
                Response::failure(500, "write: ", e.message().as_str())
            }
        },
        e => Response::failure(500, "write: ", e.message().as_str()),
    }
}

// ---------------------------------------------------------------------------
// What fencing guarantees

/// A level-0 push that is let in continues the bucket, starts an empty one,
/// or repeats a stored file's transactions exactly.
pub proof fn law_l0_pushes_are_in_order(
    lease: Option<WriterLease>,
    ttl: Span,
    now: u128,
    h: HeaderSeq,
    p: PutTarget,
    files: Vec<FileInfo>,
)
    requires
        fence(lease, ttl, now, h, Some(p), FenceListing::L0(Ok(files))) is Pass,
    ensures
        files@.len() == 0 || p.min_txid.0 == last_txid(files@).0 + 1 || exact_file(
            files@,
            p.min_txid,
            p.max_txid,
        ) is Some,
{
}

/// A push to a higher level that is let in summarizes only what the bucket
/// already has.
pub proof fn law_higher_pushes_stay_within_bucket(
    lease: Option<WriterLease>,
    ttl: Span,
    now: u128,
    h: HeaderSeq,
    p: PutTarget,
    bucket_max: Txid,
)
    requires
        fence(lease, ttl, now, h, Some(p), FenceListing::Bucket(Ok(bucket_max))) is Pass,
    ensures
        p.max_txid.0 <= bucket_max.0,
{
}

/// While a lease is live, a writer with another id is refused, unless it
/// takes over; a writer without an id, or the owner, is not; and once the
/// lease ran out, nobody is on its account.
pub proof fn law_lease_keeps_others_out(
    lease: WriterLease,
    ttl: Span,
    now: u128,
    h: HeaderSeq,
    put: Option<PutTarget>,
    listing: FenceListing,
)
    ensures
        ({
            let id = header_value(h, "x-liters-writer-id"@);
            let takeover = header_value(h, "x-liters-writer-takeover"@) == Some("1"@);
            let live = span_between(lease.last_seen, now) < ttl.nanos;
            let refused = fence(Some(lease), ttl, now, h, put, listing) == FenceView::Conflict(
                "bucket is owned by writer "@ + lease.id@,
            );
            &&& id is Some && id->0 != lease.id@ && live && !takeover ==> refused
            &&& id is None || id->0 == lease.id@ || !live || takeover ==> lease_allows(
                Some(lease),
                ttl,
                now,
                h,
            )
        }),
{
}

/// A push claims the lease, and answers with success, only once its write was
/// accepted.
pub proof fn law_rejected_push_never_claims_lease(
    s: AcceptFile,
    ev: PutEvent,
    t: AcceptFile,
    a: PutAction,
)
    requires
        put_expects(s, ev),
        put_step(s, ev, t, a),
    ensures
        a is Accept ==> s.phase is Write && (ev matches PutEvent::Written(Ok(_))),
        a matches PutAction::Reply(r) ==> r.status >= 400,
{
}

/// A file is written only after the fence that counts let it through, and a
/// repeated level-0 push only if the stored file has the same length and the
/// same bytes.
pub proof fn law_written_push_passed_the_fence(
    s: AcceptFile,
    ev: PutEvent,
    t: AcceptFile,
    a: PutAction,
)
    requires
        put_expects(s, ev),
        put_step(s, ev, t, a),
        a is Write,
    ensures
        (s.phase is Gate && (ev matches PutEvent::Fenced(Ok(pass)) && pass.existing_l0 is None))
            || (s.phase is Compare && ev == PutEvent::Compared(Ok(true))),
{
}

/// A comparison is asked for only of a stored file with the body's length.
pub proof fn law_repeated_push_compares_equal_lengths(
    s: AcceptFile,
    ev: PutEvent,
    t: AcceptFile,
    a: PutAction,
)
    requires
        put_expects(s, ev),
        put_step(s, ev, t, a),
        a is Compare,
    ensures
        a->Compare_0.size == s.length,
{
}

/// Whether nobody else holds the bucket: the request bears no writer id, or no
/// lease was ever taken, or it is the writer's own, or it was not renewed for
/// as long as it lasts, or the writer takes over.
pub open spec fn bucket_is_open_to(
    lease: Option<WriterLease>,
    ttl: Span,
    now: u128,
    h: HeaderSeq,
) -> bool {
    let id = header_value(h, "x-liters-writer-id"@);
    ||| id is None
    ||| lease is None
    ||| lease->0.id@ == id->0
    ||| lease->0.last_seen + ttl.nanos <= now
    ||| ttl.nanos == 0
    ||| header_value(h, "x-liters-writer-takeover"@) == Some("1"@)
}

/// The lease refuses a request exactly if another writer holds the bucket,
/// and then names that writer, whatever is pushed.
pub proof fn law_lease_decides_by_the_owner(
    lease: Option<WriterLease>,
    ttl: Span,
    now: u128,
    h: HeaderSeq,
    put: Option<PutTarget>,
    listing: FenceListing,
)
    ensures
        lease_allows(lease, ttl, now, h) <==> bucket_is_open_to(lease, ttl, now, h),
        !bucket_is_open_to(lease, ttl, now, h) ==> fence(lease, ttl, now, h, put, listing)
            == FenceView::Conflict("bucket is owned by writer "@ + lease->0.id@),
        bucket_is_open_to(lease, ttl, now, h) && put is None ==> fence(
            lease,
            ttl,
            now,
            h,
            put,
            listing,
        ) == (FenceView::Pass {
            claim: header_value(h, "x-liters-writer-id"@),
            existing: None,
        }),
{
}

/// A push to a higher level that ends no later than the bucket is let in,
/// whichever level it is for, and claims the bucket for its writer; one that
/// ends later is a conflict.
pub proof fn law_pushes_within_bucket_are_let_in(
    lease: Option<WriterLease>,
    ttl: Span,
    now: u128,
    h: HeaderSeq,
    p: PutTarget,
    bucket_max: Txid,
)
    requires
        bucket_is_open_to(lease, ttl, now, h),
    ensures
        ({
            let answer = fence(
                lease,
                ttl,
                now,
                h,
                Some(p),
                FenceListing::Bucket(Ok(bucket_max)),
            );
            &&& p.max_txid.0 <= bucket_max.0 ==> answer == (FenceView::Pass {
                claim: header_value(h, "x-liters-writer-id"@),
                existing: None,
            })
            &&& p.max_txid.0 > bucket_max.0 ==> answer is Conflict
        }),
{
}

/// A level-0 push that starts an empty bucket, or that starts right after the
/// last transaction listed, is let in; so is one that repeats a listed file,
/// and the answer then names a listed file with just these transactions. Any
/// other is a conflict.
pub proof fn law_l0_pushes_in_order_are_let_in(
    lease: Option<WriterLease>,
    ttl: Span,
    now: u128,
    h: HeaderSeq,
    p: PutTarget,
    files: Vec<FileInfo>,
)
    requires
        bucket_is_open_to(lease, ttl, now, h),
    ensures
        ({
            let answer = fence(lease, ttl, now, h, Some(p), FenceListing::L0(Ok(files)));
            let repeated = exists|k: int|
                0 <= k < files@.len() && (#[trigger] files@[k]).min_txid == p.min_txid
                    && files@[k].max_txid == p.max_txid;
            let next = files@.len() == 0 || ((forall|k: int|
                0 <= k < files@.len() ==> (#[trigger] files@[k]).max_txid.0 < p.min_txid.0) && (
            exists|k: int|
                0 <= k < files@.len() && (#[trigger] files@[k]).max_txid.0 + 1 == p.min_txid.0));
            &&& answer is Pass <==> next || repeated
            &&& !(next || repeated) ==> answer is Conflict
            &&& answer is Pass ==> answer->claim == header_value(h, "x-liters-writer-id"@)
            &&& answer is Pass && !repeated ==> answer->existing is None
            &&& answer is Pass && repeated ==> {
                &&& answer->existing is Some
                &&& files@.contains(answer->existing->0)
                &&& answer->existing->0.min_txid == p.min_txid
                &&& answer->existing->0.max_txid == p.max_txid
            }
        }),
{
    crate::sync::lemma_max_seen(files@, Txid(0));
    if files@.len() > 0 {
        crate::compaction::lemma_max_is_there(files@);
    }
    lemma_exact_file(files@, p.min_txid, p.max_txid);
}

proof fn lemma_exact_file(files: Seq<FileInfo>, min: Txid, max: Txid)
    ensures
        exact_file(files, min, max) is Some <==> exists|k: int|
            0 <= k < files.len() && (#[trigger] files[k]).min_txid == min && files[k].max_txid
                == max,
        exact_file(files, min, max) matches Some(f) ==> files.contains(f) && f.min_txid == min
            && f.max_txid == max,
    decreases files.len(),
{
    if files.len() > 0 {
        let t = files.skip(1);
        lemma_exact_file(t, min, max);
        if files[0].min_txid == min && files[0].max_txid == max {
        } else {
            if exact_file(t, min, max) is Some {
                let k = choose|k: int|
                    0 <= k < t.len() && (#[trigger] t[k]).min_txid == min && t[k].max_txid == max;
                assert(files[k + 1] == t[k]);
                let f = exact_file(t, min, max)->0;
                let j = choose|j: int| 0 <= j < t.len() && t[j] == f;
                assert(files[j + 1] == f);
            } else {
                assert forall|k: int| 0 <= k < files.len() implies !((
                #[trigger] files[k]).min_txid == min && files[k].max_txid == max) by {
                    if k > 0 {
                        assert(t[k - 1] == files[k]);
                    }
                }
            }
        }
    }
}

/// The bucket's last transaction is the last of any file on any level: none
/// ends later, and unless the bucket is empty some file ends there.
pub proof fn law_bucket_ends_with_its_last_file(levels: Seq<Vec<FileInfo>>)
    ensures
        forall|l: int, k: int|
            0 <= l < levels.len() && 0 <= k < levels[l]@.len() ==> (
            #[trigger] levels[l]@[k]).max_txid.0 <= bucket_last(levels).0,
        bucket_last(levels).0 > 0 ==> exists|l: int, k: int|
            0 <= l < levels.len() && 0 <= k < levels[l]@.len() && (
            #[trigger] levels[l]@[k]).max_txid == bucket_last(levels),
    decreases levels.len(),
{
    if levels.len() > 0 {
        let t = levels.drop_last();
        law_bucket_ends_with_its_last_file(t);
        let start = bucket_last(t);
        let files = levels.last()@;
        crate::sync::lemma_max_seen(files, start);
        lemma_max_from(files, start);
        assert forall|l: int, k: int|
            0 <= l < levels.len() && 0 <= k < levels[l]@.len() implies (
        #[trigger] levels[l]@[k]).max_txid.0 <= bucket_last(levels).0 by {
            if l < t.len() {
                assert(t[l]@[k] == levels[l]@[k]);
            }
        }
        if bucket_last(levels).0 > 0 {
            if bucket_last(levels) == start {
                let (l, k) = choose|l: int, k: int|
                    0 <= l < t.len() && 0 <= k < t[l]@.len() && (#[trigger] t[l]@[k]).max_txid
                        == start;
                assert(levels[l]@[k].max_txid == bucket_last(levels));
            } else {
                let k = choose|k: int|
                    0 <= k < files.len() && (#[trigger] files[k]).max_txid == bucket_last(levels);
                let l = levels.len() - 1;
                assert(levels[l]@[k].max_txid == bucket_last(levels));
            }
        }
    }
}

pub proof fn lemma_max_from(files: Seq<FileInfo>, start: Txid)
    ensures
        crate::sync::max_seen(files, start) == start || exists|k: int|
            0 <= k < files.len() && (#[trigger] files[k]).max_txid == crate::sync::max_seen(
                files,
                start,
            ),
    decreases files.len(),
{
    if files.len() > 0 {
        let t = files.drop_last();
        lemma_max_from(t, start);
        let m = crate::sync::max_seen(files, start);
        if files.last().max_txid == m {
            assert(files[files.len() - 1].max_txid == m);
        } else if m != start {
            let k = choose|k: int| 0 <= k < t.len() && (#[trigger] t[k]).max_txid == m;
            assert(files[k].max_txid == m);
        }
    }
}

/// A push that the fence let in, whose body arrived whole and that the bucket
/// stored, is answered with success and takes the lease for its writer: every
/// step on the way asks for the next.
pub proof fn law_accepted_push_is_carried_through(
    s: AcceptFile,
    ev: PutEvent,
    t: AcceptFile,
    a: PutAction,
)
    requires
        put_expects(s, ev),
        put_step(s, ev, t, a),
    ensures
        t.target == s.target,
        s.phase is Advisory && (ev matches PutEvent::Fenced(Ok(_))) ==> a is Spool,
        s.phase is Spool && (ev matches PutEvent::Spooled(Ok(_))) ==> a is LockAndCheckFence
            && t.length == ev->Spooled_0->Ok_0,
        s.phase is Gate && (ev matches PutEvent::Fenced(Ok(pass)) && pass.existing_l0 is None)
            ==> a is Write && t.phase == PutPhase::Write(ev->Fenced_0->Ok_0.claim),
        s.phase is Gate && (ev matches PutEvent::Fenced(Ok(pass)) && (pass.existing_l0 matches Some(
            f,
        ) && f.size == s.length)) ==> a is Compare && a->Compare_0
            == ev->Fenced_0->Ok_0.existing_l0->0 && t.phase == PutPhase::Compare(
            ev->Fenced_0->Ok_0,
        ),
        s.phase is Compare && ev == PutEvent::Compared(Ok(true)) ==> a is Write && t.phase
            == PutPhase::Write(s.phase->Compare_0.claim),
        s.phase is Write && (ev matches PutEvent::Written(Ok(_))) ==> a is Accept && a->Accept_0
            == s.phase->Write_0 && a->Accept_1.status == 200,
{
}

/// A push that fails says whose fault it is: a conflict if the fence says so,
/// or if the bucket has other bytes for the same transactions; the client's if
/// the body broke off or is no file; else the server's.
pub proof fn law_failed_push_says_whose_fault(
    s: AcceptFile,
    ev: PutEvent,
    t: AcceptFile,
    a: PutAction,
)
    requires
        put_expects(s, ev),
        put_step(s, ev, t, a),
        a is Reply,
    ensures
        ({
            let status = a->Reply_0.status;
            let conflict = (ev matches PutEvent::Fenced(Err(FenceReject::Conflict(_)))) || (ev
                matches PutEvent::Fenced(Ok(_))) || ev == PutEvent::Compared(Ok(false));
            let broken = (ev matches PutEvent::Spooled(Err(e)) && e.kind
                == ErrorKind::UnexpectedEof) || (ev matches PutEvent::Written(
                Err(StorageError::Ltx(_)),
            )) || (ev matches PutEvent::Written(Err(StorageError::Io(e))) && e.kind
                == ErrorKind::UnexpectedEof);
            &&& t.phase is Done
            &&& conflict ==> status == 409
            &&& broken ==> status == 400
            &&& !conflict && !broken ==> status == 500
        }),
{
}

} // verus!
