//! Restoring a replica from scratch and applying one file to it, as state
//! machines.
//!
//! A replica that is there is never deleted up front: it is replaced only
//! once a complete new image exists. A file is verified in full before any of
//! its pages is written.
use crate::error::Error;
use crate::ltx::{file_flags, new_file_flags, FileInfo, HeaderFlags, Txid};
use crate::replica::{
    check_page_size, check_plan, final_length, first_small, page_offset, prepare_page, presented,
    small_file_text,
};
use vstd::prelude::*;

verus! {

// ---------------------------------------------------------------------------
// Restoring

/// What a restore waits for.
#[derive(Clone, Copy, Debug, PartialEq, Eq, Structural)]
pub enum RestorePhase {
    Plan,
    /// The plan's file at this index.
    Open(usize),
    Merge,
    Materialize,
    Install,
    Integrity,
    Record,
    Done,
}

/// What to do next for a restore.
#[derive(Debug)]
pub enum RestoreAction {
    /// Compute the plan.
    Plan,
    /// Open a file of the plan.
    Open(FileInfo),
    /// Merge the open files into one with these flags.
    Merge(HeaderFlags),
    /// Write the merged file out as a database image beside the replica.
    Materialize,
    /// Put the image in the replica's place, and remove what SQLite left
    /// beside the old one.
    Install,
    CheckIntegrity,
    /// Record the position.
    Record(Txid),
    /// End with the position reached.
    Finish(Result<Txid, Error>),
}

/// What came of an action.
#[derive(Debug)]
pub enum RestoreEvent {
    Planned(Result<Vec<FileInfo>, Error>),
    Done(Result<(), Error>),
}

/// A restore in progress.
#[derive(Debug)]
pub struct RestoreRun {
    pub plan: Vec<FileInfo>,
    /// Where the plan ends.
    pub to: Txid,
    pub phase: RestorePhase,
}

/// The state of a restore.
#[verifier::ext_equal]
pub struct RestoreModel {
    pub plan: Seq<FileInfo>,
    pub to: Txid,
    pub phase: RestorePhase,
}

impl View for RestoreRun {
    type V = RestoreModel;

    open spec fn view(&self) -> RestoreModel {
        RestoreModel { plan: self.plan@, to: self.to, phase: self.phase }
    }
}

/// Ends a restore.
pub open spec fn restore_ends(s: RestoreModel, r: Result<Txid, Error>) -> (
    RestoreModel,
    RestoreAction,
) {
    (RestoreModel { phase: RestorePhase::Done, ..s }, RestoreAction::Finish(r))
}

/// Goes on to a phase.
pub open spec fn restore_goes(s: RestoreModel, phase: RestorePhase, a: RestoreAction) -> (
    RestoreModel,
    RestoreAction,
) {
    (RestoreModel { phase, ..s }, a)
}

/// Goes on with the plan's file at index `i`; after the last one, merges.
pub open spec fn at_open(s: RestoreModel, i: int, cancelled: bool) -> (RestoreModel, RestoreAction) {
    if i >= s.plan.len() {
        restore_goes(s, RestorePhase::Merge, RestoreAction::Merge(new_file_flags()))
    } else if cancelled {
        restore_ends(s, Err(Error::Cancelled))
    } else {
        restore_goes(s, RestorePhase::Open(i as usize), RestoreAction::Open(s.plan[i]))
    }
}

/// What a restore becomes and does next once it has its plan.
pub open spec fn restore_next(s: RestoreModel, r: Result<(), Error>, cancelled: bool) -> (
    RestoreModel,
    RestoreAction,
) {
    match (s.phase, r) {
        (_, Err(e)) => restore_ends(s, Err(e)),
        (RestorePhase::Open(i), _) => at_open(s, i + 1, cancelled),
        (RestorePhase::Merge, _) => restore_goes(
            s,
            RestorePhase::Materialize,
            RestoreAction::Materialize,
        ),
        (RestorePhase::Materialize, _) => if cancelled {
            restore_ends(s, Err(Error::Cancelled))
        } else {
            restore_goes(s, RestorePhase::Install, RestoreAction::Install)
        },
        (RestorePhase::Install, _) => restore_goes(
            s,
            RestorePhase::Integrity,
            RestoreAction::CheckIntegrity,
        ),
        (RestorePhase::Integrity, _) => restore_goes(
            s,
            RestorePhase::Record,
            RestoreAction::Record(s.to),
        ),
        _ => restore_ends(s, Ok(s.to)),
    }
}

/// Whether a restore in the state `s` becomes `t` and does `a` on an event.
pub open spec fn restore_step(
    s: RestoreModel,
    ev: RestoreEvent,
    cancelled: bool,
    t: RestoreModel,
    a: RestoreAction,
) -> bool {
    match ev {
        RestoreEvent::Planned(Err(e)) => (t, a) == restore_ends(s, Err(e)),
        RestoreEvent::Planned(Ok(plan)) => match first_small(plan@) {
            Some(f) => {
                &&& t == (RestoreModel { phase: RestorePhase::Done, ..s })
                &&& a matches RestoreAction::Finish(Err(Error::Other(m)))
                &&& m@ == small_file_text(f)
            },
            None => (t, a) == at_open(
                RestoreModel { plan: plan@, to: plan@.last().max_txid, ..s },
                0,
                cancelled,
            ),
        },
        RestoreEvent::Done(r) => (t, a) == restore_next(s, r, cancelled),
    }
}

/// Whether a restore waits for an event of this kind.
pub open spec fn restore_expects(s: RestoreModel, ev: RestoreEvent) -> bool {
    match s.phase {
        RestorePhase::Plan => ev matches RestoreEvent::Planned(r) && (r matches Ok(p) ==> p@.len()
            > 0),
        RestorePhase::Done => false,
        _ => ev is Done,
    }
}

/// What every state of a restore keeps.
pub open spec fn restore_wf(s: RestoreModel) -> bool {
    s.phase matches RestorePhase::Open(i) ==> i < s.plan.len()
}

impl RestoreRun {
    /// Starts a restore. The first action is to compute the plan.
    pub fn new() -> (r: (RestoreRun, RestoreAction))
        ensures
            restore_wf(r.0@),
            r.0@ == (RestoreModel { plan: Seq::empty(), to: Txid(0), phase: RestorePhase::Plan }),
            r.1 is Plan,
    {
        (
            RestoreRun { plan: Vec::new(), to: Txid(0), phase: RestorePhase::Plan },
            RestoreAction::Plan,
        )
    }

    fn end(self, result: Result<Txid, Error>) -> (r: (RestoreRun, RestoreAction))
        ensures
            (r.0@, r.1) == restore_ends(self@, result),
    {
        (RestoreRun { phase: RestorePhase::Done, ..self }, RestoreAction::Finish(result))
    }

    fn goes(self, phase: RestorePhase, action: RestoreAction) -> (r: (RestoreRun, RestoreAction))
        ensures
            (r.0@, r.1) == restore_goes(self@, phase, action),
    {
        (RestoreRun { phase, ..self }, action)
    }

    fn open_at(self, i: usize, cancelled: bool) -> (r: (RestoreRun, RestoreAction))
        ensures
            (r.0@, r.1) == at_open(self@, i as int, cancelled),
            restore_wf(r.0@),
    {
        if i >= self.plan.len() {
            self.goes(RestorePhase::Merge, RestoreAction::Merge(file_flags()))
        } else if cancelled {
            self.end(Err(Error::Cancelled))
        } else {
            let f = self.plan[i];
            self.goes(RestorePhase::Open(i), RestoreAction::Open(f))
        }
    }

    /// Takes the event that came of the last action, and tells what to do
    /// next. `cancelled` tells whether cancellation was requested by now.
    pub fn step(self, ev: RestoreEvent, cancelled: bool) -> (r: (RestoreRun, RestoreAction))
        requires
            restore_wf(self@),
            restore_expects(self@, ev),
        ensures
            restore_step(self@, ev, cancelled, r.0@, r.1),
            restore_wf(r.0@),
    {
        match ev {
            RestoreEvent::Planned(Err(e)) => self.end(Err(e)),
            RestoreEvent::Planned(Ok(plan)) => match check_plan(&plan) {
                Err(e) => self.end(Err(e)),
                Ok(to) => {
                    let s = RestoreRun { plan, to, phase: self.phase };
                    s.open_at(0, cancelled)
                },
            },
            RestoreEvent::Done(Err(e)) => self.end(Err(e)),
            RestoreEvent::Done(Ok(_)) => match self.phase {
                RestorePhase::Open(i) => {
                    assert(i < self.plan.len());
                    self.open_at(i + 1, cancelled)
                },
                RestorePhase::Merge => self.goes(
                    RestorePhase::Materialize,
                    RestoreAction::Materialize,
                ),
                RestorePhase::Materialize => if cancelled {
                    self.end(Err(Error::Cancelled))
                } else {
                    self.goes(RestorePhase::Install, RestoreAction::Install)
                },
                RestorePhase::Install => self.goes(
                    RestorePhase::Integrity,
                    RestoreAction::CheckIntegrity,
                ),
                RestorePhase::Integrity => {
                    let to = self.to;
                    self.goes(RestorePhase::Record, RestoreAction::Record(to))
                },
                _ => {
                    let to = self.to;
                    self.end(Ok(to))
                },
            },
        }
    }
}

/// The replica is replaced only by a whole image: every file of the plan was
/// opened, all were merged, the image was written out, and nobody cancelled
/// meanwhile.
pub proof fn law_replica_is_replaced_by_a_whole_image(
    s: RestoreModel,
    ev: RestoreEvent,
    cancelled: bool,
    t: RestoreModel,
    a: RestoreAction,
)
    requires
        restore_wf(s),
        restore_expects(s, ev),
        restore_step(s, ev, cancelled, t, a),
    ensures
        a is Install ==> s.phase is Materialize && (ev matches RestoreEvent::Done(Ok(_))) && !cancelled,
        a is Materialize ==> s.phase is Merge && (ev matches RestoreEvent::Done(Ok(_))),
        a is Merge ==> s.phase == RestorePhase::Open((s.plan.len() - 1) as usize) && (ev matches RestoreEvent::Done(
            Ok(_),
        )),
{
    if let RestoreEvent::Planned(Ok(plan)) = ev {
        assert(plan@.len() > 0);
    }
}

/// The position is recorded only after the new image passed its check, and a
/// restore reports exactly the position it recorded.
pub proof fn law_position_is_recorded_last(
    s: RestoreModel,
    ev: RestoreEvent,
    cancelled: bool,
    t: RestoreModel,
    a: RestoreAction,
)
    requires
        restore_wf(s),
        restore_expects(s, ev),
        restore_step(s, ev, cancelled, t, a),
    ensures
        a matches RestoreAction::Record(x) ==> s.phase is Integrity && x == s.to && (ev matches RestoreEvent::Done(
            Ok(_),
        )),
        a matches RestoreAction::Finish(Ok(x)) ==> s.phase is Record && x == s.to && (ev matches RestoreEvent::Done(
            Ok(_),
        )),
{
    if let RestoreEvent::Planned(Ok(plan)) = ev {
        assert(plan@.len() > 0);
    }
}

// ---------------------------------------------------------------------------
// Applying one file

/// What a file's header states, as far as applying it goes.
#[derive(Clone, Copy, Debug, PartialEq, Eq, Structural)]
pub struct FileHeader {
    pub page_size: u32,
    /// The database's size in pages after the file; zero if not stated.
    pub commit: u32,
    pub min_txid: Txid,
    pub max_txid: Txid,
}

/// What an application waits for. Past the header, it remembers the size that
/// the file states.
#[derive(Clone, Copy, Debug, PartialEq, Eq, Structural)]
pub enum ApplyPhase {
    Verify,
    Header,
    Lock(u32),
    Page(u32),
    Write(u32),
    SetLen,
    End,
    Flush,
    Done,
}

/// What to do next to apply a file.
#[derive(Debug)]
pub enum ApplyAction {
    /// Verify the whole file.
    Verify,
    /// Read its header.
    ReadHeader,
    /// Lock the replica against readers.
    Lock,
    /// Read its next page.
    NextPage,
    /// Write these bytes to the replica at this offset.
    WritePage(u64, Vec<u8>),
    /// Cut the replica to this length.
    SetLen(u64),
    /// Check what follows the file's last page.
    EndDecode,
    /// Flush the replica.
    Flush,
    Finish(Result<(), Error>),
}

/// What came of an action.
#[derive(Debug)]
pub enum ApplyEvent {
    Done(Result<(), Error>),
    Header(Result<FileHeader, Error>),
    /// A page's number and contents; nothing after the last.
    Page(Result<Option<(u32, Vec<u8>)>, Error>),
}

/// The application of one file to a replica.
#[derive(Clone, Copy, Debug, PartialEq, Eq, Structural)]
pub struct ApplyRun {
    /// The replica's page size.
    pub page_size: u32,
    pub use_file_locks: bool,
    pub phase: ApplyPhase,
}

/// Ends an application.
pub open spec fn apply_ends(s: ApplyRun, t: ApplyRun, a: ApplyAction, r: Result<(), Error>) -> bool {
    t == (ApplyRun { phase: ApplyPhase::Done, ..s }) && a == ApplyAction::Finish(r)
}

/// Whether an application in the state `s` becomes `t` and does `a` on an
/// event.
pub open spec fn apply_step(s: ApplyRun, ev: ApplyEvent, t: ApplyRun, a: ApplyAction) -> bool {
    match (s.phase, ev) {
        (_, ApplyEvent::Done(Err(e))) => apply_ends(s, t, a, Err(e)),
        (_, ApplyEvent::Header(Err(e))) => apply_ends(s, t, a, Err(e)),
        (_, ApplyEvent::Page(Err(e))) => apply_ends(s, t, a, Err(e)),
        (ApplyPhase::Verify, _) => t == (ApplyRun { phase: ApplyPhase::Header, ..s })
            && a is ReadHeader,
        (ApplyPhase::Header, ApplyEvent::Header(Ok(h))) => if h.page_size != s.page_size {
            apply_ends(
                s,
                t,
                a,
                Err(Error::Diverged { local: h.min_txid, remote: h.max_txid }),
            )
        } else if s.use_file_locks {
            t == (ApplyRun { phase: ApplyPhase::Lock(h.commit), ..s }) && a is Lock
        } else {
            t == (ApplyRun { phase: ApplyPhase::Page(h.commit), ..s }) && a is NextPage
        },
        (ApplyPhase::Lock(commit), _) => t == (ApplyRun { phase: ApplyPhase::Page(commit), ..s })
            && a is NextPage,
        (ApplyPhase::Page(commit), ApplyEvent::Page(Ok(Some(p)))) => {
            &&& t == (ApplyRun { phase: ApplyPhase::Write(commit), ..s })
            &&& a matches ApplyAction::WritePage(offset, data)
            &&& offset == (p.0 - 1) * s.page_size
            &&& exists|counter: Seq<u8>|
                counter.len() == 4 && data@ == #[trigger] presented(p.0, p.1@, counter)
        },
        (ApplyPhase::Page(commit), ApplyEvent::Page(Ok(None))) => if commit > 0 {
            t == (ApplyRun { phase: ApplyPhase::SetLen, ..s }) && a == ApplyAction::SetLen(
                (commit * s.page_size) as u64,
            )
        } else {
            t == (ApplyRun { phase: ApplyPhase::End, ..s }) && a is EndDecode
        },
        (ApplyPhase::Write(commit), _) => t == (ApplyRun { phase: ApplyPhase::Page(commit), ..s })
            && a is NextPage,
        (ApplyPhase::SetLen, _) => t == (ApplyRun { phase: ApplyPhase::End, ..s })
            && a is EndDecode,
        (ApplyPhase::End, _) => t == (ApplyRun { phase: ApplyPhase::Flush, ..s }) && a is Flush,
        _ => apply_ends(s, t, a, Ok(())),
    }
}

/// Whether an application waits for an event of this kind.
pub open spec fn apply_expects(s: ApplyRun, ev: ApplyEvent) -> bool {
    match s.phase {
        ApplyPhase::Header => ev is Header,
        ApplyPhase::Page(_) => ev matches ApplyEvent::Page(r) && (r matches Ok(Some(p)) ==> p.0
            >= 1),
        ApplyPhase::Done => false,
        _ => ev is Done,
    }
}

impl ApplyRun {
    /// Starts an application. The first action is to verify the file.
    pub fn new(page_size: u32, use_file_locks: bool) -> (r: (ApplyRun, ApplyAction))
        ensures
            r.0 == (ApplyRun { page_size, use_file_locks, phase: ApplyPhase::Verify }),
            r.1 is Verify,
    {
        (ApplyRun { page_size, use_file_locks, phase: ApplyPhase::Verify }, ApplyAction::Verify)
    }

    fn end(self, result: Result<(), Error>) -> (r: (ApplyRun, ApplyAction))
        ensures
            apply_ends(self, r.0, r.1, result),
    {
        (ApplyRun { phase: ApplyPhase::Done, ..self }, ApplyAction::Finish(result))
    }

    /// Takes the event that came of the last action, and tells what to do
    /// next.
    pub fn step(self, ev: ApplyEvent) -> (r: (ApplyRun, ApplyAction))
        requires
            apply_expects(self, ev),
        ensures
            apply_step(self, ev, r.0, r.1),
    {
        match ev {
            ApplyEvent::Done(Err(e)) | ApplyEvent::Header(Err(e)) | ApplyEvent::Page(Err(e)) => {
                self.end(Err(e))
            },
            ApplyEvent::Header(Ok(h)) => match check_page_size(
                h.page_size,
                self.page_size,
                h.min_txid,
                h.max_txid,
            ) {
                Err(e) => self.end(Err(e)),
                Ok(_) => if self.use_file_locks {
                    (ApplyRun { phase: ApplyPhase::Lock(h.commit), ..self }, ApplyAction::Lock)
                } else {
                    (ApplyRun { phase: ApplyPhase::Page(h.commit), ..self }, ApplyAction::NextPage)
                },
            },
            ApplyEvent::Page(Ok(page)) => {
                let commit: u32 = match self.phase {
                    ApplyPhase::Page(c) => c,
                    _ => 0,
                };
                match page {
                    Some((pgno, contents)) => {
                        let mut data = contents;
                        prepare_page(pgno, &mut data);
                        let offset = page_offset(pgno, self.page_size);
                        (
                            ApplyRun { phase: ApplyPhase::Write(commit), ..self },
                            ApplyAction::WritePage(offset, data),
                        )
                    },
                    None => match final_length(commit, self.page_size) {
                        Some(n) => (
                            ApplyRun { phase: ApplyPhase::SetLen, ..self },
                            ApplyAction::SetLen(n),
                        ),
                        None => (
                            ApplyRun { phase: ApplyPhase::End, ..self },
                            ApplyAction::EndDecode,
                        ),
                    },
                }
            },
            ApplyEvent::Done(Ok(_)) => match self.phase {
                ApplyPhase::Verify => (
                    ApplyRun { phase: ApplyPhase::Header, ..self },
                    ApplyAction::ReadHeader,
                ),
                ApplyPhase::Lock(commit) | ApplyPhase::Write(commit) => (
                    ApplyRun { phase: ApplyPhase::Page(commit), ..self },
                    ApplyAction::NextPage,
                ),
                ApplyPhase::SetLen => (
                    ApplyRun { phase: ApplyPhase::End, ..self },
                    ApplyAction::EndDecode,
                ),
                ApplyPhase::End => (
                    ApplyRun { phase: ApplyPhase::Flush, ..self },
                    ApplyAction::Flush,
                ),
                _ => self.end(Ok(())),
            },
        }
    }
}

/// Whether an application may write to the replica from here on.
pub open spec fn may_write(s: ApplyRun) -> bool {
    s.phase is Lock || s.phase is Page || s.phase is Write || s.phase is SetLen
}

/// Nothing is written before the whole file was verified and found to fit:
/// writing starts from the header alone, the header is read only after the
/// verification succeeded, and no other step writes.
pub proof fn law_nothing_is_written_before_verification(
    s: ApplyRun,
    ev: ApplyEvent,
    t: ApplyRun,
    a: ApplyAction,
)
    requires
        apply_expects(s, ev),
        apply_step(s, ev, t, a),
    ensures
        a is WritePage || a is SetLen ==> may_write(s),
        may_write(t) && !may_write(s) ==> (ev matches ApplyEvent::Header(Ok(h)) && h.page_size
            == s.page_size),
        t.phase is Header ==> s.phase is Verify && (ev matches ApplyEvent::Done(Ok(_))),
{
}

/// An application that succeeds has flushed the replica.
pub proof fn law_applied_file_is_flushed(
    s: ApplyRun,
    ev: ApplyEvent,
    t: ApplyRun,
    a: ApplyAction,
)
    requires
        apply_expects(s, ev),
        apply_step(s, ev, t, a),
        a matches ApplyAction::Finish(Ok(_)),
    ensures
        s.phase is Flush,
        ev matches ApplyEvent::Done(Ok(_)),
{
}

} // verus!
