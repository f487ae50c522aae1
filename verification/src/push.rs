//! A push, as state machines: copying what is committed out of the log,
//! checkpointing, uploading what the bucket lacks and pruning what it has.
use crate::error::{busy, Error};
use crate::ltx::{FileInfo, Txid};
use crate::writer::{
    behind_remote, check_behind_remote, checkpoint_choice, checkpoint_if_needed,
    checkpoint_outcome, CheckpointMode, PushResult, SyncOutcome, SyncState, WriterOptions,
    MAX_PAGE_SIZE,
};
use vstd::prelude::*;

verus! {

// ---------------------------------------------------------------------------
// Uploading

/// What an upload waits for.
#[derive(Clone, Copy, Debug, PartialEq, Eq, Structural)]
pub enum UploadPhase {
    Remote,
    Pos,
    Send,
    Done,
}

/// What to do next for an upload.
#[derive(Debug)]
pub enum UploadAction {
    /// Find the bucket's newest level-0 file.
    FindRemote,
    /// Read the local position.
    ReadPos,
    /// Upload the level-0 file of this transaction.
    Send(Txid),
    /// End with how many files were uploaded and how far the bucket reaches.
    Finish(Result<(u64, Txid), Error>),
}

/// What came of an action.
#[derive(Debug)]
pub enum UploadEvent {
    Newest(Result<Option<FileInfo>, Error>),
    Pos(Result<Txid, Error>),
    Sent(Result<(), Error>),
}

/// An upload of the level-0 files that the bucket lacks, one transaction
/// after the other.
#[derive(Clone, Copy, Debug, PartialEq, Eq, Structural)]
pub struct UploadRun {
    /// What is known of the bucket's last level-0 transaction; keep it for the
    /// next upload. Nothing once an upload failed: it is found again then.
    pub remote: Option<Txid>,
    /// How far the bucket reaches.
    pub cursor: Txid,
    /// The local position.
    pub local: Txid,
    /// How many files were uploaded.
    pub uploaded: u64,
    pub phase: UploadPhase,
}

/// Ends an upload.
pub open spec fn upload_ends(s: UploadRun, r: Result<(u64, Txid), Error>) -> (
    UploadRun,
    UploadAction,
) {
    (UploadRun { phase: UploadPhase::Done, ..s }, UploadAction::Finish(r))
}

/// Goes on with the next transaction, if the bucket lacks one.
pub open spec fn at_send(s: UploadRun) -> (UploadRun, UploadAction) {
    if s.cursor.0 < s.local.0 {
        (
            UploadRun { phase: UploadPhase::Send, ..s },
            UploadAction::Send(Txid((s.cursor.0 + 1) as u64)),
        )
    } else {
        upload_ends(s, Ok((s.uploaded, s.cursor)))
    }
}

/// What an upload becomes and does next on an event.
pub open spec fn upload_next(s: UploadRun, ev: UploadEvent) -> (UploadRun, UploadAction) {
    match ev {
        UploadEvent::Newest(Err(e)) => upload_ends(s, Err(e)),
        UploadEvent::Newest(Ok(newest)) => {
            let t = match newest {
                Some(f) => f.max_txid,
                None => Txid(0),
            };
            (
                UploadRun { remote: Some(t), cursor: t, phase: UploadPhase::Pos, ..s },
                UploadAction::ReadPos,
            )
        },
        UploadEvent::Pos(Err(e)) => upload_ends(s, Err(e)),
        UploadEvent::Pos(Ok(local)) => at_send(UploadRun { local, ..s }),
        UploadEvent::Sent(Err(e)) => upload_ends(UploadRun { remote: None, ..s }, Err(e)),
        UploadEvent::Sent(Ok(_)) => {
            let t = Txid((s.cursor.0 + 1) as u64);
            at_send(
                UploadRun {
                    remote: Some(t),
                    cursor: t,
                    uploaded: (s.uploaded + 1) as u64,
                    ..s
                },
            )
        },
    }
}

/// Whether an upload waits for an event of this kind.
pub open spec fn upload_expects(s: UploadRun, ev: UploadEvent) -> bool {
    match s.phase {
        UploadPhase::Remote => ev is Newest,
        UploadPhase::Pos => ev is Pos,
        UploadPhase::Send => ev is Sent,
        UploadPhase::Done => false,
    }
}

/// What every state of an upload keeps.
pub open spec fn upload_wf(s: UploadRun) -> bool {
    &&& s.uploaded <= s.cursor.0
    &&& s.phase is Pos || s.phase is Send ==> s.remote == Some(s.cursor)
    &&& s.phase is Send ==> s.cursor.0 < s.local.0
    &&& s.phase is Remote ==> s.uploaded == 0
}

impl UploadRun {
    /// Starts an upload, given what is known of the bucket's last level-0
    /// transaction.
    pub fn new(remote: Option<Txid>) -> (r: (UploadRun, UploadAction))
        ensures
            upload_wf(r.0),
            r == match remote {
                Some(t) => (
                    UploadRun {
                        remote,
                        cursor: t,
                        local: Txid(0),
                        uploaded: 0,
                        phase: UploadPhase::Pos,
                    },
                    UploadAction::ReadPos,
                ),
                None => (
                    UploadRun {
                        remote,
                        cursor: Txid(0),
                        local: Txid(0),
                        uploaded: 0,
                        phase: UploadPhase::Remote,
                    },
                    UploadAction::FindRemote,
                ),
            },
    {
        match remote {
            Some(t) => (
                UploadRun {
                    remote,
                    cursor: t,
                    local: Txid(0),
                    uploaded: 0,
                    phase: UploadPhase::Pos,
                },
                UploadAction::ReadPos,
            ),
            None => (
                UploadRun {
                    remote,
                    cursor: Txid(0),
                    local: Txid(0),
                    uploaded: 0,
                    phase: UploadPhase::Remote,
                },
                UploadAction::FindRemote,
            ),
        }
    }

    fn send(self) -> (r: (UploadRun, UploadAction))
        requires
            self.uploaded <= self.cursor.0,
            self.remote == Some(self.cursor),
        ensures
            r == at_send(self),
            upload_wf(r.0),
    {
        if self.cursor.0 < self.local.0 {
            (
                UploadRun { phase: UploadPhase::Send, ..self },
                UploadAction::Send(Txid(self.cursor.0 + 1)),
            )
        } else {
            (
                UploadRun { phase: UploadPhase::Done, ..self },
                UploadAction::Finish(Ok((self.uploaded, self.cursor))),
            )
        }
    }

    /// Takes the event that came of the last action, and tells what to do
    /// next.
    pub fn step(self, ev: UploadEvent) -> (r: (UploadRun, UploadAction))
        requires
            upload_wf(self),
            upload_expects(self, ev),
        ensures
            r == upload_next(self, ev),
            upload_wf(r.0),
    {
        match ev {
            UploadEvent::Newest(Err(e)) | UploadEvent::Pos(Err(e)) => (
                UploadRun { phase: UploadPhase::Done, ..self },
                UploadAction::Finish(Err(e)),
            ),
            UploadEvent::Newest(Ok(newest)) => {
                let t = match newest {
                    Some(f) => f.max_txid,
                    None => Txid(0),
                };
                (
                    UploadRun { remote: Some(t), cursor: t, phase: UploadPhase::Pos, ..self },
                    UploadAction::ReadPos,
                )
            },
            UploadEvent::Pos(Ok(local)) => {
                let s = UploadRun { local, ..self };
                s.send()
            },
            UploadEvent::Sent(Err(e)) => (
                UploadRun { remote: None, phase: UploadPhase::Done, ..self },
                UploadAction::Finish(Err(e)),
            ),
            UploadEvent::Sent(Ok(_)) => {
                let t = Txid(self.cursor.0 + 1);
                let s = UploadRun {
                    remote: Some(t),
                    cursor: t,
                    uploaded: self.uploaded + 1,
                    ..self
                };
                s.send()
            },
        }
    }
}

/// Uploads leave no gap: what is sent is always the transaction right after
/// what the bucket reaches, and the bucket's reach moves only when it was
/// stored, by exactly that one.
pub proof fn law_uploads_leave_no_gap(s: UploadRun, ev: UploadEvent)
    requires
        upload_wf(s),
        upload_expects(s, ev),
    ensures
        ({
            let (t, a) = upload_next(s, ev);
            &&& a matches UploadAction::Send(x) ==> x.0 == t.cursor.0 + 1
            &&& s.phase is Send && t.cursor != s.cursor ==> (ev matches UploadEvent::Sent(Ok(_)))
                && t.cursor.0 == s.cursor.0 + 1
            &&& t.uploaded - s.uploaded == if s.phase is Send {
                t.cursor.0 - s.cursor.0
            } else {
                0
            }
        }),
{
}

/// An upload that finishes has brought the bucket to the local position, or
/// found it there or further.
pub proof fn law_finished_upload_reaches_the_position(s: UploadRun, ev: UploadEvent)
    requires
        upload_wf(s),
        upload_expects(s, ev),
        upload_next(s, ev).1 matches UploadAction::Finish(Ok(_)),
    ensures
        upload_next(s, ev).0.cursor.0 >= upload_next(s, ev).0.local.0,
        upload_next(s, ev).0.remote == Some(upload_next(s, ev).0.cursor),
{
}

/// A failed upload forgets how far the bucket reaches, so the next one finds
/// out again: uploading a file twice is harmless, skipping one is not.
pub proof fn law_failed_upload_forgets_the_remote(s: UploadRun, e: Error)
    requires
        s.phase is Send,
    ensures
        upload_next(s, UploadEvent::Sent(Err(e))).0.remote is None,
{
}

// ---------------------------------------------------------------------------
// The push itself

/// What a push waits for.
#[derive(Clone, Copy, Debug, PartialEq, Eq, Structural)]
pub enum PushRunPhase {
    Lineage,
    /// The bucket's files, which reach this transaction, are being adopted.
    Adopt(Txid),
    EnsureWal,
    WalSize,
    Sync,
    Checkpoint(CheckpointMode),
    Upload,
    Prune,
    Pos,
    Done,
}

/// What to do next for a push.
#[derive(Debug)]
pub enum PushStep {
    /// Tell how far the local history is known to reach in the bucket, and
    /// find the bucket's newest level-0 file.
    CheckLineage,
    /// Make this file of the bucket the only local one.
    Adopt(FileInfo),
    /// Force a write unless the log is there.
    EnsureWal,
    /// Read the log file's size.
    ReadWalSize,
    /// Copy what is committed out of the log.
    Sync,
    Checkpoint(CheckpointMode),
    /// Upload what the bucket lacks.
    Upload,
    /// Delete local files that end before this transaction.
    Prune(Txid),
    /// Read the local position.
    ReadPos,
    Finish(Result<PushResult, Error>),
}

/// What came of a step.
#[derive(Debug)]
pub enum PushStepEvent {
    /// How far the local history reaches, and the bucket's newest file.
    Lineage(Result<(Txid, Option<FileInfo>), Error>),
    Done(Result<(), Error>),
    Size(Result<u64, Error>),
    Synced(Result<SyncOutcome, Error>),
    Uploaded(Result<(u64, Txid), Error>),
    Pos(Result<Txid, Error>),
}

/// A push in progress.
#[derive(Clone, Copy, Debug, PartialEq, Eq, Structural)]
pub struct PushRun {
    pub page_size: u32,
    pub opts: WriterOptions,
    /// Whether the bucket is known not to be ahead of the local history. It is
    /// looked at once in a writer's life.
    pub checked: bool,
    /// The log's size before the push.
    pub orig_wal_size: u64,
    pub synced: bool,
    pub checkpointed: bool,
    pub uploaded: u64,
    pub remote: Txid,
    pub phase: PushRunPhase,
}

/// Ends a push with an error.
pub open spec fn push_fails(s: PushRun, st: SyncState, e: Error) -> (PushRun, SyncState, PushStep) {
    (PushRun { phase: PushRunPhase::Done, ..s }, st, PushStep::Finish(Err(e)))
}

/// Goes on to a phase.
pub open spec fn push_goes(s: PushRun, st: SyncState, phase: PushRunPhase, step: PushStep) -> (
    PushRun,
    SyncState,
    PushStep,
) {
    (PushRun { phase, ..s }, st, step)
}

/// What a writer remembers after a sync.
pub open spec fn synced_state(st: SyncState, o: SyncOutcome) -> SyncState {
    SyncState {
        last_synced_wal_offset: o.new_wal_size,
        synced_to_wal_end: o.synced_to_wal_end,
        synced_since_checkpoint: st.synced_since_checkpoint || o.synced,
    }
}

/// What a push reports that found the bucket ahead and adopted its position:
/// nothing was copied out of the log, and nothing uploaded.
pub open spec fn adopted(remote: Txid) -> PushResult {
    PushResult {
        txid: remote,
        synced: false,
        uploaded: 0,
        remote_txid: remote,
        checkpointed: false,
    }
}

/// What a push, and what the writer remembers, become, and what is done next,
/// on an event.
pub open spec fn push_run_next(s: PushRun, st: SyncState, ev: PushStepEvent) -> (
    PushRun,
    SyncState,
    PushStep,
) {
    match (s.phase, ev) {
        (_, PushStepEvent::Lineage(Err(e))) => push_fails(s, st, e),
        (_, PushStepEvent::Lineage(Ok((known, newest)))) => match behind_remote(known, newest) {
            Some(f) => push_goes(s, st, PushRunPhase::Adopt(f.max_txid), PushStep::Adopt(f)),
            None => push_goes(
                PushRun { checked: true, ..s },
                st,
                PushRunPhase::EnsureWal,
                PushStep::EnsureWal,
            ),
        },
        (PushRunPhase::Adopt(remote), PushStepEvent::Done(Ok(_))) => (
            PushRun { checked: true, phase: PushRunPhase::Done, ..s },
            st,
            PushStep::Finish(Ok(adopted(remote))),
        ),
        (PushRunPhase::Checkpoint(mode), PushStepEvent::Done(r)) => match r {
            Ok(_) => push_goes(
                PushRun { checkpointed: true, ..s },
                st,
                PushRunPhase::Upload,
                PushStep::Upload,
            ),
            Err(e) => if mode == CheckpointMode::Passive && busy(e) {
                push_goes(s, st, PushRunPhase::Upload, PushStep::Upload)
            } else {
                push_fails(s, st, e)
            },
        },
        (_, PushStepEvent::Done(Err(e))) => push_fails(s, st, e),
        (_, PushStepEvent::Size(Err(e))) => push_fails(s, st, e),
        (_, PushStepEvent::Synced(Err(e))) => push_fails(s, st, e),
        (_, PushStepEvent::Uploaded(Err(e))) => push_fails(s, st, e),
        (_, PushStepEvent::Pos(Err(e))) => push_fails(s, st, e),
        (PushRunPhase::EnsureWal, _) => if st.last_synced_wal_offset > 0 {
            push_goes(
                PushRun { orig_wal_size: st.last_synced_wal_offset, ..s },
                st,
                PushRunPhase::Sync,
                PushStep::Sync,
            )
        } else {
            push_goes(s, st, PushRunPhase::WalSize, PushStep::ReadWalSize)
        },
        (_, PushStepEvent::Size(Ok(n))) => push_goes(
            PushRun { orig_wal_size: n, ..s },
            st,
            PushRunPhase::Sync,
            PushStep::Sync,
        ),
        (_, PushStepEvent::Synced(Ok(o))) => {
            let s1 = PushRun { synced: o.synced, ..s };
            let choice = if s.opts.auto_checkpoint {
                checkpoint_choice(s.page_size, s.opts, s.orig_wal_size, o.new_wal_size)
            } else {
                None
            };
            match choice {
                Some(mode) => push_goes(
                    s1,
                    synced_state(st, o),
                    PushRunPhase::Checkpoint(mode),
                    PushStep::Checkpoint(mode),
                ),
                None => push_goes(
                    s1,
                    synced_state(st, o),
                    PushRunPhase::Upload,
                    PushStep::Upload,
                ),
            }
        },
        (_, PushStepEvent::Uploaded(Ok(u))) => push_goes(
            PushRun { uploaded: u.0, remote: u.1, ..s },
            st,
            PushRunPhase::Prune,
            PushStep::Prune(u.1),
        ),
        (_, PushStepEvent::Pos(Ok(txid))) => (
            PushRun { phase: PushRunPhase::Done, ..s },
            st,
            PushStep::Finish(
                Ok(
                    PushResult {
                        txid,
                        synced: s.synced,
                        uploaded: s.uploaded,
                        remote_txid: s.remote,
                        checkpointed: s.checkpointed,
                    },
                ),
            ),
        ),
        _ => push_goes(s, st, PushRunPhase::Pos, PushStep::ReadPos),
    }
}

/// Whether a push waits for an event of this kind.
pub open spec fn push_run_expects(s: PushRun, ev: PushStepEvent) -> bool {
    match s.phase {
        PushRunPhase::Lineage => ev is Lineage,
        PushRunPhase::Adopt(_) | PushRunPhase::EnsureWal | PushRunPhase::Checkpoint(_)
        | PushRunPhase::Prune => ev is Done,
        PushRunPhase::WalSize => ev is Size,
        PushRunPhase::Sync => ev is Synced,
        PushRunPhase::Upload => ev is Uploaded,
        PushRunPhase::Pos => ev is Pos,
        PushRunPhase::Done => false,
    }
}

impl PushRun {
    /// Starts a push. The first step is to look whether the bucket is ahead,
    /// unless `checked` says that this writer did so before; then it is to see
    /// to the log.
    pub fn new(page_size: u32, opts: WriterOptions, checked: bool) -> (r: (PushRun, PushStep))
        requires
            page_size <= MAX_PAGE_SIZE,
        ensures
            r.0 == (PushRun {
                page_size,
                opts,
                checked,
                orig_wal_size: 0,
                synced: false,
                checkpointed: false,
                uploaded: 0,
                remote: Txid(0),
                phase: if checked {
                    PushRunPhase::EnsureWal
                } else {
                    PushRunPhase::Lineage
                },
            }),
            checked ==> r.1 is EnsureWal,
            !checked ==> r.1 is CheckLineage,
    {
        let (phase, step) = if checked {
            (PushRunPhase::EnsureWal, PushStep::EnsureWal)
        } else {
            (PushRunPhase::Lineage, PushStep::CheckLineage)
        };
        (
            PushRun {
                page_size,
                opts,
                checked,
                orig_wal_size: 0,
                synced: false,
                checkpointed: false,
                uploaded: 0,
                remote: Txid(0),
                phase,
            },
            step,
        )
    }

    fn fail(self, e: Error) -> (r: (PushRun, PushStep))
        ensures
            forall|st: SyncState| (r.0, st, r.1) == #[trigger] push_fails(self, st, e),
            r.0.page_size == self.page_size,
    {
        (PushRun { phase: PushRunPhase::Done, ..self }, PushStep::Finish(Err(e)))
    }

    /// Takes the event that came of the last step, updates what the writer
    /// remembers, and tells what to do next. Only a sync that succeeded
    /// changes what is remembered.
    pub fn step(self, state: &mut SyncState, ev: PushStepEvent) -> (r: (PushRun, PushStep))
        requires
            self.page_size <= MAX_PAGE_SIZE,
            push_run_expects(self, ev),
        ensures
            (r.0, *final(state), r.1) == push_run_next(self, *old(state), ev),
            r.0.page_size == self.page_size,
    {
        match ev {
            PushStepEvent::Lineage(Ok((known, newest))) => {
                match check_behind_remote(known, newest) {
                    Some(f) => (
                        PushRun { phase: PushRunPhase::Adopt(f.max_txid), ..self },
                        PushStep::Adopt(f),
                    ),
                    None => (
                        PushRun { checked: true, phase: PushRunPhase::EnsureWal, ..self },
                        PushStep::EnsureWal,
                    ),
                }
            },
            PushStepEvent::Done(result) => match self.phase {
                PushRunPhase::Adopt(remote) => match result {
                    Ok(_) => (
                        PushRun { checked: true, phase: PushRunPhase::Done, ..self },
                        PushStep::Finish(
                            Ok(
                                PushResult {
                                    txid: remote,
                                    synced: false,
                                    uploaded: 0,
                                    remote_txid: remote,
                                    checkpointed: false,
                                },
                            ),
                        ),
                    ),
                    Err(e) => self.fail(e),
                },
                PushRunPhase::Checkpoint(mode) => match checkpoint_outcome(mode, result) {
                    Ok(ran) => (
                        PushRun {
                            checkpointed: ran || self.checkpointed,
                            phase: PushRunPhase::Upload,
                            ..self
                        },
                        PushStep::Upload,
                    ),
                    Err(e) => self.fail(e),
                },
                PushRunPhase::EnsureWal => match result {
                    Ok(_) => if state.last_synced_wal_offset > 0 {
                        (
                            PushRun {
                                orig_wal_size: state.last_synced_wal_offset,
                                phase: PushRunPhase::Sync,
                                ..self
                            },
                            PushStep::Sync,
                        )
                    } else {
                        (PushRun { phase: PushRunPhase::WalSize, ..self }, PushStep::ReadWalSize)
                    },
                    Err(e) => self.fail(e),
                },
                _ => match result {
                    Ok(_) => (PushRun { phase: PushRunPhase::Pos, ..self }, PushStep::ReadPos),
                    Err(e) => self.fail(e),
                },
            },
            PushStepEvent::Size(Ok(n)) => (
                PushRun { orig_wal_size: n, phase: PushRunPhase::Sync, ..self },
                PushStep::Sync,
            ),
            PushStepEvent::Synced(Ok(o)) => {
                state.apply(&o);
                if o.synced {
                    state.synced_since_checkpoint = true;
                }
                let choice = if self.opts.auto_checkpoint {
                    checkpoint_if_needed(
                        self.page_size,
                        &self.opts,
                        self.orig_wal_size,
                        o.new_wal_size,
                    )
                } else {
                    None
                };
                match choice {
                    Some(mode) => (
                        PushRun {
                            synced: o.synced,
                            phase: PushRunPhase::Checkpoint(mode),
                            ..self
                        },
                        PushStep::Checkpoint(mode),
                    ),
                    None => (
                        PushRun { synced: o.synced, phase: PushRunPhase::Upload, ..self },
                        PushStep::Upload,
                    ),
                }
            },
            PushStepEvent::Uploaded(Ok((uploaded, remote))) => (
                PushRun { uploaded, remote, phase: PushRunPhase::Prune, ..self },
                PushStep::Prune(remote),
            ),
            PushStepEvent::Pos(Ok(txid)) => (
                PushRun { phase: PushRunPhase::Done, ..self },
                PushStep::Finish(
                    Ok(
                        PushResult {
                            txid,
                            synced: self.synced,
                            uploaded: self.uploaded,
                            remote_txid: self.remote,
                            checkpointed: self.checkpointed,
                        },
                    ),
                ),
            ),
            PushStepEvent::Lineage(Err(e)) | PushStepEvent::Size(Err(e)) | PushStepEvent::Synced(
                Err(e),
            ) | PushStepEvent::Uploaded(Err(e)) | PushStepEvent::Pos(Err(e)) => self.fail(e),
        }
    }
}

/// A step that fails changes nothing of what the writer remembers, so the
/// next push picks up where this one stopped.
pub proof fn law_failed_push_changes_nothing(s: PushRun, st: SyncState, ev: PushStepEvent)
    requires
        push_run_expects(s, ev),
        push_run_next(s, st, ev).2 matches PushStep::Finish(Err(_)),
    ensures
        push_run_next(s, st, ev).1 == st,
{
}

/// A push that finds the bucket ahead touches neither the log nor the bucket:
/// its one step is to adopt the bucket's newest file, and it reports that
/// file's position with nothing uploaded. Only then, or when the bucket is not
/// ahead, does the writer count as checked.
pub proof fn law_bucket_ahead_is_adopted(
    s: PushRun,
    st: SyncState,
    known: Txid,
    f: FileInfo,
    r: Result<(), Error>,
)
    requires
        s.phase is Lineage,
        !s.checked,
        known.0 < f.max_txid.0,
    ensures
        ({
            let (t, st1, step) = push_run_next(
                s,
                st,
                PushStepEvent::Lineage(Ok((known, Some(f)))),
            );
            let (u, st2, end) = push_run_next(t, st1, PushStepEvent::Done(r));
            &&& step == PushStep::Adopt(f)
            &&& !t.checked
            &&& st2 == st
            &&& match r {
                Ok(_) => end == PushStep::Finish(Ok(adopted(f.max_txid))) && u.checked,
                Err(e) => end == PushStep::Finish(Err(e)) && !u.checked,
            }
        }),
{
}

/// What a push that starts with its log comes to if every step succeeds: the
/// log file has `size` bytes if that is asked, the sync does `o`, the upload
/// answers `up`, and the local position is `pos` in the end.
pub open spec fn push_through(
    s: PushRun,
    st: SyncState,
    size: u64,
    o: SyncOutcome,
    up: (u64, Txid),
    pos: Txid,
) -> (PushRun, SyncState, PushStep) {
    let a = push_run_next(s, st, PushStepEvent::Done(Ok(())));
    let b = if a.2 is ReadWalSize {
        push_run_next(a.0, a.1, PushStepEvent::Size(Ok(size)))
    } else {
        a
    };
    let c = push_run_next(b.0, b.1, PushStepEvent::Synced(Ok(o)));
    let d = if c.2 is Checkpoint {
        push_run_next(c.0, c.1, PushStepEvent::Done(Ok(())))
    } else {
        c
    };
    let e = push_run_next(d.0, d.1, PushStepEvent::Uploaded(Ok(up)));
    let f = push_run_next(e.0, e.1, PushStepEvent::Done(Ok(())));
    push_run_next(f.0, f.1, PushStepEvent::Pos(Ok(pos)))
}

/// A push in which every step succeeds reports what its sync and its upload
/// did, and the position reached.
pub proof fn law_push_reports_what_was_done(
    s: PushRun,
    st: SyncState,
    size: u64,
    o: SyncOutcome,
    up: (u64, Txid),
    pos: Txid,
)
    requires
        s.phase is EnsureWal,
    ensures
        push_through(s, st, size, o, up, pos).2 matches PushStep::Finish(Ok(r)) && {
            &&& r.txid == pos
            &&& r.synced == o.synced
            &&& r.uploaded == up.0
            &&& r.remote_txid == up.1
        },
{
}

/// Local files are pruned only after an upload succeeded, and only below what
/// the bucket reaches then.
pub proof fn law_prune_follows_upload(s: PushRun, st: SyncState, ev: PushStepEvent, before: Txid)
    requires
        push_run_expects(s, ev),
        push_run_next(s, st, ev).2 == PushStep::Prune(before),
    ensures
        s.phase is Upload,
        ev matches PushStepEvent::Uploaded(Ok(u)) && u.1 == before,
{
}

/// With automatic checkpoints switched off a push never checkpoints; a passive
/// checkpoint that found the database busy fails no push.
pub proof fn law_checkpoints_are_as_configured(s: PushRun, st: SyncState, ev: PushStepEvent)
    requires
        push_run_expects(s, ev),
    ensures
        push_run_next(s, st, ev).2 is Checkpoint ==> s.opts.auto_checkpoint && s.phase is Sync,
        s.phase == PushRunPhase::Checkpoint(CheckpointMode::Passive) && (ev matches PushStepEvent::Done(
            Err(e),
        ) && busy(e)) ==> push_run_next(s, st, ev).2 is Upload,
{
}

/// What an upload becomes after `k` more transactions were stored.
pub open spec fn sent_on(s: UploadRun, k: nat) -> (UploadRun, UploadAction)
    decreases k,
{
    if k == 0 {
        at_send(s)
    } else {
        upload_next(sent_on(s, (k - 1) as nat).0, UploadEvent::Sent(Ok(())))
    }
}

/// An upload sends every transaction after the bucket's last one up to the
/// local position, each once, in order, and nothing else; then it reports how
/// many there were and that the bucket reaches the local position.
pub proof fn law_upload_sends_all_that_is_missing(s: UploadRun, local: Txid, k: nat)
    requires
        upload_wf(s),
        s.phase is Pos,
        s.uploaded == 0,
        k <= local.0 - s.cursor.0,
    ensures
        ({
            let start = UploadRun { local, ..s };
            let (t, a) = sent_on(start, k);
            &&& upload_next(s, UploadEvent::Pos(Ok(local))) == sent_on(start, 0)
            &&& k < local.0 - s.cursor.0 ==> a is Send && a->Send_0.0 == s.cursor.0 + k + 1
                && t.phase is Send
            &&& k == local.0 - s.cursor.0 ==> a == UploadAction::Finish(
                Ok((k as u64, local)),
            ) && t.remote == Some(local)
            &&& t.cursor.0 == s.cursor.0 + k && t.uploaded == k && t.local == local
            &&& t.remote == Some(t.cursor)
        }),
    decreases k,
{
    if k > 0 {
        law_upload_sends_all_that_is_missing(s, local, (k - 1) as nat);
    }
}

/// An upload starts behind the bucket's newest file, or with the first
/// transaction if there is none; a bucket that reaches the local position is
/// sent nothing.
pub proof fn law_upload_starts_behind_the_bucket(s: UploadRun, f: FileInfo, local: Txid)
    requires
        s.phase is Remote,
        upload_wf(s),
    ensures
        ({
            let found = upload_next(s, UploadEvent::Newest(Ok(Some(f))));
            let none = upload_next(s, UploadEvent::Newest(Ok(None)));
            &&& found.1 is ReadPos && none.1 is ReadPos
            &&& found.0.phase is Pos && none.0.phase is Pos
            &&& found.0.cursor == f.max_txid && none.0.cursor.0 == 0
            &&& local.0 <= f.max_txid.0 ==> upload_next(found.0, UploadEvent::Pos(Ok(local))).1
                == UploadAction::Finish(Ok((0u64, f.max_txid)))
            &&& local.0 > f.max_txid.0 ==> upload_next(found.0, UploadEvent::Pos(Ok(local))).1
                == UploadAction::Send(Txid((f.max_txid.0 + 1) as u64))
            &&& local.0 > 0 ==> upload_next(none.0, UploadEvent::Pos(Ok(local))).1
                == UploadAction::Send(Txid(1))
        }),
{
}

/// The log's size before a push is where the last sync ended, or the file's
/// size if there was none; the size after it is where this sync ended. With
/// automatic checkpoints, a push then truncates a log that had the emergency
/// number of frames before, or passively checkpoints one that has the usual
/// number now; otherwise it goes on to the upload.
pub proof fn law_push_checkpoints_by_size(
    s: PushRun,
    st: SyncState,
    size: u64,
    o: SyncOutcome,
)
    requires
        s.phase is EnsureWal,
        s.page_size > 0,
    ensures
        ({
            let a = push_run_next(s, st, PushStepEvent::Done(Ok(())));
            let b = if st.last_synced_wal_offset > 0 {
                a
            } else {
                push_run_next(a.0, a.1, PushStepEvent::Size(Ok(size)))
            };
            let before: u64 = if st.last_synced_wal_offset > 0 {
                st.last_synced_wal_offset
            } else {
                size
            };
            let (t, st1, step) = push_run_next(b.0, b.1, PushStepEvent::Synced(Ok(o)));
            let frame = s.page_size + 24;
            let emergency = s.opts.auto_checkpoint && s.opts.truncate_page_n > 0 && before >= 32
                + frame * s.opts.truncate_page_n;
            let usual = s.opts.auto_checkpoint && o.new_wal_size >= 32 + frame
                * s.opts.min_checkpoint_page_n;
            &&& st.last_synced_wal_offset == 0 ==> a.2 is ReadWalSize
            &&& b.2 is Sync
            &&& step == PushStep::Checkpoint(CheckpointMode::Truncate) <==> emergency
            &&& step == PushStep::Checkpoint(CheckpointMode::Passive) <==> usual && !emergency
            &&& !usual && !emergency ==> step is Upload
            &&& st1.last_synced_wal_offset == o.new_wal_size
            &&& st1.synced_to_wal_end == o.synced_to_wal_end
            &&& st1.synced_since_checkpoint <==> st.synced_since_checkpoint || o.synced
        }),
{
    crate::writer_laws::law_checkpoints_go_by_frame_counts(
        s.page_size,
        s.opts,
        if st.last_synced_wal_offset > 0 {
            st.last_synced_wal_offset
        } else {
            size
        },
        o.new_wal_size,
    );
}

/// A push reports a checkpoint exactly if one ran: one that was busy, or that
/// was never asked for, is not reported; one that fails otherwise is the
/// push's failure.
pub proof fn law_push_reports_checkpoints_that_ran(
    s: PushRun,
    st: SyncState,
    r: Result<(), Error>,
)
    requires
        s.phase is Checkpoint,
        !s.checkpointed,
    ensures
        ({
            let (t, st1, step) = push_run_next(s, st, PushStepEvent::Done(r));
            &&& st1 == st
            &&& r is Ok ==> step is Upload && t.checkpointed
            &&& r is Err && busy(r->Err_0) && s.phase == PushRunPhase::Checkpoint(
                CheckpointMode::Passive,
            ) ==> step is Upload && !t.checkpointed
            &&& r is Err && (!busy(r->Err_0) || s.phase == PushRunPhase::Checkpoint(
                CheckpointMode::Truncate,
            )) ==> step == PushStep::Finish(Err(r->Err_0))
        }),
{
}

/// A bucket that reaches no further than the local history lets the push go
/// on with the log, and the writer need not look again.
pub proof fn law_bucket_not_ahead_lets_the_push_go_on(
    s: PushRun,
    st: SyncState,
    known: Txid,
    newest: Option<FileInfo>,
)
    requires
        s.phase is Lineage,
        newest matches Some(f) ==> f.max_txid.0 <= known.0,
    ensures
        ({
            let (t, st1, step) = push_run_next(
                s,
                st,
                PushStepEvent::Lineage(Ok((known, newest))),
            );
            step is EnsureWal && t.checked && st1 == st && t.phase is EnsureWal
        }),
{
}

} // verus!
