//! What arrives of what is sent, copied or recorded, stated over single calls.
use crate::client::{read_listing, HttpClientOptions, HttpReplicaClient};
use crate::compaction::MaintenanceOptions;
use crate::copy::{drain, send_ltx_frame, spool_put_body, stored_matches_spool, Uncancelled};
use crate::error::{storage_transient, Error, StorageError};
use crate::io::{all_good, run_bytes, Bytes, IoError};
use crate::ltx::FileInfo;
use crate::manager::{Effect, Entry, EventModel, ManagerEvent};
use crate::registry::{registry_wf, Registry};
use crate::replica::{IntegrityCheck, ReplicaOptions};
use crate::s3::{timestamp_metadata, with_metadata};
use crate::stream::StoppedClock;
use crate::time::Span;
use crate::transport::write_full;
use crate::wire::{header_seq, header_value, PROTOCOL_HEADER, PROTOCOL_VERSION};
use crate::writer::{PushResult, WriterOptions};
use vstd::prelude::*;
use vstd::utf8::encode_utf8;

verus! {

// ---------------------------------------------------------------------------
// Bytes

proof fn lemma_good_source(data: Seq<u8>)
    ensures
        run_bytes(all_good(data), data.len() as int) == data,
        forall|i: int| 0 <= i < data.len() ==> (#[trigger] all_good(data)[i]) is Ok,
{
    assert(run_bytes(all_good(data), data.len() as int) =~= data);
}

/// A body that arrives without a fault is in the spool whole, behind what was
/// there, and its length is what is told.
pub proof fn law_spool_holds_the_body(
    body: &mut Bytes,
    spool: &mut Vec<u8>,
    r: Result<u64, IoError>,
)
    requires
        old(body).rest().len() <= u64::MAX,
        call_ensures(spool_put_body::<Bytes, Vec<u8>>, (body, spool), r),
    ensures
        r is Ok && r->Ok_0 == old(body).rest().len(),
        final(spool)@ == old(spool)@ + old(body).rest(),
{
    lemma_good_source(old(body).rest());
}

/// A body that arrives without a fault is copied whole.
pub proof fn law_copy_is_whole(
    body: &mut Bytes,
    out: &mut Vec<u8>,
    context: &str,
    r: Result<(), StorageError>,
)
    requires
        call_ensures(
            drain::<Bytes, Vec<u8>, Uncancelled>,
            (body, out, &Uncancelled, context),
            r,
        ),
    ensures
        r is Ok,
        final(out)@ == old(out)@ + old(body).rest(),
{
    lemma_good_source(old(body).rest());
}

/// A file goes on the stream as the line that announces it and as many bytes
/// as the line says; if it has fewer, the stream fails.
pub proof fn law_frame_carries_the_listed_bytes(
    info: FileInfo,
    body: &mut Bytes,
    out: &mut Vec<u8>,
    r: Result<(), IoError>,
)
    requires
        call_ensures(
            send_ltx_frame::<Bytes, Vec<u8>, Uncancelled>,
            (&info, body, out, &Uncancelled),
            r,
        ),
    ensures
        r is Ok <==> old(body).rest().len() >= info.size,
        r is Ok ==> final(out)@ == old(out)@ + encode_utf8(crate::copy::frame_line(info)) + old(
            body,
        ).rest().take(info.size as int),
{
    lemma_good_source(old(body).rest());
    let s = all_good(old(body).rest());
    if r is Ok {
        assert(run_bytes(s, info.size as int) =~= old(body).rest().take(info.size as int));
    }
}

/// A repeated push is the same exactly if its bytes are, for files of one
/// length.
pub proof fn law_repeats_are_compared_by_their_bytes(
    stored: &mut Bytes,
    spool: &mut Bytes,
    r: Result<bool, IoError>,
)
    requires
        old(stored).rest().len() == old(spool).rest().len(),
        call_ensures(stored_matches_spool::<Bytes, Bytes>, (stored, spool), r),
    ensures
        r is Ok,
        r->Ok_0 <==> old(stored).rest() == old(spool).rest(),
{
    let a = old(stored).rest();
    let b = old(spool).rest();
    lemma_good_source(a);
    lemma_good_source(b);
    if r is Ok && r->Ok_0 {
        assert forall|i: int| 0 <= i < a.len() implies a[i] == b[i] by {
            assert(all_good(a)[i] == all_good(b)[i]);
        }
        assert(a =~= b);
    }
}

/// Everything is written to a peer that takes what it is given.
pub proof fn law_all_is_written(
    conn: &mut Vec<u8>,
    buf: &[u8],
    clock: StoppedClock,
    io_timeout: Span,
    r: Result<(), StorageError>,
)
    requires
        io_timeout.nanos as int / 1_000_000_000 <= u64::MAX,
        call_ensures(
            write_full::<Vec<u8>, Uncancelled, StoppedClock>,
            (conn, buf, &Uncancelled, &clock, io_timeout),
            r,
        ),
    ensures
        r is Ok,
        final(conn)@ == old(conn)@ + buf@,
{
}

// ---------------------------------------------------------------------------
// Clients

/// A listing that breaks off is a failure worth a retry, never a shorter
/// listing; one without a length, or with an absurd one, is none worth a
/// retry.
pub proof fn law_cut_listing_is_a_failure(
    level: u8,
    headers: &[(String, String)],
    body: &mut Bytes,
    r: Result<Vec<FileInfo>, StorageError>,
    n: int,
)
    requires
        call_ensures(
            read_listing::<Bytes, Uncancelled>,
            (level, headers, body, &Uncancelled),
            r,
        ),
        n == old(body).rest().len(),
    ensures
        ({
            let stated = crate::client::declared_length(header_seq(headers@));
            &&& r is Ok ==> stated == Some(n)
            &&& stated is Some && stated->0 <= crate::client::MAX_LISTING && stated->0 != n
                ==> r is Err && storage_transient(r->Err_0)
            &&& stated is None ==> r is Err && !storage_transient(r->Err_0)
            &&& stated is Some && stated->0 > crate::client::MAX_LISTING ==> r is Err
                && !storage_transient(r->Err_0)
        }),
{
    lemma_good_source(old(body).rest());
}

/// A response counts only if it says that it is one of this protocol, in this
/// version; and a client is only made of values that can stand in a head.
pub proof fn law_foreign_servers_are_refused(
    url: &str,
    status: u16,
    headers: &[(String, String)],
    r: Result<(), StorageError>,
    opts: HttpClientOptions,
    v: Result<(), StorageError>,
)
    requires
        call_ensures(HttpReplicaClient::check_protocol, (url, status, headers), r),
        call_ensures(HttpClientOptions::validate, (&opts,), v),
    ensures
        r is Ok <==> header_value(header_seq(headers@), PROTOCOL_HEADER@) == Some(
            PROTOCOL_VERSION@,
        ),
        r is Err ==> !storage_transient(r->Err_0),
        opts.auth_token is Some && opts.auth_token->0@.contains('\n') ==> v is Err,
        opts.writer_id is Some && opts.writer_id->0@.contains('\n') ==> v is Err,
        opts.auth_token is Some && opts.auth_token->0@.len() == 0 ==> v is Err,
        opts.writer_id is Some && opts.writer_id->0@.len() == 0 ==> v is Err,
        opts.auth_token is None && opts.writer_id is None ==> v is Ok,
{
    if opts.auth_token is Some && opts.auth_token->0@.contains('\n') {
        let s = opts.auth_token->0@;
        let i = choose|i: int| 0 <= i < s.len() && s[i] == '\n';
        assert(!('!' <= s[i]));
    }
    if opts.writer_id is Some && opts.writer_id->0@.contains('\n') {
        let s = opts.writer_id->0@;
        let i = choose|i: int| 0 <= i < s.len() && s[i] == '\n';
        assert(!('!' <= s[i]));
    }
}

/// The time in a file's header comes back from the metadata that is stored
/// with the file, to the millisecond, up to the year 10000.
pub proof fn law_stored_time_reads_back(
    timestamp: i64,
    m: Option<String>,
    text: &str,
    info: FileInfo,
    r: FileInfo,
)
    requires
        0 <= timestamp < 253_402_300_800_000,
        call_ensures(timestamp_metadata, (timestamp,), m),
        m is Some ==> text@ == m->0@,
        call_ensures(with_metadata, (info, Some(text)), r),
    ensures
        m is Some,
        r == (FileInfo { created_at: Some((timestamp * 1_000_000) as i128), ..info }),
{
}

// ---------------------------------------------------------------------------
// Registrations

/// A database that was registered is known, one whose id or file is taken is
/// refused and changes nothing.
pub proof fn law_registered_is_known(
    reg: &mut Registry,
    id: &str,
    path: &str,
    canonical: &str,
    r: Result<(), Error>,
    g: Result<(), Error>,
    other: &str,
    before: Result<(), Error>,
    after: Result<(), Error>,
)
    requires
        registry_wf(old(reg)@),
        call_ensures(Registry::register, (reg, id, path, canonical), r),
        call_ensures(Registry::get, (&*final(reg), id), g),
        other@ != id@,
        call_ensures(Registry::get, (&*old(reg), other), before),
        call_ensures(Registry::get, (&*final(reg), other), after),
    ensures
        r is Ok ==> g is Ok,
        r is Err ==> final(reg)@ == old(reg)@,
        r is Ok <==> forall|i: int|
            0 <= i < old(reg)@.len() ==> (#[trigger] old(reg)@[i]).id != id@ && old(
                reg,
            )@[i].canonical != canonical@,
        before is Ok <==> after is Ok,
{
    let a = old(reg)@;
    let b = final(reg)@;
    if r is Ok {
        let new = crate::registry::RegistrationModel { id: id@, canonical: canonical@ };
        let taken = exists|i: int| 0 <= i < a.len() && (#[trigger] a[i]).canonical == canonical@;
        if taken {
            let i = choose|i: int| 0 <= i < a.len() && (#[trigger] a[i]).canonical == canonical@;
            assert(a[i].canonical == canonical@);
        }
        let k = choose|k: int| 0 <= k <= a.len() && b == #[trigger] a.insert(k, new);
        assert(b[k].id == id@);
        if crate::registry::has_id(a, other@) {
            let i = choose|i: int| 0 <= i < a.len() && (#[trigger] a[i]).id == other@;
            let j = if i < k {
                i
            } else {
                i + 1
            };
            assert(b[j] == a[i]);
        }
        if crate::registry::has_id(b, other@) {
            let j = choose|j: int| 0 <= j < b.len() && (#[trigger] b[j]).id == other@;
            let i = if j < k {
                j
            } else {
                j - 1
            };
            assert(b[j] == a[i]);
        }
    } else {
        let free = forall|i: int|
            0 <= i < a.len() ==> (#[trigger] a[i]).id != id@ && a[i].canonical != canonical@;
        if free {
            assert(!crate::registry::has_id(a, id@));
        } else if !crate::registry::has_id(a, id@) {
            let i = choose|i: int|
                0 <= i < a.len() && !((#[trigger] a[i]).id != id@ && a[i].canonical != canonical@);
            assert(a[i].canonical == canonical@);
        }
    }
}

/// A database that was unregistered is not known any more, and the others
/// are as they were.
pub proof fn law_unregistered_is_unknown(
    reg: &mut Registry,
    id: &str,
    known: Result<(), Error>,
    r: Result<(), Error>,
    g: Result<(), Error>,
    other: &str,
    before: Result<(), Error>,
    after: Result<(), Error>,
)
    requires
        registry_wf(old(reg)@),
        call_ensures(Registry::get, (&*old(reg), id), known),
        call_ensures(Registry::unregister, (reg, id), r),
        call_ensures(Registry::get, (&*final(reg), id), g),
        other@ != id@,
        call_ensures(Registry::get, (&*old(reg), other), before),
        call_ensures(Registry::get, (&*final(reg), other), after),
    ensures
        r is Ok <==> known is Ok,
        g is Err,
        before is Ok <==> after is Ok,
{
    let a = old(reg)@;
    let b = final(reg)@;
    if crate::registry::has_id(a, id@) {
        let k = choose|k: int|
            0 <= k < a.len() && a[k].id == id@ && b == #[trigger] a.remove(k);
        if crate::registry::has_id(a, other@) {
            let i = choose|i: int| 0 <= i < a.len() && (#[trigger] a[i]).id == other@;
            let j = if i < k {
                i
            } else {
                i - 1
            };
            assert(b[j] == a[i]);
        }
        if crate::registry::has_id(b, other@) {
            let j = choose|j: int| 0 <= j < b.len() && (#[trigger] b[j]).id == other@;
            let i = if j < k {
                j
            } else {
                j + 1
            };
            assert(b[j] == a[i]);
        }
    }
}

/// What happens to a database is told once, in order: the oldest untold event
/// comes next, and nothing while another is being told.
pub proof fn law_next_event_is_the_oldest(e: &mut Entry, r: Option<ManagerEvent>)
    requires
        call_ensures(Entry::next_event, (e,), r),
    ensures
        r is Some <==> !old(e)@.emitting && old(e)@.pending.len() > 0,
        r is Some ==> {
            &&& final(e)@.emitting
            &&& seq![old(e)@.pending[0]] + final(e)@.pending == old(e)@.pending
            &&& match old(e)@.pending[0] {
                EventModel::StateChanged(s) => r->0 matches ManagerEvent::StateChanged {
                    id,
                    state,
                } && id@ == old(e)@.id && state == s,
                EventModel::PushCompleted(p) => r->0 matches ManagerEvent::PushCompleted {
                    id,
                    result,
                } && id@ == old(e)@.id && result == p,
                EventModel::Error(m, t) => r->0 matches ManagerEvent::Error {
                    id,
                    message,
                    transient,
                } && id@ == old(e)@.id && message@ == m && transient == t,
            }
        },
        r is None ==> final(e)@ == old(e)@,
{
    if r is Some {
        let p = old(e)@.pending;
        assert(seq![p[0]] + p.skip(1) =~= p);
    }
}

/// A push that succeeded moves the position, clears the error and is told; a
/// failure keeps the position and is told with its text.
pub proof fn law_pushes_and_failures_are_recorded(
    e: &mut Entry,
    f: &mut Entry,
    result: PushResult,
    at: i128,
    message: String,
    transient: bool,
)
    requires
        call_ensures(Entry::record_push, (e, result, at), ()),
        call_ensures(Entry::record_error, (f, message, transient), ()),
    ensures
        final(e)@.position == Some(result.txid),
        final(e)@.last_activity == Some(at),
        final(e)@.last_error is None,
        final(e)@.state == old(e)@.state && final(e)@.ctrl == old(e)@.ctrl,
        final(e)@.pending == old(e)@.pending.push(EventModel::PushCompleted(result)),
        final(f)@.position == old(f)@.position,
        final(f)@.last_activity == old(f)@.last_activity,
        final(f)@.last_error == Some(message@),
        final(f)@.pending == old(f)@.pending.push(EventModel::Error(message@, transient)),
{
}

/// A nudge is for a database of its kind: a push for one that pushes, a
/// resync for one that follows. It wakes the worker, and a resync also ends
/// the session, if the database is running; the wrong kind changes nothing.
pub proof fn law_nudges_are_for_their_kind(
    e: &mut Entry,
    f: &mut Entry,
    p: Result<Effect, Error>,
    s: Result<Effect, Error>,
)
    requires
        call_ensures(Entry::push_now, (e,), p),
        call_ensures(Entry::sync_now, (f,), s),
    ensures
        p is Ok <==> old(e)@.role is Push,
        s is Ok <==> old(f)@.role is Follow,
        p is Err ==> final(e)@ == old(e)@,
        s is Err ==> final(f)@ == old(f)@,
        p is Ok ==> !p->Ok_0.cancel && !p->Ok_0.fresh && (p->Ok_0.notify <==> old(e)@.ctrl
            is Running),
        s is Ok ==> (s->Ok_0.cancel <==> old(f)@.ctrl is Running) && (s->Ok_0.fresh <==> old(
            f,
        )@.ctrl is Running) && (s->Ok_0.notify <==> old(f)@.ctrl is Running),
        p is Ok && old(e)@.ctrl is Running ==> final(e)@.nudged,
        s is Ok && old(f)@.ctrl is Running ==> final(f)@.nudged,
{
}

// ---------------------------------------------------------------------------
// Options

/// What is not set otherwise: levels are compacted after half a minute, five
/// minutes and an hour, snapshots are made daily and kept for a day, and
/// level-0 files for five minutes after they were covered.
pub proof fn law_maintenance_by_default(o: MaintenanceOptions, second: Span)
    requires
        call_ensures(MaintenanceOptions::default, (), o),
        call_ensures(Span::from_secs, (1,), second),
    ensures
        second.nanos == 1_000_000_000,
        o.retention_enabled,
        o.level_intervals@.len() == 3,
        o.level_intervals@[0].nanos == 30 * second.nanos,
        o.level_intervals@[1].nanos == 10 * o.level_intervals@[0].nanos,
        o.level_intervals@[2].nanos == 12 * o.level_intervals@[1].nanos,
        o.snapshot_interval.nanos == 24 * o.level_intervals@[2].nanos,
        o.snapshot_retention == o.snapshot_interval,
        o.l0_retention == o.level_intervals@[1],
{
}

/// What is not set otherwise: a writer waits a second for a lock, checkpoints
/// by itself at a thousand pages and truncates at half a gigabyte of log for
/// pages of 4096 bytes; a replica checks a restore quickly, takes file locks
/// and never resets itself.
pub proof fn law_writers_and_replicas_by_default(w: WriterOptions, r: ReplicaOptions)
    requires
        call_ensures(WriterOptions::default, (), w),
        call_ensures(ReplicaOptions::default, (), r),
    ensures
        w.auto_checkpoint,
        w.busy_timeout.nanos == 1_000_000_000,
        w.min_checkpoint_page_n == 1000,
        w.truncate_page_n * (24 + 4096) <= 500_000_000 < (w.truncate_page_n + 1) * (24 + 4096),
        r.integrity_check == IntegrityCheck::Quick,
        r.use_file_locks,
        !r.auto_reset,
{
}

/// A thousand milliseconds are a second.
pub proof fn law_milliseconds_make_seconds(n: u64, m: u64, a: Span, b: Span, c: Span)
    requires
        m == n * 1000,
        call_ensures(Span::from_secs, (n,), a),
        call_ensures(Span::from_millis, (m,), b),
        call_ensures(Span::shorter, (&a, b), c),
    ensures
        a == b && c == a,
        a.nanos == n * 1_000_000_000,
{
}

} // verus!
