//! Moving bytes from sources to sinks, and comparing them.
use crate::cancel::check_flag;
use crate::error::StorageError;
use crate::io::{good_run, run_bytes, ErrorKind, Fault, IoError, Script, Sink, Source};
use crate::ltx::{txid_text, FileInfo};
use crate::text;
use crate::text::decimal;
use vstd::prelude::*;
use vstd::utf8::encode_utf8;

verus! {

/// How many bytes are moved at a time.
pub const CHUNK: usize = 65536;

/// Something that tells whether an operation was cancelled. A `quiet` one
/// never tells so, a `cancelled` one always does; code that is not verified
/// may leave both out.
pub trait Cancellable {
    open spec fn quiet(&self) -> bool {
        false
    }

    open spec fn cancelled(&self) -> bool {
        false
    }

    fn is_cancelled(&self) -> (r: bool)
        ensures
            self.quiet() ==> !r,
            self.cancelled() ==> r,
    ;
}

/// For operations that nobody cancels.
#[derive(Clone, Copy, Debug)]
pub struct Uncancelled;

impl Cancellable for Uncancelled {
    open spec fn quiet(&self) -> bool {
        true
    }

    fn is_cancelled(&self) -> (r: bool) {
        false
    }
}

/// For operations that were cancelled before they began.
#[derive(Clone, Copy, Debug)]
pub struct AlreadyCancelled;

impl Cancellable for AlreadyCancelled {
    open spec fn cancelled(&self) -> bool {
        true
    }

    fn is_cancelled(&self) -> (r: bool) {
        true
    }
}

impl Cancellable for crate::cancel::CancelToken {
    fn is_cancelled(&self) -> (r: bool) {
        crate::cancel::CancelToken::is_cancelled(self)
    }
}

/// A buffer of `n` bytes.
fn buffer(n: usize) -> (r: Vec<u8>)
    ensures
        r@.len() == n,
{
    vec![0u8; n]
}

/// Whether a script yields the fault `f` after nothing but bytes.
pub open spec fn faults_with(s: Script, f: Fault) -> bool {
    exists|k: int|
        0 <= k < s.len() && good_run(s, k) && #[trigger] s[k] == Err::<u8, Fault>(f)
}

/// Whether `data` is a front part of the bytes that a script yields before
/// any fault.
pub open spec fn is_front(s: Script, data: Seq<u8>) -> bool {
    exists|k: int| 0 <= k <= s.len() && good_run(s, k) && data == #[trigger] run_bytes(s, k)
}

/// Whether what was written grew by a front part of what a script yields.
pub open spec fn grew_by_front(before: Seq<u8>, s: Script, after: Seq<u8>) -> bool {
    exists|k: int|
        0 <= k <= s.len() && good_run(s, k) && after == before + #[trigger] run_bytes(s, k)
}

pub(crate) proof fn lemma_run_extend(s: Script, i: int, n: int, data: Seq<u8>)
    requires
        0 <= i,
        0 <= n,
        i + n <= s.len(),
        good_run(s, i),
        data.len() == n,
        forall|j: int| 0 <= j < n ==> #[trigger] s.skip(i)[j] == Ok::<u8, Fault>(data[j]),
    ensures
        good_run(s, i + n),
        run_bytes(s, i + n) == run_bytes(s, i) + data,
        s.skip(i).skip(n) == s.skip(i + n),
{
    assert forall|k: int| 0 <= k < i + n implies (#[trigger] s[k]) is Ok by {
        if k >= i {
            assert(s.skip(i)[k - i] == s[k]);
        }
    }
    assert forall|k: int| 0 <= k < i + n implies run_bytes(s, i + n)[k] == (run_bytes(s, i)
        + data)[k] by {
        if k >= i {
            assert(s.skip(i)[k - i] == Ok::<u8, Fault>(data[k - i]));
        }
    }
    assert(run_bytes(s, i + n) =~= run_bytes(s, i) + data);
    assert(s.skip(i).skip(n) =~= s.skip(i + n));
}

/// Receives a body in full into a spool and tells its length.
pub fn spool_put_body<R: Source, W: Sink>(body: &mut R, spool: &mut W) -> (r: Result<u64, IoError>)
    requires
        old(body).script().len() <= u64::MAX,
    ensures
        match r {
            Ok(n) => {
                let s = old(body).script();
                &&& n == s.len()
                &&& good_run(s, s.len() as int)
                &&& final(spool).written() == old(spool).written() + run_bytes(s, s.len() as int)
            },
            Err(e) => !old(spool).healthy() || faults_with(old(body).script(), e@)
                && grew_by_front(
                old(spool).written(),
                old(body).script(),
                final(spool).written(),
            ),
        },
{
    let ghost s = body.script();
    let ghost w0 = spool.written();
    let mut buf = buffer(CHUNK);
    let mut len: u64 = 0;
    assert(s.skip(0) =~= s);
    assert(w0 + run_bytes(s, 0) =~= w0);
    loop
        invariant
            s == old(body).script(),
            s.len() <= u64::MAX,
            w0 == old(spool).written(),
            buf@.len() == CHUNK,
            len <= s.len(),
            body.script() == s.skip(len as int),
            good_run(s, len as int),
            spool.written() == w0 + run_bytes(s, len as int),
            old(spool).healthy() ==> spool.healthy(),
        decreases s.len() - len,
    {
        match body.read(buf.as_mut_slice()) {
            Ok(n) => {
                if n == 0 {
                    return Ok(len);
                }
                let data = vstd::slice::slice_subrange(&buf, 0, n);
                match spool.write_all(data) {
                    Ok(()) => {},
                    Err(e) => return Err(e),
                }
                proof {
                    lemma_run_extend(s, len as int, n as int, data@);
                    assert(w0 + run_bytes(s, len as int) + data@ =~= w0 + run_bytes(s, len + n));
                }
                len = len + n as u64;
            },
            Err(e) => {
                assert(s.skip(len as int)[0] == s[len as int]);
                assert(grew_by_front(w0, s, spool.written()));
                return Err(e);
            },
        }
    }
}

/// Copies a body into a sink, noticing a cancellation between reads. Failures
/// of the source are transport failures, which are worth a retry; failures
/// of the sink are local.
pub fn drain<R: Source, W: Sink, C: Cancellable>(
    body: &mut R,
    out: &mut W,
    cancel: &C,
    context: &str,
) -> (r: Result<(), StorageError>)
    ensures
        match r {
            Ok(_) => {
                let s = old(body).script();
                &&& good_run(s, s.len() as int)
                &&& final(out).written() == old(out).written() + run_bytes(s, s.len() as int)
            },
            Err(StorageError::Cancelled) => !cancel.quiet(),
            Err(StorageError::Io(_)) => !old(out).healthy(),
            Err(StorageError::Unavailable(m)) => exists|f: Fault| #[trigger]
                faults_with(old(body).script(), f) && m@ == context@ + ": "@ + f.message,
            Err(_) => false,
        },
        r is Err && old(out).healthy() ==> grew_by_front(
            old(out).written(),
            old(body).script(),
            final(out).written(),
        ),
        cancel.cancelled() ==> r == Err::<(), StorageError>(StorageError::Cancelled),
{
    let ghost s = body.script();
    let ghost w0 = out.written();
    let mut buf = buffer(CHUNK);
    let ghost mut len: int = 0;
    assert(s.skip(0) =~= s);
    assert(w0 + run_bytes(s, 0) =~= w0);
    loop
        invariant
            s == old(body).script(),
            w0 == old(out).written(),
            buf@.len() == CHUNK,
            0 <= len <= s.len(),
            body.script() == s.skip(len),
            good_run(s, len),
            out.written() == w0 + run_bytes(s, len),
            old(out).healthy() ==> out.healthy(),
        decreases s.len() - len,
    {
        assert(grew_by_front(w0, s, out.written()));
        match check_flag(cancel.is_cancelled()) {
            Ok(()) => {},
            Err(e) => return Err(e),
        }
        match body.read(buf.as_mut_slice()) {
            Ok(n) => {
                if n == 0 {
                    return Ok(());
                }
                let data = vstd::slice::slice_subrange(&buf, 0, n);
                match out.write_all(data) {
                    Ok(()) => {},
                    Err(e) => return Err(StorageError::Io(e)),
                }
                proof {
                    lemma_run_extend(s, len, n as int, data@);
                    assert(w0 + run_bytes(s, len) + data@ =~= w0 + run_bytes(s, len + n));
                    len = len + n;
                }
            },
            Err(e) => {
                // Prefer the cancellation when one landed mid-read.
                match check_flag(cancel.is_cancelled()) {
                    Ok(()) => {},
                    Err(e) => return Err(e),
                }
                assert(s.skip(len)[0] == s[len]);
                assert(faults_with(s, e@));
                return Err(transport_err(context, &e));
            },
        }
    }
}

/// A transport failure: worth a retry, with the context it occurred in.
pub fn transport_err(context: &str, e: &IoError) -> (r: StorageError)
    ensures
        r matches StorageError::Unavailable(m) && m@ == context@ + ": "@ + e@.message,
{
    let mut m = context.to_owned();
    m.append(": ");
    m.append(e.message.as_str());
    StorageError::Unavailable(m)
}

/// Whether two scripts differ at `i`: the first has a byte there that the
/// second does not have.
pub open spec fn differs_at(a: Script, b: Script, i: int) -> bool {
    0 <= i < a.len() && a[i] is Ok && (i >= b.len() || (b[i] is Ok && a[i] != b[i]))
}

/// Compares a stored file with a spool of the same length, byte for byte.
pub fn stored_matches_spool<A: Source, B: Source>(stored: &mut A, spool: &mut B) -> (r: Result<
    bool,
    IoError,
>)
    ensures
        match r {
            Ok(same) => {
                let a = old(stored).script();
                let b = old(spool).script();
                if same {
                    &&& good_run(a, a.len() as int)
                    &&& a.len() <= b.len()
                    &&& forall|i: int| 0 <= i < a.len() ==> #[trigger] a[i] == b[i]
                } else {
                    exists|i: int| #[trigger] differs_at(a, b, i)
                }
            },
            Err(e) => faults_with(old(stored).script(), e@) || faults_with(
                old(spool).script(),
                e@,
            ),
        },
{
    let ghost a = stored.script();
    let ghost b = spool.script();
    let ghost mut pos: int = 0;
    let mut buf = buffer(CHUNK);
    assert(a.skip(0) =~= a);
    assert(b.skip(0) =~= b);
    loop
        invariant
            a == old(stored).script(),
            b == old(spool).script(),
            buf@.len() == CHUNK,
            0 <= pos <= a.len(),
            pos <= b.len(),
            stored.script() == a.skip(pos),
            spool.script() == b.skip(pos),
            good_run(a, pos),
            good_run(b, pos),
            forall|i: int| 0 <= i < pos ==> #[trigger] a[i] == b[i],
        decreases a.len() - pos,
    {
        let n = match stored.read(buf.as_mut_slice()) {
            Ok(n) => n,
            Err(e) => {
                assert(a.skip(pos)[0] == a[pos]);
                return Err(e);
            },
        };
        if n == 0 {
            return Ok(true);
        }
        let ghost chunk = buf@.take(n as int);
        proof {
            lemma_run_extend(a, pos, n as int, chunk);
            assert forall|i: int| 0 <= i < n implies a[pos + i] == Ok::<u8, Fault>(
                #[trigger] chunk[i],
            ) by {
                assert(a.skip(pos)[i] == a[pos + i]);
            }
        }
        let mut got: Vec<u8> = Vec::new();
        while got.len() < n
            invariant
                0 <= pos,
                n <= CHUNK,
                b == old(spool).script(),
                got@.len() <= n,
                pos + got@.len() <= b.len(),
                spool.script() == b.skip(pos + got@.len()),
                good_run(b, pos + got@.len()),
                forall|i: int|
                    0 <= i < got@.len() ==> b[pos + i] == Ok::<u8, Fault>(#[trigger] got@[i]),
                good_run(a, pos + n),
                pos + n <= a.len(),
                a == old(stored).script(),
            decreases n - got@.len(),
        {
            let mut part = buffer(n - got.len());
            let m = match spool.read(part.as_mut_slice()) {
                Ok(m) => m,
                Err(e) => {
                    assert(b.skip(pos + got@.len())[0] == b[pos + got@.len()]);
                    return Err(e);
                },
            };
            if m == 0 {
                proof {
                    let i = pos + got@.len();
                    assert(a[i] is Ok);
                    assert(differs_at(a, b, i));
                }
                return Ok(false);
            }
            let ghost before = got@;
            let data = vstd::slice::slice_subrange(&part, 0, m);
            proof {
                lemma_run_extend(b, pos + before.len(), m as int, data@);
            }
            got.extend_from_slice(data);
            proof {
                assert(got@ =~= before + data@);
                assert forall|i: int| 0 <= i < got@.len() implies b[pos + i] == Ok::<u8, Fault>(
                    #[trigger] got@[i],
                ) by {
                    if i >= before.len() {
                        let j = i - before.len();
                        assert(b.skip(pos + before.len())[j] == Ok::<u8, Fault>(data@[j]));
                    } else {
                        assert(got@[i] == before[i]);
                    }
                }
            }
        }
        let mut i: usize = 0;
        while i < n
            invariant
                i <= n,
                n <= CHUNK,
                got@.len() == n,
                buf@.len() == CHUNK,
                chunk == buf@.take(n as int),
                0 <= pos,
                pos + n <= a.len(),
                pos + n <= b.len(),
                forall|j: int|
                    0 <= j < n ==> a[pos + j] == Ok::<u8, Fault>(#[trigger] chunk[j]),
                forall|j: int| 0 <= j < n ==> b[pos + j] == Ok::<u8, Fault>(#[trigger] got@[j]),
                forall|j: int| 0 <= j < i ==> chunk[j] == #[trigger] got@[j],
                a == old(stored).script(),
                b == old(spool).script(),
            decreases n - i,
        {
            if buf[i] != got[i] {
                proof {
                    assert(a[pos + i] == Ok::<u8, Fault>(chunk[i as int]));
                    assert(b[pos + i] == Ok::<u8, Fault>(got@[i as int]));
                    assert(differs_at(a, b, pos + i));
                }
                return Ok(false);
            }
            i += 1;
        }
        proof {
            assert forall|k: int| 0 <= k < pos + n implies #[trigger] a[k] == b[k] by {
                if k >= pos {
                    let j = k - pos;
                    assert(chunk[j] == got@[j]);
                    assert(a[pos + j] == Ok::<u8, Fault>(chunk[j]));
                    assert(b[pos + j] == Ok::<u8, Fault>(got@[j]));
                }
            }
            assert(b.skip(pos + got@.len()) == b.skip(pos + n));
            pos = pos + n;
        }
    }
}

/// A stored file and a spool of the same length match exactly if they hold
/// the same bytes.
pub proof fn law_equal_lengths_match_exactly(a: Script, b: Script, same: bool)
    requires
        a.len() == b.len(),
        good_run(a, a.len() as int),
        good_run(b, b.len() as int),
        same ==> forall|i: int| 0 <= i < a.len() ==> #[trigger] a[i] == b[i],
        !same ==> exists|i: int| #[trigger] differs_at(a, b, i),
    ensures
        same <==> a == b,
{
    if same {
        assert(a =~= b);
    }
}

/// The line that announces a file on the stream.
pub open spec fn frame_line(f: FileInfo) -> Seq<char> {
    "ltx "@ + decimal(f.level as int) + " "@ + txid_text(f.min_txid) + " "@ + txid_text(f.max_txid)
        + " "@ + decimal(f.size as int) + "\n"@
}

/// The line that announces a file on the stream.
pub fn frame_text(f: &FileInfo) -> (r: String)
    ensures
        r@ == frame_line(*f),
{
    let mut s = "ltx ".to_owned();
    s.append(text::decimal_text(f.level as u64).as_str());
    s.append(" ");
    s.append(f.min_txid.text().as_str());
    s.append(" ");
    s.append(f.max_txid.text().as_str());
    s.append(" ");
    s.append(text::decimal_text(f.size).as_str());
    s.append("\n");
    s
}

/// Sends one file on the stream: the line that announces it, then exactly
/// the bytes that it was listed with. A file that turns out shorter, or a
/// cancellation, aborts the stream.
pub fn send_ltx_frame<R: Source, W: Sink, C: Cancellable>(
    info: &FileInfo,
    body: &mut R,
    out: &mut W,
    cancel: &C,
) -> (r: Result<(), IoError>)
    ensures
        r is Ok ==> {
            let s = old(body).script();
            &&& good_run(s, info.size as int)
            &&& final(out).written() == old(out).written() + encode_utf8(frame_line(*info))
                + run_bytes(s, info.size as int)
            &&& final(out).flushed() == final(out).written()
        },
        r matches Err(e) ==> {
            ||| !old(out).healthy()
            ||| faults_with(old(body).script(), e@)
            ||| !cancel.quiet() && e@ == (Fault {
                kind: ErrorKind::Other,
                message: "stream cancelled"@,
            })
            ||| old(body).script().len() < info.size && e@ == (Fault {
                kind: ErrorKind::Other,
                message: "ltx file shorter than its listed size"@,
            })
        },
        r is Err && old(out).healthy() ==> grew_by_front(
            old(out).written() + encode_utf8(frame_line(*info)),
            old(body).script(),
            final(out).written(),
        ),
        cancel.cancelled() && old(out).healthy() ==> r is Err && r->Err_0@ == (Fault {
            kind: ErrorKind::Other,
            message: "stream cancelled"@,
        }),
        cancel.cancelled() ==> r is Err,
{
    let ghost s = body.script();
    let ghost w0 = out.written();
    let line = frame_text(info);
    let head = line.as_str().as_bytes_vec();
    match out.write_all(&head) {
        Ok(()) => {},
        Err(e) => return Err(e),
    }
    let ghost w1 = w0 + encode_utf8(frame_line(*info));
    let mut sent: u64 = 0;
    let mut buf = buffer(CHUNK);
    assert(s.skip(0) =~= s);
    assert(w1 + run_bytes(s, 0) =~= w1);
    loop
        invariant
            s == old(body).script(),
            buf@.len() == CHUNK,
            sent <= info.size,
            sent <= s.len(),
            body.script() == s.skip(sent as int),
            good_run(s, sent as int),
            w1 == old(out).written() + encode_utf8(frame_line(*info)),
            out.written() == w1 + run_bytes(s, sent as int),
            old(out).healthy() ==> out.healthy(),
        ensures
            sent <= info.size,
            good_run(s, sent as int),
            out.written() == w1 + run_bytes(s, sent as int),
            old(out).healthy() ==> out.healthy(),
            sent < info.size ==> s.len() == sent,
            sent <= s.len(),
            !cancel.cancelled(),
        decreases info.size - sent,
    {
        assert(grew_by_front(w1, s, out.written()));
        if cancel.is_cancelled() {
            return Err(IoError::new(ErrorKind::Other, "stream cancelled"));
        }
        let left: u64 = info.size - sent;
        if left == 0 {
            break;
        }
        let want: usize = if left < CHUNK as u64 {
            left as usize
        } else {
            CHUNK
        };
        let (front, _) = buf.as_mut_slice().split_at_mut(want);
        match body.read(front) {
            Ok(n) => {
                if n == 0 {
                    break;
                }
                let ghost got = front@;
                let data = vstd::slice::slice_subrange(&buf, 0, n);
                assert(data@ =~= got.take(n as int));
                match out.write_all(data) {
                    Ok(()) => {},
                    Err(e) => return Err(e),
                }
                proof {
                    lemma_run_extend(s, sent as int, n as int, data@);
                    assert(w1 + run_bytes(s, sent as int) + data@ =~= w1 + run_bytes(s, sent + n));
                }
                sent = sent + n as u64;
            },
            Err(e) => {
                assert(s.skip(sent as int)[0] == s[sent as int]);
                return Err(e);
            },
        }
    }
    assert(grew_by_front(w1, s, out.written()));
    if sent != info.size {
        return Err(IoError::new(ErrorKind::Other, "ltx file shorter than its listed size"));
    }
    match out.flush() {
        Ok(()) => Ok(()),
        Err(e) => Err(e),
    }
}

} // verus!
