//! Byte streams as the library sees them: a source that yields bytes and
//! faults in some order, and a sink that takes bytes.
use vstd::prelude::*;

verus! {

/// The kinds of I/O failure that the library tells apart.
#[derive(Clone, Copy, Debug, PartialEq, Eq, Structural)]
pub enum ErrorKind {
    NotFound,
    PermissionDenied,
    ConnectionRefused,
    ConnectionReset,
    BrokenPipe,
    AlreadyExists,
    WouldBlock,
    TimedOut,
    Interrupted,
    InvalidData,
    UnexpectedEof,
    Other,
}

/// An I/O failure: its kind and a message for people.
#[derive(Clone, Debug)]
pub struct IoError {
    pub kind: ErrorKind,
    pub message: String,
}

/// The mathematical value of an [`IoError`].
pub struct Fault {
    pub kind: ErrorKind,
    pub message: Seq<char>,
}

impl View for IoError {
    type V = Fault;

    open spec fn view(&self) -> Fault {
        Fault { kind: self.kind, message: self.message@ }
    }
}

impl IoError {
    pub fn new(kind: ErrorKind, message: &str) -> (e: IoError)
        ensures
            e@ == (Fault { kind, message: message@ }),
    {
        IoError { kind, message: message.to_owned() }
    }
}

/// What a source has yet to yield: bytes, with faults between them.
pub type Script = Seq<Result<u8, Fault>>;

/// Something bytes are read from. `script` is everything the source will
/// yield from here on, faults (such as read timeouts) included; its end is
/// the end of the stream. Code that is not verified may leave it out.
pub trait Source {
    open spec fn script(&self) -> Script {
        Seq::empty()
    }

    /// Reads some bytes into the front of `buf`. Zero bytes mean the end of
    /// the stream, or an empty `buf`. A fault is used up by the read that
    /// reports it, and loses no byte.
    fn read(&mut self, buf: &mut [u8]) -> (r: Result<usize, IoError>)
        ensures
            final(buf)@.len() == old(buf)@.len(),
            match r {
                Ok(n) => {
                    &&& n <= old(buf)@.len()
                    &&& n <= old(self).script().len()
                    &&& n == 0 ==> old(buf)@.len() == 0 || old(self).script().len() == 0
                    &&& forall|i: int|
                        0 <= i < n ==> #[trigger] old(self).script()[i] == Ok::<u8, Fault>(
                            final(buf)@[i],
                        )
                    &&& final(self).script() == old(self).script().skip(n as int)
                },
                Err(e) => {
                    &&& old(buf)@.len() > 0
                    &&& old(self).script().len() > 0
                    &&& old(self).script()[0] == Err::<u8, Fault>(e@)
                    &&& final(self).script() == old(self).script().skip(1)
                },
            },
    ;
}

/// Something bytes are written to. `written` is what it has taken so far, and
/// `flushed` what of that it does not hold back in a buffer; a `healthy` sink
/// takes everything from here on. Code that is not verified may leave these
/// out.
pub trait Sink {
    open spec fn written(&self) -> Seq<u8> {
        Seq::empty()
    }

    open spec fn flushed(&self) -> Seq<u8> {
        self.written()
    }

    open spec fn healthy(&self) -> bool {
        false
    }

    /// Writes all of `data`.
    fn write_all(&mut self, data: &[u8]) -> (r: Result<(), IoError>)
        ensures
            r is Ok ==> final(self).written() == old(self).written() + data@,
            old(self).healthy() ==> r is Ok && final(self).healthy(),
    ;

    /// Pushes out what is buffered. Nothing is added.
    fn flush(&mut self) -> (r: Result<(), IoError>)
        ensures
            r is Ok ==> final(self).written() == old(self).written(),
            r is Ok ==> final(self).flushed() == final(self).written(),
            old(self).healthy() ==> r is Ok && final(self).healthy(),
    ;
}

/// A source over bytes in memory.
pub struct Bytes {
    data: Vec<u8>,
    pos: usize,
}

impl Bytes {
    /// The bytes that are still to come.
    pub closed spec fn rest(&self) -> Seq<u8> {
        self.data@.skip(self.pos as int)
    }

    #[verifier::type_invariant]
    spec fn inv(self) -> bool {
        self.pos <= self.data@.len()
    }

    pub fn new(data: Vec<u8>) -> (r: Bytes)
        ensures
            r.rest() == data@,
    {
        assert(data@.skip(0) =~= data@);
        Bytes { data, pos: 0 }
    }
}

impl Source for Bytes {
    open spec fn script(&self) -> Script {
        all_good(self.rest())
    }

    fn read(&mut self, buf: &mut [u8]) -> (r: Result<usize, IoError>) {
        proof {
            use_type_invariant(&*self);
        }
        let left: usize = self.data.len() - self.pos;
        let want: usize = if buf.len() < left {
            buf.len()
        } else {
            left
        };
        let ghost before = self.rest();
        let mut i: usize = 0;
        while i < want
            invariant
                want <= buf@.len(),
                buf@.len() == old(buf)@.len(),
                self.pos + want <= self.data.len(),
                i <= want,
                before == self.data@.skip(self.pos as int),
                forall|j: int| 0 <= j < i ==> buf@[j] == before[j],
            decreases want - i,
        {
            buf[i] = self.data[self.pos + i];
            i += 1;
        }
        self.pos = self.pos + want;
        proof {
            assert(self.rest() =~= before.skip(want as int));
            assert(all_good(self.rest()) =~= all_good(before).skip(want as int));
        }
        Ok(want)
    }
}

impl Sink for Vec<u8> {
    open spec fn written(&self) -> Seq<u8> {
        self@
    }

    open spec fn healthy(&self) -> bool {
        true
    }

    fn write_all(&mut self, data: &[u8]) -> (r: Result<(), IoError>) {
        self.extend_from_slice(data);
        assert(self@ =~= old(self)@ + data@);
        Ok(())
    }

    fn flush(&mut self) -> (r: Result<(), IoError>) {
        Ok(())
    }
}

/// The script that yields `b` without a fault.
pub open spec fn all_good(b: Seq<u8>) -> Script {
    Seq::new(b.len(), |i: int| Ok(b[i]))
}

/// The bytes of a script, its faults left out.
pub open spec fn good_bytes(s: Script) -> Seq<u8>
    decreases s.len(),
{
    if s.len() == 0 {
        Seq::empty()
    } else {
        match s[0] {
            Ok(b) => seq![b] + good_bytes(s.skip(1)),
            Err(_) => good_bytes(s.skip(1)),
        }
    }
}

/// Whether the first `n` items of a script are bytes.
pub open spec fn good_run(s: Script, n: int) -> bool {
    n <= s.len() && forall|i: int| 0 <= i < n ==> (#[trigger] s[i]) is Ok
}

/// The bytes at the front of a script.
pub open spec fn run_bytes(s: Script, n: int) -> Seq<u8> {
    Seq::new(n as nat, |i: int| s[i]->Ok_0)
}

/// Reading a run of bytes off a script takes just those bytes.
pub proof fn lemma_good_bytes_run(s: Script, n: int)
    requires
        0 <= n,
        good_run(s, n),
    ensures
        good_bytes(s) == run_bytes(s, n) + good_bytes(s.skip(n)),
    decreases n,
{
    if n == 0 {
        assert(s.skip(0) =~= s);
        assert(run_bytes(s, 0) + good_bytes(s) =~= good_bytes(s));
    } else {
        let t = s.skip(1);
        assert forall|i: int| 0 <= i < n - 1 implies (#[trigger] t[i]) is Ok by {
            assert(t[i] == s[i + 1]);
        }
        lemma_good_bytes_run(t, n - 1);
        assert(s[0] is Ok);
        assert(t.skip(n - 1) =~= s.skip(n));
        assert(run_bytes(s, n) =~= seq![s[0]->Ok_0] + run_bytes(t, n - 1));
        assert(run_bytes(s, n) + good_bytes(s.skip(n)) =~= seq![s[0]->Ok_0] + (run_bytes(t, n - 1)
            + good_bytes(s.skip(n))));
    }
}

/// A script without faults holds the bytes it was made of.
pub proof fn lemma_all_good_bytes(b: Seq<u8>)
    ensures
        good_bytes(all_good(b)) == b,
{
    let s = all_good(b);
    lemma_good_bytes_run(s, b.len() as int);
    assert(run_bytes(s, b.len() as int) =~= b);
    assert(s.skip(b.len() as int) =~= Seq::<Result<u8, Fault>>::empty());
    assert(good_bytes(s) =~= b);
}

} // verus!
