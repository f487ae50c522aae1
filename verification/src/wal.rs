//! SQLite write-ahead logs: salt- and checksum-verified frame iteration over
//! a live `-wal` file, the mapping of committed transactions to pages, and
//! the scan for salts that tells checkpoint generations apart.
//!
//! A live log legitimately ends in torn or stale frames. So a short read, a
//! salt that does not match or a checksum that does not match ends the
//! iteration; none of them is an error.
use crate::io::IoError;
use std::collections::HashMap;
use vstd::prelude::*;

verus! {

broadcast use vstd::std_specs::hash::group_hash_axioms;

/// Size of the log's file header.
pub const WAL_HEADER_SIZE: u64 = 32;

/// Size of a frame header.
pub const WAL_FRAME_HEADER_SIZE: u64 = 24;

/// Magic number of a log whose checksum words are little-endian.
pub const WAL_MAGIC_LE: u32 = 0x377F_0682;

/// Magic number of a log whose checksum words are big-endian.
pub const WAL_MAGIC_BE: u32 = 0x377F_0683;

/// The only supported log format version.
pub const WAL_VERSION: u32 = 3_007_000;

/// Size of one frame, header included.
pub open spec fn frame_size(page_size: u32) -> int {
    WAL_FRAME_HEADER_SIZE + page_size
}

/// Total size of a log with `n` frames.
pub open spec fn wal_size(page_size: u32, n: int) -> int {
    WAL_HEADER_SIZE + frame_size(page_size) * n
}

/// Total log size for a frame count: `32 + (24 + page_size) * n`.
pub fn calc_wal_size(page_size: u32, n: u64) -> (r: u64)
    requires
        wal_size(page_size, n as int) <= u64::MAX,
    ensures
        r == wal_size(page_size, n as int),
{
    assert((WAL_FRAME_HEADER_SIZE + page_size) * n >= 0) by (nonlinear_arith);
    WAL_HEADER_SIZE + (WAL_FRAME_HEADER_SIZE + page_size as u64) * n
}

/// How many of `want` bytes at `offset` a file of `len` bytes has.
pub open spec fn available(len: int, offset: int, want: int) -> int {
    if offset >= len {
        0
    } else if want <= len - offset {
        want
    } else {
        len - offset
    }
}

/// Positioned reads. `contents` is the whole of what can be read, which is
/// taken not to change while it is; a `reliable` one never fails to be read.
/// Code that is not verified may leave both out.
pub trait ReadAt {
    open spec fn contents(&self) -> Seq<u8> {
        Seq::empty()
    }

    open spec fn reliable(&self) -> bool {
        false
    }

    /// Reads up to `buf.len()` bytes at `offset`, returning the number read.
    /// Fewer bytes than requested (including none) means the end of the
    /// file, never an error.
    fn read_at(&self, buf: &mut [u8], offset: u64) -> (r: Result<usize, IoError>)
        ensures
            final(buf)@.len() == old(buf)@.len(),
            self.contents().len() <= u64::MAX,
            self.reliable() ==> r is Ok,
            r matches Ok(n) ==> {
                &&& n == available(
                    self.contents().len() as int,
                    offset as int,
                    old(buf)@.len() as int,
                )
                &&& forall|i: int|
                    0 <= i < n ==> #[trigger] final(buf)@[i] == self.contents()[offset + i]
            },
    ;
}

impl ReadAt for [u8] {
    open spec fn contents(&self) -> Seq<u8> {
        self@
    }

    open spec fn reliable(&self) -> bool {
        true
    }

    fn read_at(&self, buf: &mut [u8], offset: u64) -> (r: Result<usize, IoError>) {
        if offset >= self.len() as u64 {
            return Ok(0);
        }
        let from: usize = offset as usize;
        let n: usize = if buf.len() <= self.len() - from {
            buf.len()
        } else {
            self.len() - from
        };
        let mut i: usize = 0;
        while i < n
            invariant
                buf@.len() == old(buf)@.len(),
                n <= buf@.len(),
                from == offset,
                from + n <= self.len(),
                i <= n,
                forall|j: int| 0 <= j < i ==> #[trigger] buf@[j] == self@[offset + j],
            decreases n - i,
        {
            buf[i] = self[from + i];
            i += 1;
        }
        Ok(n)
    }
}

impl<T: ReadAt + ?Sized> ReadAt for &T {
    open spec fn contents(&self) -> Seq<u8> {
        (**self).contents()
    }

    open spec fn reliable(&self) -> bool {
        (**self).reliable()
    }

    fn read_at(&self, buf: &mut [u8], offset: u64) -> (r: Result<usize, IoError>) {
        (**self).read_at(buf, offset)
    }
}

/// The big-endian number in `b` at `i`.
pub open spec fn be32(b: Seq<u8>, i: int) -> u32 {
    (b[i] * 0x100_0000 + b[i + 1] * 0x1_0000 + b[i + 2] * 0x100 + b[i + 3]) as u32
}

/// The little-endian number in `b` at `i`.
pub open spec fn le32(b: Seq<u8>, i: int) -> u32 {
    (b[i + 3] * 0x100_0000 + b[i + 2] * 0x1_0000 + b[i + 1] * 0x100 + b[i]) as u32
}

/// Reads a big-endian number.
pub fn get_be32(b: &[u8], i: usize) -> (r: u32)
    requires
        i + 4 <= b.len(),
    ensures
        r == be32(b@, i as int),
{
    b[i] as u32 * 0x100_0000 + b[i + 1] as u32 * 0x1_0000 + b[i + 2] as u32 * 0x100 + b[i
        + 3] as u32
}

/// Reads a little-endian number.
pub fn get_le32(b: &[u8], i: usize) -> (r: u32)
    requires
        i + 4 <= b.len(),
    ensures
        r == le32(b@, i as int),
{
    b[i + 3] as u32 * 0x100_0000 + b[i + 2] as u32 * 0x1_0000 + b[i + 1] as u32 * 0x100
        + b[i] as u32
}

/// The checksum word at `i`, in the log's byte order.
#[verifier::opaque]
pub open spec fn word(big_endian: bool, b: Seq<u8>, i: int) -> u32 {
    if big_endian {
        be32(b, i)
    } else {
        le32(b, i)
    }
}

/// `x` modulo 2 to the 32.
pub open spec fn wrap32(x: int) -> u32 {
    (x % 0x1_0000_0000) as u32
}

/// The running checksum after `b`, taken two words at a time. A tail of
/// fewer than eight bytes is not summed.
pub open spec fn checksum(big_endian: bool, s0: u32, s1: u32, b: Seq<u8>) -> (u32, u32)
    decreases b.len(),
{
    if b.len() < 8 {
        (s0, s1)
    } else {
        let t0 = wrap32(s0 + word(big_endian, b, 0) + s1);
        let t1 = wrap32(s1 + word(big_endian, b, 4) + t0);
        checksum(big_endian, t0, t1, b.skip(8))
    }
}

/// The sum of three words, modulo 2 to the 32.
fn sum32(a: u32, b: u32, c: u32) -> (r: u32)
    ensures
        r == wrap32(a + b + c),
{
    a.wrapping_add(b.wrapping_add(c))
}

/// The checksum word at `i`, in the log's byte order.
fn get_word(big_endian: bool, b: &[u8], i: usize) -> (r: u32)
    requires
        i + 4 <= b.len(),
    ensures
        r == word(big_endian, b@, i as int),
{
    proof {
        reveal(word);
    }
    if big_endian {
        get_be32(b, i)
    } else {
        get_le32(b, i)
    }
}

proof fn lemma_word_skip(big_endian: bool, b: Seq<u8>, k: int, i: int)
    requires
        0 <= k,
        0 <= i,
        k + i + 4 <= b.len(),
    ensures
        word(big_endian, b.skip(k), i) == word(big_endian, b, k + i),
{
    reveal(word);
}

/// Computes a running SQLite log checksum over `b`, whose length is a
/// multiple of 8 in a sound log. The byte order applies to how the input
/// words are read; stored checksums are always big-endian.
pub fn wal_checksum(big_endian: bool, s0: u32, s1: u32, b: &[u8]) -> (r: (u32, u32))
    ensures
        r == checksum(big_endian, s0, s1, b@),
{
    let mut a: u32 = s0;
    let mut c: u32 = s1;
    let mut i: usize = 0;
    assert(b@.skip(0) =~= b@);
    while b.len() - i >= 8
        invariant
            i <= b.len(),
            checksum(big_endian, a, c, b@.skip(i as int)) == checksum(big_endian, s0, s1, b@),
        decreases b.len() - i,
    {
        let ghost rest = b@.skip(i as int);
        let w0: u32 = get_word(big_endian, b, i);
        let w1: u32 = get_word(big_endian, b, i + 4);
        proof {
            lemma_word_skip(big_endian, b@, i as int, 0);
            lemma_word_skip(big_endian, b@, i as int, 4);
            assert(rest.skip(8) =~= b@.skip(i + 8));
        }
        a = sum32(a, w0, c);
        c = sum32(c, w1, a);
        i += 8;
    }
    (a, c)
}

/// Hard errors from reading a log. The end of the valid part is no error:
/// frame reads return `Ok(None)` there.
#[derive(Debug)]
pub enum WalError {
    /// The log is missing, shorter than a header, or its header checksum
    /// does not match (a header write torn by a checkpoint). Treat as "no
    /// content".
    EmptyWal,
    InvalidMagic(u32),
    UnsupportedVersion(u32),
    UnalignedOffset { offset: u64, page_size: u32 },
    /// The offset to resume at must lie beyond the log header.
    OffsetTooSmall(u64),
    /// Resuming at an offset failed because the frame before it does not
    /// match the expected salts (the log was rewritten).
    PrevFrameMismatch,
    Io(IoError),
}

/// A decoded frame header.
#[derive(Clone, Copy, Debug, PartialEq, Eq, Structural)]
pub struct Frame {
    pub pgno: u32,
    /// Database size in pages if this is a commit frame; 0 otherwise.
    pub commit: u32,
}

/// The result of scanning all committed transactions in a log.
#[derive(Debug)]
pub struct PageMap {
    /// Page number to the file offset of the start of the latest committed
    /// frame for that page.
    pub pages: HashMap<u32, u64>,
    /// Exclusive end offset of the consumed part of the log (the end of the
    /// last committed frame), or 0 if no committed transactions were found.
    pub max_offset: u64,
    /// Final database size in pages, or 0 if no committed transactions.
    pub commit: u32,
}

impl Default for PageMap {
    fn default() -> (r: PageMap)
        ensures
            r.pages@ == Map::<u32, u64>::empty(),
            r.max_offset == 0,
            r.commit == 0,
    {
        PageMap { pages: HashMap::new(), max_offset: 0, commit: 0 }
    }
}

/// What a reader knows: the header's fields, how many frames lie behind it,
/// and the running checksum.
pub struct WalState {
    pub frame_n: int,
    pub big_endian: bool,
    pub page_size: u32,
    pub seq: u32,
    pub salt1: u32,
    pub salt2: u32,
    pub chksum1: u32,
    pub chksum2: u32,
}

/// What the header of the log `c` says.
#[verifier::opaque]
pub open spec fn header_of(c: Seq<u8>) -> Result<WalState, WalError> {
    let magic = be32(c, 0);
    if c.len() < WAL_HEADER_SIZE {
        Err(WalError::EmptyWal)
    } else if magic != WAL_MAGIC_LE && magic != WAL_MAGIC_BE {
        Err(WalError::InvalidMagic(magic))
    } else if checksum(magic == WAL_MAGIC_BE, 0, 0, c.take(24)) != (be32(c, 24), be32(c, 28)) {
        Err(WalError::EmptyWal)
    } else if be32(c, 4) != WAL_VERSION {
        Err(WalError::UnsupportedVersion(be32(c, 4)))
    } else {
        Ok(
            WalState {
                frame_n: 0,
                big_endian: magic == WAL_MAGIC_BE,
                page_size: be32(c, 8),
                seq: be32(c, 12),
                salt1: be32(c, 16),
                salt2: be32(c, 20),
                chksum1: be32(c, 24),
                chksum2: be32(c, 28),
            },
        )
    }
}

/// Where the next frame starts.
pub open spec fn frame_start(st: WalState) -> int {
    wal_size(st.page_size, st.frame_n)
}

/// Whether the log `c` holds a whole frame at `o` with the reader's salts.
pub open spec fn frame_matches(c: Seq<u8>, st: WalState, o: int) -> bool {
    &&& o + frame_size(st.page_size) <= c.len()
    &&& be32(c, o + 8) == st.salt1
    &&& be32(c, o + 12) == st.salt2
}

/// The running checksum after the frame at `o`: it covers the page number
/// and the commit size (not the salts), and then the page.
pub open spec fn frame_checksum(c: Seq<u8>, st: WalState, o: int) -> (u32, u32) {
    let s = checksum(st.big_endian, st.chksum1, st.chksum2, c.subrange(o, o + 8));
    checksum(st.big_endian, s.0, s.1, c.subrange(o + 24, o + 24 + st.page_size))
}

/// Reading the next frame: what comes back, and what the reader knows then.
/// The frame counts if it is whole, carries the expected salts and, when
/// verified, continues the checksum.
#[verifier::opaque]
pub open spec fn frame_step(c: Seq<u8>, st: WalState, verify: bool) -> (Option<Frame>, WalState) {
    let o = frame_start(st);
    let stored = (be32(c, o + 16), be32(c, o + 20));
    if !frame_matches(c, st, o) {
        (None, st)
    } else {
        let sum = if verify {
            frame_checksum(c, st, o)
        } else {
            stored
        };
        let st1 = WalState { chksum1: sum.0, chksum2: sum.1, ..st };
        if sum != stored {
            (None, st1)
        } else {
            (
                Some(Frame { pgno: be32(c, o), commit: be32(c, o + 4) }),
                WalState { frame_n: st.frame_n + 1, ..st1 },
            )
        }
    }
}

proof fn lemma_wal_size_step(page_size: u32, n: int)
    ensures
        wal_size(page_size, n + 1) == wal_size(page_size, n) + frame_size(page_size),
        n >= 0 ==> wal_size(page_size, n) >= WAL_HEADER_SIZE,
{
    assert(frame_size(page_size) * (n + 1) == frame_size(page_size) * n + frame_size(page_size))
        by (nonlinear_arith);
    if n >= 0 {
        assert(frame_size(page_size) * n >= 0) by (nonlinear_arith)
            requires
                n >= 0,
                frame_size(page_size) >= 0,
        ;
    }
}

/// A frame that counts lies within the log and moves the reader past it;
/// nothing else of what the reader knows changes but the checksum.
pub proof fn lemma_frame_step(c: Seq<u8>, st: WalState, verify: bool)
    ensures
        ({
            let (f, st1) = frame_step(c, st, verify);
            &&& st1.page_size == st.page_size
            &&& st1.frame_n == st.frame_n + if f is Some { 1int } else { 0 }
            &&& f is Some ==> frame_start(st) + frame_size(st.page_size) <= c.len()
            &&& f is Some ==> frame_start(st1) == frame_start(st) + frame_size(st.page_size)
        }),
{
    reveal(frame_step);
    lemma_wal_size_step(st.page_size, st.frame_n);
}

/// `n` zero bytes.
fn zeros(n: usize) -> (r: Vec<u8>)
    ensures
        r@.len() == n,
{
    vec![0u8; n]
}

/// Verifying reader over a live SQLite `-wal` file.
pub struct WalReader<R: ReadAt> {
    pub r: R,
    /// How many frames lie behind the reader.
    pub frame_n: u64,
    pub big_endian: bool,
    pub page_size: u32,
    /// Checkpoint sequence number from the header (informational).
    pub seq: u32,
    pub salt1: u32,
    pub salt2: u32,
    /// The running checksum.
    pub chksum1: u32,
    pub chksum2: u32,
}

impl<R: ReadAt> WalReader<R> {
    /// What is read from.
    pub open spec fn file(&self) -> R {
        self.r
    }

    /// What the reader knows.
    pub open spec fn state(&self) -> WalState {
        WalState {
            frame_n: self.frame_n as int,
            big_endian: self.big_endian,
            page_size: self.page_size,
            seq: self.seq,
            salt1: self.salt1,
            salt2: self.salt2,
            chksum1: self.chksum1,
            chksum2: self.chksum2,
        }
    }

    /// The next frame starts at an offset that a file can have.
    pub open spec fn wf(&self) -> bool {
        0 <= self.state().frame_n && frame_start(self.state()) <= u64::MAX
    }

    /// Opens a reader at the start of the log, parsing and verifying the
    /// header.
    pub fn new(r: R) -> (res: Result<WalReader<R>, WalError>)
        ensures
            match res {
                Ok(rd) => {
                    &&& rd.wf()
                    &&& rd.file() == r
                    &&& header_of(r.contents()) == Ok::<WalState, WalError>(rd.state())
                },
                Err(WalError::Io(_)) => !r.reliable(),
                Err(e) => header_of(r.contents()) == Err::<WalState, WalError>(e),
            },
    {
        let mut rd = WalReader {
            r,
            frame_n: 0,
            big_endian: false,
            page_size: 0,
            seq: 0,
            salt1: 0,
            salt2: 0,
            chksum1: 0,
            chksum2: 0,
        };
        match rd.read_header() {
            Ok(()) => {},
            Err(e) => return Err(e),
        }
        proof {
            reveal(header_of);
        }
        Ok(rd)
    }

    fn read_header(&mut self) -> (res: Result<(), WalError>)
        requires
            old(self).frame_n == 0,
        ensures
            final(self).r == old(self).r,
            final(self).frame_n == 0,
            match res {
                Ok(_) => header_of(old(self).r.contents()) == Ok::<WalState, WalError>(
                    final(self).state(),
                ),
                Err(WalError::Io(_)) => !old(self).r.reliable(),
                Err(e) => header_of(old(self).r.contents()) == Err::<WalState, WalError>(e),
            },
    {
        proof {
            reveal(header_of);
        }
        let mut hdr = zeros(32);
        let n = match self.r.read_at(hdr.as_mut_slice(), 0) {
            Ok(n) => n,
            Err(e) => return Err(WalError::Io(e)),
        };
        let ghost c = self.r.contents();
        if n < 32 {
            return Err(WalError::EmptyWal);
        }
        assert(hdr@ =~= c.take(32));
        let magic: u32 = get_be32(&hdr, 0);
        if magic == WAL_MAGIC_LE {
            self.big_endian = false;
        } else if magic == WAL_MAGIC_BE {
            self.big_endian = true;
        } else {
            return Err(WalError::InvalidMagic(magic));
        }
        // A torn header write (a crash mid-checkpoint) reads as an empty log.
        let chksum1: u32 = get_be32(&hdr, 24);
        let chksum2: u32 = get_be32(&hdr, 28);
        let head = vstd::slice::slice_subrange(&hdr, 0, 24);
        assert(head@ =~= c.take(24));
        let (v0, v1) = wal_checksum(self.big_endian, 0, 0, head);
        if v0 != chksum1 || v1 != chksum2 {
            return Err(WalError::EmptyWal);
        }
        let version: u32 = get_be32(&hdr, 4);
        if version != WAL_VERSION {
            return Err(WalError::UnsupportedVersion(version));
        }
        self.page_size = get_be32(&hdr, 8);
        self.seq = get_be32(&hdr, 12);
        self.salt1 = get_be32(&hdr, 16);
        self.salt2 = get_be32(&hdr, 20);
        self.chksum1 = chksum1;
        self.chksum2 = chksum2;
        Ok(())
    }

    pub fn page_size(&self) -> (r: u32)
        ensures
            r == self.state().page_size,
    {
        self.page_size
    }

    /// The salts of the frames that are read.
    pub fn salts(&self) -> (r: (u32, u32))
        ensures
            r == (self.state().salt1, self.state().salt2),
    {
        (self.salt1, self.salt2)
    }

    /// File offset of the start of the last-read frame; 0 if none read yet.
    pub fn offset(&self) -> (r: u64)
        requires
            self.wf(),
        ensures
            r == if self.state().frame_n == 0 {
                0
            } else {
                wal_size(self.state().page_size, self.state().frame_n - 1)
            },
    {
        if self.frame_n == 0 {
            return 0;
        }
        proof {
            lemma_wal_size_step(self.page_size, self.frame_n - 1);
            assert(frame_size(self.page_size) * (self.frame_n - 1) >= 0) by (nonlinear_arith)
                requires
                    self.frame_n >= 1,
                    frame_size(self.page_size) >= 0,
            ;
        }
        calc_wal_size(self.page_size, self.frame_n - 1)
    }

    /// Reads the next frame into `data` (page-size bytes). Returns
    /// `Ok(None)` at the end of the valid log: short read, salt mismatch or
    /// cumulative checksum mismatch.
    pub fn read_frame(&mut self, data: &mut [u8]) -> (res: Result<Option<Frame>, WalError>)
        requires
            old(self).wf(),
            old(data)@.len() == old(self).state().page_size,
        ensures
            final(self).wf(),
            final(self).file() == old(self).file(),
            final(data)@.len() == old(data)@.len(),
            match res {
                Ok(f) => (f, final(self).state()) == frame_step(
                    old(self).file().contents(),
                    old(self).state(),
                    true,
                ),
                Err(WalError::Io(_)) => !old(self).file().reliable() && final(self).state()
                    == old(self).state(),
                Err(_) => false,
            },
            res matches Ok(Some(_)) ==> {
                let o = frame_start(old(self).state()) + 24;
                final(data)@ == old(self).file().contents().subrange(o, o + old(data)@.len())
            },
    {
        self.read_frame_inner(data, true)
    }

    fn read_frame_inner(&mut self, data: &mut [u8], verify_checksum: bool) -> (res: Result<
        Option<Frame>,
        WalError,
    >)
        requires
            old(self).wf(),
            old(data)@.len() == old(self).state().page_size,
        ensures
            final(self).wf(),
            final(self).file() == old(self).file(),
            final(data)@.len() == old(data)@.len(),
            match res {
                Ok(f) => (f, final(self).state()) == frame_step(
                    old(self).file().contents(),
                    old(self).state(),
                    verify_checksum,
                ),
                Err(WalError::Io(_)) => !old(self).file().reliable() && final(self).state()
                    == old(self).state(),
                Err(_) => false,
            },
            res matches Ok(Some(_)) ==> {
                let o = frame_start(old(self).state()) + 24;
                final(data)@ == old(self).file().contents().subrange(o, o + old(data)@.len())
            },
    {
        let ghost c = self.r.contents();
        let ghost st = self.state();
        let ghost o = frame_start(st);
        proof {
            reveal(frame_step);
            lemma_wal_size_step(self.page_size, self.frame_n as int);
        }
        let offset: u64 = calc_wal_size(self.page_size, self.frame_n);
        let mut hdr = zeros(24);
        match self.r.read_at(hdr.as_mut_slice(), offset) {
            Err(e) => return Err(WalError::Io(e)),
            Ok(n) => {
                if n != 24 {
                    return Ok(None);
                }
            },
        }
        assert(hdr@ =~= c.subrange(o, o + 24));
        match self.r.read_at(data, offset + WAL_FRAME_HEADER_SIZE) {
            Err(e) => return Err(WalError::Io(e)),
            Ok(n) => {
                if n != data.len() {
                    return Ok(None);
                }
            },
        }
        assert(data@ =~= c.subrange(o + 24, o + 24 + st.page_size));
        assert(o + frame_size(st.page_size) <= c.len());
        proof {
            assert forall|k: int| 0 <= k <= 20 implies #[trigger] be32(hdr@, k) == be32(c, o + k) by {
            }
        }
        // The salts must match the expected generation.
        let salt1: u32 = get_be32(&hdr, 8);
        let salt2: u32 = get_be32(&hdr, 12);
        if self.salt1 != salt1 || self.salt2 != salt2 {
            return Ok(None);
        }
        let chksum1: u32 = get_be32(&hdr, 16);
        let chksum2: u32 = get_be32(&hdr, 20);
        if verify_checksum {
            // The cumulative checksum covers the page number and the commit
            // size, not the salts, and then the page.
            let head = vstd::slice::slice_subrange(&hdr, 0, 8);
            assert(head@ =~= c.subrange(o, o + 8));
            let (s0, s1) = wal_checksum(self.big_endian, self.chksum1, self.chksum2, head);
            let (s0, s1) = wal_checksum(self.big_endian, s0, s1, data);
            self.chksum1 = s0;
            self.chksum2 = s1;
            if self.chksum1 != chksum1 || self.chksum2 != chksum2 {
                return Ok(None);
            }
        } else {
            // Trust the stored checksum when resuming at an offset.
            self.chksum1 = chksum1;
            self.chksum2 = chksum2;
        }
        let frame = Frame { pgno: get_be32(&hdr, 0), commit: get_be32(&hdr, 4) };
        assert(self.frame_n < u64::MAX) by {
            assert(frame_size(st.page_size) * st.frame_n >= st.frame_n) by (nonlinear_arith)
                requires
                    frame_size(st.page_size) >= 1,
                    st.frame_n >= 0,
            ;
        }
        self.frame_n = self.frame_n + 1;
        Ok(Some(frame))
    }
}

/// What a reader knows that resumes at `offset` with the expected salts,
/// seeding the checksum from the frame before the offset.
#[verifier::opaque]
pub open spec fn resumed(c: Seq<u8>, offset: u64, salt1: u32, salt2: u32) -> Result<
    WalState,
    WalError,
> {
    if offset <= WAL_HEADER_SIZE {
        Err(WalError::OffsetTooSmall(offset))
    } else {
        match header_of(c) {
            Err(e) => Err(e),
            Ok(h) => if (offset - WAL_HEADER_SIZE) % frame_size(h.page_size) != 0 {
                Err(WalError::UnalignedOffset { offset, page_size: h.page_size })
            } else {
                let before = WalState {
                    frame_n: (offset - WAL_HEADER_SIZE) / frame_size(h.page_size) - 1,
                    salt1,
                    salt2,
                    ..h
                };
                match frame_step(c, before, false) {
                    (Some(_), st) => Ok(st),
                    (None, _) => Err(WalError::PrevFrameMismatch),
                }
            },
        }
    }
}

/// The frames from `st` on that start before `end`, each with the offset it
/// starts at, and what the reader knows after them.
pub open spec fn scan(c: Seq<u8>, st: WalState, end: int) -> (Seq<(Frame, u64)>, WalState)
    decreases c.len() - frame_start(st) via scan_decreases
{
    if frame_start(st) >= end {
        (Seq::empty(), st)
    } else {
        match frame_step(c, st, true) {
            (None, st1) => (Seq::empty(), st1),
            (Some(f), st1) => {
                let rest = scan(c, st1, end);
                (seq![(f, frame_start(st) as u64)] + rest.0, rest.1)
            },
        }
    }
}

#[via_fn]
proof fn scan_decreases(c: Seq<u8>, st: WalState, end: int) {
    lemma_frame_step(c, st, true);
}

/// How many of the frames belong to committed transactions: those up to the
/// last commit frame.
pub open spec fn commit_len(seen: Seq<(Frame, u64)>) -> int
    decreases seen.len(),
{
    if seen.len() == 0 {
        0
    } else if seen.last().0.commit != 0 {
        seen.len() as int
    } else {
        commit_len(seen.drop_last())
    }
}

/// The database size that the last commit frame states; 0 without one.
pub open spec fn final_commit(seen: Seq<(Frame, u64)>) -> u32 {
    if commit_len(seen) == 0 {
        0
    } else {
        seen[commit_len(seen) - 1].0.commit
    }
}

/// Each page up to `commit` with the offset of its last frame.
pub open spec fn latest(seen: Seq<(Frame, u64)>, commit: u32) -> Map<u32, u64>
    decreases seen.len(),
{
    if seen.len() == 0 {
        Map::empty()
    } else {
        let m = latest(seen.drop_last(), commit);
        let (f, offset) = seen.last();
        if f.pgno <= commit {
            m.insert(f.pgno, offset)
        } else {
            m
        }
    }
}

/// The pages of the committed transactions among `seen`.
pub open spec fn committed_pages(seen: Seq<(Frame, u64)>) -> Map<u32, u64> {
    latest(seen.take(commit_len(seen)), final_commit(seen))
}

/// Whether `pm` is the page map of the frames `seen`.
pub open spec fn maps_pages(pm: PageMap, seen: Seq<(Frame, u64)>, page_size: u32) -> bool {
    let pages = committed_pages(seen);
    &&& pm.pages@ == pages
    &&& pm.commit == final_commit(seen)
    &&& pm.max_offset == committed_end(seen, page_size)
    &&& forall|p: u32| #[trigger]
        pages.contains_key(p) ==> pages[p] + frame_size(page_size) <= pm.max_offset
}

/// Where the last committed frame ends; 0 without one.
pub open spec fn committed_end(seen: Seq<(Frame, u64)>, page_size: u32) -> int {
    if commit_len(seen) == 0 {
        0
    } else {
        seen[commit_len(seen) - 1].1 + frame_size(page_size)
    }
}

/// The salts of the frame headers from `o` on, up to the first that equals
/// `until`.
pub open spec fn salts_from(c: Seq<u8>, page_size: u32, o: int, until: (u32, u32)) -> Seq<
    (u32, u32),
>
    decreases c.len() - o,
{
    if o + WAL_FRAME_HEADER_SIZE > c.len() {
        Seq::empty()
    } else {
        let s = (be32(c, o + 8), be32(c, o + 12));
        if s == until || c.len() - o < frame_size(page_size) {
            seq![s]
        } else {
            seq![s] + salts_from(c, page_size, o + frame_size(page_size), until)
        }
    }
}

proof fn lemma_commit_len(seen: Seq<(Frame, u64)>)
    ensures
        0 <= commit_len(seen) <= seen.len(),
    decreases seen.len(),
{
    if seen.len() > 0 {
        lemma_commit_len(seen.drop_last());
    }
}

impl<R: ReadAt> WalReader<R> {
    /// Opens a reader resuming at `offset` with expected salts, seeding the
    /// checksum chain from the frame before the offset (whose stored
    /// checksum is trusted after its salts are verified).
    pub fn with_offset(r: R, offset: u64, salt1: u32, salt2: u32) -> (res: Result<
        WalReader<R>,
        WalError,
    >)
        ensures
            match res {
                Ok(rd) => {
                    &&& rd.wf()
                    &&& rd.file() == r
                    &&& resumed(r.contents(), offset, salt1, salt2) == Ok::<WalState, WalError>(
                        rd.state(),
                    )
                    &&& (rd.salt1, rd.salt2) == (salt1, salt2)
                },
                Err(WalError::Io(_)) => !r.reliable(),
                Err(e) => {
                    let res = resumed(r.contents(), offset, salt1, salt2);
                    ||| res == Err::<WalState, WalError>(e)
                    ||| e is PrevFrameMismatch && !r.reliable() && res is Ok
                },
            },
    {
        proof {
            reveal(header_of);
            reveal(resumed);
            reveal(frame_step);
        }
        if offset <= WAL_HEADER_SIZE {
            return Err(WalError::OffsetTooSmall(offset));
        }
        let mut rd = match WalReader::new(r) {
            Ok(rd) => rd,
            Err(e) => return Err(e),
        };
        // Adopt the expected salts in case the start of the file has been
        // overwritten by a newer generation.
        rd.salt1 = salt1;
        rd.salt2 = salt2;
        let size: u64 = WAL_FRAME_HEADER_SIZE + rd.page_size as u64;
        let span: u64 = offset - WAL_HEADER_SIZE;
        if span % size != 0 {
            return Err(WalError::UnalignedOffset { offset, page_size: rd.page_size });
        }
        // Read the previous frame without checksum verification to seed the
        // rolling checksum; its salts must match.
        proof {
            let q: int = span as int / size as int;
            assert(span == size * q && q >= 1) by (nonlinear_arith)
                requires
                    span % size == 0,
                    q == span as int / size as int,
                    size > 0,
                    span > 0,
            ;
            lemma_wal_size_step(rd.page_size, q - 1);
        }
        rd.frame_n = span / size - 1;
        let mut data = zeros(rd.page_size as usize);
        match rd.read_frame_inner(data.as_mut_slice(), false) {
            Ok(Some(_)) => Ok(rd),
            _ => Err(WalError::PrevFrameMismatch),
        }
    }

    /// Scans all remaining frames, returning the latest committed version of
    /// each page. Uncommitted trailing frames are excluded; pages beyond the
    /// final commit size (a shrinking VACUUM) are dropped.
    pub fn page_map(&mut self) -> (res: Result<PageMap, WalError>)
        requires
            old(self).wf(),
        ensures
            final(self).wf(),
            final(self).file() == old(self).file(),
            res matches Err(e) ==> e is Io && !old(self).file().reliable(),
            res matches Ok(pm) ==> {
                let (seen, st) = scan(
                    old(self).file().contents(),
                    old(self).state(),
                    u64::MAX as int,
                );
                maps_pages(pm, seen, old(self).state().page_size) && final(self).state() == st
            },
    {
        self.page_map_until(u64::MAX)
    }

    /// Like [`WalReader::page_map`], but stops before any frame starting at
    /// or beyond `end_offset`. Used to snapshot a database at an exact
    /// already-synced position while writers keep appending.
    pub fn page_map_until(&mut self, end_offset: u64) -> (res: Result<PageMap, WalError>)
        requires
            old(self).wf(),
        ensures
            final(self).wf(),
            final(self).file() == old(self).file(),
            res matches Err(e) ==> e is Io && !old(self).file().reliable(),
            res matches Ok(pm) ==> {
                let (seen, st) = scan(
                    old(self).file().contents(),
                    old(self).state(),
                    end_offset as int,
                );
                maps_pages(pm, seen, old(self).state().page_size) && final(self).state() == st
            },
    {
        let ghost c = self.r.contents();
        let ghost st0 = self.state();
        let ghost all = scan(c, st0, end_offset as int);
        let mut seen: Vec<(Frame, u64)> = Vec::new();
        let mut committed: usize = 0;
        let mut commit: u32 = 0;
        let mut end: u64 = 0;
        let page_size: u32 = self.page_size;
        let mut data = zeros(self.page_size as usize);
        assert(seen@ + all.0 =~= all.0);
        // Pages are not visible until their transaction commits, so the
        // frames are collected first, up to the last commit.
        loop
            invariant_except_break
                scan(c, self.state(), end_offset as int).1 == all.1,
                seen@ + scan(c, self.state(), end_offset as int).0 == all.0,
            invariant
                self.wf(),
                self.r == old(self).r,
                c == old(self).r.contents(),
                st0 == old(self).state(),
                page_size == st0.page_size,
                page_size == self.page_size,
                data@.len() == page_size,
                all == scan(c, st0, end_offset as int),
                committed == commit_len(seen@),
                commit == final_commit(seen@),
                end == committed_end(seen@, page_size),
                forall|i: int|
                    0 <= i < seen@.len() ==> (#[trigger] seen@[i]).1 + frame_size(page_size)
                        <= frame_start(self.state()),
                forall|i: int, j: int|
                    0 <= i < j < seen@.len() ==> (#[trigger] seen@[i]).1 < (#[trigger] seen@[j]).1,
            ensures
                self.wf(),
                self.r == old(self).r,
                self.state() == all.1,
                seen@ == all.0,
                committed == commit_len(seen@),
                commit == final_commit(seen@),
                end == committed_end(seen@, page_size),
                forall|i: int|
                    0 <= i < seen@.len() ==> (#[trigger] seen@[i]).1 + frame_size(page_size)
                        <= u64::MAX,
                forall|i: int, j: int|
                    0 <= i < j < seen@.len() ==> (#[trigger] seen@[i]).1 < (#[trigger] seen@[j]).1,
            decreases c.len() - frame_start(self.state()),
        {
            let ghost st = self.state();
            let ghost before = seen@;
            proof {
                lemma_frame_step(c, st, true);
                assert(before + Seq::<(Frame, u64)>::empty() =~= before);
            }
            let next_start: u64 = calc_wal_size(self.page_size, self.frame_n);
            if next_start >= end_offset {
                break;
            }
            let frame = match self.read_frame(data.as_mut_slice()) {
                Err(e) => return Err(e),
                Ok(None) => break,
                Ok(Some(f)) => f,
            };
            seen.push((frame, self.offset()));
            proof {
                let rest = scan(c, self.state(), end_offset as int);
                assert(seen@ + rest.0 =~= before + (seq![(frame, frame_start(st) as u64)]
                    + rest.0));
                assert(seen@.drop_last() =~= before);
                lemma_commit_len(before);
                if frame.commit == 0 {
                    assert(commit_len(seen@) == commit_len(before));
                }
            }
            if frame.commit != 0 {
                committed = seen.len();
                commit = frame.commit;
                end = self.offset() + WAL_FRAME_HEADER_SIZE + page_size as u64;
            }
        }
        proof {
            lemma_commit_len(seen@);
        }
        // Pages beyond the final database size (shrunk between transactions
        // within this log) are dropped.
        let mut pages: HashMap<u32, u64> = HashMap::new();
        let mut i: usize = 0;
        assert(seen@.take(0) =~= Seq::<(Frame, u64)>::empty());
        while i < committed
            invariant
                i <= committed <= seen@.len(),
                pages@ == latest(seen@.take(i as int), commit),
                forall|p: u32| #[trigger]
                    pages@.contains_key(p) ==> exists|k: int|
                        0 <= k < i && (#[trigger] seen@[k]).1 == pages@[p],
            decreases committed - i,
        {
            let (frame, offset) = seen[i];
            let ghost t = seen@.take(i + 1);
            let ghost before = pages@;
            assert(t.drop_last() =~= seen@.take(i as int));
            assert(t.last() == seen@[i as int]);
            if frame.pgno <= commit {
                pages.insert(frame.pgno, offset);
                assert(pages@ == before.insert(frame.pgno, offset));
            }
            assert forall|p: u32| #[trigger] pages@.contains_key(p) implies exists|k: int|
                0 <= k < i + 1 && (#[trigger] seen@[k]).1 == pages@[p] by {
                if p == frame.pgno && frame.pgno <= commit {
                    assert(seen@[i as int].1 == pages@[p]);
                } else {
                    assert(before.contains_key(p));
                    let k = choose|k: int| 0 <= k < i && (#[trigger] seen@[k]).1 == before[p];
                    assert(seen@[k].1 == pages@[p]);
                }
            }
            i += 1;
        }
        let pm = PageMap { pages, max_offset: end, commit };
        assert forall|p: u32| #[trigger] pm.pages@.contains_key(p) implies pm.pages@[p]
            + frame_size(page_size) <= end by {
            let k = choose|k: int| 0 <= k < committed && (#[trigger] seen@[k]).1 == pm.pages@[p];
            assert(seen@[k].1 <= seen@[committed - 1].1);
        }
        Ok(pm)
    }

    /// Collects the distinct frame salts from the top of the log until (and
    /// including) `until`, in the order they first occur, without checksum
    /// verification. Used to detect checkpoint generations that were never
    /// seen.
    pub fn frame_salts_until(&self, until: (u32, u32)) -> (res: Result<Vec<(u32, u32)>, WalError>)
        ensures
            match res {
                Ok(v) => v@.no_duplicates() && v@.to_set() == salts_from(
                    self.file().contents(),
                    self.state().page_size,
                    WAL_HEADER_SIZE as int,
                    until,
                ).to_set(),
                Err(WalError::Io(_)) => !self.file().reliable(),
                Err(_) => false,
            },
    {
        let ghost c = self.r.contents();
        let ghost all = salts_from(c, self.page_size, WAL_HEADER_SIZE as int, until);
        let size: u64 = WAL_FRAME_HEADER_SIZE + self.page_size as u64;
        let mut out: Vec<(u32, u32)> = Vec::new();
        let mut offset: u64 = WAL_HEADER_SIZE;
        assert(out@.to_set().union(all.to_set()) =~= all.to_set());
        loop
            invariant
                c == self.r.contents(),
                size == frame_size(self.page_size),
                all == salts_from(c, self.page_size, WAL_HEADER_SIZE as int, until),
                out@.no_duplicates(),
                out@.to_set().union(
                    salts_from(c, self.page_size, offset as int, until).to_set(),
                ) == all.to_set(),
            decreases
                    if offset <= c.len() {
                        c.len() - offset + 1
                    } else {
                        0
                    },
        {
            let mut hdr = zeros(24);
            let ghost rest = salts_from(c, self.page_size, offset as int, until);
            let ghost before = out@;
            match self.r.read_at(hdr.as_mut_slice(), offset) {
                Err(e) => return Err(WalError::Io(e)),
                Ok(n) => {
                    if n != 24 {
                        assert(rest.to_set() =~= Set::<(u32, u32)>::empty());
                        assert(out@.to_set() =~= all.to_set());
                        return Ok(out);
                    }
                },
            }
            assert(hdr@ =~= c.subrange(offset as int, offset + 24));
            let salts: (u32, u32) = (get_be32(&hdr, 8), get_be32(&hdr, 12));
            let mut known: bool = false;
            let mut i: usize = 0;
            while i < out.len()
                invariant
                    i <= out@.len(),
                    known == exists|j: int| 0 <= j < i && #[trigger] out@[j] == salts,
                decreases out@.len() - i,
            {
                if out[i].0 == salts.0 && out[i].1 == salts.1 {
                    known = true;
                }
                i += 1;
            }
            if !known {
                out.push(salts);
            }
            proof {
                assert(out@.to_set() =~= before.to_set().insert(salts)) by {
                    assert forall|x: (u32, u32)| #[trigger] out@.to_set().contains(x)
                        == before.to_set().insert(salts).contains(x) by {
                        if !known {
                            if before.contains(x) {
                                let k = choose|k: int| 0 <= k < before.len() && before[k] == x;
                                assert(out@[k] == x);
                            }
                            assert(out@[before.len() as int] == salts);
                            if out@.contains(x) {
                                let k = choose|k: int| 0 <= k < out@.len() && out@[k] == x;
                                if k < before.len() {
                                    assert(before[k] == x);
                                }
                            }
                        }
                    }
                }
                assert(rest.len() > 0 && rest[0] == salts);
            }
            if (salts.0 == until.0 && salts.1 == until.1) || u64::MAX - offset < size {
                proof {
                    assert(rest =~= seq![salts]);
                    assert(rest.to_set() =~= set![salts]) by {
                        assert(rest[0] == salts);
                    }
                    assert(out@.to_set() =~= all.to_set());
                }
                return Ok(out);
            }
            proof {
                let next = salts_from(c, self.page_size, offset + size, until);
                if c.len() - offset < size {
                    assert(next =~= Seq::<(u32, u32)>::empty());
                }
                assert(rest =~= seq![salts] + next);
                assert(rest.to_set() =~= next.to_set().insert(salts)) by {
                    assert forall|x: (u32, u32)| #[trigger] rest.to_set().contains(x)
                        == next.to_set().insert(salts).contains(x) by {
                        if next.contains(x) {
                            let k = choose|k: int| 0 <= k < next.len() && next[k] == x;
                            assert(rest[k + 1] == x);
                        }
                        assert(rest[0] == salts);
                        if rest.contains(x) {
                            let k = choose|k: int| 0 <= k < rest.len() && rest[k] == x;
                            if k > 0 {
                                assert(next[k - 1] == x);
                            }
                        }
                    }
                }
                assert(out@.to_set().union(next.to_set()) =~= all.to_set());
            }
            offset = offset + size;
        }
    }
}

} // verus!
