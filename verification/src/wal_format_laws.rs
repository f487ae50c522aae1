//! What the bytes of a log say, in numbers: checksums, headers, frames and
//! salts, stated over the bytes themselves.
use crate::wal::{
    checksum, commit_len, committed_end, final_commit, frame_start, frame_step, header_of,
    lemma_frame_step, maps_pages, resumed, salts_from, scan, wal_checksum, word, Frame, PageMap,
    ReadAt, WalError, WalReader, WalState,
};
use crate::wal_laws::{after_frames, is_last_frame_of, law_page_map_shows_committed_pages};
use vstd::prelude::*;

verus! {

/// The number in four bytes from `i` on, the most significant byte first.
pub open spec fn number(c: Seq<u8>, i: int) -> int {
    ((c[i] * 256 + c[i + 1]) * 256 + c[i + 2]) * 256 + c[i + 3]
}

/// The number in four bytes from `i` on, the least significant byte first.
pub open spec fn number_backwards(c: Seq<u8>, i: int) -> int {
    ((c[i + 3] * 256 + c[i + 2]) * 256 + c[i + 1]) * 256 + c[i]
}

/// One block of eight bytes, which are the words `w0` and `w1` in the log's
/// byte order, takes the sums `s0` and `s1` to `s0 + w0 + s1` and, with that
/// first sum, `s1 + w1` more, all modulo 2 to the 32.
pub proof fn law_checksum_of_a_block(big_endian: bool, s0: u32, s1: u32, b: Seq<u8>)
    requires
        b.len() == 8,
    ensures
        ({
            let w0 = if big_endian {
                number(b, 0)
            } else {
                number_backwards(b, 0)
            };
            let w1 = if big_endian {
                number(b, 4)
            } else {
                number_backwards(b, 4)
            };
            let t0 = (s0 + w0 + s1) % 0x1_0000_0000;
            let t1 = (s1 + w1 + t0) % 0x1_0000_0000;
            &&& checksum(big_endian, s0, s1, b).0 == t0
            &&& checksum(big_endian, s0, s1, b).1 == t1
        }),
{
    reveal(word);
    reveal_with_fuel(checksum, 2);
    assert(b.skip(8).len() == 0);
}

/// A checksum is taken block by block: that of two stretches is that of the
/// second, continued from that of the first, if the first is whole blocks.
pub proof fn law_checksum_continues(
    big_endian: bool,
    s0: u32,
    s1: u32,
    a: Seq<u8>,
    b: Seq<u8>,
)
    requires
        a.len() % 8 == 0,
    ensures
        checksum(big_endian, s0, s1, a + b) == ({
            let s = checksum(big_endian, s0, s1, a);
            checksum(big_endian, s.0, s.1, b)
        }),
    decreases a.len(),
{
    if a.len() == 0 {
        assert(a + b =~= b);
    } else {
        assert(a.len() >= 8);
        let t0 = crate::wal::wrap32(s0 + word(big_endian, a, 0) + s1);
        let t1 = crate::wal::wrap32(s1 + word(big_endian, a, 4) + t0);
        reveal(word);
        assert(word(big_endian, a + b, 0) == word(big_endian, a, 0));
        assert(word(big_endian, a + b, 4) == word(big_endian, a, 4));
        assert((a + b).skip(8) =~= a.skip(8) + b);
        law_checksum_continues(big_endian, t0, t1, a.skip(8), b);
    }
}

/// A tail of fewer than eight bytes adds nothing to a checksum, and neither
/// does no byte at all.
pub proof fn law_checksum_ignores_a_broken_block(
    big_endian: bool,
    s0: u32,
    s1: u32,
    a: Seq<u8>,
    tail: Seq<u8>,
)
    requires
        a.len() % 8 == 0,
        tail.len() < 8,
    ensures
        checksum(big_endian, s0, s1, a + tail) == checksum(big_endian, s0, s1, a),
        checksum(big_endian, s0, s1, tail) == (s0, s1),
{
    law_checksum_continues(big_endian, s0, s1, a, tail);
}

/// The header that SQLite writes for pages of 4096 bytes, at sequence number
/// 0, with the salts 1 and 2, without its checksum.
pub open spec fn sample_header() -> Seq<u8> {
    seq![0x37u8, 0x7f, 0x06, 0x82, 0x00, 0x2d, 0xe2, 0x18] + seq![
        0x00u8,
        0x00,
        0x10,
        0x00,
        0x00,
        0x00,
        0x00,
        0x00,
    ] + seq![0x00u8, 0x00, 0x00, 0x01, 0x00, 0x00, 0x00, 0x02]
}

/// The checksum that SQLite stores after that header is the one computed.
pub proof fn law_sample_header_has_its_checksum()
    ensures
        checksum(false, 0, 0, sample_header()) == (0xd5e7_0313u32, 0x8fce_dab8u32),
        header_of(
            sample_header() + seq![0xd5u8, 0xe7, 0x03, 0x13, 0x8f, 0xce, 0xda, 0xb8],
        ) == Ok::<WalState, WalError>(
            WalState {
                frame_n: 0,
                big_endian: false,
                page_size: 4096,
                seq: 0,
                salt1: 1,
                salt2: 2,
                chksum1: 0xd5e7_0313,
                chksum2: 0x8fce_dab8,
            },
        ),
{
    lemma_sample_sums();
    let c = sample_header() + seq![0xd5u8, 0xe7, 0x03, 0x13, 0x8f, 0xce, 0xda, 0xb8];
    assert(c.take(24) =~= sample_header());
    lemma_sample_fields(c);
    law_header_says_its_fields(c);
}

proof fn lemma_sample_fields(c: Seq<u8>)
    requires
        c == sample_header() + seq![0xd5u8, 0xe7, 0x03, 0x13, 0x8f, 0xce, 0xda, 0xb8],
    ensures
        c.len() == 32,
        number(c, 0) == 0x377f_0682,
        number(c, 4) == 3_007_000,
        number(c, 8) == 4096,
        number(c, 12) == 0,
        number(c, 16) == 1,
        number(c, 20) == 2,
        number(c, 24) == 0xd5e7_0313,
        number(c, 28) == 0x8fce_dab8,
{
}

proof fn lemma_block(s0: u32, s1: u32, b: Seq<u8>, w0: int, w1: int, t0: u32, t1: u32)
    requires
        b.len() == 8,
        number_backwards(b, 0) == w0,
        number_backwards(b, 4) == w1,
        (s0 + w0 + s1) % 0x1_0000_0000 == t0,
        (s1 + w1 + t0) % 0x1_0000_0000 == t1,
    ensures
        checksum(false, s0, s1, b) == (t0, t1),
{
    law_checksum_of_a_block(false, s0, s1, b);
}

#[verifier::opaque]
spec fn sums(s0: u32, s1: u32, b: Seq<u8>) -> (u32, u32) {
    checksum(false, s0, s1, b)
}

proof fn lemma_first_block()
    ensures
        sums(0, 0, seq![0x37u8, 0x7f, 0x06, 0x82, 0x00, 0x2d, 0xe2, 0x18]) == (
            0x8206_7f37u32,
            0x9ae8_ac37u32,
        ),
{
    reveal(sums);
    let b = seq![0x37u8, 0x7f, 0x06, 0x82, 0x00, 0x2d, 0xe2, 0x18];
    lemma_block(0, 0, b, 0x8206_7f37, 0x18e2_2d00, 0x8206_7f37, 0x9ae8_ac37);
}

proof fn lemma_second_block()
    ensures
        sums(
            0x8206_7f37,
            0x9ae8_ac37,
            seq![0x00u8, 0x00, 0x10, 0x00, 0x00, 0x00, 0x00, 0x00],
        ) == (0x1cff_2b6eu32, 0xb7e7_d7a5u32),
{
    reveal(sums);
    let b = seq![0x00u8, 0x00, 0x10, 0x00, 0x00, 0x00, 0x00, 0x00];
    lemma_block(0x8206_7f37, 0x9ae8_ac37, b, 0x0010_0000, 0, 0x1cff_2b6e, 0xb7e7_d7a5);
}

proof fn lemma_third_block()
    ensures
        sums(
            0x1cff_2b6e,
            0xb7e7_d7a5,
            seq![0x00u8, 0x00, 0x00, 0x01, 0x00, 0x00, 0x00, 0x02],
        ) == (0xd5e7_0313u32, 0x8fce_dab8u32),
{
    reveal(sums);
    let b = seq![0x00u8, 0x00, 0x00, 0x01, 0x00, 0x00, 0x00, 0x02];
    lemma_block(
        0x1cff_2b6e,
        0xb7e7_d7a5,
        b,
        0x0100_0000,
        0x0200_0000,
        0xd5e7_0313,
        0x8fce_dab8,
    );
}

proof fn lemma_sums_continue(s0: u32, s1: u32, a: Seq<u8>, b: Seq<u8>)
    requires
        a.len() % 8 == 0,
    ensures
        sums(s0, s1, a + b) == sums(sums(s0, s1, a).0, sums(s0, s1, a).1, b),
{
    reveal(sums);
    law_checksum_continues(false, s0, s1, a, b);
}

proof fn lemma_sample_sums()
    ensures
        checksum(false, 0, 0, sample_header()) == (0xd5e7_0313u32, 0x8fce_dab8u32),
{
    let b1 = seq![0x37u8, 0x7f, 0x06, 0x82, 0x00, 0x2d, 0xe2, 0x18];
    let b2 = seq![0x00u8, 0x00, 0x10, 0x00, 0x00, 0x00, 0x00, 0x00];
    let b3 = seq![0x00u8, 0x00, 0x00, 0x01, 0x00, 0x00, 0x00, 0x02];
    lemma_first_block();
    lemma_second_block();
    lemma_third_block();
    lemma_sums_continue(0, 0, b1, b2);
    lemma_sums_continue(0, 0, b1 + b2, b3);
    assert(sums(0, 0, sample_header()) == (0xd5e7_0313u32, 0x8fce_dab8u32));
    reveal(sums);
}

/// A log has a header if it is at least 32 bytes long, starts with one of the
/// two magic numbers, and its first 24 bytes have the checksum that the next
/// eight bytes state; the version is looked at only then. The byte order of
/// the checksum is the one that the magic number tells; the fields are read
/// the most significant byte first in either case.
pub proof fn law_header_says_its_fields(c: Seq<u8>)
    ensures
        c.len() < 32 ==> header_of(c) == Err::<WalState, WalError>(WalError::EmptyWal),
        c.len() >= 32 ==> ({
            let magic = number(c, 0);
            let known = magic == 0x377f_0682 || magic == 0x377f_0683;
            let sums = checksum(magic == 0x377f_0683, 0, 0, c.take(24));
            let sound = sums.0 == number(c, 24) && sums.1 == number(c, 28);
            &&& !known ==> header_of(c) == Err::<WalState, WalError>(
                WalError::InvalidMagic(magic as u32),
            )
            &&& known && !sound ==> header_of(c) == Err::<WalState, WalError>(WalError::EmptyWal)
            &&& known && sound && number(c, 4) != 3_007_000 ==> header_of(c) == Err::<
                WalState,
                WalError,
            >(WalError::UnsupportedVersion(number(c, 4) as u32))
            &&& known && sound && number(c, 4) == 3_007_000 ==> header_of(c) == Ok::<
                WalState,
                WalError,
            >(
                WalState {
                    frame_n: 0,
                    big_endian: magic == 0x377f_0683,
                    page_size: number(c, 8) as u32,
                    seq: number(c, 12) as u32,
                    salt1: number(c, 16) as u32,
                    salt2: number(c, 20) as u32,
                    chksum1: number(c, 24) as u32,
                    chksum2: number(c, 28) as u32,
                },
            )
        }),
{
    reveal(header_of);
}

/// Where the `n`-th frame of a log starts, counted from zero.
pub open spec fn frame_place(page_size: u32, n: int) -> int {
    32 + (24 + page_size) * n
}

/// The next frame counts if the log holds it whole, its salts are the
/// reader's, and its checksum continues the chain: the sums over its page
/// number and commit size, and then over its page, from those of the frame
/// before. It says its page number and commit size, and the reader then stands
/// behind it, with its sums. Without verification the stored sums are taken
/// as they are.
pub proof fn law_frame_says_its_fields(c: Seq<u8>, st: WalState, verify: bool)
    ensures
        ({
            let o = frame_place(st.page_size, st.frame_n);
            let a = checksum(st.big_endian, st.chksum1, st.chksum2, c.subrange(o, o + 8));
            let b = checksum(
                st.big_endian,
                a.0,
                a.1,
                c.subrange(o + 24, o + 24 + st.page_size),
            );
            let counts = {
                &&& o + 24 + st.page_size <= c.len()
                &&& number(c, o + 8) == st.salt1
                &&& number(c, o + 12) == st.salt2
                &&& verify ==> b.0 == number(c, o + 16) && b.1 == number(c, o + 20)
            };
            let (f, t) = frame_step(c, st, verify);
            &&& f is Some <==> counts
            &&& counts ==> f->0.pgno == number(c, o) && f->0.commit == number(c, o + 4)
            &&& counts ==> t == (WalState {
                frame_n: st.frame_n + 1,
                chksum1: number(c, o + 16) as u32,
                chksum2: number(c, o + 20) as u32,
                ..st
            })
        }),
{
    reveal(frame_step);
}

/// Frames count as committed up to the last one that states a database size;
/// that one says how large the database is and where the committed part of
/// the log ends.
pub proof fn law_last_commit_frame_decides(seen: Seq<(Frame, u64)>, page_size: u32, k: int)
    requires
        0 <= k <= seen.len(),
        k > 0 ==> seen[k - 1].0.commit != 0,
        forall|j: int| k <= j < seen.len() ==> (#[trigger] seen[j]).0.commit == 0,
    ensures
        commit_len(seen) == k,
        k == 0 ==> final_commit(seen) == 0 && committed_end(seen, page_size) == 0,
        k > 0 ==> final_commit(seen) == seen[k - 1].0.commit && committed_end(seen, page_size)
            == seen[k - 1].1 + 24 + page_size,
    decreases seen.len(),
{
    if seen.len() > k {
        let t = seen.drop_last();
        assert(seen[seen.len() - 1].0.commit == 0);
        assert forall|j: int| k <= j < t.len() implies (#[trigger] t[j]).0.commit == 0 by {
            assert(t[j] == seen[j]);
        }
        law_last_commit_frame_decides(t, page_size, k);
    }
}

/// A scan sees the frames of the log one after the other, each with the place
/// where it starts, and stops before `end`, or before the first that does not
/// count. Each says what its bytes say and carries the reader's salts.
pub proof fn law_scan_sees_every_frame_that_counts(c: Seq<u8>, st: WalState, end: int)
    requires
        c.len() <= u64::MAX,
        st.frame_n >= 0,
    ensures
        ({
            let seen = scan(c, st, end).0;
            &&& forall|k: int|
                0 <= k < seen.len() ==> {
                    let o = frame_place(st.page_size, st.frame_n + k);
                    &&& (#[trigger] seen[k]).1 == o
                    &&& o < end
                    &&& o + 24 + st.page_size <= c.len()
                    &&& seen[k].0.pgno == number(c, o)
                    &&& seen[k].0.commit == number(c, o + 4)
                    &&& number(c, o + 8) == st.salt1
                    &&& number(c, o + 12) == st.salt2
                }
            &&& after_frames(c, st, seen.len()) is Some
            &&& frame_place(st.page_size, st.frame_n + seen.len()) >= end || frame_step(
                c,
                after_frames(c, st, seen.len())->0,
                true,
            ).0 is None
        }),
    decreases c.len() - frame_start(st),
{
    let seen = scan(c, st, end).0;
    if frame_start(st) < end && frame_step(c, st, true).0 is Some {
        lemma_frame_step(c, st, true);
        law_frame_says_its_fields(c, st, true);
        let t = frame_step(c, st, true).1;
        law_scan_sees_every_frame_that_counts(c, t, end);
        let rest = scan(c, t, end).0;
        lemma_after_one(c, st, rest.len());
        assert(frame_place(st.page_size, st.frame_n) >= 0) by (nonlinear_arith)
            requires
                st.frame_n >= 0,
                frame_place(st.page_size, st.frame_n) == 32 + (24 + st.page_size) * st.frame_n,
        ;
        assert forall|k: int| 0 <= k < seen.len() implies {
            let o = frame_place(st.page_size, st.frame_n + k);
            &&& (#[trigger] seen[k]).1 == o
            &&& o < end
            &&& o + 24 + st.page_size <= c.len()
            &&& seen[k].0.pgno == number(c, o)
            &&& seen[k].0.commit == number(c, o + 4)
            &&& number(c, o + 8) == st.salt1
            &&& number(c, o + 12) == st.salt2
        } by {
            if k > 0 {
                assert(seen[k] == rest[k - 1]);
            }
        }
        assert(seen =~= seq![seen[0]] + rest);
        assert(seen.len() == rest.len() + 1);
        assert(after_frames(c, st, seen.len()) == after_frames(c, t, rest.len()));
        assert(t.frame_n + rest.len() == st.frame_n + seen.len());
    } else {
        assert(seen =~= Seq::empty());
        assert(after_frames(c, st, 0) == Some(st));
        assert(seen.len() == 0);
    }
}

proof fn lemma_after_one(c: Seq<u8>, st: WalState, k: nat)
    requires
        frame_step(c, st, true).0 is Some,
    ensures
        after_frames(c, st, k + 1) == after_frames(c, frame_step(c, st, true).1, k),
    decreases k,
{
    if k > 0 {
        lemma_after_one(c, st, (k - 1) as nat);
    } else {
        reveal_with_fuel(after_frames, 2);
    }
}

/// Resuming demands an offset behind the header at which a frame starts, and
/// a whole frame with the expected salts right before it. The reader then
/// stands at the offset, expects those salts, and goes on from the checksum
/// that this frame states.
pub proof fn law_resuming_stands_at_the_offset(c: Seq<u8>, offset: u64, salt1: u32, salt2: u32)
    ensures
        offset <= 32 ==> resumed(c, offset, salt1, salt2) == Err::<WalState, WalError>(
            WalError::OffsetTooSmall(offset),
        ),
        offset > 32 && header_of(c) is Err ==> resumed(c, offset, salt1, salt2) == header_of(c),
        offset > 32 && header_of(c) is Ok ==> ({
            let h = header_of(c)->Ok_0;
            let size = 24 + h.page_size;
            let prev = offset - size;
            let r = resumed(c, offset, salt1, salt2);
            &&& (offset - 32) % size != 0 ==> r == Err::<WalState, WalError>(
                WalError::UnalignedOffset { offset, page_size: h.page_size },
            )
            &&& (offset - 32) % size == 0 ==> if offset <= c.len() && number(c, prev + 8) == salt1
                && number(c, prev + 12) == salt2 {
                r == Ok::<WalState, WalError>(
                    WalState {
                        frame_n: (offset - 32) / size,
                        salt1,
                        salt2,
                        chksum1: number(c, prev + 16) as u32,
                        chksum2: number(c, prev + 20) as u32,
                        ..h
                    },
                )
            } else {
                r == Err::<WalState, WalError>(WalError::PrevFrameMismatch)
            }
        }),
{
    reveal(resumed);
    if offset > 32 && header_of(c) is Ok {
        let h = header_of(c)->Ok_0;
        let size = 24 + h.page_size;
        let n = (offset - 32) / size;
        if (offset - 32) % size == 0 {
            assert((offset - 32) == size * n && size * (n - 1) == size * n - size)
                by (nonlinear_arith)
                requires
                    size > 0,
                    n == (offset - 32) / size,
                    (offset - 32) % size == 0,
            ;
            let before = WalState { frame_n: n - 1, salt1, salt2, ..h };
            law_frame_says_its_fields(c, before, false);
        }
    }
}

/// The salts that are collected are those of the frame headers in the log, up
/// to and with the first that equals the one looked for.
pub proof fn law_salts_are_those_of_the_frames(
    c: Seq<u8>,
    page_size: u32,
    n: int,
    until: (u32, u32),
    s: (u32, u32),
)
    requires
        n >= 0,
    ensures
        salts_from(c, page_size, frame_place(page_size, n), until).contains(s) <==> exists|k: int|
            #[trigger]
            header_bears(c, page_size, k, s) && n <= k && forall|j: int|
                n <= j < k ==> !#[trigger] header_bears(c, page_size, j, until),
    decreases c.len() - frame_place(page_size, n),
{
    let o = frame_place(page_size, n);
    let all = salts_from(c, page_size, o, until);
    assert forall|k: int| k >= n implies frame_place(page_size, k) >= o + (24 + page_size) * (k
        - n) by {
        assert((24 + page_size) * k == (24 + page_size) * n + (24 + page_size) * (k - n))
            by (nonlinear_arith);
    }
    assert forall|k: int| k > n implies frame_place(page_size, k) >= o + 24 + page_size by {
        assert((24 + page_size) * k >= (24 + page_size) * n + (24 + page_size))
            by (nonlinear_arith)
            requires
                k >= n + 1,
        ;
    }
    assert(frame_place(page_size, n + 1) == o + 24 + page_size) by (nonlinear_arith)
        requires
            frame_place(page_size, n + 1) == 32 + (24 + page_size) * (n + 1),
            o == 32 + (24 + page_size) * n,
    ;
    if o + 24 > c.len() {
        assert forall|k: int| k >= n implies !#[trigger] header_bears(c, page_size, k, s) by {
            if k > n {
                assert(frame_place(page_size, k) >= o + 24 + page_size);
            }
        }
        assert(all =~= Seq::empty());
    } else {
        let first = (crate::wal::be32(c, o + 8), crate::wal::be32(c, o + 12));
        assert(header_bears(c, page_size, n, first));
        if first == until || c.len() - o < 24 + page_size {
            assert(all =~= seq![first]);
            if s == first {
                assert(all[0] == s);
                assert(header_bears(c, page_size, n, s));
            }
            assert forall|k: int| #[trigger]
                header_bears(c, page_size, k, s) && n <= k && (forall|j: int|
                    n <= j < k ==> !#[trigger] header_bears(
                        c,
                        page_size,
                        j,
                        until,
                    )) implies s == first by {
                if k > n {
                    assert(frame_place(page_size, k) >= o + 24 + page_size);
                    assert(first == until);
                    assert(header_bears(c, page_size, n, until));
                }
            }
        } else {
            law_salts_are_those_of_the_frames(c, page_size, n + 1, until, s);
            let rest = salts_from(c, page_size, frame_place(page_size, n + 1), until);
            assert(all =~= seq![first] + rest);
            assert(all.contains(s) <==> s == first || rest.contains(s)) by {
                if rest.contains(s) {
                    let i = choose|i: int| 0 <= i < rest.len() && rest[i] == s;
                    assert(all[i + 1] == s);
                }
                if all.contains(s) {
                    let i = choose|i: int| 0 <= i < all.len() && all[i] == s;
                    if i > 0 {
                        assert(rest[i - 1] == s);
                    }
                }
                assert(all[0] == first);
            }
            assert(!header_bears(c, page_size, n, until));
            if s == first {
                assert(header_bears(c, page_size, n, s));
            }
            if rest.contains(s) {
                let k = choose|k: int| #[trigger]
                    header_bears(c, page_size, k, s) && n + 1 <= k && forall|j: int|
                        n + 1 <= j < k ==> !#[trigger] header_bears(c, page_size, j, until);
                assert forall|j: int| n <= j < k implies !#[trigger] header_bears(
                    c,
                    page_size,
                    j,
                    until,
                ) by {}
            }
        }
    }
}

/// Whether the log holds the header of frame `k`, and its salts are `s`.
pub open spec fn header_bears(c: Seq<u8>, page_size: u32, k: int, s: (u32, u32)) -> bool {
    let o = frame_place(page_size, k);
    o + 24 <= c.len() && number(c, o + 8) == s.0 && number(c, o + 12) == s.1
}

/// The checksum of a stretch of whole blocks and one block more is that of the
/// stretch, carried on over the block's two words; the first sum goes on with
/// the first word, the second with the second.
pub proof fn law_checksums_are_carried_on(
    big_endian: bool,
    s0: u32,
    s1: u32,
    a: &[u8],
    b: &[u8],
    c: &[u8],
    r: (u32, u32),
    t: (u32, u32),
)
    requires
        a@.len() % 8 == 0,
        b@.len() == 8,
        c@ == a@ + b@,
        call_ensures(wal_checksum, (big_endian, s0, s1, a), r),
        call_ensures(wal_checksum, (big_endian, s0, s1, c), t),
    ensures
        ({
            let w0 = if big_endian {
                number(b@, 0)
            } else {
                number_backwards(b@, 0)
            };
            let w1 = if big_endian {
                number(b@, 4)
            } else {
                number_backwards(b@, 4)
            };
            &&& t.0 == (r.0 + w0 + r.1) % 0x1_0000_0000
            &&& t.1 == (r.1 + w1 + t.0) % 0x1_0000_0000
        }),
{
    law_checksum_continues(big_endian, s0, s1, a@, b@);
    law_checksum_of_a_block(big_endian, r.0, r.1, b@);
}

/// The page map of a log says what its last commit frame says: how large the
/// database is and where the committed part ends. Each page in it is one of
/// the database, starts at a frame of its own before that end, and no later
/// committed frame holds it.
pub proof fn law_page_map_ends_with_the_commit(
    pm: PageMap,
    seen: Seq<(Frame, u64)>,
    page_size: u32,
    k: int,
    p: u32,
    i: int,
)
    requires
        maps_pages(pm, seen, page_size),
        0 < k <= seen.len(),
        seen[k - 1].0.commit != 0,
        forall|j: int| k <= j < seen.len() ==> (#[trigger] seen[j]).0.commit == 0,
        0 <= i < k,
        seen[i].0.pgno == p,
        forall|j: int| i < j < k ==> (#[trigger] seen[j]).0.pgno != p,
    ensures
        pm.commit == seen[k - 1].0.commit,
        pm.max_offset == seen[k - 1].1 + 24 + page_size,
        pm.pages@.contains_key(p) <==> p <= pm.commit,
        p <= pm.commit ==> pm.pages@[p] == seen[i].1,
{
    law_last_commit_frame_decides(seen, page_size, k);
    law_page_map_shows_committed_pages(seen, p);
    let done = seen.take(k);
    assert(done[i] == seen[i]);
    if pm.pages@.contains_key(p) {
        let q = choose|q: int|
            is_last_frame_of(done, p, q) && #[trigger] done[q].1 == pm.pages@[p];
        assert(done[q] == seen[q]);
        if q < i {
            assert(done[i].0.pgno != p);
        }
    }
}

/// A log that can be read opens exactly if its header is sound, and then with
/// the salts, the page size and the byte order that the header states.
pub proof fn law_log_opens_with_its_header<R: ReadAt>(r: R, res: Result<WalReader<R>, WalError>)
    requires
        r.reliable(),
        call_ensures(WalReader::<R>::new, (r,), res),
    ensures
        res is Ok <==> header_of(r.contents()) is Ok,
        res is Ok ==> res->Ok_0.state() == header_of(r.contents())->Ok_0,
        res is Err ==> header_of(r.contents()) == Err::<WalState, WalError>(res->Err_0),
{
}

/// The page map of a log that can be read always comes, and says what the
/// last commit frame says that the reader sees before the end.
pub proof fn law_page_map_comes_of_the_frames<R: ReadAt>(
    rd: &mut WalReader<R>,
    end: u64,
    res: Result<PageMap, WalError>,
    k: int,
)
    requires
        old(rd).wf(),
        old(rd).file().reliable(),
        call_ensures(WalReader::<R>::page_map_until, (rd, end), res),
        ({
            let seen = scan(old(rd).file().contents(), old(rd).state(), end as int).0;
            &&& 0 < k <= seen.len()
            &&& seen[k - 1].0.commit != 0
            &&& forall|j: int| k <= j < seen.len() ==> (#[trigger] seen[j]).0.commit == 0
        }),
    ensures
        ({
            let seen = scan(old(rd).file().contents(), old(rd).state(), end as int).0;
            &&& res is Ok
            &&& res->Ok_0.commit == seen[k - 1].0.commit
            &&& res->Ok_0.max_offset == seen[k - 1].1 + 24 + old(rd).state().page_size
            &&& forall|p: u32| #[trigger]
                res->Ok_0.pages@.contains_key(p) ==> p <= res->Ok_0.commit
        }),
{
    let seen = scan(old(rd).file().contents(), old(rd).state(), end as int).0;
    law_last_commit_frame_decides(seen, old(rd).state().page_size, k);
    assert forall|p: u32| #[trigger] res->Ok_0.pages@.contains_key(p) implies p
        <= res->Ok_0.commit by {
        law_page_map_shows_committed_pages(seen, p);
    }
}

/// A frame is read with its page: the bytes behind its header of 24 bytes,
/// where the frame lies among those of its size behind the log's header; and
/// the reader then stands at the next.
pub proof fn law_frame_is_read_with_its_page<R: ReadAt>(
    rd: &mut WalReader<R>,
    data: &mut [u8],
    res: Result<Option<Frame>, WalError>,
)
    requires
        old(rd).wf(),
        old(rd).file().reliable(),
        old(data)@.len() == old(rd).state().page_size,
        call_ensures(WalReader::<R>::read_frame, (rd, data), res),
    ensures
        ({
            let st = old(rd).state();
            let c = old(rd).file().contents();
            let o = frame_place(st.page_size, st.frame_n as int);
            &&& res is Ok
            &&& res->Ok_0 is Some ==> {
                &&& final(rd).state().frame_n == st.frame_n + 1
                &&& final(rd).state().page_size == st.page_size
                &&& final(data)@ == c.subrange(o + 24, o + 24 + st.page_size)
                &&& res->Ok_0->0.pgno == number(c, o)
                &&& res->Ok_0->0.commit == number(c, o + 4)
            }
        }),
{
    let st = old(rd).state();
    law_frame_says_its_fields(old(rd).file().contents(), st, true);
}

} // verus!
