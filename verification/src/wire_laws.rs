//! What holds of lines and chunked bodies as a whole: a timeout loses
//! nothing, a chunked body reads back as it was written, and one that is cut
//! short never passes for a whole one.
use crate::io::{
    all_good, good_bytes, good_run, lemma_good_bytes_run, run_bytes, ErrorKind, Fault, Script,
};
use crate::text::{
    digit_value, digits, is_white, law_digits_write_the_number,
    law_written_number_reads_back, lemma_index_of_is, pow16, trimmed,
};
use crate::transport::chunk_run;
use crate::wire::{
    advance, ascii_bytes, chunk_bytes, chunk_size, chunked_read, crlf, final_chunk,
    lemma_line_stop, line_step, line_stop, line_text, strip_cr, Advance, ChunkPos, ChunkState,
    LineStep, MAX_LINE,
};
use vstd::prelude::*;
use vstd::utf8::{decode_utf8, encode_utf8, valid_utf8};

verus! {

/// The script with its faults left out.
pub open spec fn clean(s: Script) -> Script {
    all_good(good_bytes(s))
}

/// The position with the faults left out of what its source has left.
pub open spec fn clean_pos(p: ChunkPos) -> ChunkPos {
    ChunkPos { rest: clean(p.rest), ..p }
}

proof fn lemma_clean_first(s: Script)
    requires
        s.len() > 0,
    ensures
        s[0] is Ok ==> clean(s).len() > 0 && clean(s)[0] == s[0] && clean(s).skip(1) == clean(
            s.skip(1),
        ),
        s[0] is Err ==> clean(s) == clean(s.skip(1)),
{
    if s[0] is Ok {
        assert(clean(s).skip(1) =~= clean(s.skip(1)));
    }
}

pub(crate) proof fn lemma_line_push(held: Seq<u8>, s: Script)
    requires
        s.len() > 0,
        s[0] is Ok,
        s[0] != Ok::<u8, Fault>(10u8),
        held.len() < MAX_LINE,
    ensures
        line_step(held, s) == line_step(held.push(s[0]->Ok_0), s.skip(1)),
{
    let t = s.skip(1);
    let b = s[0]->Ok_0;
    let k = line_stop(held.len() + 1int, t);
    lemma_line_stop(held.len() + 1int, t);
    lemma_line_stop(held.len() as int, s);
    assert(line_stop(held.len() as int, s) == k + 1);
    assert(held + run_bytes(s, k + 1) =~= held.push(b) + run_bytes(t, k));
    assert(s.skip(k + 1) =~= t.skip(k));
    if k < t.len() {
        assert(s[k + 1] == t[k]);
        assert(s.skip(k + 2) =~= t.skip(k + 1));
    }
}

/// Whether reading a line stops at a fault of the source.
pub open spec fn line_interrupted(held: Seq<u8>, s: Script) -> bool {
    let j = line_stop(held.len() as int, s);
    j < s.len() && s[j] is Err
}

/// A fault while a line is read only delays it: reading on from the partial
/// line gives what reading without the fault gives. A line that meets no
/// fault reads the same whatever faults come later.
pub proof fn law_partial_line_survives_faults(held: Seq<u8>, s: Script)
    ensures
        line_interrupted(held, s) ==> line_step(
            line_step(held, s).held,
            clean(line_step(held, s).rest),
        ) == line_step(held, clean(s)),
        !line_interrupted(held, s) ==> line_step(held, clean(s)) == (LineStep {
            rest: clean(line_step(held, s).rest),
            ..line_step(held, s)
        }),
    decreases s.len(),
{
    lemma_line_stop(held.len() as int, s);
    if s.len() == 0 {
        assert(clean(s) =~= s);
        assert(s.skip(0) =~= s);
    } else {
        lemma_clean_first(s);
        if s[0] is Err {
            assert(held + run_bytes(s, 0) =~= held);
        } else if s[0] == Ok::<u8, Fault>(10u8) || held.len() >= MAX_LINE {
            assert(run_bytes(s, 0) =~= run_bytes(clean(s), 0));
        } else {
            let b = s[0]->Ok_0;
            lemma_line_push(held, s);
            lemma_line_push(held, clean(s));
            law_partial_line_survives_faults(held.push(b), s.skip(1));
            let k = line_stop(held.len() + 1int, s.skip(1));
            lemma_line_stop(held.len() + 1int, s.skip(1));
            if k < s.skip(1).len() {
                assert(s.skip(1)[k] == s[k + 1]);
            }
        }
    }
}

proof fn lemma_advance_shrinks(p: ChunkPos)
    ensures
        match advance(p) {
            Advance::Fail(_, q) => q.rest.len() <= p.rest.len(),
            Advance::Ready(n, q) => q.rest.len() <= p.rest.len() && q.state == ChunkState::Data(n),
            Advance::End(q) => q.rest.len() <= p.rest.len() && q.state == ChunkState::Eof,
        },
    decreases p.rest.len(),
{
    lemma_line_stop(p.held.len() as int, p.rest);
    let st = line_step(p.held, p.rest);
    let stay = ChunkPos { state: p.state, held: st.held, rest: st.rest };
    if st.result is Ok && st.result->Ok_0 is Some {
        match p.state {
            ChunkState::Size => lemma_advance_shrinks(
                ChunkPos { state: ChunkState::Trailer, ..stay },
            ),
            ChunkState::DataEnd => lemma_advance_shrinks(
                ChunkPos { state: ChunkState::Size, ..stay },
            ),
            ChunkState::Trailer => lemma_advance_shrinks(stay),
            _ => {},
        }
    }
}

/// The body that a reader at `p` hands out if its source yields no fault;
/// nothing if the framing is broken or the source ends early.
pub open spec fn body(p: ChunkPos) -> Option<Seq<u8>>
    decreases p.rest.len() via body_decreases
{
    match advance(p) {
        Advance::Fail(_, _) => None,
        Advance::End(_) => Some(Seq::empty()),
        Advance::Ready(left, at) => if 0 < left && good_run(at.rest, left as int) {
            match body(
                ChunkPos {
                    state: ChunkState::DataEnd,
                    held: at.held,
                    rest: at.rest.skip(left as int),
                },
            ) {
                Some(t) => Some(run_bytes(at.rest, left as int) + t),
                None => None,
            }
        } else {
            None
        },
    }
}

#[via_fn]
proof fn body_decreases(p: ChunkPos) {
    lemma_advance_shrinks(p);
}

/// The body that a reader at `p` hands out, faults aside.
pub open spec fn decoded(p: ChunkPos) -> Option<Seq<u8>> {
    body(clean_pos(p))
}

proof fn lemma_advance_clean(p: ChunkPos)
    ensures
        match advance(p) {
            Advance::Fail(_, q) => advance(clean_pos(p)) is Fail || advance(clean_pos(q))
                == advance(clean_pos(p)),
            Advance::Ready(n, q) => advance(clean_pos(p)) == Advance::Ready(n, clean_pos(q)),
            Advance::End(q) => advance(clean_pos(p)) == Advance::End(clean_pos(q)),
        },
    decreases p.rest.len(),
{
    law_partial_line_survives_faults(p.held, p.rest);
    lemma_line_stop(p.held.len() as int, p.rest);
    let st = line_step(p.held, p.rest);
    let stay = ChunkPos { state: p.state, held: st.held, rest: st.rest };
    if !line_interrupted(p.held, p.rest) && st.result is Ok && st.result->Ok_0 is Some {
        match p.state {
            ChunkState::Size => lemma_advance_clean(
                ChunkPos { state: ChunkState::Trailer, ..stay },
            ),
            ChunkState::DataEnd => lemma_advance_clean(
                ChunkPos { state: ChunkState::Size, ..stay },
            ),
            ChunkState::Trailer => lemma_advance_clean(stay),
            _ => {},
        }
    }
}

proof fn lemma_clean_run(s: Script, n: int)
    requires
        0 <= n,
        good_run(s, n),
    ensures
        n <= clean(s).len(),
        clean(s).skip(n) == clean(s.skip(n)),
        run_bytes(clean(s), n) == run_bytes(s, n),
{
    lemma_good_bytes_run(s, n);
    let g = good_bytes(s);
    assert(g.skip(n) =~= good_bytes(s.skip(n)));
    assert(clean(s).skip(n) =~= clean(s.skip(n)));
    assert forall|i: int| 0 <= i < n implies run_bytes(clean(s), n)[i] == run_bytes(s, n)[i] by {
        assert(g[i] == run_bytes(s, n)[i]);
    }
    assert(run_bytes(clean(s), n) =~= run_bytes(s, n));
}

/// Reading a well-formed chunked body never loses or invents a byte. A read
/// hands out the next bytes of the body and leaves the rest of it; an end
/// comes only at the end of the body; and an error, which can then only be
/// a fault of the source, leaves the whole of it to be read later.
pub proof fn law_chunked_reads_are_resumable(
    p: ChunkPos,
    room: int,
    r: Result<int, Fault>,
    data: Seq<u8>,
    q: ChunkPos,
)
    requires
        room >= 0,
        chunked_read(p, room, r, data, q),
        decoded(p) is Some,
    ensures
        match r {
            Ok(n) => {
                let t = decoded(p)->0;
                &&& 0 <= n <= t.len()
                &&& n > 0 ==> data == t.take(n)
                &&& n == 0 ==> room == 0 || t.len() == 0
                &&& decoded(q) == Some(t.skip(n))
            },
            Err(_) => decoded(q) == decoded(p),
        },
{
    let c = clean_pos(p);
    let t = decoded(p)->0;
    lemma_advance_clean(p);
    lemma_advance_shrinks(p);
    match advance(p) {
        Advance::Fail(_, at) => {
            assert(body(clean_pos(at)) == body(c));
        },
        Advance::End(at) => {
            assert(advance(clean_pos(at)) is End);
            assert(t =~= Seq::<u8>::empty());
            assert(t.skip(0) =~= Seq::<u8>::empty());
        },
        Advance::Ready(left, at) => {
            let ca = clean_pos(at);
            assert(advance(ca) == Advance::Ready(left, ca));
            assert(body(ca) == body(c));
            if room == 0 {
                assert(t.skip(0) =~= t);
            } else if at.rest.len() == 0 {
                assert(clean(at.rest) =~= Seq::empty());
                assert(false);
            } else if at.rest[0] is Err {
                lemma_clean_first(at.rest);
                assert(clean_pos(q) == ca);
            } else {
                let n = r->Ok_0;
                lemma_clean_run(at.rest, n);
                let cq = clean_pos(q);
                let whole = ca.rest;
                let tail = ChunkPos {
                    state: ChunkState::DataEnd,
                    held: at.held,
                    rest: whole.skip(left as int),
                };
                assert(t == run_bytes(whole, left as int) + body(tail)->0);
                assert(data =~= t.take(n)) by {
                    assert(run_bytes(whole, n) =~= run_bytes(whole, left as int).take(n));
                }
                if n == left {
                    assert(cq == tail);
                    assert(t.skip(n) =~= body(tail)->0);
                } else {
                    let k = (left - n) as u64;
                    assert(advance(cq) == Advance::Ready(k, cq));
                    assert(cq.rest.skip(k as int) =~= whole.skip(left as int));
                    assert forall|i: int| 0 <= i < k implies (#[trigger] cq.rest[i]) is Ok by {
                        assert(cq.rest[i] == whole[i + n]);
                    }
                    assert(run_bytes(cq.rest, k as int) =~= run_bytes(whole, left as int).skip(n));
                    assert(run_bytes(cq.rest, k as int) + body(tail)->0 =~= t.skip(n));
                }
            }
        },
    }
}

/// The chunks one after the other, and then the terminator.
pub open spec fn encoded(chunks: Seq<Seq<u8>>) -> Seq<u8>
    decreases chunks.len(),
{
    if chunks.len() == 0 {
        final_chunk()
    } else {
        chunk_bytes(chunks[0]) + encoded(chunks.skip(1))
    }
}

/// The chunks' data, one after the other.
pub open spec fn joined(chunks: Seq<Seq<u8>>) -> Seq<u8>
    decreases chunks.len(),
{
    if chunks.len() == 0 {
        Seq::empty()
    } else {
        chunks[0] + joined(chunks.skip(1))
    }
}

proof fn lemma_line_stop_is(held: int, s: Script, k: int)
    requires
        0 <= k < s.len(),
        0 <= held,
        held + k <= MAX_LINE,
        good_run(s, k),
        forall|i: int| 0 <= i < k ==> (#[trigger] s[i]) != Ok::<u8, Fault>(10u8),
        s[k] == Ok::<u8, Fault>(10u8),
    ensures
        line_stop(held, s) == k,
    decreases k,
{
    if k > 0 {
        let t = s.skip(1);
        assert(s[0] is Ok && s[0] != Ok::<u8, Fault>(10u8));
        assert forall|i: int| 0 <= i < k - 1 implies (#[trigger] t[i]) is Ok && t[i] != Ok::<
            u8,
            Fault,
        >(10u8) by {
            assert(t[i] == s[i + 1]);
        }
        lemma_line_stop_is(held + 1, t, k - 1);
    }
}

/// A line on the wire reads as that line and leaves what follows it.
pub(crate) proof fn lemma_whole_line(line: Seq<u8>, more: Seq<u8>)
    requires
        line.len() <= MAX_LINE,
        forall|i: int| 0 <= i < line.len() ==> line[i] != 10,
    ensures
        line_step(Seq::empty(), all_good(line + seq![10u8] + more)) == (LineStep {
            result: line_text(line),
            held: Seq::empty(),
            rest: all_good(more),
        }),
{
    let b = line + seq![10u8] + more;
    let s = all_good(b);
    let k = line.len() as int;
    assert(b[k] == 10);
    assert forall|i: int| 0 <= i < k implies (#[trigger] s[i]) != Ok::<u8, Fault>(10u8) by {
        assert(b[i] == line[i]);
    }
    lemma_line_stop_is(0, s, k);
    assert(Seq::<u8>::empty() + run_bytes(s, k) =~= line);
    assert(s.skip(k + 1) =~= all_good(more));
}

proof fn lemma_digits_len(n: nat, w: nat)
    requires
        w > 0,
        n < pow16(w),
    ensures
        digits(n, 16).len() <= w,
    decreases w,
{
    if n >= 16 {
        assert(w > 1) by {
            if w == 1 {
                assert(pow16(0) == 1);
            }
        }
        lemma_digits_len(n / 16, (w - 1) as nat);
    }
}

pub(crate) proof fn lemma_ascii_text(s: Seq<char>)
    requires
        forall|i: int| 0 <= i < s.len() ==> 0 <= (#[trigger] s[i]) as int && (s[i] as int) < 128,
    ensures
        valid_utf8(ascii_bytes(s)),
        decode_utf8(ascii_bytes(s)) == s,
{
    assert(vstd::utf8::is_ascii_chars(s));
    vstd::utf8::is_ascii_chars_encode_utf8(s);
    assert(ascii_bytes(s) =~= encode_utf8(s));
    vstd::utf8::encode_utf8_valid_utf8(s);
    vstd::utf8::encode_utf8_decode_utf8(s);
}

/// The digits of a chunk length read as that length.
proof fn lemma_chunk_size_line(n: nat)
    requires
        n <= u64::MAX,
    ensures
        ({
            let d = digits(n, 16);
            &&& 0 < d.len() <= 16
            &&& line_text(ascii_bytes(d) + seq![13u8]) == Ok::<Option<Seq<char>>, Fault>(Some(d))
            &&& chunk_size(d) == Some(n as int)
            &&& forall|i: int| 0 <= i < d.len() ==> ascii_bytes(d)[i] != 10
        }),
{
    let d = digits(n, 16);
    law_digits_write_the_number(n, 16);
    law_written_number_reads_back(n, 16, u64::MAX as int);
    assert(pow16(16) > u64::MAX) by {
        reveal_with_fuel(pow16, 17);
    }
    lemma_digits_len(n, 16);
    assert forall|i: int| 0 <= i < d.len() implies 0 <= (#[trigger] d[i]) as int && (d[i] as int) < 128 && d[i] != ';'
        && !is_white(d[i]) && d[i] as u8 != 10 by {
        assert(digit_value(d[i]) < 16);
    }
    lemma_ascii_text(d);
    let b = ascii_bytes(d);
    let l = b + seq![13u8];
    assert(strip_cr(l) =~= b);
    lemma_index_of_is(d, ';', d.len() as int);
    assert(d.take(d.len() as int) =~= d);
    assert(!is_white(d[0]) && !is_white(d.last()));
    assert(trimmed(d) == d);
}

proof fn lemma_clean_good(b: Seq<u8>)
    ensures
        clean(all_good(b)) == all_good(b),
{
    crate::io::lemma_all_good_bytes(b);
}

proof fn lemma_body_of_encoded(chunks: Seq<Seq<u8>>, more: Seq<u8>)
    requires
        forall|i: int| 0 <= i < chunks.len() ==> (#[trigger] chunks[i]).len() <= u64::MAX,
    ensures
        body(
            ChunkPos {
                state: ChunkState::Size,
                held: Seq::empty(),
                rest: all_good(encoded(chunks) + more),
            },
        ) == Some(joined(chunks)),
    decreases chunks.len(),
{
    let e = encoded(chunks) + more;
    let p = ChunkPos { state: ChunkState::Size, held: Seq::empty(), rest: all_good(e) };
    if chunks.len() == 0 {
        let d = digits(0, 16);
        lemma_chunk_size_line(0);
        assert(d =~= seq!['0']);
        let line = ascii_bytes(d) + seq![13u8];
        let rest = seq![13u8, 10u8] + more;
        assert(e =~= line + seq![10u8] + rest);
        lemma_whole_line(line, rest);
        let line2 = seq![13u8];
        assert(rest =~= line2 + seq![10u8] + more);
        lemma_whole_line(line2, more);
        assert(strip_cr(line2) =~= ascii_bytes(Seq::empty()));
        lemma_ascii_text(Seq::empty());
        let q = ChunkPos { state: ChunkState::Trailer, held: Seq::empty(), rest: all_good(rest) };
        assert(advance(q) is End);
        assert(advance(p) == advance(q));
    } else if chunks[0].len() == 0 {
        assert forall|i: int| 0 <= i < chunks.skip(1).len() implies (#[trigger] chunks.skip(
            1,
        )[i]).len() <= u64::MAX by {
            assert(chunks.skip(1)[i] == chunks[i + 1]);
        }
        lemma_body_of_encoded(chunks.skip(1), more);
        assert(encoded(chunks) =~= encoded(chunks.skip(1)));
        assert(joined(chunks) =~= joined(chunks.skip(1)));
    } else {
        assert forall|i: int| 0 <= i < chunks.skip(1).len() implies (#[trigger] chunks.skip(
            1,
        )[i]).len() <= u64::MAX by {
            assert(chunks.skip(1)[i] == chunks[i + 1]);
        }
        lemma_body_of_encoded(chunks.skip(1), more);
        let data = chunks[0];
        let n = data.len();
        assert(n <= u64::MAX);
        let d = digits(n, 16);
        lemma_chunk_size_line(n);
        let line = ascii_bytes(d) + seq![13u8];
        let next = encoded(chunks.skip(1)) + more;
        let tail = crlf() + next;
        let rest = data + tail;
        assert(e =~= line + seq![10u8] + rest);
        lemma_whole_line(line, rest);
        let at = ChunkPos {
            state: ChunkState::Data(n as u64),
            held: Seq::empty(),
            rest: all_good(rest),
        };
        assert(advance(p) == Advance::Ready(n as u64, at));
        assert(run_bytes(at.rest, n as int) =~= data);
        assert(at.rest.skip(n as int) =~= all_good(tail));
        let end = ChunkPos {
            state: ChunkState::DataEnd,
            held: Seq::empty(),
            rest: all_good(tail),
        };
        let line2 = seq![13u8];
        assert(tail =~= line2 + seq![10u8] + next);
        lemma_whole_line(line2, next);
        assert(strip_cr(line2) =~= ascii_bytes(Seq::empty()));
        lemma_ascii_text(Seq::empty());
        let again = ChunkPos { state: ChunkState::Size, held: Seq::empty(), rest: all_good(next) };
        assert(advance(end) == advance(again));
        assert(body(end) == body(again));
    }
}

/// A chunked body reads back as the data that was written, whatever the
/// chunks, and whatever follows the body on the wire.
pub proof fn law_chunked_round_trip(chunks: Seq<Seq<u8>>, more: Seq<u8>)
    requires
        forall|i: int| 0 <= i < chunks.len() ==> (#[trigger] chunks[i]).len() <= u64::MAX,
    ensures
        decoded(
            ChunkPos {
                state: ChunkState::Size,
                held: Seq::empty(),
                rest: all_good(encoded(chunks) + more),
            },
        ) == Some(joined(chunks)),
{
    lemma_body_of_encoded(chunks, more);
    lemma_clean_good(encoded(chunks) + more);
}

proof fn lemma_strip_cr_valid(b: Seq<u8>)
    requires
        valid_utf8(b),
    ensures
        valid_utf8(strip_cr(b)),
    decreases b.len(),
{
    if b.len() > 0 && b.last() == 13 {
        let n = vstd::utf8::length_of_first_scalar(b);
        let t = b.drop_last();
        if n < b.len() {
            let rest = vstd::utf8::pop_first_scalar(b);
            assert(rest.last() == b.last());
            lemma_strip_cr_valid(rest);
            assert(vstd::utf8::pop_first_scalar(t) =~= rest.drop_last());
        } else {
            assert(b[b.len() - 1] == b.last());
            assert(t.len() == 0);
        }
    }
}

proof fn lemma_cut_line(held: Seq<u8>, b: Seq<u8>)
    requires
        held.len() + b.len() <= MAX_LINE,
        forall|i: int| 0 <= i < b.len() ==> b[i] != 10,
    ensures
        line_stop(held.len() as int, all_good(b)) == b.len(),
        ({
            let step = line_step(held, all_good(b));
            &&& step.held == held + b
            &&& step.rest == Seq::<Result<u8, Fault>>::empty()
            &&& if held.len() + b.len() == 0 {
                step.result == Ok::<Option<Seq<char>>, Fault>(None)
            } else {
                step.result is Err && step.result->Err_0.kind == ErrorKind::UnexpectedEof
            }
        }),
{
    let s = all_good(b);
    lemma_line_stop(held.len() as int, s);
    let j = line_stop(held.len() as int, s);
    if j < s.len() {
        assert(s[j] == Ok::<u8, Fault>(b[j]));
    }
    assert(run_bytes(s, j) =~= b);
    assert(s.skip(j) =~= Seq::<Result<u8, Fault>>::empty());
}

/// A line that a fault interrupts is read on where it stopped: the first read
/// reports the fault, the next one gives the whole line without a carriage
/// return at its end, and what follows the line is left alone. If the source
/// ends there instead, that is a clean end only if nothing of a line was read.
pub proof fn law_interrupted_line_reads_on(p: Seq<u8>, q: Seq<u8>, e: Fault, more: Script)
    requires
        forall|i: int| 0 <= i < p.len() ==> p[i] != 10,
        forall|i: int| 0 <= i < q.len() ==> q[i] != 10,
        p.len() + q.len() <= MAX_LINE,
    ensures
        ({
            let after = all_good(q) + seq![Ok::<u8, Fault>(10u8)] + more;
            line_step(Seq::empty(), all_good(p) + seq![Err::<u8, Fault>(e)] + after) == (LineStep {
                result: Err(e),
                held: p,
                rest: after,
            })
        }),
        valid_utf8(p + q) ==> line_step(
            p,
            all_good(q) + seq![Ok::<u8, Fault>(10u8)] + more,
        ) == (LineStep {
            result: Ok(Some(decode_utf8(strip_cr(p + q)))),
            held: Seq::empty(),
            rest: more,
        }),
        ({
            let step = line_step(p, Seq::empty());
            if p.len() == 0 {
                step.result == Ok::<Option<Seq<char>>, Fault>(None)
            } else {
                step.result is Err && step.result->Err_0.kind == ErrorKind::UnexpectedEof
            }
        }),
{
    let after = all_good(q) + seq![Ok::<u8, Fault>(10u8)] + more;
    let s = all_good(p) + seq![Err::<u8, Fault>(e)] + after;
    let none = Seq::<u8>::empty();
    lemma_line_stop(0, s);
    let j = line_stop(0, s);
    assert(j == p.len()) by {
        if j < p.len() {
            assert(s[j] == Ok::<u8, Fault>(p[j]));
        } else if j > p.len() {
            assert(s[p.len() as int] is Err);
        }
    }
    assert(none + run_bytes(s, j) =~= p) by {
        assert forall|i: int| 0 <= i < j implies s[i] == Ok::<u8, Fault>(p[i]) by {}
    }
    assert(s.skip(j + 1) =~= after);
    lemma_line_stop(p.len() as int, after);
    let k = line_stop(p.len() as int, after);
    assert(k == q.len()) by {
        if k < q.len() {
            assert(after[k] == Ok::<u8, Fault>(q[k]));
        } else if k > q.len() {
            assert(after[q.len() as int] == Ok::<u8, Fault>(10u8));
        }
    }
    assert(run_bytes(after, k) =~= q) by {
        assert forall|i: int| 0 <= i < k implies after[i] == Ok::<u8, Fault>(q[i]) by {}
    }
    assert(after.skip(k + 1) =~= more);
    if valid_utf8(p + q) {
        lemma_strip_cr_valid(p + q);
    }
    lemma_cut_line(p, none);
    assert(all_good(none) =~= Seq::<Result<u8, Fault>>::empty());
}

/// The bytes that a reader at `p` hands out before it reports that its source,
/// which yields no fault, ended early; nothing if it comes to the end of the
/// body or to broken framing.
pub open spec fn runs_out(p: ChunkPos) -> Option<Seq<u8>>
    decreases p.rest.len() via runs_out_decreases
{
    match advance(p) {
        Advance::Fail(e, _) => if e.kind == ErrorKind::UnexpectedEof {
            Some(Seq::empty())
        } else {
            None
        },
        Advance::End(_) => None,
        Advance::Ready(left, at) => if left == 0 {
            None
        } else if good_run(at.rest, left as int) {
            match runs_out(
                ChunkPos {
                    state: ChunkState::DataEnd,
                    held: at.held,
                    rest: at.rest.skip(left as int),
                },
            ) {
                Some(t) => Some(run_bytes(at.rest, left as int) + t),
                None => None,
            }
        } else if good_run(at.rest, at.rest.len() as int) {
            Some(run_bytes(at.rest, at.rest.len() as int))
        } else {
            None
        },
    }
}

#[via_fn]
proof fn runs_out_decreases(p: ChunkPos) {
    lemma_advance_shrinks(p);
}

/// A reader whose source ends early never comes to a clean end: a read hands
/// out the next of the bytes that are there, and once they are used up it
/// fails with an unexpected end.
pub proof fn law_truncated_body_never_ends(
    p: ChunkPos,
    room: int,
    r: Result<int, Fault>,
    data: Seq<u8>,
    q: ChunkPos,
)
    requires
        room > 0,
        chunked_read(p, room, r, data, q),
        runs_out(p) is Some,
    ensures
        match r {
            Ok(n) => {
                let t = runs_out(p)->0;
                &&& 0 < n <= t.len()
                &&& data == t.take(n)
                &&& runs_out(q) == Some(t.skip(n))
            },
            Err(e) => e.kind == ErrorKind::UnexpectedEof && runs_out(p)->0.len() == 0,
        },
{
    let t = runs_out(p)->0;
    lemma_advance_shrinks(p);
    match advance(p) {
        Advance::Ready(left, at) => {
            assert(advance(at) == Advance::Ready(left, at));
            if at.rest.len() > 0 {
                assert(at.rest[0] is Ok);
                let n = r->Ok_0;
                let s = at.rest;
                if good_run(s, left as int) {
                    let tail = ChunkPos {
                        state: ChunkState::DataEnd,
                        held: at.held,
                        rest: s.skip(left as int),
                    };
                    assert(t == run_bytes(s, left as int) + runs_out(tail)->0);
                    assert(data =~= t.take(n));
                    if n == left {
                        assert(q == tail);
                        assert(t.skip(n) =~= runs_out(tail)->0);
                    } else {
                        let k = (left - n) as u64;
                        assert(advance(q) == Advance::Ready(k, q));
                        assert(q.rest.skip(k as int) =~= s.skip(left as int));
                        assert forall|i: int| 0 <= i < k implies (#[trigger] q.rest[i]) is Ok by {
                            assert(q.rest[i] == s[i + n]);
                        }
                        assert(run_bytes(q.rest, k as int) =~= run_bytes(s, left as int).skip(n));
                        assert(run_bytes(q.rest, k as int) + runs_out(tail)->0 =~= t.skip(n));
                    }
                } else {
                    assert(s.len() < left);
                    assert(n <= s.len());
                    assert(data =~= t.take(n));
                    let k = (left - n) as u64;
                    assert(advance(q) == Advance::Ready(k, q));
                    assert forall|i: int| 0 <= i < q.rest.len() implies (
                    #[trigger] q.rest[i]) is Ok by {
                        assert(q.rest[i] == s[i + n]);
                    }
                    assert(run_bytes(q.rest, q.rest.len() as int) =~= t.skip(n));
                }
            }
        },
        _ => {},
    }
}

/// A reader at the start of a body that is these bytes.
pub open spec fn body_start(b: Seq<u8>) -> ChunkPos {
    ChunkPos { state: ChunkState::Size, held: Seq::empty(), rest: all_good(b) }
}

proof fn lemma_end_of_chunk(next: Seq<u8>)
    ensures
        advance(
            ChunkPos {
                state: ChunkState::DataEnd,
                held: Seq::empty(),
                rest: all_good(seq![13u8, 10u8] + next),
            },
        ) == advance(body_start(next)),
{
    let line = seq![13u8];
    assert(seq![13u8, 10u8] + next =~= line + seq![10u8] + next);
    lemma_whole_line(line, next);
    assert(strip_cr(line) =~= ascii_bytes(Seq::empty()));
    lemma_ascii_text(Seq::empty());
}

/// A truncated body can never pass for a shorter file: any strict front part
/// of a chunked body ends in an unexpected end, after a front part of the
/// data.
#[verifier::rlimit(60)]
pub proof fn law_cut_body_is_noticed(chunks: Seq<Seq<u8>>, k: int)
    requires
        forall|i: int| 0 <= i < chunks.len() ==> (#[trigger] chunks[i]).len() <= u64::MAX,
        0 <= k < encoded(chunks).len(),
    ensures
        runs_out(body_start(encoded(chunks).take(k))) is Some,
        runs_out(body_start(encoded(chunks).take(k)))->0.is_prefix_of(joined(chunks)),
    decreases chunks.len(),
{
    let e = encoded(chunks);
    let cut = e.take(k);
    let p = body_start(cut);
    let none = Seq::<u8>::empty();
    if chunks.len() == 0 {
        let d = digits(0, 16);
        lemma_chunk_size_line(0);
        assert(d =~= seq!['0']);
        let line = ascii_bytes(d) + seq![13u8];
        assert(e =~= line + seq![10u8] + seq![13u8, 10u8]);
        if k <= 2 {
            lemma_cut_line(none, cut);
        } else {
            let rest = seq![13u8, 10u8].take(k - 3);
            assert(cut =~= line + seq![10u8] + rest);
            lemma_whole_line(line, rest);
            let q = ChunkPos { state: ChunkState::Trailer, held: none, rest: all_good(rest) };
            lemma_cut_line(none, rest);
            assert(advance(p) == advance(q));
        }
        assert(none.is_prefix_of(joined(chunks)));
    } else {
        let others = chunks.skip(1);
        assert forall|i: int| 0 <= i < others.len() implies (#[trigger] others[i]).len()
            <= u64::MAX by {
            assert(others[i] == chunks[i + 1]);
        }
        let data = chunks[0];
        let n = data.len() as int;
        if n == 0 {
            assert(encoded(chunks) =~= encoded(others));
            assert(joined(chunks) =~= joined(others));
            law_cut_body_is_noticed(others, k);
        } else {
            let d = digits(n as nat, 16);
            assert(n <= u64::MAX);
            lemma_chunk_size_line(n as nat);
            let line = ascii_bytes(d) + seq![13u8];
            let next = encoded(others);
            let tail = seq![13u8, 10u8] + next;
            let rest = data + tail;
            assert(e =~= line + seq![10u8] + rest);
            if k <= line.len() {
                assert(cut =~= line.take(k));
                lemma_cut_line(none, cut);
                assert(none.is_prefix_of(joined(chunks)));
            } else {
                let m = k - line.len() - 1;
                let got = rest.take(m);
                assert(cut =~= line + seq![10u8] + got);
                lemma_whole_line(line, got);
                let at = ChunkPos {
                    state: ChunkState::Data(n as u64),
                    held: none,
                    rest: all_good(got),
                };
                assert(advance(p) == Advance::Ready(n as u64, at));
                if m < n {
                    assert(run_bytes(at.rest, m) =~= data.take(m));
                    assert(joined(chunks).take(m) =~= data.take(m));
                } else {
                    assert(run_bytes(at.rest, n) =~= data);
                    let left = tail.take(m - n);
                    assert(at.rest.skip(n) =~= all_good(left));
                    let end = ChunkPos {
                        state: ChunkState::DataEnd,
                        held: none,
                        rest: all_good(left),
                    };
                    assert(runs_out(p) == match runs_out(end) {
                        Some(t) => Some(data + t),
                        None => None,
                    });
                    if m - n <= 1 {
                        lemma_cut_line(none, left);
                        assert(data + none =~= data);
                        assert(joined(chunks).take(n) =~= data);
                    } else {
                        let j = m - n - 2;
                        assert(left =~= seq![13u8, 10u8] + next.take(j));
                        lemma_end_of_chunk(next.take(j));
                        assert(runs_out(end) == runs_out(body_start(next.take(j))));
                        law_cut_body_is_noticed(others, j);
                        let t = runs_out(end)->0;
                        assert(joined(chunks).take((data + t).len() as int) =~= data + t) by {
                            assert(joined(others).take(t.len() as int) =~= t);
                        }
                    }
                }
            }
        }
    }
}

/// A body that was never finished ends in an unexpected end after all of its
/// data: leaving out the terminator is a signal that cannot be missed.
pub proof fn law_unfinished_body_is_noticed(chunks: Seq<Seq<u8>>)
    requires
        forall|i: int| 0 <= i < chunks.len() ==> (#[trigger] chunks[i]).len() <= u64::MAX,
    ensures
        runs_out(body_start(chunk_run(chunks))) == Some(joined(chunks)),
    decreases chunks.len(),
{
    let none = Seq::<u8>::empty();
    if chunks.len() == 0 {
        lemma_cut_line(none, none);
        assert(joined(chunks) =~= none);
        assert(chunk_run(chunks) =~= none);
    } else {
        let others = chunks.skip(1);
        assert forall|i: int| 0 <= i < others.len() implies (#[trigger] others[i]).len()
            <= u64::MAX by {
            assert(others[i] == chunks[i + 1]);
        }
        law_unfinished_body_is_noticed(others);
        let data = chunks[0];
        let n = data.len() as int;
        if n == 0 {
            assert(chunk_run(chunks) =~= chunk_run(others));
            assert(joined(chunks) =~= joined(others));
        } else {
            let d = digits(n as nat, 16);
            assert(n <= u64::MAX);
            lemma_chunk_size_line(n as nat);
            let line = ascii_bytes(d) + seq![13u8];
            let next = chunk_run(others);
            let tail = seq![13u8, 10u8] + next;
            let rest = data + tail;
            assert(chunk_run(chunks) =~= line + seq![10u8] + rest);
            lemma_whole_line(line, rest);
            let at = ChunkPos {
                state: ChunkState::Data(n as u64),
                held: none,
                rest: all_good(rest),
            };
            assert(advance(body_start(chunk_run(chunks))) == Advance::Ready(n as u64, at));
            assert(run_bytes(at.rest, n) =~= data);
            assert(at.rest.skip(n) =~= all_good(tail));
            lemma_end_of_chunk(next);
            let end = ChunkPos { state: ChunkState::DataEnd, held: none, rest: all_good(tail) };
            assert(runs_out(end) == runs_out(body_start(next)));
        }
    }
}

} // verus!
