//! What the server sends on the live stream is what the client reads off it,
//! however often the connection times out meanwhile.
use crate::copy::frame_line;
use crate::feed::{preamble, txid_line};
use crate::io::{all_good, run_bytes, Fault, Script};
use crate::listing::{digits_clean, lemma_digits_not_white, lemma_last_word, lemma_words_cons};
use crate::ltx::{law_txid_text_reads_back, txid_text, FileInfo, Txid};
use crate::storage::StreamEvent;
use crate::stream::{
    fault_is_timeout, frame_of, frame_txid, preamble_line, stream_next, take_body, BodyTake,
    Failure, FrameLine, HttpStreamState, StreamPos,
};
use crate::text;
use crate::text::{decimal, digits, starts, words};
use crate::wire::{
    ascii_bytes, lemma_line_stop, line_step, line_stop, strip_cr, LineStep, MAX_LINE,
    PROTOCOL_VERSION,
};
use crate::wire_laws::{lemma_ascii_text, lemma_line_push, lemma_whole_line};
use vstd::prelude::*;
use vstd::utf8::encode_utf8;

verus! {

spec fn pow10(k: nat) -> nat
    decreases k,
{
    if k == 0 {
        1
    } else {
        10 * pow10((k - 1) as nat)
    }
}

proof fn lemma_decimal_len(n: nat, k: nat)
    requires
        k > 0,
        n < pow10(k),
    ensures
        digits(n, 10).len() <= k,
    decreases k,
{
    if n >= 10 {
        assert(k > 1) by {
            if k == 1 {
                assert(pow10(0) == 1);
            }
        }
        lemma_decimal_len(n / 10, (k - 1) as nat);
    }
}

proof fn lemma_u64_decimal_len(n: u64)
    ensures
        decimal(n as int).len() <= 20,
{
    assert(pow10(20) > u64::MAX) by {
        reveal_with_fuel(pow10, 21);
    }
    lemma_decimal_len(n as nat, 20);
}

/// Whether every character is printable ASCII or a space.
spec fn plain(s: Seq<char>) -> bool {
    forall|i: int| 0 <= i < s.len() ==> ' ' <= #[trigger] s[i] <= '~'
}

proof fn lemma_decimal_plain(n: nat)
    ensures
        plain(decimal(n as int)),
{
    text::law_digits_write_the_number(n, 10);
    let d = decimal(n as int);
    assert forall|i: int| 0 <= i < d.len() implies ' ' <= #[trigger] d[i] <= '~' by {
        assert(text::digit_value(d[i]) < 10);
    }
}

proof fn lemma_txid_plain(t: Txid)
    ensures
        plain(txid_text(t)),
        digits_clean(txid_text(t)),
        txid_text(t).len() == 16,
{
    law_txid_text_reads_back(t);
    let d = txid_text(t);
    assert forall|i: int| 0 <= i < d.len() implies ' ' <= #[trigger] d[i] <= '~'
        && !text::is_white(d[i]) && d[i] != '\n' by {
        assert(text::digit_value(d[i]) < 16);
    }
}

proof fn lemma_plain_concat(a: Seq<char>, b: Seq<char>)
    requires
        plain(a),
        plain(b),
    ensures
        plain(a + b),
{
    assert forall|i: int| 0 <= i < (a + b).len() implies ' ' <= #[trigger] (a + b)[i] <= '~' by {
        if i < a.len() {
            assert((a + b)[i] == a[i]);
        } else {
            assert((a + b)[i] == b[i - a.len()]);
        }
    }
}

/// A plain line that goes over the wire arrives as that line.
proof fn lemma_plain_line(line: Seq<char>, more: Seq<u8>)
    requires
        plain(line),
        line.len() <= MAX_LINE,
    ensures
        line_step(Seq::empty(), all_good(encode_utf8(line.push('\n')) + more)) == (LineStep {
            result: Ok(Some(line)),
            held: Seq::empty(),
            rest: all_good(more),
        }),
{
    let whole = line.push('\n');
    assert forall|i: int| 0 <= i < whole.len() implies 0 <= (#[trigger] whole[i]) as int && (
    whole[i] as int) < 128 by {
        if i < line.len() {
            assert(' ' <= line[i] <= '~');
        }
    }
    assert(vstd::utf8::is_ascii_chars(whole));
    vstd::utf8::is_ascii_chars_encode_utf8(whole);
    let b = ascii_bytes(line);
    assert(encode_utf8(whole) =~= b + seq![10u8]);
    assert forall|i: int| 0 <= i < line.len() implies 0 <= (#[trigger] line[i]) as int && (
    line[i] as int) < 128 by {}
    lemma_ascii_text(line);
    assert forall|i: int| 0 <= i < b.len() implies b[i] != 10 by {
        assert(' ' <= line[i] <= '~');
    }
    assert(b + seq![10u8] + more == encode_utf8(whole) + more);
    lemma_whole_line(b, more);
    assert(strip_cr(b) == b) by {
        if b.len() > 0 {
            assert(' ' <= line[line.len() - 1] <= '~');
        }
    }
}

/// The line that announces a file, without its end.
spec fn frame_body(f: FileInfo) -> Seq<char> {
    "ltx "@ + decimal(f.level as int) + " "@ + txid_text(f.min_txid) + " "@ + txid_text(f.max_txid)
        + " "@ + decimal(f.size as int)
}

/// A file as a stream frame tells it: without a creation time.
pub open spec fn as_streamed(f: FileInfo) -> FileInfo {
    FileInfo { created_at: None, ..f }
}

proof fn lemma_frame_body(f: FileInfo)
    ensures
        frame_line(f) == frame_body(f).push('\n'),
        plain(frame_body(f)),
        frame_body(f).len() <= MAX_LINE,
{
    reveal_strlit("ltx ");
    reveal_strlit(" ");
    reveal_strlit("\n");
    lemma_u64_decimal_len(f.level as u64);
    lemma_u64_decimal_len(f.size);
    lemma_txid_plain(f.min_txid);
    lemma_txid_plain(f.max_txid);
    lemma_decimal_plain(f.level as nat);
    lemma_decimal_plain(f.size as nat);
    assert(frame_line(f) =~= frame_body(f).push('\n'));
    let a = "ltx "@;
    let b = a + decimal(f.level as int);
    lemma_plain_concat(a, decimal(f.level as int));
    lemma_plain_concat(b, " "@);
    let c = b + " "@;
    lemma_plain_concat(c, txid_text(f.min_txid));
    let d = c + txid_text(f.min_txid);
    lemma_plain_concat(d, " "@);
    let e = d + " "@;
    lemma_plain_concat(e, txid_text(f.max_txid));
    let g = e + txid_text(f.max_txid);
    lemma_plain_concat(g, " "@);
    lemma_plain_concat(g + " "@, decimal(f.size as int));
}

/// The line that announces a file reads back as that file.
pub proof fn law_frame_line_reads_back(f: FileInfo)
    ensures
        frame_of(frame_line(f).drop_last()) == FrameLine::File(as_streamed(f)),
{
    lemma_frame_body(f);
    let line = frame_body(f);
    assert(frame_line(f).drop_last() =~= line);
    reveal_strlit("ltx ");
    reveal_strlit("ltx");
    reveal_strlit(" ");
    reveal_strlit("ping ");
    reveal_strlit("gap ");
    reveal_strlit("reset ");
    lemma_txid_plain(f.min_txid);
    lemma_txid_plain(f.max_txid);
    law_txid_text_reads_back(f.min_txid);
    law_txid_text_reads_back(f.max_txid);
    lemma_digits_not_white(f.level as nat);
    lemma_digits_not_white(f.size as nat);
    text::law_written_number_reads_back(f.level as nat, 10, u8::MAX as int);
    text::law_written_number_reads_back(f.size as nat, 10, u64::MAX as int);
    assert(text::is_white(' '));
    let ltx_word = "ltx"@;
    let level = decimal(f.level as int);
    let min = txid_text(f.min_txid);
    let max = txid_text(f.max_txid);
    let size = decimal(f.size as int);
    lemma_last_word(size);
    let r3 = max + seq![' '] + size;
    lemma_words_cons(max, ' ', size);
    let r2 = min + seq![' '] + r3;
    lemma_words_cons(min, ' ', r3);
    let r1 = level + seq![' '] + r2;
    lemma_words_cons(level, ' ', r2);
    assert(!text::is_white(ltx_word[0]) && !text::is_white(ltx_word[1]) && !text::is_white(
        ltx_word[2],
    ));
    lemma_words_cons(ltx_word, ' ', r1);
    assert(line =~= ltx_word + seq![' '] + r1);
    assert(words(line) =~= seq![ltx_word, level, min, max, size]);
    assert(line[0] == 'l');
    assert(!starts(line, "ping "@)) by {
        if starts(line, "ping "@) {
            assert(line.take(5)[0] == "ping "@[0]);
        }
    }
    assert(!starts(line, "gap "@)) by {
        if starts(line, "gap "@) {
            assert(line.take(4)[0] == "gap "@[0]);
        }
    }
    assert(!starts(line, "reset "@)) by {
        if starts(line, "reset "@) {
            assert(line.take(6)[0] == "reset "@[0]);
        }
    }
}

proof fn lemma_word_line(word: Seq<char>, t: Txid)
    ensures
        ({
            let line = txid_line(word, t).drop_last();
            &&& starts(line, word)
            &&& frame_txid(line, word) == Some(t)
            &&& line == word + txid_text(t)
        }),
{
    reveal_strlit("\n");
    let line = txid_line(word, t).drop_last();
    assert(line =~= word + txid_text(t));
    assert(line.take(word.len() as int) =~= word);
    assert(line.skip(word.len() as int) =~= txid_text(t));
    law_txid_text_reads_back(t);
    text::lemma_trim_line(txid_text(t));
}

/// Ping, gap and reset lines read back as the events they tell of.
pub proof fn law_event_lines_read_back(t: Txid)
    ensures
        frame_of(txid_line("ping "@, t).drop_last()) == FrameLine::Event(
            StreamEvent::Idle { bucket_max: Some(t) },
        ),
        frame_of(txid_line("gap "@, t).drop_last()) == FrameLine::Event(
            StreamEvent::Gap { next: t },
        ),
        frame_of(txid_line("reset "@, t).drop_last()) == FrameLine::Event(
            StreamEvent::Reset { bucket_max: t },
        ),
{
    lemma_word_line("ping "@, t);
    lemma_word_line("gap "@, t);
    lemma_word_line("reset "@, t);
    reveal_strlit("ping ");
    reveal_strlit("gap ");
    reveal_strlit("reset ");
    let gap = txid_line("gap "@, t).drop_last();
    let reset = txid_line("reset "@, t).drop_last();
    assert(gap[0] == 'g');
    assert(reset[0] == 'r');
    assert(!starts(gap, "ping "@)) by {
        if starts(gap, "ping "@) {
            assert(gap.take(5)[0] == "ping "@[0]);
        }
    }
    assert(!starts(reset, "ping "@)) by {
        if starts(reset, "ping "@) {
            assert(reset.take(5)[0] == "ping "@[0]);
        }
    }
    assert(!starts(reset, "gap "@)) by {
        if starts(reset, "gap "@) {
            assert(reset.take(4)[0] == "gap "@[0]);
        }
    }
}

proof fn lemma_take_whole(data: Seq<u8>, more: Seq<u8>)
    ensures
        take_body(all_good(data + more), data.len() as int) == BodyTake::Whole(
            data,
            all_good(more),
        ),
    decreases data.len(),
{
    let s = all_good(data + more);
    if data.len() == 0 {
        assert(data + more =~= more);
        assert(data =~= Seq::<u8>::empty());
    } else {
        let d = data.skip(1);
        lemma_take_whole(d, more);
        assert(s.skip(1) =~= all_good(d + more));
        assert(s[0] == Ok::<u8, Fault>(data[0]));
        assert(seq![data[0]] + d =~= data);
    }
}

/// A file that the server sends arrives whole: the client reads the event for
/// that file, its sink gets exactly the file's bytes, and it stands before
/// whatever is sent next.
pub proof fn law_sent_file_arrives_whole(f: FileInfo, data: Seq<u8>, more: Seq<u8>)
    requires
        data.len() == f.size,
    ensures
        ({
            let step = stream_next(
                StreamPos {
                    state: HttpStreamState::Frame,
                    held: Seq::empty(),
                    rest: all_good(encode_utf8(frame_line(f)) + data + more),
                },
            );
            &&& step.result == Ok::<StreamEvent, Failure>(StreamEvent::Ltx(as_streamed(f)))
            &&& step.data == data
            &&& step.pos == (StreamPos {
                state: HttpStreamState::Frame,
                held: Seq::empty(),
                rest: all_good(more),
            })
        }),
{
    lemma_frame_body(f);
    law_frame_line_reads_back(f);
    let line = frame_body(f);
    assert(frame_line(f).drop_last() =~= line);
    let tail = data + more;
    lemma_plain_line(line, tail);
    assert(encode_utf8(frame_line(f)) + data + more =~= encode_utf8(line.push('\n')) + tail);
    lemma_take_whole(data, more);
}

/// The preamble that the server sends is the one that the client expects.
pub proof fn law_preamble_is_expected(more: Seq<u8>)
    ensures
        stream_next(
            StreamPos {
                state: HttpStreamState::Preamble,
                held: Seq::empty(),
                rest: all_good(encode_utf8(preamble()) + more),
            },
        ) == stream_next(
            StreamPos {
                state: HttpStreamState::Frame,
                held: Seq::empty(),
                rest: all_good(more),
            },
        ),
{
    reveal_strlit("liters-stream ");
    reveal_strlit("1");
    reveal_strlit("\n");
    let line = preamble_line();
    assert(PROTOCOL_VERSION@ =~= seq!['1']);
    assert(line =~= "liters-stream "@.push('1'));
    assert(preamble() =~= line.push('\n'));
    assert forall|i: int| 0 <= i < line.len() implies ' ' <= #[trigger] line[i] <= '~' by {
        if i < 14 {
            assert(line[i] == "liters-stream "@[i]);
        }
    }
    lemma_plain_line(line, more);
}

/// The script with its timeouts left out.
pub open spec fn calm(s: Script) -> Script
    decreases s.len(),
{
    if s.len() == 0 {
        s
    } else if s[0] is Err && fault_is_timeout(s[0]->Err_0) {
        calm(s.skip(1))
    } else {
        seq![s[0]] + calm(s.skip(1))
    }
}

/// The position with the timeouts left out of what its source has left.
pub open spec fn calm_pos(p: StreamPos) -> StreamPos {
    StreamPos { rest: calm(p.rest), ..p }
}

/// An idle tick: the source timed out between frames.
pub open spec fn is_tick(r: Result<StreamEvent, Failure>) -> bool {
    r == Ok::<StreamEvent, Failure>(StreamEvent::Idle { bucket_max: None })
}

/// Whether reading a line stops at a timeout.
pub open spec fn line_ticks(held: Seq<u8>, s: Script) -> bool {
    let j = line_stop(held.len() as int, s);
    j < s.len() && s[j] is Err && fault_is_timeout(s[j]->Err_0)
}

proof fn lemma_calm_first(s: Script)
    requires
        s.len() > 0,
        !(s[0] is Err && fault_is_timeout(s[0]->Err_0)),
    ensures
        calm(s).len() > 0,
        calm(s)[0] == s[0],
        calm(s).skip(1) == calm(s.skip(1)),
{
    assert(calm(s).skip(1) =~= calm(s.skip(1)));
}

proof fn lemma_line_calm(held: Seq<u8>, s: Script)
    ensures
        line_ticks(held, s) ==> line_step(
            line_step(held, s).held,
            calm(line_step(held, s).rest),
        ) == line_step(held, calm(s)) && line_step(held, s).result is Err && fault_is_timeout(
            line_step(held, s).result->Err_0,
        ),
        !line_ticks(held, s) ==> line_step(held, calm(s)) == (LineStep {
            rest: calm(line_step(held, s).rest),
            ..line_step(held, s)
        }) && !(line_step(held, s).result is Err && fault_is_timeout(
            line_step(held, s).result->Err_0,
        )),
    decreases s.len(),
{
    lemma_line_stop(held.len() as int, s);
    if s.len() == 0 {
        assert(s.skip(0) =~= s);
    } else if s[0] is Err {
        assert(held + run_bytes(s, 0) =~= held);
        if !fault_is_timeout(s[0]->Err_0) {
            lemma_calm_first(s);
            assert(run_bytes(s, 0) =~= run_bytes(calm(s), 0));
        }
    } else {
        lemma_calm_first(s);
        if s[0] == Ok::<u8, Fault>(10u8) || held.len() >= MAX_LINE {
            assert(run_bytes(s, 0) =~= run_bytes(calm(s), 0));
        } else {
            let b = s[0]->Ok_0;
            lemma_line_push(held, s);
            lemma_line_push(held, calm(s));
            lemma_line_calm(held.push(b), s.skip(1));
            let k = line_stop(held.len() + 1int, s.skip(1));
            lemma_line_stop(held.len() + 1int, s.skip(1));
            if k < s.skip(1).len() {
                assert(s.skip(1)[k] == s[k + 1]);
            }
        }
    }
}

proof fn lemma_body_calm(s: Script, n: int)
    ensures
        match take_body(s, n) {
            BodyTake::Whole(d, rest) => take_body(calm(s), n) == BodyTake::Whole(d, calm(rest))
                && d.len() == if n > 0 {
                n
            } else {
                0
            },
            t => take_body(calm(s), n) == t,
        },
    decreases s.len(),
{
    if n > 0 && s.len() > 0 {
        if s[0] is Err && fault_is_timeout(s[0]->Err_0) {
            lemma_body_calm(s.skip(1), n);
        } else {
            lemma_calm_first(s);
            lemma_body_calm(s.skip(1), n - 1);
        }
    }
}

proof fn lemma_frame_calm(p: StreamPos)
    requires
        p.state is Frame,
    ensures
        tick_loses_nothing(p),
{
    lemma_line_calm(p.held, p.rest);
    let st = line_step(p.held, p.rest);
    if let Ok(Some(line)) = st.result {
        if let FrameLine::File(info) = frame_of(line) {
            lemma_body_calm(st.rest, info.size as int);
        }
    }
}

/// Whether a call from `p` gives what it gives without timeouts, or an idle
/// tick that only puts that off.
pub open spec fn tick_loses_nothing(p: StreamPos) -> bool {
    let step = stream_next(p);
    let quiet = stream_next(calm_pos(p));
    if is_tick(step.result) {
        step.data == Seq::<u8>::empty() && stream_next(calm_pos(step.pos)) == quiet
    } else {
        &&& quiet.result == step.result
        &&& quiet.data == step.data
        &&& step.result is Ok ==> quiet.pos == calm_pos(step.pos)
    }
}

/// A timeout of the source loses no byte. Between frames it comes out as an
/// idle tick that leaves the next event as it was, in the middle of a line
/// too; within a frame's body it never comes out. Every file comes with all
/// of its bytes.
pub proof fn law_tick_loses_nothing(p: StreamPos)
    ensures
        tick_loses_nothing(p),
        p.state is Body ==> !is_tick(stream_next(p).result),
        stream_next(p).result matches Ok(StreamEvent::Ltx(info)) ==> stream_next(p).data.len()
            == match p.state {
            HttpStreamState::Body { remaining, .. } => remaining as nat,
            _ => info.size as nat,
        },
{
    lemma_line_calm(p.held, p.rest);
    let st = line_step(p.held, p.rest);
    match p.state {
        HttpStreamState::Body { info, remaining } => {
            lemma_body_calm(p.rest, remaining as int);
        },
        HttpStreamState::Frame => {
            lemma_frame_calm(p);
            lemma_file_size(p);
        },
        HttpStreamState::Preamble => {
            let q = StreamPos { state: HttpStreamState::Frame, held: st.held, rest: st.rest };
            lemma_frame_calm(q);
            lemma_file_size(q);
        },
    }
}

proof fn lemma_file_size(p: StreamPos)
    requires
        p.state is Frame,
    ensures
        stream_next(p).result matches Ok(StreamEvent::Ltx(info)) ==> stream_next(p).data.len()
            == info.size,
{
    let st = line_step(p.held, p.rest);
    if let Ok(Some(line)) = st.result {
        if let FrameLine::File(info) = frame_of(line) {
            lemma_body_calm(st.rest, info.size as int);
        }
    }
}

/// What up to `n` calls from `p` give, idle ticks left out: each event with
/// the bytes that went to the sink for it, up to a failure.
pub open spec fn events(p: StreamPos, n: nat) -> Seq<(StreamEvent, Seq<u8>)>
    decreases n,
{
    let step = stream_next(p);
    if n == 0 || step.result is Err {
        Seq::empty()
    } else if is_tick(step.result) {
        events(step.pos, (n - 1) as nat)
    } else {
        seq![(step.result->Ok_0, step.data)] + events(step.pos, (n - 1) as nat)
    }
}

/// How many of `n` calls from `p`, up to a failure, are no idle ticks.
pub open spec fn busy_calls(p: StreamPos, n: nat) -> nat
    decreases n,
{
    let step = stream_next(p);
    if n == 0 || step.result is Err {
        0
    } else if is_tick(step.result) {
        busy_calls(step.pos, (n - 1) as nat)
    } else {
        1 + busy_calls(step.pos, (n - 1) as nat)
    }
}

/// Over a whole stream, timeouts at any byte change nothing but the number of
/// calls: the events, and the bytes that come with them, are those of the same
/// stream without timeouts.
pub proof fn law_ticks_lose_nothing(p: StreamPos, n: nat)
    ensures
        events(p, n) == events(calm_pos(p), busy_calls(p, n)),
    decreases n,
{
    let step = stream_next(p);
    if n > 0 && step.result is Ok {
        law_tick_loses_nothing(p);
        let m = (n - 1) as nat;
        law_ticks_lose_nothing(step.pos, m);
        if is_tick(step.result) {
            assert(stream_next(calm_pos(step.pos)) == stream_next(calm_pos(p)));
        }
    }
}

} // verus!
