//! Listings: one line of text per file, and files in order.
use crate::ltx;
use crate::ltx::{filename, filename_of, listed_before, listing_sorted, FileInfo, Txid};
use crate::text;
use crate::text::{decimal, parsed, pieces, words};
use vstd::prelude::*;

verus! {

/// Nanoseconds in a millisecond.
pub const NANOS_PER_MILLI: i128 = 1_000_000;

/// When a file was created, in whole milliseconds from the Unix epoch; nothing
/// for a time before it.
pub open spec fn created_millis(created_at: Option<i128>) -> Option<int> {
    match created_at {
        Some(t) if t >= 0 => Some(
            if t as int / NANOS_PER_MILLI as int <= u64::MAX {
                t as int / NANOS_PER_MILLI as int
            } else {
                u64::MAX as int
            },
        ),
        _ => None,
    }
}

/// The milliseconds, or a dash.
pub open spec fn created_text(created_at: Option<i128>) -> Seq<char> {
    match created_millis(created_at) {
        Some(ms) => decimal(ms),
        None => "-"@,
    }
}

/// A listing line: the file's name, size and creation time.
pub open spec fn listed_line(f: FileInfo) -> Seq<char> {
    filename(f.min_txid, f.max_txid) + " "@ + decimal(f.size as int) + " "@ + created_text(
        f.created_at,
    ) + "\n"@
}

/// When a file was created, from the word of a listing line: milliseconds, or
/// a dash if that is not known. Nothing for any other word.
pub open spec fn listed_time(word: Seq<char>) -> Option<Option<i128>> {
    if word == "-"@ {
        Some(None)
    } else {
        match parsed(word, 10, u64::MAX as int) {
            Some(ms) => Some(Some((ms * NANOS_PER_MILLI) as i128)),
            None => None,
        }
    }
}

/// What a listing line says of a file on `level`. A line is a file name, a
/// size and a creation time, and nothing else.
pub open spec fn listed_file(line: Seq<char>, level: u8) -> Option<FileInfo> {
    let w = words(line);
    if w.len() != 3 {
        None
    } else {
        match (filename_of(w[0]), parsed(w[1], 10, u64::MAX as int), listed_time(w[2])) {
            (Some((min_txid, max_txid)), Some(size), Some(created_at)) => Some(
                FileInfo { level, min_txid, max_txid, size: size as u64, created_at },
            ),
            _ => None,
        }
    }
}

/// One `{name} {size} {created_ms|-}` line: the listing format, also the body
/// of a successful push response.
pub fn listing_line(info: &FileInfo) -> (r: String)
    ensures
        r@ == listed_line(*info),
{
    let mut s = ltx::format_filename(info.min_txid, info.max_txid);
    s.append(" ");
    s.append(text::decimal_text(info.size).as_str());
    s.append(" ");
    match info.created_at {
        Some(t) => {
            if t >= 0 {
                let ms: i128 = t / NANOS_PER_MILLI;
                let ms: u64 = if ms <= u64::MAX as i128 {
                    ms as u64
                } else {
                    u64::MAX
                };
                s.append(text::decimal_text(ms).as_str());
            } else {
                s.append("-");
            }
        },
        None => {
            s.append("-");
        },
    }
    s.append("\n");
    s
}

/// Parses one `{name} {size} {created_ms|-}` line; nothing for anything
/// malformed.
pub fn parse_listing_line(line: &str, level: u8) -> (r: Option<FileInfo>)
    ensures
        r == listed_file(line@, level),
{
    let cs = text::chars_of(line);
    parse_line(&cs, level)
}

fn parse_line(cs: &[char], level: u8) -> (r: Option<FileInfo>)
    ensures
        r == listed_file(cs@, level),
{
    let w = text::split_words(cs);
    assert(text::views(w@).len() == w@.len());
    if w.len() != 3 {
        return None;
    }
    let name = text::string_of(w[0]);
    assert(text::views(w@)[0] == w@[0]@);
    assert(text::views(w@)[1] == w@[1]@);
    assert(text::views(w@)[2] == w@[2]@);
    let (min_txid, max_txid) = match ltx::parse_filename(name.as_str()) {
        Some(p) => p,
        None => return None,
    };
    let size = match text::parse_number(w[1], 10, u64::MAX) {
        Some(n) => n,
        None => return None,
    };
    let dash = text::chars_of("-");
    let created_at: Option<i128> = if text::same_chars(w[2], &dash) {
        None
    } else {
        match text::parse_number(w[2], 10, u64::MAX) {
            Some(ms) => Some(ms as i128 * NANOS_PER_MILLI),
            None => return None,
        }
    };
    Some(FileInfo { level, min_txid, max_txid, size, created_at })
}

/// `s`, which is in order, with `f` put behind everything that comes before
/// it or in its place.
pub open spec fn insert_sorted(s: Seq<FileInfo>, f: FileInfo) -> Seq<FileInfo>
    decreases s.len(),
{
    if s.len() == 0 || listed_before(s.last(), f) {
        s.push(f)
    } else {
        insert_sorted(s.drop_last(), f).push(s.last())
    }
}

/// The files in order: ascending by first, then last transaction; files that
/// agree in both keep their order.
pub open spec fn sorted(s: Seq<FileInfo>) -> Seq<FileInfo>
    decreases s.len(),
{
    if s.len() == 0 {
        Seq::empty()
    } else {
        insert_sorted(sorted(s.drop_last()), s.last())
    }
}

proof fn lemma_insert_sorted(s: Seq<FileInfo>, f: FileInfo)
    requires
        listing_sorted(s),
    ensures
        listing_sorted(insert_sorted(s, f)),
        insert_sorted(s, f).len() == s.len() + 1,
        insert_sorted(s, f).to_multiset() == s.to_multiset().insert(f),
        forall|i: int|
            0 <= i < insert_sorted(s, f).len() ==> #[trigger] insert_sorted(s, f)[i] == f
                || s.contains(insert_sorted(s, f)[i]),
    decreases s.len(),
{
    broadcast use vstd::seq_lib::group_to_multiset_ensures;

    let r = insert_sorted(s, f);
    if s.len() == 0 || listed_before(s.last(), f) {
        assert forall|i: int, j: int| 0 <= i < j < r.len() implies listed_before(
            #[trigger] r[i],
            #[trigger] r[j],
        ) by {
            if j == s.len() {
                if i < s.len() - 1 {
                    assert(listed_before(s[i], s[s.len() - 1]));
                }
            } else {
                assert(listed_before(s[i], s[j]));
            }
        }
        assert forall|i: int| 0 <= i < r.len() implies #[trigger] r[i] == f || s.contains(r[i]) by {
            if i < s.len() {
                assert(s[i] == r[i]);
            }
        }
    } else {
        let t = s.drop_last();
        let l = s.last();
        assert(listing_sorted(t)) by {
            assert forall|i: int, j: int| 0 <= i < j < t.len() implies listed_before(
                #[trigger] t[i],
                #[trigger] t[j],
            ) by {
                assert(listed_before(s[i], s[j]));
            }
        }
        lemma_insert_sorted(t, f);
        let q = insert_sorted(t, f);
        assert(s =~= t.push(l));
        assert(q.push(l).to_multiset() =~= s.to_multiset().insert(f));
        assert forall|i: int, j: int| 0 <= i < j < r.len() implies listed_before(
            #[trigger] r[i],
            #[trigger] r[j],
        ) by {
            if j == q.len() {
                if q[i] != f {
                    let k = choose|k: int| 0 <= k < t.len() && t[k] == q[i];
                    assert(listed_before(s[k], s[s.len() - 1]));
                }
            } else {
                assert(listed_before(q[i], q[j]));
            }
        }
        assert forall|i: int| 0 <= i < r.len() implies #[trigger] r[i] == f || s.contains(r[i]) by {
            if i < q.len() {
                assert(q[i] == r[i]);
                if q[i] != f {
                    let k = choose|k: int| 0 <= k < t.len() && t[k] == q[i];
                    assert(s[k] == r[i]);
                }
            } else {
                assert(s[s.len() - 1] == r[i]);
            }
        }
    }
}

/// Putting files in order loses none, invents none, and puts them in order.
pub proof fn law_sorting_keeps_every_file(s: Seq<FileInfo>)
    ensures
        listing_sorted(sorted(s)),
        sorted(s).to_multiset() == s.to_multiset(),
        sorted(s).len() == s.len(),
    decreases s.len(),
{
    broadcast use vstd::seq_lib::group_to_multiset_ensures;

    if s.len() > 0 {
        law_sorting_keeps_every_file(s.drop_last());
        lemma_insert_sorted(sorted(s.drop_last()), s.last());
        assert(s =~= s.drop_last().push(s.last()));
    } else {
        assert(sorted(s) =~= s);
    }
}

proof fn lemma_insert_at(s: Seq<FileInfo>, f: FileInfo, k: int)
    requires
        0 <= k <= s.len(),
        k > 0 ==> listed_before(s[k - 1], f),
        forall|i: int| k <= i < s.len() ==> !listed_before(#[trigger] s[i], f),
    ensures
        insert_sorted(s, f) == s.insert(k, f),
    decreases s.len(),
{
    if k < s.len() {
        assert(!listed_before(s[s.len() - 1], f));
        let t = s.drop_last();
        assert forall|i: int| k <= i < t.len() implies !listed_before(#[trigger] t[i], f) by {
            assert(t[i] == s[i]);
        }
        lemma_insert_at(t, f, k);
        assert(s.insert(k, f) =~= t.insert(k, f).push(s.last()));
    } else {
        assert(s.insert(k, f) =~= s.push(f));
    }
}

/// Puts files in order.
pub fn sort_listing(files: Vec<FileInfo>) -> (r: Vec<FileInfo>)
    ensures
        r@ == sorted(files@),
{
    let mut out: Vec<FileInfo> = Vec::new();
    let mut i: usize = 0;
    assert(files@.take(0) =~= Seq::<FileInfo>::empty());
    while i < files.len()
        invariant
            i <= files@.len(),
            out@ == sorted(files@.take(i as int)),
        decreases files@.len() - i,
    {
        let f = files[i];
        let mut k: usize = out.len();
        while k > 0 && !comes_before(&out[k - 1], &f)
            invariant
                k <= out@.len(),
                forall|j: int| k <= j < out@.len() ==> !listed_before(#[trigger] out@[j], f),
            decreases k,
        {
            k -= 1;
        }
        proof {
            lemma_insert_at(out@, f, k as int);
            assert(files@.take(i + 1).drop_last() =~= files@.take(i as int));
        }
        out.insert(k, f);
        i += 1;
    }
    assert(files@.take(i as int) =~= files@);
    out
}

fn comes_before(a: &FileInfo, b: &FileInfo) -> (r: bool)
    ensures
        r == listed_before(*a, *b),
{
    a.min_txid.0 < b.min_txid.0 || (a.min_txid.0 == b.min_txid.0 && a.max_txid.0 <= b.max_txid.0)
}

/// The files that the lines of a listing state; malformed lines say nothing.
pub open spec fn listed_files(lines: Seq<Seq<char>>, level: u8) -> Seq<FileInfo>
    decreases lines.len(),
{
    if lines.len() == 0 {
        Seq::empty()
    } else {
        let before = listed_files(lines.drop_last(), level);
        match listed_file(lines.last(), level) {
            Some(f) => before.push(f),
            None => before,
        }
    }
}

/// The files of a listing body, in order.
pub fn parse_listing(body: &str, level: u8) -> (r: Vec<FileInfo>)
    ensures
        r@ == sorted(listed_files(pieces(body@, '\n'), level)),
{
    let cs = text::chars_of(body);
    let lines = text::split_all(&cs, '\n');
    let ghost all = text::views(lines@);
    let mut infos: Vec<FileInfo> = Vec::new();
    let mut i: usize = 0;
    assert(all.take(0) =~= Seq::<Seq<char>>::empty());
    while i < lines.len()
        invariant
            all == text::views(lines@),
            i <= lines@.len(),
            infos@ == listed_files(all.take(i as int), level),
        decreases lines@.len() - i,
    {
        assert(all[i as int] == lines@[i as int]@);
        assert(all.take(i + 1).drop_last() =~= all.take(i as int));
        if let Some(f) = parse_line(lines[i], level) {
            infos.push(f);
        }
        i += 1;
    }
    assert(all.take(i as int) =~= all);
    sort_listing(infos)
}

/// A listing of the given files: one line each.
pub open spec fn listing_text(files: Seq<FileInfo>) -> Seq<char>
    decreases files.len(),
{
    if files.len() == 0 {
        Seq::empty()
    } else {
        listing_text(files.drop_last()) + listed_line(files.last())
    }
}

/// The text of a listing.
pub fn render_listing(files: &Vec<FileInfo>) -> (r: String)
    ensures
        r@ == listing_text(files@),
{
    let mut out = String::new();
    let mut i: usize = 0;
    assert(files@.take(0) =~= Seq::<FileInfo>::empty());
    while i < files.len()
        invariant
            i <= files@.len(),
            out@ == listing_text(files@.take(i as int)),
        decreases files@.len() - i,
    {
        assert(files@.take(i + 1).drop_last() =~= files@.take(i as int));
        out.append(listing_line(&files[i]).as_str());
        i += 1;
    }
    assert(files@.take(i as int) =~= files@);
    out
}

/// A file as a listing tells it: on the listed level, created at a whole
/// millisecond.
pub open spec fn as_listed(f: FileInfo, level: u8) -> FileInfo {
    FileInfo {
        level,
        created_at: match created_millis(f.created_at) {
            Some(ms) => Some((ms * NANOS_PER_MILLI) as i128),
            None => None,
        },
        ..f
    }
}

pub(crate) proof fn lemma_words_cons(a: Seq<char>, c: char, rest: Seq<char>)
    requires
        a.len() > 0,
        forall|i: int| 0 <= i < a.len() ==> !text::is_white(#[trigger] a[i]),
        text::is_white(c),
    ensures
        words(a + seq![c] + rest) == seq![a] + words(rest),
{
    let s = a + seq![c] + rest;
    assert(s[0] == a[0]);
    assert(!text::is_white(s[0]));
    assert(text::trim_front(s) == s);
    lemma_word_len_is(s, a.len() as int);
    assert(s.take(a.len() as int) =~= a);
    let t = s.skip(a.len() as int);
    assert(t =~= seq![c] + rest);
    assert(t[0] == c);
    assert(t.skip(1) =~= rest);
    assert(text::trim_front(t) == text::trim_front(rest));
    assert(words(t) == words(rest));
}

proof fn lemma_word_len_is(s: Seq<char>, k: int)
    requires
        0 <= k <= s.len(),
        forall|i: int| 0 <= i < k ==> !text::is_white(#[trigger] s[i]),
        k < s.len() ==> text::is_white(s[k]),
    ensures
        text::word_len(s) == k,
    decreases k,
{
    if k > 0 {
        let t = s.skip(1);
        assert(!text::is_white(s[0]));
        assert forall|i: int| 0 <= i < k - 1 implies !text::is_white(#[trigger] t[i]) by {
            assert(t[i] == s[i + 1]);
        }
        lemma_word_len_is(t, k - 1);
    }
}

pub(crate) proof fn lemma_digits_not_white(n: nat)
    ensures
        digits_clean(decimal(n as int)),
        decimal(n as int).len() > 0,
{
    text::law_digits_write_the_number(n, 10);
    let d = decimal(n as int);
    assert forall|i: int| 0 <= i < d.len() implies !text::is_white(#[trigger] d[i]) && d[i]
        != '\n' by {
        assert(text::digit_value(d[i]) < 10);
    }
}

pub(crate) open spec fn digits_clean(s: Seq<char>) -> bool {
    forall|i: int| 0 <= i < s.len() ==> !text::is_white(#[trigger] s[i]) && s[i] != '\n'
}

proof fn lemma_filename_clean(min: Txid, max: Txid)
    ensures
        digits_clean(filename(min, max)),
        filename(min, max).len() > 0,
{
    ltx::law_txid_text_reads_back(min);
    ltx::law_txid_text_reads_back(max);
    reveal_strlit("-");
    reveal_strlit(".ltx");
    let a = ltx::txid_text(min);
    let b = ltx::txid_text(max);
    let s = filename(min, max);
    assert forall|i: int| 0 <= i < s.len() implies !text::is_white(#[trigger] s[i]) && s[i]
        != '\n' by {
        if i < 16 {
            assert(s[i] == a[i] && text::digit_value(a[i]) < 16);
        } else if 17 <= i < 33 {
            assert(s[i] == b[i - 17] && text::digit_value(b[i - 17]) < 16);
        } else if i == 16 {
            assert(s[i] == '-');
        } else {
            assert(s[i] == ".ltx"@[i - 33]);
        }
    }
}

/// What stands in a listing line before its end.
spec fn line_body(f: FileInfo) -> Seq<char> {
    filename(f.min_txid, f.max_txid) + " "@ + decimal(f.size as int) + " "@ + created_text(
        f.created_at,
    )
}

proof fn lemma_created_clean(t: Option<i128>)
    ensures
        digits_clean(created_text(t)),
        created_text(t).len() > 0,
        match created_millis(t) {
            Some(ms) => 0 <= ms <= u64::MAX && parsed(created_text(t), 10, u64::MAX as int) == Some(
                ms,
            ),
            None => parsed(created_text(t), 10, u64::MAX as int) is None,
        },
{
    match created_millis(t) {
        Some(ms) => {
            lemma_digits_not_white(ms as nat);
            text::law_written_number_reads_back(ms as nat, 10, u64::MAX as int);
        },
        None => {
            reveal_strlit("-");
            let s = created_text(t);
            assert(s =~= seq!['-']);
            assert(text::digit_value(s[0]) == 16);
            assert(text::unsigned_part(s) == s);
        },
    }
}

proof fn lemma_created_reads_back(created_at: Option<i128>)
    ensures
        listed_time(created_text(created_at)) == Some(
            match created_millis(created_at) {
                Some(ms) => Some((ms * NANOS_PER_MILLI) as i128),
                None => None,
            },
        ),
{
    if let Some(ms) = created_millis(created_at) {
        text::law_digits_write_the_number(ms as nat, 10);
        text::law_written_number_reads_back(ms as nat, 10, u64::MAX as int);
        reveal_strlit("-");
        assert(decimal(ms)[0] != '-');
    }
}

/// A listing line reads back as the file, on the level that was asked for
/// and with the creation time cut to milliseconds; so does the line without
/// its end.
pub proof fn law_listing_line_reads_back(f: FileInfo, level: u8)
    ensures
        listed_file(listed_line(f), level) == Some(as_listed(f, level)),
        listed_file(listed_line(f).drop_last(), level) == Some(as_listed(f, level)),
{
    reveal_strlit(" ");
    reveal_strlit("\n");
    let name = filename(f.min_txid, f.max_txid);
    let size = decimal(f.size as int);
    let created = created_text(f.created_at);
    lemma_filename_clean(f.min_txid, f.max_txid);
    lemma_digits_not_white(f.size as nat);
    lemma_created_clean(f.created_at);
    ltx::law_filename_reads_back(f.min_txid, f.max_txid);
    text::law_written_number_reads_back(f.size as nat, 10, u64::MAX as int);
    lemma_created_reads_back(f.created_at);
    assert(text::is_white(' ') && text::is_white('\n'));
    let none = Seq::<char>::empty();
    // With its end.
    let tail = created + seq!['\n'] + none;
    lemma_words_cons(created, '\n', none);
    assert(words(none) =~= Seq::<Seq<char>>::empty());
    let middle = size + seq![' '] + tail;
    lemma_words_cons(size, ' ', tail);
    lemma_words_cons(name, ' ', middle);
    assert(listed_line(f) =~= name + seq![' '] + middle);
    assert(words(listed_line(f)) =~= seq![name, size, created]);
    // Without it.
    lemma_last_word(created);
    let short = size + seq![' '] + created;
    lemma_words_cons(size, ' ', created);
    lemma_words_cons(name, ' ', short);
    assert(listed_line(f).drop_last() =~= name + seq![' '] + short);
    assert(words(listed_line(f).drop_last()) =~= seq![name, size, created]);
}

pub(crate) proof fn lemma_last_word(a: Seq<char>)
    requires
        a.len() > 0,
        digits_clean(a),
    ensures
        words(a) == seq![a],
{
    assert(!text::is_white(a[0]));
    assert(text::trim_front(a) == a);
    lemma_word_len_is(a, a.len() as int);
    assert(a.take(a.len() as int) =~= a);
    let none = a.skip(a.len() as int);
    assert(none =~= Seq::<char>::empty());
    assert(words(none) =~= Seq::<Seq<char>>::empty());
    assert(words(a) =~= seq![a]);
}

proof fn lemma_pieces_append(s: Seq<char>, line: Seq<char>, c: char)
    requires
        forall|i: int| 0 <= i < line.len() ==> #[trigger] line[i] != c,
    ensures
        pieces(s, c).len() > 0,
        pieces(s + line + seq![c], c) == pieces(s, c).drop_last() + seq![
            pieces(s, c).last() + line,
            Seq::<char>::empty(),
        ],
    decreases s.len(),
{
    text::lemma_index_of(s, c);
    let i = text::index_of(s, c);
    let w = s + line + seq![c];
    if i < s.len() {
        let t = s.skip(i + 1);
        lemma_pieces_append(t, line, c);
        assert forall|k: int| 0 <= k < i implies w[k] != c by {
            assert(w[k] == s[k]);
        }
        assert(w[i] == s[i]);
        text::lemma_index_of_is(w, c, i);
        assert(w.take(i) =~= s.take(i));
        assert(w.skip(i + 1) =~= t + line + seq![c]);
        assert(pieces(w, c) =~= seq![s.take(i)] + pieces(t + line + seq![c], c));
        assert(pieces(s, c) =~= seq![s.take(i)] + pieces(t, c));
        assert(pieces(s, c).drop_last() =~= seq![s.take(i)] + pieces(t, c).drop_last());
        assert(pieces(w, c) =~= pieces(s, c).drop_last() + seq![
            pieces(s, c).last() + line,
            Seq::<char>::empty(),
        ]);
    } else {
        let n = (s.len() + line.len()) as int;
        assert forall|k: int| 0 <= k < n implies w[k] != c by {
            if k < s.len() {
                assert(w[k] == s[k]);
            } else {
                assert(w[k] == line[k - s.len()]);
            }
        }
        assert(w[n] == c);
        text::lemma_index_of_is(w, c, n);
        assert(w.take(n) =~= s + line);
        let e = w.skip(n + 1);
        assert(e =~= Seq::<char>::empty());
        assert(text::index_of(e, c) == 0);
        assert(pieces(e, c) =~= seq![e]);
        assert(pieces(s, c) =~= seq![s]);
        assert(pieces(w, c) =~= seq![s + line, Seq::<char>::empty()]);
    }
}

proof fn lemma_listed_files_push(lines: Seq<Seq<char>>, line: Seq<char>, level: u8)
    ensures
        listed_files(lines.push(line), level) == match listed_file(line, level) {
            Some(f) => listed_files(lines, level).push(f),
            None => listed_files(lines, level),
        },
{
    assert(lines.push(line).drop_last() =~= lines);
}

/// A listing reads back as the files it was made of, in the same order, each
/// as a listing tells it.
pub proof fn law_listing_reads_back(files: Seq<FileInfo>, level: u8)
    ensures
        listed_files(pieces(listing_text(files), '\n'), level) == files.map_values(
            |f: FileInfo| as_listed(f, level),
        ),
{
    lemma_listing_pieces(files, level);
}

/// A listing line is its body and a line end, and the body holds none.
proof fn lemma_line_body(f: FileInfo)
    ensures
        forall|i: int| 0 <= i < line_body(f).len() ==> #[trigger] line_body(f)[i] != '\n',
        listed_line(f) == line_body(f).push('\n'),
        listed_line(f).drop_last() == line_body(f),
{
    let body = line_body(f);
    reveal_strlit(" ");
    reveal_strlit("\n");
    lemma_filename_clean(f.min_txid, f.max_txid);
    lemma_digits_not_white(f.size as nat);
    lemma_created_clean(f.created_at);
    let name = filename(f.min_txid, f.max_txid);
    let size = decimal(f.size as int);
    let created = created_text(f.created_at);
    assert forall|i: int| 0 <= i < body.len() implies #[trigger] body[i] != '\n' by {
        let a = name.len() as int;
        let b = size.len() as int;
        if i < a {
            assert(body[i] == name[i]);
        } else if i == a {
            assert(body[i] == ' ');
        } else if i < a + 1 + b {
            assert(body[i] == size[i - a - 1]);
        } else if i == a + 1 + b {
            assert(body[i] == ' ');
        } else {
            assert(body[i] == created[i - a - b - 2]);
        }
    }
    assert(listed_line(f) =~= body.push('\n'));
    assert(listed_line(f).drop_last() =~= body);
}

/// The first piece of a listing line is the line without its end.
pub(crate) proof fn lemma_first_line(f: FileInfo)
    ensures
        pieces(listed_line(f), '\n')[0] == listed_line(f).drop_last(),
{
    lemma_line_body(f);
    let l = listed_line(f);
    let k = l.len() - 1;
    text::lemma_index_of_is(l, '\n', k);
    assert(l.take(k) =~= l.drop_last());
}

proof fn lemma_listing_pieces(files: Seq<FileInfo>, level: u8)
    ensures
        ({
            let p = pieces(listing_text(files), '\n');
            &&& p.len() > 0
            &&& p.last() == Seq::<char>::empty()
            &&& listed_files(p, level) == files.map_values(|f: FileInfo| as_listed(f, level))
            &&& listed_files(p.drop_last(), level) == listed_files(p, level)
        }),
    decreases files.len(),
{
    let p = pieces(listing_text(files), '\n');
    let none = Seq::<char>::empty();
    assert(words(none) =~= Seq::<Seq<char>>::empty());
    assert(listed_file(none, level) is None);
    if files.len() == 0 {
        assert(text::index_of(listing_text(files), '\n') == 0);
        assert(p =~= seq![none]);
        assert(p.drop_last() =~= Seq::<Seq<char>>::empty());
        assert(listed_files(p.drop_last(), level) =~= Seq::<FileInfo>::empty());
        assert(files.map_values(|f: FileInfo| as_listed(f, level)) =~= Seq::<FileInfo>::empty());
    } else {
        let before = files.drop_last();
        let f = files.last();
        lemma_listing_pieces(before, level);
        let q = pieces(listing_text(before), '\n');
        let body = line_body(f);
        lemma_line_body(f);
        law_listing_line_reads_back(f, level);
        lemma_pieces_append(listing_text(before), body, '\n');
        assert(listing_text(files) == listing_text(before) + listed_line(f));
        assert(listing_text(files) =~= listing_text(before) + body + seq!['\n']);
        assert(q.last() + body =~= body);
        assert(p =~= q.drop_last().push(body).push(none));
        assert(p.drop_last() =~= q.drop_last().push(body));
        lemma_listed_files_push(q.drop_last().push(body), none, level);
        lemma_listed_files_push(q.drop_last(), body, level);
        assert(files.map_values(|f: FileInfo| as_listed(f, level)) =~= before.map_values(
            |f: FileInfo| as_listed(f, level),
        ).push(as_listed(f, level)));
    }
}

} // verus!
