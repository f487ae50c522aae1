//! Text helpers: characters, numbers and the small amount of splitting that
//! the file names and the wire protocol need. Text is modelled as a sequence
//! of characters.
use vstd::prelude::*;

verus! {

/// The characters of `s`, in order.
pub fn chars_of(s: &str) -> (r: Vec<char>)
    ensures
        r@ == s@,
{
    let mut out: Vec<char> = Vec::new();
    for c in it: s.chars()
        invariant
            it.seq() == s@,
            out@ == it.seq().take(it.index()),
    {
        out.push(c);
    }
    out
}

/// Appends one character with `String::push`, which puts it at the end.
#[verifier::external_body]
fn push_char(s: &mut String, c: char)
    ensures
        final(s)@ == old(s)@.push(c),
{
    s.push(c)
}

/// The string made of the characters `cs`.
pub fn string_of(cs: &[char]) -> (r: String)
    ensures
        r@ == cs@,
{
    let mut out = String::new();
    let mut i: usize = 0;
    while i < cs.len()
        invariant
            i <= cs@.len(),
            out@ == cs@.take(i as int),
        decreases cs@.len() - i,
    {
        push_char(&mut out, cs[i]);
        i += 1;
    }
    out
}

/// `s` in quotes, with what is hard to read escaped, as the `Debug` form of a
/// string shows it.
pub uninterp spec fn debug_quoted(s: Seq<char>) -> Seq<char>;

/// The `Debug` form of a string: `format!("{:?}", s)`, which depends on the
/// string alone. Which characters it escapes, and how, is left unsaid.
#[verifier::external_body]
pub(crate) fn quoted(s: &str) -> (r: String)
    ensures
        r@ == debug_quoted(s@),
{
    format!("{:?}", s)
}

/// Whether two character slices hold the same text.
pub fn same_chars(a: &[char], b: &[char]) -> (r: bool)
    ensures
        r == (a@ == b@),
{
    if a.len() != b.len() {
        return false;
    }
    let mut i: usize = 0;
    while i < a.len()
        invariant
            a@.len() == b@.len(),
            i <= a@.len(),
            forall|j: int| 0 <= j < i ==> a@[j] == b@[j],
        decreases a@.len() - i,
    {
        if a[i] != b[i] {
            return false;
        }
        i += 1;
    }
    assert(a@ =~= b@);
    true
}

/// Whether two strings hold the same text.
pub fn same_text(a: &str, b: &str) -> (r: bool)
    ensures
        r == (a@ == b@),
{
    let x = chars_of(a);
    let y = chars_of(b);
    same_chars(&x, &y)
}


// ---------------------------------------------------------------------------
// Numbers

/// The digit that stands for `d` (0 to 15), in lower case.
pub open spec fn digit_char(d: int) -> char {
    if d < 10 {
        (48 + d) as char
    } else {
        (87 + d) as char
    }
}

/// What the character `c` counts as a digit, up to base 16 and in either
/// case; 16 for a character that is no digit.
pub open spec fn digit_value(c: char) -> int {
    if '0' <= c <= '9' {
        c as int - 48
    } else if 'a' <= c <= 'f' {
        c as int - 87
    } else if 'A' <= c <= 'F' {
        c as int - 55
    } else {
        16
    }
}

/// Whether every character of `s` is a digit in base `radix`.
pub open spec fn all_digits(s: Seq<char>, radix: int) -> bool {
    forall|i: int| 0 <= i < s.len() ==> digit_value(#[trigger] s[i]) < radix
}

/// The number that the digits `s` write in base `radix`.
pub open spec fn number(s: Seq<char>, radix: int) -> int
    decreases s.len(),
{
    if s.len() == 0 {
        0
    } else {
        number(s.drop_last(), radix) * radix + digit_value(s.last())
    }
}

/// The digits of a written number: one leading plus sign does not count.
pub open spec fn unsigned_part(s: Seq<char>) -> Seq<char> {
    if s.len() > 0 && s[0] == '+' {
        s.skip(1)
    } else {
        s
    }
}

/// The number that `s` writes in base `radix` if it is one and is at most
/// `max`: an optional plus sign, then one digit or more.
pub open spec fn parsed(s: Seq<char>, radix: int, max: int) -> Option<int> {
    let d = unsigned_part(s);
    if d.len() > 0 && all_digits(d, radix) && number(d, radix) <= max {
        Some(number(d, radix))
    } else {
        None
    }
}

/// The digits of `n` in base `radix`, most significant first, without
/// leading zeros.
pub open spec fn digits(n: nat, radix: nat) -> Seq<char>
    decreases n via digits_decreases
{
    if n < radix || radix < 2 {
        seq![digit_char(n as int)]
    } else {
        digits(n / radix, radix).push(digit_char((n % radix) as int))
    }
}

#[via_fn]
proof fn digits_decreases(n: nat, radix: nat) {
    if n >= radix && radix >= 2 {
        assert(n / radix < n) by (nonlinear_arith)
            requires
                n >= radix,
                radix >= 2,
        ;
    }
}

/// `n` in decimal.
pub open spec fn decimal(n: int) -> Seq<char> {
    digits(n as nat, 10)
}

/// The lowest `width` hexadecimal digits of `n`, zero padded.
pub open spec fn hex_fixed(n: nat, width: nat) -> Seq<char>
    decreases width,
{
    if width == 0 {
        Seq::empty()
    } else {
        hex_fixed(n / 16, (width - 1) as nat).push(digit_char((n % 16) as int))
    }
}

/// 16 to the power `width`.
pub open spec fn pow16(width: nat) -> nat
    decreases width,
{
    if width == 0 {
        1
    } else {
        16 * pow16((width - 1) as nat)
    }
}

proof fn lemma_number_bounds(s: Seq<char>, radix: int)
    requires
        2 <= radix <= 16,
        all_digits(s, radix),
    ensures
        number(s, radix) >= 0,
        forall|k: int| 0 <= k <= s.len() ==> number(#[trigger] s.take(k), radix) <= number(s, radix),
    decreases s.len(),
{
    if s.len() > 0 {
        let t = s.drop_last();
        assert(all_digits(t, radix)) by {
            assert forall|i: int| 0 <= i < t.len() implies digit_value(#[trigger] t[i]) < radix by {
                assert(t[i] == s[i]);
            }
        }
        lemma_number_bounds(t, radix);
        assert(digit_value(s.last()) >= 0);
        assert(number(t, radix) * radix >= number(t, radix)) by (nonlinear_arith)
            requires
                number(t, radix) >= 0,
                radix >= 2,
        ;
        assert forall|k: int| 0 <= k <= s.len() implies number(#[trigger] s.take(k), radix)
            <= number(s, radix) by {
            if k < s.len() {
                assert(s.take(k) =~= t.take(k));
            } else {
                assert(s.take(k) =~= s);
            }
        }
    }
}

/// A number that was read is not negative and not too large.
pub proof fn lemma_parsed_range(s: Seq<char>, radix: int, max: int)
    requires
        2 <= radix <= 16,
    ensures
        parsed(s, radix, max) matches Some(n) ==> 0 <= n <= max,
{
    let d = unsigned_part(s);
    if all_digits(d, radix) {
        lemma_number_bounds(d, radix);
    }
}

/// The digits of a number write that number.
pub proof fn law_digits_write_the_number(n: nat, radix: nat)
    requires
        2 <= radix <= 16,
    ensures
        digits(n, radix).len() > 0,
        all_digits(digits(n, radix), radix as int),
        number(digits(n, radix), radix as int) == n,
        digits(n, radix)[0] != '+',
    decreases n,
{
    if n < radix {
        let s = digits(n, radix);
        assert(s.drop_last() =~= Seq::<char>::empty());
        assert(number(s.drop_last(), radix as int) == 0);
        assert(0 * radix == 0) by (nonlinear_arith);
    } else {
        let q = n / radix;
        assert(q < n) by (nonlinear_arith)
            requires
                q == n / radix,
                n >= radix,
                radix >= 2,
        ;
        law_digits_write_the_number(q, radix);
        let s = digits(n, radix);
        let d = digit_char((n % radix) as int);
        assert(n % radix < radix) by (nonlinear_arith)
            requires
                radix >= 2,
        ;
        assert(s == digits(q, radix).push(d));
        assert(s.drop_last() =~= digits(q, radix));
        assert(s.last() == d);
        assert(digit_value(d) == n % radix);
        assert((n / radix) * radix + n % radix == n) by (nonlinear_arith)
            requires
                radix >= 2,
        ;
        assert forall|i: int| 0 <= i < s.len() implies digit_value(#[trigger] s[i]) < radix by {
            if i < s.len() - 1 {
                assert(s[i] == digits(q, radix)[i]);
            }
        }
        assert(s[0] == digits(q, radix)[0]);
    }
}

/// A written number reads back as itself.
pub proof fn law_written_number_reads_back(n: nat, radix: nat, max: int)
    requires
        2 <= radix <= 16,
        n <= max,
    ensures
        parsed(digits(n, radix), radix as int, max) == Some(n as int),
{
    law_digits_write_the_number(n, radix);
}

/// Zero-padded hexadecimal of the right width writes the number.
pub proof fn law_hex_fixed_writes_the_number(n: nat, width: nat)
    requires
        n < pow16(width),
    ensures
        hex_fixed(n, width).len() == width,
        all_digits(hex_fixed(n, width), 16),
        number(hex_fixed(n, width), 16) == n,
    decreases width,
{
    if width > 0 {
        let w = (width - 1) as nat;
        law_hex_fixed_writes_the_number(n / 16, w);
        let s = hex_fixed(n, width);
        assert(s.drop_last() =~= hex_fixed(n / 16, w));
        assert forall|i: int| 0 <= i < s.len() implies digit_value(#[trigger] s[i]) < 16 by {
            if i < s.len() - 1 {
                assert(s[i] == hex_fixed(n / 16, w)[i]);
            }
        }
    }
}

/// What `c` counts as a digit; 16 for a character that is none.
pub fn digit_of(c: char) -> (d: u64)
    ensures
        d == digit_value(c),
{
    if '0' <= c && c <= '9' {
        c as u64 - 48
    } else if 'a' <= c && c <= 'f' {
        c as u64 - 87
    } else if 'A' <= c && c <= 'F' {
        c as u64 - 55
    } else {
        16
    }
}

/// The digit for `d`, in lower case.
pub fn digit_for(d: u64) -> (c: char)
    requires
        d < 16,
    ensures
        c == digit_char(d as int),
{
    if d < 10 {
        (48 + d as u8) as char
    } else {
        (87 + d as u8) as char
    }
}

/// Reads an unsigned number of at most `max` in base `radix`: an optional
/// plus sign, then one digit or more, nothing else.
pub fn parse_number(cs: &[char], radix: u64, max: u64) -> (r: Option<u64>)
    requires
        2 <= radix <= 16,
    ensures
        match r {
            Some(n) => parsed(cs@, radix as int, max as int) == Some(n as int),
            None => parsed(cs@, radix as int, max as int) is None,
        },
{
    let start: usize = if cs.len() > 0 && cs[0] == '+' {
        1
    } else {
        0
    };
    let ghost d = unsigned_part(cs@);
    assert(d =~= cs@.skip(start as int));
    if start == cs.len() {
        return None;
    }
    let mut n: u64 = 0;
    let mut i: usize = start;
    assert(d.take(0) =~= Seq::<char>::empty());
    while i < cs.len()
        invariant
            2 <= radix <= 16,
            start <= i <= cs@.len(),
            d == cs@.skip(start as int),
            d == unsigned_part(cs@),
            d.len() > 0,
            all_digits(d.take(i - start), radix as int),
            n == number(d.take(i - start), radix as int),
            n <= max,
        decreases cs@.len() - i,
    {
        let v = digit_of(cs[i]);
        let ghost before = d.take(i - start);
        let ghost after = d.take(i - start + 1);
        proof {
            assert(after.drop_last() =~= before);
            assert(after.last() == cs@[i as int]);
            assert(d[i - start] == cs@[i as int]);
        }
        if v >= radix {
            return None;
        }
        proof {
            assert forall|k: int| 0 <= k < after.len() implies digit_value(#[trigger] after[k])
                < radix by {
                if k < before.len() {
                    assert(after[k] == before[k]);
                }
            }
            assert(number(after, radix as int) == n * radix + v);
        }
        assert(n * radix <= 0xffff_ffff_ffff_ffff * 16) by (nonlinear_arith)
            requires
                n <= 0xffff_ffff_ffff_ffff,
                radix <= 16,
        ;
        let wide: u128 = n as u128 * radix as u128 + v as u128;
        if wide > max as u128 {
            proof {
                assert(wide == n * radix + v);
                if all_digits(d, radix as int) {
                    lemma_number_bounds(d, radix as int);
                    assert(number(after, radix as int) <= number(d, radix as int));
                }
            }
            return None;
        }
        n = wide as u64;
        i += 1;
    }
    assert(d.take(i - start) =~= d);
    Some(n)
}

/// `n` written in base `radix`.
pub fn write_number(n: u64, radix: u64) -> (r: Vec<char>)
    requires
        2 <= radix <= 16,
    ensures
        r@ == digits(n as nat, radix as nat),
    decreases n,
{
    if n < radix {
        let mut v: Vec<char> = Vec::new();
        v.push(digit_for(n));
        v
    } else {
        proof {
            assert(n / radix < n) by (nonlinear_arith)
                requires
                    n >= radix,
                    radix >= 2,
            ;
            assert(n % radix < radix) by (nonlinear_arith)
                requires
                    radix >= 2,
            ;
        }
        let mut v = write_number(n / radix, radix);
        v.push(digit_for(n % radix));
        v
    }
}

/// `n` in decimal.
pub fn decimal_text(n: u64) -> (r: String)
    ensures
        r@ == decimal(n as int),
{
    let v = write_number(n, 10);
    string_of(&v)
}

/// The lowest `width` hexadecimal digits of `n`.
pub fn hex_chars(n: u64, width: usize) -> (r: Vec<char>)
    ensures
        r@ == hex_fixed(n as nat, width as nat),
    decreases width,
{
    if width == 0 {
        let v: Vec<char> = Vec::new();
        v
    } else {
        let mut v = hex_chars(n / 16, width - 1);
        v.push(digit_for(n % 16));
        v
    }
}

/// `n` as `width` zero-padded hexadecimal digits.
pub fn hex_text(n: u64, width: usize) -> (r: String)
    ensures
        r@ == hex_fixed(n as nat, width as nat),
{
    let v = hex_chars(n, width);
    string_of(&v)
}

// ---------------------------------------------------------------------------
// Splitting and trimming

/// Where `c` first stands in `s`; the length of `s` if it does not.
pub open spec fn index_of(s: Seq<char>, c: char) -> int
    decreases s.len(),
{
    if s.len() == 0 || s[0] == c {
        0
    } else {
        1 + index_of(s.skip(1), c)
    }
}

/// The text before and after the first `c`.
pub open spec fn split_first(s: Seq<char>, c: char) -> Option<(Seq<char>, Seq<char>)> {
    let i = index_of(s, c);
    if i < s.len() {
        Some((s.take(i), s.skip(i + 1)))
    } else {
        None
    }
}

/// The pieces of `s` between the separators `c`.
pub open spec fn pieces(s: Seq<char>, c: char) -> Seq<Seq<char>>
    decreases s.len(),
{
    let i = index_of(s, c);
    if 0 <= i < s.len() {
        seq![s.take(i)] + pieces(s.skip(i + 1), c)
    } else {
        seq![s]
    }
}

/// White space: the characters with Unicode's White_Space property.
pub open spec fn is_white(c: char) -> bool {
    ||| 9 <= c as int <= 13
    ||| c as int == 0x20
    ||| c as int == 0x85
    ||| c as int == 0xa0
    ||| c as int == 0x1680
    ||| 0x2000 <= c as int <= 0x200a
    ||| c as int == 0x2028
    ||| c as int == 0x2029
    ||| c as int == 0x202f
    ||| c as int == 0x205f
    ||| c as int == 0x3000
}

/// `s` without the white space it starts with.
pub open spec fn trim_front(s: Seq<char>) -> Seq<char>
    decreases s.len(),
{
    if s.len() > 0 && is_white(s[0]) {
        trim_front(s.skip(1))
    } else {
        s
    }
}

/// `s` without the white space it ends with.
pub open spec fn trim_back(s: Seq<char>) -> Seq<char>
    decreases s.len(),
{
    if s.len() > 0 && is_white(s.last()) {
        trim_back(s.drop_last())
    } else {
        s
    }
}

/// `s` without the white space around it.
pub open spec fn trimmed(s: Seq<char>) -> Seq<char> {
    trim_back(trim_front(s))
}

/// How many characters `s` starts with that are no white space.
pub open spec fn word_len(s: Seq<char>) -> int
    decreases s.len(),
{
    if s.len() == 0 || is_white(s[0]) {
        0
    } else {
        1 + word_len(s.skip(1))
    }
}

/// The runs of characters in `s` that hold no white space.
pub open spec fn words(s: Seq<char>) -> Seq<Seq<char>>
    decreases s.len(),
    when s.len() >= 0 via words_decreases
{
    let t = trim_front(s);
    if t.len() == 0 {
        Seq::empty()
    } else {
        seq![t.take(word_len(t))] + words(t.skip(word_len(t)))
    }
}

#[via_fn]
proof fn words_decreases(s: Seq<char>) {
    lemma_trim_front(s);
    lemma_word_len(trim_front(s));
}

/// `c` in lower case, if it is an ASCII letter.
pub open spec fn lower_char(c: char) -> char {
    if 'A' <= c <= 'Z' {
        (c as int + 32) as char
    } else {
        c
    }
}

/// `s` with its ASCII letters in lower case.
pub open spec fn lower(s: Seq<char>) -> Seq<char> {
    s.map_values(|c: char| lower_char(c))
}

/// Whether `s` begins with `p`.
pub open spec fn starts(s: Seq<char>, p: Seq<char>) -> bool {
    p.len() <= s.len() && s.take(p.len() as int) == p
}

/// Whether `s` ends with `p`.
pub open spec fn ends(s: Seq<char>, p: Seq<char>) -> bool {
    p.len() <= s.len() && s.skip(s.len() - p.len()) == p
}

/// `s` without the run of `c` that it starts with.
pub open spec fn without_leading(s: Seq<char>, c: char) -> Seq<char>
    decreases s.len(),
{
    if s.len() > 0 && s[0] == c {
        without_leading(s.skip(1), c)
    } else {
        s
    }
}

/// `s` without the run of `c` that it ends with.
pub open spec fn without_trailing(s: Seq<char>, c: char) -> Seq<char>
    decreases s.len(),
{
    if s.len() > 0 && s.last() == c {
        without_trailing(s.drop_last(), c)
    } else {
        s
    }
}

pub proof fn lemma_index_of(s: Seq<char>, c: char)
    ensures
        0 <= index_of(s, c) <= s.len(),
        index_of(s, c) < s.len() ==> s[index_of(s, c)] == c,
        forall|i: int| 0 <= i < index_of(s, c) ==> s[i] != c,
    decreases s.len(),
{
    if s.len() > 0 && s[0] != c {
        lemma_index_of(s.skip(1), c);
        let k = index_of(s.skip(1), c);
        assert forall|i: int| 0 <= i < index_of(s, c) implies s[i] != c by {
            if i > 0 {
                assert(s[i] == s.skip(1)[i - 1]);
            }
        }
        if k < s.skip(1).len() {
            assert(s.skip(1)[k] == s[k + 1]);
        }
    }
}

/// The first index is the only one with nothing equal before it.
pub proof fn lemma_index_of_is(s: Seq<char>, c: char, k: int)
    requires
        0 <= k <= s.len(),
        forall|i: int| 0 <= i < k ==> s[i] != c,
        k < s.len() ==> s[k] == c,
    ensures
        index_of(s, c) == k,
{
    lemma_index_of(s, c);
    let i = index_of(s, c);
    if i < k {
        assert(s[i] != c);
    } else if k < i {
        assert(s[k] != c);
    }
}

proof fn lemma_trim_front(s: Seq<char>)
    ensures
        trim_front(s).len() <= s.len(),
        trim_front(s) == s.skip(s.len() - trim_front(s).len()),
        trim_front(s).len() > 0 ==> !is_white(trim_front(s)[0]),
        forall|i: int| 0 <= i < s.len() - trim_front(s).len() ==> is_white(#[trigger] s[i]),
    decreases s.len(),
{
    if s.len() > 0 && is_white(s[0]) {
        lemma_trim_front(s.skip(1));
        let t = trim_front(s);
        assert(s.skip(1).skip(s.len() - 1 - t.len()) =~= s.skip(s.len() - t.len()));
        assert forall|i: int| 0 <= i < s.len() - t.len() implies is_white(#[trigger] s[i]) by {
            if i > 0 {
                assert(is_white(s.skip(1)[i - 1]));
            }
        }
    } else {
        assert(s.skip(0) =~= s);
    }
}

proof fn lemma_word_len(s: Seq<char>)
    ensures
        0 <= word_len(s) <= s.len(),
        s.len() > 0 && !is_white(s[0]) ==> word_len(s) > 0,
        word_len(s) < s.len() ==> is_white(s[word_len(s)]),
        forall|i: int| 0 <= i < word_len(s) ==> !is_white(#[trigger] s[i]),
    decreases s.len(),
{
    if s.len() > 0 && !is_white(s[0]) {
        lemma_word_len(s.skip(1));
        let k = word_len(s.skip(1));
        if k < s.skip(1).len() {
            assert(s.skip(1)[k] == s[k + 1]);
        }
        assert forall|i: int| 0 <= i < word_len(s) implies !is_white(#[trigger] s[i]) by {
            if i > 0 {
                assert(!is_white(s.skip(1)[i - 1]));
            }
        }
    }
}

/// Hexadecimal digits followed by a line end trim to the digits.
pub proof fn lemma_trim_line(s: Seq<char>)
    requires
        s.len() > 0,
        all_digits(s, 16),
    ensures
        trimmed(s.push('\n')) == s,
        trimmed(s) == s,
{
    let t = s.push('\n');
    assert(digit_value(s[0]) < 16 && digit_value(s.last()) < 16);
    assert(!is_white(t[0]) && t[0] == s[0]);
    assert(trim_front(t) == t);
    assert(t.drop_last() =~= s);
    assert(trim_back(s) == s);
    assert(trim_back(t) == trim_back(t.drop_last()));
}

/// Whether `c` is white space.
pub fn is_white_char(c: char) -> (r: bool)
    ensures
        r == is_white(c),
{
    let n: u32 = c as u32;
    (9 <= n && n <= 13) || n == 0x20 || n == 0x85 || n == 0xa0 || n == 0x1680 || (0x2000 <= n && n
        <= 0x200a) || n == 0x2028 || n == 0x2029 || n == 0x202f || n == 0x205f || n == 0x3000
}

/// Where `c` first stands in `cs`; the length if it does not.
pub fn find(cs: &[char], c: char) -> (r: usize)
    ensures
        r == index_of(cs@, c),
        r <= cs@.len(),
{
    let mut i: usize = 0;
    while i < cs.len()
        invariant
            i <= cs@.len(),
            forall|j: int| 0 <= j < i ==> cs@[j] != c,
        decreases cs@.len() - i,
    {
        if cs[i] == c {
            proof {
                lemma_index_of_is(cs@, c, i as int);
            }
            return i;
        }
        i += 1;
    }
    proof {
        lemma_index_of_is(cs@, c, i as int);
    }
    i
}

/// The part of `cs` from `from` up to `to`.
pub fn part(cs: &[char], from: usize, to: usize) -> (r: &[char])
    requires
        from <= to <= cs@.len(),
    ensures
        r@ == cs@.subrange(from as int, to as int),
{
    vstd::slice::slice_subrange(cs, from, to)
}

/// The text before and after the first `c`, if there is one.
pub fn split_at_first(cs: &[char], c: char) -> (r: Option<(&[char], &[char])>)
    ensures
        match r {
            Some((a, b)) => split_first(cs@, c) == Some((a@, b@)),
            None => split_first(cs@, c) is None,
        },
{
    let i = find(cs, c);
    if i < cs.len() {
        let a = part(cs, 0, i);
        let b = part(cs, i + 1, cs.len());
        assert(a@ =~= cs@.take(i as int));
        assert(b@ =~= cs@.skip(i + 1));
        Some((a, b))
    } else {
        None
    }
}

/// `cs` without the white space around it.
pub fn trim(cs: &[char]) -> (r: &[char])
    ensures
        r@ == trimmed(cs@),
{
    let mut i: usize = 0;
    assert(cs@.skip(0) =~= cs@);
    while i < cs.len() && is_white_char(cs[i])
        invariant
            i <= cs@.len(),
            trim_front(cs@.skip(i as int)) == trim_front(cs@),
        decreases cs@.len() - i,
    {
        assert(cs@.skip(i as int).skip(1) =~= cs@.skip(i + 1));
        assert(cs@.skip(i as int)[0] == cs@[i as int]);
        i += 1;
    }
    proof {
        if i < cs@.len() {
            assert(cs@.skip(i as int)[0] == cs@[i as int]);
        }
    }
    let mut j: usize = cs.len();
    assert(cs@.subrange(i as int, j as int) =~= cs@.skip(i as int));
    while j > i && is_white_char(cs[j - 1])
        invariant
            i <= j <= cs@.len(),
            trim_back(cs@.subrange(i as int, j as int)) == trimmed(cs@),
        decreases j,
    {
        let ghost w = cs@.subrange(i as int, j as int);
        assert(w.last() == cs@[j - 1]);
        assert(w.drop_last() =~= cs@.subrange(i as int, j - 1));
        j -= 1;
    }
    proof {
        let w = cs@.subrange(i as int, j as int);
        if j > i {
            assert(w.last() == cs@[j - 1]);
        }
    }
    part(cs, i, j)
}

/// The views of a list of pieces.
pub open spec fn views(v: Seq<&[char]>) -> Seq<Seq<char>> {
    v.map_values(|p: &[char]| p@)
}

/// The pieces of `cs` between the separators `c`.
pub fn split_all(cs: &[char], c: char) -> (r: Vec<&[char]>)
    ensures
        views(r@) == pieces(cs@, c),
{
    let mut out: Vec<&[char]> = Vec::new();
    let mut from: usize = 0;
    let mut more: bool = true;
    assert(cs@.skip(0) =~= cs@);
    assert(views(out@) + pieces(cs@, c) =~= pieces(cs@, c));
    while more
        invariant
            from <= cs@.len(),
            more ==> views(out@) + pieces(cs@.skip(from as int), c) == pieces(cs@, c),
            !more ==> views(out@) == pieces(cs@, c),
        decreases cs@.len() - from + if more { 1int } else { 0 },
    {
        let rest = part(cs, from, cs.len());
        assert(rest@ =~= cs@.skip(from as int));
        let i = find(rest, c);
        let piece = part(rest, 0, i);
        let ghost before = out@;
        out.push(piece);
        assert(views(out@) =~= views(before).push(piece@));
        if i < rest.len() {
            from = from + i + 1;
            proof {
                assert(piece@ =~= rest@.take(i as int));
                assert(rest@.skip(i + 1) =~= cs@.skip(from as int));
                assert(views(out@) + pieces(cs@.skip(from as int), c) =~= views(before) + (
                seq![piece@] + pieces(rest@.skip(i + 1), c)));
            }
        } else {
            more = false;
            proof {
                assert(piece@ =~= rest@);
                assert(views(out@) =~= views(before) + seq![rest@]);
            }
        }
    }
    out
}

/// The runs of `cs` that hold no white space.
pub fn split_words(cs: &[char]) -> (r: Vec<&[char]>)
    ensures
        views(r@) == words(cs@),
{
    let mut out: Vec<&[char]> = Vec::new();
    let mut i: usize = 0;
    assert(cs@.skip(0) =~= cs@);
    assert(views(out@) + words(cs@) =~= words(cs@));
    loop
        invariant
            i <= cs@.len(),
            views(out@) + words(cs@.skip(i as int)) == words(cs@),
        ensures
            views(out@) == words(cs@),
        decreases cs@.len() - i,
    {
        let ghost s = cs@.skip(i as int);
        let ghost t = trim_front(s);
        proof {
            lemma_trim_front(s);
            lemma_word_len(t);
        }
        let mut a: usize = i;
        while a < cs.len() && is_white_char(cs[a])
            invariant
                i <= a <= cs@.len(),
                s == cs@.skip(i as int),
                trim_front(cs@.skip(a as int)) == trim_front(s),
            decreases cs@.len() - a,
        {
            assert(cs@.skip(a as int).skip(1) =~= cs@.skip(a + 1));
            assert(cs@.skip(a as int)[0] == cs@[a as int]);
            a += 1;
        }
        proof {
            if a < cs@.len() {
                assert(cs@.skip(a as int)[0] == cs@[a as int]);
            }
            assert(cs@.skip(a as int) == t);
        }
        if a == cs.len() {
            assert(words(s) =~= Seq::<Seq<char>>::empty());
            assert(views(out@) + words(s) =~= views(out@));
            break;
        }
        let mut b: usize = a;
        assert(cs@.skip(b as int) == t);
        while b < cs.len() && !is_white_char(cs[b])
            invariant
                a <= b <= cs@.len(),
                t == cs@.skip(a as int),
                word_len(t) == b - a + word_len(cs@.skip(b as int)),
            decreases cs@.len() - b,
        {
            assert(cs@.skip(b as int).skip(1) =~= cs@.skip(b + 1));
            assert(cs@.skip(b as int)[0] == cs@[b as int]);
            b += 1;
        }
        proof {
            if b < cs@.len() {
                assert(cs@.skip(b as int)[0] == cs@[b as int]);
            }
            assert(word_len(t) == b - a);
        }
        let w = part(cs, a, b);
        let ghost before = out@;
        out.push(w);
        proof {
            assert(w@ =~= t.take(word_len(t)));
            assert(t.skip(word_len(t)) =~= cs@.skip(b as int));
            assert(views(out@) =~= views(before).push(w@));
            assert(views(out@) + words(cs@.skip(b as int)) =~= views(before) + (seq![w@] + words(
                cs@.skip(b as int),
            )));
        }
        i = b;
    }
    out
}

/// Whether `p` stands somewhere in `s`.
pub open spec fn holds(s: Seq<char>, p: Seq<char>) -> bool {
    exists|i: int| 0 <= i <= s.len() && #[trigger] starts(s.skip(i), p)
}

/// Whether `p` stands somewhere in `cs`.
pub fn contains_text(cs: &[char], p: &[char]) -> (r: bool)
    ensures
        r == holds(cs@, p@),
{
    let mut i: usize = 0;
    loop
        invariant
            i <= cs@.len(),
            forall|j: int| 0 <= j < i ==> !#[trigger] starts(cs@.skip(j), p@),
        decreases cs@.len() - i,
    {
        let rest = part(cs, i, cs.len());
        assert(rest@ =~= cs@.skip(i as int));
        if after_prefix(rest, p).is_some() {
            assert(starts(cs@.skip(i as int), p@));
            return true;
        }
        if i == cs.len() {
            return false;
        }
        i += 1;
    }
}

/// How many characters `cs` starts with that are no white space.
pub fn first_word_len(cs: &[char]) -> (r: usize)
    ensures
        r == word_len(cs@),
        r <= cs@.len(),
{
    let mut i: usize = 0;
    assert(cs@.skip(0) =~= cs@);
    while i < cs.len() && !is_white_char(cs[i])
        invariant
            i <= cs@.len(),
            word_len(cs@) == i + word_len(cs@.skip(i as int)),
        decreases cs@.len() - i,
    {
        assert(cs@.skip(i as int).skip(1) =~= cs@.skip(i + 1));
        assert(cs@.skip(i as int)[0] == cs@[i as int]);
        i += 1;
    }
    proof {
        if i < cs@.len() {
            assert(cs@.skip(i as int)[0] == cs@[i as int]);
        }
    }
    i
}

/// `c` in lower case, if it is an ASCII letter.
pub fn lower_of(c: char) -> (r: char)
    ensures
        r == lower_char(c),
{
    if 'A' <= c && c <= 'Z' {
        (c as u8 + 32) as char
    } else {
        c
    }
}

/// `cs` with its ASCII letters in lower case.
pub fn lower_chars(cs: &[char]) -> (r: Vec<char>)
    ensures
        r@ == lower(cs@),
{
    let mut out: Vec<char> = Vec::new();
    let mut i: usize = 0;
    while i < cs.len()
        invariant
            i <= cs@.len(),
            out@.len() == i,
            forall|j: int| 0 <= j < i ==> out@[j] == lower_char(cs@[j]),
        decreases cs@.len() - i,
    {
        out.push(lower_of(cs[i]));
        i += 1;
    }
    assert(out@ =~= lower(cs@));
    out
}

/// The rest of `cs` after `prefix`, if it begins with it.
pub fn after_prefix<'a>(cs: &'a [char], prefix: &[char]) -> (r: Option<&'a [char]>)
    ensures
        match r {
            Some(rest) => starts(cs@, prefix@) && rest@ == cs@.skip(prefix@.len() as int),
            None => !starts(cs@, prefix@),
        },
{
    if cs.len() < prefix.len() {
        return None;
    }
    let head = part(cs, 0, prefix.len());
    assert(head@ =~= cs@.take(prefix@.len() as int));
    if same_chars(head, prefix) {
        let rest = part(cs, prefix.len(), cs.len());
        assert(rest@ =~= cs@.skip(prefix@.len() as int));
        Some(rest)
    } else {
        None
    }
}

/// What stands before `suffix`, if `cs` ends with it.
pub fn before_suffix<'a>(cs: &'a [char], suffix: &[char]) -> (r: Option<&'a [char]>)
    ensures
        match r {
            Some(front) => ends(cs@, suffix@) && front@ == cs@.take(cs@.len() - suffix@.len()),
            None => !ends(cs@, suffix@),
        },
{
    if cs.len() < suffix.len() {
        return None;
    }
    let cut: usize = cs.len() - suffix.len();
    let tail = part(cs, cut, cs.len());
    assert(tail@ =~= cs@.skip(cut as int));
    if same_chars(tail, suffix) {
        let front = part(cs, 0, cut);
        assert(front@ =~= cs@.take(cut as int));
        Some(front)
    } else {
        None
    }
}

/// `cs` without the run of `c` at its end.
pub fn drop_trailing(cs: &[char], c: char) -> (r: &[char])
    ensures
        r@ == without_trailing(cs@, c),
{
    let mut j: usize = cs.len();
    assert(cs@.take(j as int) =~= cs@);
    while j > 0 && cs[j - 1] == c
        invariant
            j <= cs@.len(),
            without_trailing(cs@.take(j as int), c) == without_trailing(cs@, c),
        decreases j,
    {
        assert(cs@.take(j as int).drop_last() =~= cs@.take(j - 1));
        j -= 1;
    }
    let r = part(cs, 0, j);
    assert(r@ =~= cs@.take(j as int));
    r
}

/// `cs` without the run of `c` at its start.
pub fn drop_leading(cs: &[char], c: char) -> (r: &[char])
    ensures
        r@ == without_leading(cs@, c),
{
    let mut i: usize = 0;
    assert(cs@.skip(0) =~= cs@);
    while i < cs.len() && cs[i] == c
        invariant
            i <= cs@.len(),
            without_leading(cs@.skip(i as int), c) == without_leading(cs@, c),
        decreases cs@.len() - i,
    {
        assert(cs@.skip(i as int).skip(1) =~= cs@.skip(i + 1));
        i += 1;
    }
    let r = part(cs, i, cs.len());
    assert(r@ =~= cs@.skip(i as int));
    r
}

} // verus!
