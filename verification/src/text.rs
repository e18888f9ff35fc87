//! Characters and strings: the small pieces of `str`/`char` behaviour the
//! assembler relies on (white space, trimming, splitting into words and lines,
//! number parsing and formatting), each stated over `Seq<char>`.
use vstd::prelude::*;

verus! {

// ---------------------------------------------------------------------------
// Characters
// ---------------------------------------------------------------------------

/// Unicode `White_Space` property, the set that `char::is_whitespace` tests.
pub open spec fn is_ws(c: char) -> bool {
    ||| c == '\t' || c == '\n' || c == '\x0B' || c == '\x0C' || c == '\r' || c == ' '
    ||| c == '\u{85}' || c == '\u{A0}' || c == '\u{1680}'
    ||| ('\u{2000}' <= c && c <= '\u{200A}')
    ||| c == '\u{2028}' || c == '\u{2029}' || c == '\u{202F}' || c == '\u{205F}' || c == '\u{3000}'
}

/// An ASCII decimal digit (`char::is_digit(10)`).
pub open spec fn is_dec_digit(c: char) -> bool {
    '0' <= c && c <= '9'
}

/// `char::to_ascii_lowercase`.
pub open spec fn ascii_lower(c: char) -> char {
    if 'A' <= c && c <= 'Z' {
        ((c as u32) + 32) as char
    } else {
        c
    }
}

/// Whether `c` is white space, as `char::is_whitespace` decides.
pub fn is_whitespace(c: char) -> (b: bool)
    ensures
        b == is_ws(c),
{
    c == '\t' || c == '\n' || c == '\x0B' || c == '\x0C' || c == '\r' || c == ' ' || c == '\u{85}'
        || c == '\u{A0}' || c == '\u{1680}' || ('\u{2000}' <= c && c <= '\u{200A}') || c
        == '\u{2028}' || c == '\u{2029}' || c == '\u{202F}' || c == '\u{205F}' || c == '\u{3000}'
}

/// Whether `c` is an ASCII decimal digit.
pub fn is_digit(c: char) -> (b: bool)
    ensures
        b == is_dec_digit(c),
{
    '0' <= c && c <= '9'
}

/// The ASCII lower-case form of `c`; any other character is returned unchanged.
pub fn to_ascii_lowercase(c: char) -> (r: char)
    ensures
        r == ascii_lower(c),
{
    if 'A' <= c && c <= 'Z' {
        let u: u32 = (c as u32) + 32;
        assert(0x61 <= u <= 0x7A);
        char_from_ascii(u)
    } else {
        c
    }
}

/// The character with code `u`, for an ASCII code.
fn char_from_ascii(u: u32) -> (c: char)
    requires
        u < 0x80,
    ensures
        c == u as char,
{
    let b: u8 = u as u8;
    b as char
}

/// Whether `c` is numeric in Unicode's sense (general category `Nd`, `Nl` or `No`).
pub uninterp spec fn char_is_numeric(c: char) -> bool;

/// `char::is_numeric`. Its result is named `char_is_numeric`; beside the name
/// the contract states only that among ASCII characters exactly the ten
/// decimal digits are numeric. Which non-ASCII characters are numeric is left
/// to the Unicode tables of `std` and is not stated.
#[verifier::external_body]
pub(crate) fn is_numeric(c: char) -> (b: bool)
    ensures
        b == char_is_numeric(c),
        (c as u32) < 0x80 ==> (b == is_dec_digit(c)),
{
    c.is_numeric()
}

/// Number of bytes of `c` in UTF-8 (`char::len_utf8`).
pub open spec fn char_utf8_len(c: char) -> nat {
    if (c as u32) < 0x80 {
        1
    } else if (c as u32) < 0x800 {
        2
    } else if (c as u32) < 0x10000 {
        3
    } else {
        4
    }
}

/// Number of bytes of `s` in UTF-8 (`str::len`).
pub open spec fn utf8_len(s: Seq<char>) -> nat
    decreases s.len(),
{
    if s.len() == 0 {
        0
    } else {
        utf8_len(s.drop_last()) + char_utf8_len(s.last())
    }
}

/// Number of bytes of `c` in UTF-8.
pub fn len_utf8(c: char) -> (n: usize)
    ensures
        n == char_utf8_len(c),
{
    let u: u32 = c as u32;
    if u < 0x80 {
        1
    } else if u < 0x800 {
        2
    } else if u < 0x10000 {
        3
    } else {
        4
    }
}

// ---------------------------------------------------------------------------
// Strings and character vectors
// ---------------------------------------------------------------------------

/// Appends one character to a `String` (`String::push`).
#[verifier::external_body]
pub(crate) fn push_char(s: &mut String, c: char)
    ensures
        final(s)@ == old(s)@.push(c),
{
    s.push(c)
}

/// The characters of `s`, in order.
pub fn chars_of(s: &str) -> (v: Vec<char>)
    ensures
        v@ == s@,
{
    let mut v: Vec<char> = Vec::new();
    for c in it: s.chars()
        invariant
            v@ == it.seq().take(it.index() as int),
            it.seq() == s@,
    {
        v.push(c);
    }
    v
}

/// The string made of the characters of `v`.
pub fn string_of(v: &Vec<char>) -> (s: String)
    ensures
        s@ == v@,
{
    let mut s = String::new();
    let mut i: usize = 0;
    while i < v.len()
        invariant
            i <= v.len(),
            s@ == v@.take(i as int),
        decreases v.len() - i,
    {
        push_char(&mut s, v[i]);
        assert(v@.take(i + 1) == v@.take(i as int).push(v@[i as int]));
        i += 1;
    }
    assert(v@.take(v.len() as int) == v@);
    s
}

/// Appends the characters of `t` to `s`.
pub fn push_str(s: &mut String, t: &str)
    ensures
        final(s)@ == old(s)@ + t@,
{
    let v = chars_of(t);
    let mut i: usize = 0;
    while i < v.len()
        invariant
            i <= v.len(),
            v@ == t@,
            s@ == old(s)@ + v@.take(i as int),
        decreases v.len() - i,
    {
        push_char(s, v[i]);
        assert(v@.take(i + 1) == v@.take(i as int).push(v@[i as int]));
        i += 1;
    }
    assert(v@.take(v.len() as int) == v@);
}

/// Whether two strings hold the same characters.
pub fn str_eq(a: &str, b: &str) -> (r: bool)
    ensures
        r == (a@ == b@),
{
    let x = chars_of(a);
    let y = chars_of(b);
    if x.len() != y.len() {
        return false;
    }
    let mut i: usize = 0;
    while i < x.len()
        invariant
            x@ == a@,
            y@ == b@,
            x.len() == y.len(),
            i <= x.len(),
            forall|j: int| 0 <= j < i ==> x@[j] == y@[j],
        decreases x.len() - i,
    {
        if x[i] != y[i] {
            return false;
        }
        i += 1;
    }
    assert(x@ =~= y@);
    true
}

/// Whether `s` holds the character `c`.
pub fn contains_char(s: &str, c: char) -> (r: bool)
    ensures
        r == s@.contains(c),
{
    let v = chars_of(s);
    let mut i: usize = 0;
    while i < v.len()
        invariant
            v@ == s@,
            i <= v.len(),
            forall|j: int| 0 <= j < i ==> v@[j] != c,
        decreases v.len() - i,
    {
        if v[i] == c {
            return true;
        }
        i += 1;
    }
    false
}

/// Number of bytes of `s` in UTF-8.
pub fn byte_len(s: &str) -> (n: usize)
    requires
        s@.len() * 4 <= usize::MAX,
    ensures
        n == utf8_len(s@),
{
    let v = chars_of(s);
    let mut n: usize = 0;
    let mut i: usize = 0;
    while i < v.len()
        invariant
            v@ == s@,
            v@.len() * 4 <= usize::MAX,
            i <= v.len(),
            n == utf8_len(v@.take(i as int)),
            n <= 4 * i,
        decreases v.len() - i,
    {
        assert(v@.take(i + 1).drop_last() == v@.take(i as int));
        n = n + len_utf8(v[i]);
        i += 1;
    }
    assert(v@.take(v.len() as int) == v@);
    n
}

// ---------------------------------------------------------------------------
// Trimming, removing and splitting on white space
// ---------------------------------------------------------------------------

/// `s` without its leading white space.
pub open spec fn trim_start(s: Seq<char>) -> Seq<char>
    decreases s.len(),
{
    if s.len() > 0 && is_ws(s[0]) {
        trim_start(s.drop_first())
    } else {
        s
    }
}

/// `s` without its trailing white space.
pub open spec fn trim_end(s: Seq<char>) -> Seq<char>
    decreases s.len(),
{
    if s.len() > 0 && is_ws(s.last()) {
        trim_end(s.drop_last())
    } else {
        s
    }
}

/// `str::trim`: `s` without leading and trailing white space.
pub open spec fn trim(s: Seq<char>) -> Seq<char> {
    trim_end(trim_start(s))
}

/// `s` with every white-space character removed.
pub open spec fn remove_ws(s: Seq<char>) -> Seq<char> {
    s.filter(|c: char| !is_ws(c))
}

/// Splitting `s` on white space, left to right: the words completed so far,
/// and the word still being read.
pub open spec fn split_ws(s: Seq<char>) -> (Seq<Seq<char>>, Seq<char>)
    decreases s.len(),
{
    if s.len() == 0 {
        (seq![], seq![])
    } else {
        let (done, cur) = split_ws(s.drop_last());
        let c = s.last();
        if is_ws(c) {
            if cur.len() > 0 {
                (done.push(cur), seq![])
            } else {
                (done, seq![])
            }
        } else {
            (done, cur.push(c))
        }
    }
}

/// `str::split_whitespace`: the maximal runs of non-white-space characters of
/// `s`, in order.
pub open spec fn words(s: Seq<char>) -> Seq<Seq<char>> {
    let (done, cur) = split_ws(s);
    if cur.len() > 0 {
        done.push(cur)
    } else {
        done
    }
}

/// The words of `ws` joined by single spaces.
pub open spec fn join_space(ws: Seq<Seq<char>>) -> Seq<char>
    decreases ws.len(),
{
    if ws.len() == 0 {
        seq![]
    } else if ws.len() == 1 {
        ws[0]
    } else {
        join_space(ws.drop_last()) + seq![' '] + ws.last()
    }
}

/// A word: non-empty, with no white space.
pub open spec fn is_word(w: Seq<char>) -> bool {
    w.len() > 0 && forall|i: int| 0 <= i < w.len() ==> !is_ws(#[trigger] w[i])
}

pub(crate) proof fn lemma_trim_start_suffix(s: Seq<char>)
    ensures
        trim_start(s).len() <= s.len(),
        trim_start(s) == s.skip(s.len() - trim_start(s).len()),
        forall|i: int| 0 <= i < s.len() - trim_start(s).len() ==> is_ws(#[trigger] s[i]),
        trim_start(s).len() > 0 ==> !is_ws(trim_start(s)[0]),
    decreases s.len(),
{
    if s.len() > 0 && is_ws(s[0]) {
        lemma_trim_start_suffix(s.drop_first());
        let t = trim_start(s.drop_first());
        assert(s.drop_first().skip(s.drop_first().len() - t.len()) =~= s.skip(s.len() - t.len()));
        assert forall|i: int| 0 <= i < s.len() - t.len() implies is_ws(#[trigger] s[i]) by {
            if i > 0 {
                assert(s[i] == s.drop_first()[i - 1]);
            }
        }
    } else {
        assert(s.skip(0) =~= s);
    }
}

pub(crate) proof fn lemma_trim_end_prefix(s: Seq<char>)
    ensures
        trim_end(s).len() <= s.len(),
        trim_end(s) == s.take(trim_end(s).len() as int),
        forall|i: int| trim_end(s).len() <= i < s.len() ==> is_ws(#[trigger] s[i]),
        trim_end(s).len() > 0 ==> !is_ws(trim_end(s).last()),
    decreases s.len(),
{
    if s.len() > 0 && is_ws(s.last()) {
        lemma_trim_end_prefix(s.drop_last());
        let t = trim_end(s.drop_last());
        assert(s.drop_last().take(t.len() as int) =~= s.take(t.len() as int));
        assert forall|i: int| t.len() <= i < s.len() implies is_ws(#[trigger] s[i]) by {
            if i < s.len() - 1 {
                assert(s[i] == s.drop_last()[i]);
            }
        }
    } else {
        assert(s.take(s.len() as int) =~= s);
    }
}

/// `s` with leading and trailing white space removed.
pub fn trim_chars(s: &Vec<char>) -> (r: Vec<char>)
    ensures
        r@ == trim(s@),
{
    let n = s.len();
    let mut a: usize = 0;
    assert(s@.skip(0) =~= s@);
    while a < n && is_whitespace(s[a])
        invariant
            n == s.len(),
            a <= n,
            trim_start(s@) == trim_start(s@.skip(a as int)),
        decreases n - a,
    {
        assert(s@.skip(a as int).drop_first() =~= s@.skip(a + 1));
        a += 1;
    }
    assert(trim_start(s@) == s@.skip(a as int));
    let mut b: usize = n;
    while b > a && is_whitespace(s[b - 1])
        invariant
            n == s.len(),
            a <= b <= n,
            trim(s@) == trim_end(s@.subrange(a as int, b as int)),
        decreases b - a,
    {
        assert(s@.subrange(a as int, b as int).drop_last() =~= s@.subrange(a as int, b - 1));
        b -= 1;
    }
    let mut r: Vec<char> = Vec::new();
    let mut i: usize = a;
    while i < b
        invariant
            a <= i <= b <= n,
            n == s.len(),
            r@ == s@.subrange(a as int, i as int),
        decreases b - i,
    {
        r.push(s[i]);
        assert(r@ =~= s@.subrange(a as int, i + 1));
        i += 1;
    }
    r
}

/// `s` with every white-space character removed.
pub fn remove_ws_chars(s: &Vec<char>) -> (r: Vec<char>)
    ensures
        r@ == remove_ws(s@),
{
    let mut r: Vec<char> = Vec::new();
    let mut i: usize = 0;
    while i < s.len()
        invariant
            i <= s.len(),
            r@ == remove_ws(s@.take(i as int)),
        decreases s.len() - i,
    {
        assert(s@.take(i + 1).drop_last() =~= s@.take(i as int));
        assert(remove_ws(s@.take(i + 1)) == remove_ws(s@.take(i as int)) + (if !is_ws(s@[i as int]) { seq![s@[i as int]] } else { seq![] })) by {
            reveal(Seq::filter);
            assert(s@.take(i + 1).last() == s@[i as int]);
        }
        if !is_whitespace(s[i]) {
            r.push(s[i]);
        }
        assert(r@ =~= remove_ws(s@.take(i + 1)));
        i += 1;
    }
    assert(s@.take(s.len() as int) =~= s@);
    r
}

/// The words of `s`, split on white space.
pub fn split_words(s: &Vec<char>) -> (r: Vec<Vec<char>>)
    ensures
        r@.map_values(|w: Vec<char>| w@) == words(s@),
{
    let mut done: Vec<Vec<char>> = Vec::new();
    let mut cur: Vec<char> = Vec::new();
    let mut i: usize = 0;
    while i < s.len()
        invariant
            i <= s.len(),
            split_ws(s@.take(i as int)) == (done@.map_values(|w: Vec<char>| w@), cur@),
        decreases s.len() - i,
    {
        assert(s@.take(i + 1).drop_last() =~= s@.take(i as int));
        assert(s@.take(i + 1).last() == s@[i as int]);
        let c = s[i];
        if is_whitespace(c) {
            if cur.len() > 0 {
                let w = cur;
                done.push(w);
                cur = Vec::new();
            }
        } else {
            cur.push(c);
        }
        assert(split_ws(s@.take(i + 1)).0 =~= done@.map_values(|w: Vec<char>| w@));
        assert(split_ws(s@.take(i + 1)).1 =~= cur@);
        i += 1;
    }
    assert(s@.take(s.len() as int) =~= s@);
    if cur.len() > 0 {
        done.push(cur);
    }
    assert(done@.map_values(|w: Vec<char>| w@) =~= words(s@));
    done
}

} // verus!

verus! {

// ---------------------------------------------------------------------------
// Lines
// ---------------------------------------------------------------------------

/// A line as `str::lines` yields it: one `'\r'` before the line break is dropped.
pub open spec fn strip_cr(l: Seq<char>) -> Seq<char> {
    if l.len() > 0 && l.last() == '\r' {
        l.drop_last()
    } else {
        l
    }
}

/// Splitting `s` at `'\n'`, left to right: the lines completed so far, and the
/// line still being read.
pub open spec fn split_nl(s: Seq<char>) -> (Seq<Seq<char>>, Seq<char>)
    decreases s.len(),
{
    if s.len() == 0 {
        (seq![], seq![])
    } else {
        let (done, cur) = split_nl(s.drop_last());
        if s.last() == '\n' {
            (done.push(strip_cr(cur)), seq![])
        } else {
            (done, cur.push(s.last()))
        }
    }
}

/// `str::lines`: the lines of `s`; a final line break opens no further line.
pub open spec fn lines(s: Seq<char>) -> Seq<Seq<char>> {
    let (done, cur) = split_nl(s);
    if cur.len() > 0 {
        done.push(cur)
    } else {
        done
    }
}

/// The lines of `s`.
pub fn split_lines(s: &Vec<char>) -> (r: Vec<Vec<char>>)
    ensures
        r@.map_values(|l: Vec<char>| l@) == lines(s@),
{
    let mut done: Vec<Vec<char>> = Vec::new();
    let mut cur: Vec<char> = Vec::new();
    let mut i: usize = 0;
    while i < s.len()
        invariant
            i <= s.len(),
            split_nl(s@.take(i as int)) == (done@.map_values(|l: Vec<char>| l@), cur@),
        decreases s.len() - i,
    {
        assert(s@.take(i + 1).drop_last() =~= s@.take(i as int));
        assert(s@.take(i + 1).last() == s@[i as int]);
        let c = s[i];
        if c == '\n' {
            let n = cur.len();
            if n > 0 && cur[n - 1] == '\r' {
                cur.pop();
                assert(cur@ =~= strip_cr(split_nl(s@.take(i as int)).1));
            }
            let l = cur;
            done.push(l);
            cur = Vec::new();
        } else {
            cur.push(c);
        }
        assert(split_nl(s@.take(i + 1)).0 =~= done@.map_values(|l: Vec<char>| l@));
        assert(split_nl(s@.take(i + 1)).1 =~= cur@);
        i += 1;
    }
    assert(s@.take(s.len() as int) =~= s@);
    if cur.len() > 0 {
        done.push(cur);
    }
    assert(done@.map_values(|l: Vec<char>| l@) =~= lines(s@));
    done
}

// ---------------------------------------------------------------------------
// Unsigned integers: parsing (`from_str`, `from_str_radix`) and formatting
// ---------------------------------------------------------------------------

/// Why a string is not an unsigned integer (`core::num::IntErrorKind`).
#[derive(PartialEq, Eq, Structural, Clone, Copy, Debug)]
pub enum IntErrorKind {
    Empty,
    InvalidDigit,
    PosOverflow,
}

/// The value of `c` as a digit in base `radix` (2, 10 or 16).
pub open spec fn digit_value(c: char, radix: nat) -> Option<nat> {
    if '0' <= c && c <= '9' && (c as nat) - ('0' as nat) < radix {
        Some(((c as nat) - ('0' as nat)) as nat)
    } else if radix == 16 && 'a' <= c && c <= 'f' {
        Some(((c as nat) - ('a' as nat) + 10) as nat)
    } else if radix == 16 && 'A' <= c && c <= 'F' {
        Some(((c as nat) - ('A' as nat) + 10) as nat)
    } else {
        None
    }
}

/// Reading the digits `d` left to right in base `radix`, stopping at the
/// first character that is no digit or at the first prefix whose value
/// exceeds `max`.
pub open spec fn scan_digits(d: Seq<char>, radix: nat, max: nat) -> Result<nat, IntErrorKind>
    decreases d.len(),
{
    if d.len() == 0 {
        Ok(0)
    } else {
        match scan_digits(d.drop_last(), radix, max) {
            Err(e) => Err(e),
            Ok(v) => match digit_value(d.last(), radix) {
                None => Err(IntErrorKind::InvalidDigit),
                Some(x) => if v * radix + x > max {
                    Err(IntErrorKind::PosOverflow)
                } else {
                    Ok(v * radix + x)
                },
            },
        }
    }
}

/// The unsigned integer that `s` writes in base `radix` with an optional
/// leading `'+'`, if it is at most `max` (`from_str_radix` of an unsigned
/// type whose largest value is `max`).
pub open spec fn parse_unsigned(s: Seq<char>, radix: nat, max: nat) -> Result<nat, IntErrorKind> {
    if s.len() == 0 {
        Err(IntErrorKind::Empty)
    } else if (s[0] == '+' || s[0] == '-') && s.len() == 1 {
        Err(IntErrorKind::InvalidDigit)
    } else if s[0] == '+' {
        scan_digits(s.drop_first(), radix, max)
    } else {
        scan_digits(s, radix, max)
    }
}

/// A parsed value is at most the largest value allowed.
pub proof fn lemma_parse_bounded(s: Seq<char>, radix: nat, max: nat)
    ensures
        parse_unsigned(s, radix, max) matches Ok(v) ==> v <= max,
{
    if s.len() > 0 {
        lemma_scan_bounded(s, radix, max);
        lemma_scan_bounded(s.drop_first(), radix, max);
    }
}

/// `usize::from_str`.
pub open spec fn parse_usize(s: Seq<char>) -> Result<nat, IntErrorKind> {
    parse_unsigned(s, 10, usize::MAX as nat)
}

proof fn lemma_scan_bounded(d: Seq<char>, radix: nat, max: nat)
    ensures
        scan_digits(d, radix, max) matches Ok(v) ==> v <= max,
    decreases d.len(),
{
    if d.len() > 0 {
        lemma_scan_bounded(d.drop_last(), radix, max);
    }
}

proof fn lemma_scan_err_extends(d: Seq<char>, k: int, radix: nat, max: nat)
    requires
        0 <= k <= d.len(),
        scan_digits(d.take(k), radix, max) is Err,
    ensures
        scan_digits(d, radix, max) == scan_digits(d.take(k), radix, max),
    decreases d.len(),
{
    if k < d.len() {
        assert(d.drop_last().take(k) =~= d.take(k));
        lemma_scan_err_extends(d.drop_last(), k, radix, max);
    } else {
        assert(d.take(k) =~= d);
    }
}

/// Digit value of `c` in base `radix`.
fn digit_of(c: char, radix: u64) -> (r: Option<u64>)
    requires
        radix == 2 || radix == 10 || radix == 16,
    ensures
        r matches Some(x) ==> digit_value(c, radix as nat) == Some(x as nat),
        r is None ==> digit_value(c, radix as nat) is None,
{
    let u: u32 = c as u32;
    if '0' <= c && c <= '9' && ((u - 48) as u64) < radix {
        Some((u - 48) as u64)
    } else if radix == 16 && 'a' <= c && c <= 'f' {
        Some((u - 97 + 10) as u64)
    } else if radix == 16 && 'A' <= c && c <= 'F' {
        Some((u - 65 + 10) as u64)
    } else {
        None
    }
}

/// Reads the digits `d[from..]`.
fn scan_digit_chars(d: &Vec<char>, from: usize, radix: u64, max: u64) -> (r: Result<u64, IntErrorKind>)
    requires
        radix == 2 || radix == 10 || radix == 16,
        from <= d.len(),
    ensures
        match scan_digits(d@.skip(from as int), radix as nat, max as nat) {
            Ok(v) => r == Ok::<u64, IntErrorKind>(v as u64),
            Err(e) => r == Err::<u64, IntErrorKind>(e),
        },
{
    let mut v: u64 = 0;
    let mut i: usize = from;
    assert(d@.skip(from as int).take(0) =~= seq![]);
    while i < d.len()
        invariant
            radix == 2 || radix == 10 || radix == 16,
            from <= i <= d.len(),
            scan_digits(d@.skip(from as int).take(i - from), radix as nat, max as nat) == Ok::<nat, IntErrorKind>(v as nat),
        decreases d.len() - i,
    {
        let ghost pre = d@.skip(from as int).take(i - from);
        let ghost next = d@.skip(from as int).take(i + 1 - from);
        assert(next.drop_last() =~= pre);
        assert(next.last() == d@[i as int]);
        proof { lemma_scan_bounded(pre, radix as nat, max as nat); }
        match digit_of(d[i], radix) {
            None => {
                proof { lemma_scan_err_extends(d@.skip(from as int), i + 1 - from, radix as nat, max as nat); }
                return Err(IntErrorKind::InvalidDigit);
            },
            Some(x) => {
                let w: u128 = (v as u128) * (radix as u128) + (x as u128);
                assert(w == v * radix + x);
                if w > max as u128 {
                    proof { lemma_scan_err_extends(d@.skip(from as int), i + 1 - from, radix as nat, max as nat); }
                    return Err(IntErrorKind::PosOverflow);
                }
                v = w as u64;
            },
        }
        i += 1;
    }
    assert(d@.skip(from as int).take(d.len() - from) =~= d@.skip(from as int));
    Ok(v)
}

/// Parses `s` as an unsigned integer in base `radix`, accepting values up to `max`.
pub fn parse_unsigned_chars(s: &Vec<char>, radix: u64, max: u64) -> (r: Result<u64, IntErrorKind>)
    requires
        radix == 2 || radix == 10 || radix == 16,
    ensures
        match parse_unsigned(s@, radix as nat, max as nat) {
            Ok(v) => r == Ok::<u64, IntErrorKind>(v as u64),
            Err(e) => r == Err::<u64, IntErrorKind>(e),
        },
{
    if s.len() == 0 {
        return Err(IntErrorKind::Empty);
    }
    if (s[0] == '+' || s[0] == '-') && s.len() == 1 {
        return Err(IntErrorKind::InvalidDigit);
    }
    if s[0] == '+' {
        assert(s@.skip(1) =~= s@.drop_first());
        scan_digit_chars(s, 1, radix, max)
    } else {
        assert(s@.skip(0) =~= s@);
        scan_digit_chars(s, 0, radix, max)
    }
}

/// `usize::from_str` on the characters of `s`.
pub fn parse_usize_str(s: &str) -> (r: Result<usize, IntErrorKind>)
    ensures
        match parse_usize(s@) {
            Ok(v) => r == Ok::<usize, IntErrorKind>(v as usize),
            Err(e) => r == Err::<usize, IntErrorKind>(e),
        },
{
    let v = chars_of(s);
    let max: u64 = usize::MAX as u64;
    match parse_unsigned_chars(&v, 10, max) {
        Ok(n) => {
            proof {
                assert(usize::MAX as u64 as nat == usize::MAX as nat);
                match parse_unsigned(s@, 10, usize::MAX as nat) {
                    Ok(x) => {
                        if s@[0] == '+' {
                            lemma_scan_bounded(s@.drop_first(), 10, usize::MAX as nat);
                        } else {
                            lemma_scan_bounded(s@, 10, usize::MAX as nat);
                        }
                    },
                    Err(_) => {},
                }
            }
            Ok(n as usize)
        },
        Err(e) => Err(e),
    }
}

/// What `core::num::ParseIntError` displays for each kind.
pub open spec fn int_error_text(e: IntErrorKind) -> Seq<char> {
    match e {
        IntErrorKind::Empty => "cannot parse integer from empty string"@,
        IntErrorKind::InvalidDigit => "invalid digit found in string"@,
        IntErrorKind::PosOverflow => "number too large to fit in target type"@,
    }
}

/// The message of a parse error of kind `e`.
pub fn int_error_message(e: IntErrorKind) -> (s: String)
    ensures
        s@ == int_error_text(e),
{
    match e {
        IntErrorKind::Empty => "cannot parse integer from empty string".to_owned(),
        IntErrorKind::InvalidDigit => "invalid digit found in string".to_owned(),
        IntErrorKind::PosOverflow => "number too large to fit in target type".to_owned(),
    }
}

/// The digit character for `d` (`0`-`9`, then `a`-`f`).
pub open spec fn digit_char(d: nat) -> char {
    if d < 10 {
        ((d + 48) as u32) as char
    } else {
        ((d + 87) as u32) as char
    }
}

/// `n` written in base `radix` (2 to 16), without leading zeros.
pub open spec fn radix_str(n: nat, radix: nat) -> Seq<char>
    decreases n,
{
    if n < radix || radix < 2 {
        seq![digit_char(n)]
    } else {
        proof {
            assert(n / radix < n) by (nonlinear_arith)
                requires
                    radix >= 2,
                    n >= radix,
            ;
        }
        radix_str(n / radix, radix).push(digit_char(n % radix))
    }
}

/// `n` in decimal (`format!("{}", n)`).
pub open spec fn dec(n: nat) -> Seq<char> {
    radix_str(n, 10)
}

/// `s` padded on the left with `'0'` to at least `width` characters.
pub open spec fn pad_zeros(s: Seq<char>, width: nat) -> Seq<char> {
    if s.len() >= width {
        s
    } else {
        Seq::new((width - s.len()) as nat, |i: int| '0') + s
    }
}

fn digit_char_exec(d: u64) -> (c: char)
    requires
        d < 16,
    ensures
        c == digit_char(d as nat),
{
    if d < 10 {
        char_from_ascii((d + 48) as u32)
    } else {
        char_from_ascii((d + 87) as u32)
    }
}

/// `n` written in base `radix`.
pub fn radix_chars(n: u64, radix: u64) -> (v: Vec<char>)
    requires
        2 <= radix <= 16,
    ensures
        v@ == radix_str(n as nat, radix as nat),
    decreases n,
{
    if n < radix {
        let mut v: Vec<char> = Vec::new();
        v.push(digit_char_exec(n));
        assert(v@ =~= seq![digit_char(n as nat)]);
        v
    } else {
        assert(n / radix < n) by (nonlinear_arith)
            requires
                radix >= 2,
                n >= radix,
        ;
        let mut v = radix_chars(n / radix, radix);
        v.push(digit_char_exec(n % radix));
        v
    }
}

/// `v` padded on the left with `'0'` to at least `width` characters.
pub fn pad_zeros_chars(v: &Vec<char>, width: usize) -> (r: Vec<char>)
    ensures
        r@ == pad_zeros(v@, width as nat),
{
    let mut r: Vec<char> = Vec::new();
    if v.len() < width {
        let k = width - v.len();
        let mut i: usize = 0;
        while i < k
            invariant
                i <= k,
                r@ == Seq::new(i as nat, |j: int| '0'),
            decreases k - i,
        {
            r.push('0');
            assert(r@ =~= Seq::new((i + 1) as nat, |j: int| '0'));
            i += 1;
        }
    }
    let ghost pre = r@;
    let mut i: usize = 0;
    while i < v.len()
        invariant
            i <= v.len(),
            r@ == pre + v@.take(i as int),
        decreases v.len() - i,
    {
        r.push(v[i]);
        assert(r@ =~= pre + v@.take(i + 1));
        i += 1;
    }
    assert(v@.take(v.len() as int) =~= v@);
    assert(r@ =~= pad_zeros(v@, width as nat));
    r
}

/// `n` in decimal, as a `String`.
pub fn usize_to_string(n: usize) -> (s: String)
    ensures
        s@ == dec(n as nat),
{
    let v = radix_chars(n as u64, 10);
    string_of(&v)
}

} // verus!

verus! {

// ---------------------------------------------------------------------------
// Formatting and parsing agree
// ---------------------------------------------------------------------------

proof fn lemma_scan_zero_prefix(a: Seq<char>, b: Seq<char>, radix: nat, max: nat)
    requires
        scan_digits(a, radix, max) == Ok::<nat, IntErrorKind>(0),
    ensures
        scan_digits(a + b, radix, max) == scan_digits(b, radix, max),
    decreases b.len(),
{
    if b.len() == 0 {
        assert(a + b =~= a);
    } else {
        assert((a + b).drop_last() =~= a + b.drop_last());
        assert((a + b).last() == b.last());
        lemma_scan_zero_prefix(a, b.drop_last(), radix, max);
    }
}

proof fn lemma_scan_zeros(k: nat, radix: nat, max: nat)
    requires
        radix == 2 || radix == 10 || radix == 16,
    ensures
        scan_digits(Seq::new(k, |i: int| '0'), radix, max) == Ok::<nat, IntErrorKind>(0),
    decreases k,
{
    if k > 0 {
        assert(Seq::new(k, |i: int| '0').drop_last() =~= Seq::new((k - 1) as nat, |i: int| '0'));
        lemma_scan_zeros((k - 1) as nat, radix, max);
    }
}

/// The digits of `n` in base `radix` are digits of that base, and read back as `n`.
proof fn lemma_scan_radix_str(n: nat, radix: nat, max: nat)
    requires
        radix == 2 || radix == 10 || radix == 16,
        n <= max,
    ensures
        scan_digits(radix_str(n, radix), radix, max) == Ok::<nat, IntErrorKind>(n),
        radix_str(n, radix).len() > 0,
        '0' <= radix_str(n, radix)[0] && radix_str(n, radix)[0] <= '9' || 'a' <= radix_str(n, radix)[0]
            && radix_str(n, radix)[0] <= 'f',
    decreases n,
{
    let c = digit_char(n % radix);
    assert(digit_value(c, radix) == Some(n % radix)) by {
        if n % radix < 10 {
            assert(c as nat == n % radix + 48);
        } else {
            assert(c as nat == n % radix + 87);
        }
    }
    if n < radix {
        assert(radix_str(n, radix).drop_last() =~= Seq::<char>::empty());
        assert(n % radix == n);
        assert(0 * radix == 0);
        let s = radix_str(n, radix);
        assert(s == seq![c]);
        assert(scan_digits(s.drop_last(), radix, max) == Ok::<nat, IntErrorKind>(0));
        assert(s.last() == c);
        assert(scan_digits(s, radix, max) == Ok::<nat, IntErrorKind>(n));
    } else {
        let q = n / radix;
        let d = n % radix;
        assert(q < n && n == q * radix + d && d < radix) by (nonlinear_arith)
            requires
                radix >= 2,
                n >= radix,
                q == n / radix,
                d == n % radix,
        ;
        lemma_scan_radix_str(q, radix, max);
        let s = radix_str(n, radix);
        assert(s.drop_last() =~= radix_str(q, radix));
        assert(s.last() == c);
        assert(scan_digits(s.drop_last(), radix, max) == Ok::<nat, IntErrorKind>(q));
        assert(scan_digits(s, radix, max) == Ok::<nat, IntErrorKind>(n));
        assert(s[0] == radix_str(q, radix)[0]);
    }
}

/// Writing `n` in base 2, 10 or 16, padded with zeros to any width, and
/// parsing it back in that base gives `n` (for `n` within the parser's range).
pub proof fn law_parse_formatted(n: nat, radix: nat, max: nat, width: nat)
    requires
        radix == 2 || radix == 10 || radix == 16,
        n <= max,
    ensures
        parse_unsigned(pad_zeros(radix_str(n, radix), width), radix, max) == Ok::<nat, IntErrorKind>(n),
{
    lemma_scan_radix_str(n, radix, max);
    let s = radix_str(n, radix);
    let p = pad_zeros(s, width);
    if s.len() < width {
        let z = Seq::new((width - s.len()) as nat, |i: int| '0');
        lemma_scan_zeros((width - s.len()) as nat, radix, max);
        lemma_scan_zero_prefix(z, s, radix, max);
        assert(p[0] == '0');
    }
}

/// Decimal formatting and `usize::from_str` agree.
pub proof fn law_parse_dec(n: nat)
    requires
        n <= usize::MAX,
    ensures
        parse_usize(dec(n)) == Ok::<nat, IntErrorKind>(n),
{
    law_parse_formatted(n, 10, usize::MAX as nat, 0);
    assert(pad_zeros(dec(n), 0) == dec(n));
}

} // verus!

verus! {

// ---------------------------------------------------------------------------
// Splitting into words and joining words agree
// ---------------------------------------------------------------------------

proof fn lemma_split_ws_word_suffix(p: Seq<char>, w: Seq<char>)
    requires
        forall|i: int| 0 <= i < w.len() ==> !is_ws(#[trigger] w[i]),
    ensures
        split_ws(p + w) == (split_ws(p).0, split_ws(p).1 + w),
    decreases w.len(),
{
    if w.len() == 0 {
        assert(p + w =~= p);
        assert(split_ws(p).1 + w =~= split_ws(p).1);
    } else {
        lemma_split_ws_word_suffix(p, w.drop_last());
        assert((p + w).drop_last() =~= p + w.drop_last());
        assert((p + w).last() == w.last());
        assert(!is_ws(w[w.len() - 1]));
        assert((split_ws(p).1 + w.drop_last()).push(w.last()) =~= split_ws(p).1 + w);
    }
}

proof fn lemma_split_ws_space(p: Seq<char>)
    ensures
        split_ws(p.push(' ')) == (words(p), Seq::<char>::empty()),
{
    assert(p.push(' ').drop_last() =~= p);
}

/// The words of `s` and what each is made of: non-empty runs without white
/// space, of characters of `s`.
pub proof fn lemma_words_are_words(s: Seq<char>)
    ensures
        forall|i: int| 0 <= i < words(s).len() ==> is_word(#[trigger] words(s)[i]),
        forall|i: int, j: int|
            0 <= i < words(s).len() && 0 <= j < words(s)[i].len() ==> s.contains(#[trigger] words(s)[i][j]),
{
    lemma_split_ws_parts(s);
}

proof fn lemma_split_ws_parts(s: Seq<char>)
    ensures
        forall|i: int| 0 <= i < split_ws(s).0.len() ==> is_word(#[trigger] split_ws(s).0[i]),
        forall|j: int| 0 <= j < split_ws(s).1.len() ==> !is_ws(#[trigger] split_ws(s).1[j]),
        forall|i: int, j: int|
            0 <= i < split_ws(s).0.len() && 0 <= j < split_ws(s).0[i].len() ==> s.contains(
                #[trigger] split_ws(s).0[i][j],
            ),
        forall|j: int| 0 <= j < split_ws(s).1.len() ==> s.contains(#[trigger] split_ws(s).1[j]),
        forall|i: int| 0 <= i < words(s).len() ==> is_word(#[trigger] words(s)[i]),
        forall|i: int, j: int|
            0 <= i < words(s).len() && 0 <= j < words(s)[i].len() ==> s.contains(#[trigger] words(s)[i][j]),
    decreases s.len(),
{
    if s.len() > 0 {
        let p = s.drop_last();
        lemma_split_ws_parts(p);
        assert forall|c: char| p.contains(c) implies s.contains(c) by {
            let k = choose|k: int| 0 <= k < p.len() && p[k] == c;
            assert(s[k] == c);
        }
        assert(s[s.len() - 1] == s.last());
        let (d0, c0) = split_ws(p);
        let c = s.last();
        let (d1, c1) = split_ws(s);
        if is_ws(c) {
            assert(c1.len() == 0);
            if c0.len() > 0 {
                assert(d1 == d0.push(c0));
                assert forall|i: int| 0 <= i < d1.len() implies is_word(#[trigger] d1[i]) by {
                    if i < d0.len() {
                        assert(d1[i] == d0[i]);
                        assert(is_word(split_ws(p).0[i]));
                    } else {
                        assert(d1[i] == c0);
                        assert forall|j: int| 0 <= j < c0.len() implies !is_ws(#[trigger] c0[j]) by {
                            assert(!is_ws(split_ws(p).1[j]));
                        }
                    }
                }
                assert forall|i: int, j: int| 0 <= i < d1.len() && 0 <= j < d1[i].len() implies s.contains(
                    #[trigger] d1[i][j],
                ) by {
                    if i < d0.len() {
                        assert(d1[i] == d0[i]);
                        assert(p.contains(split_ws(p).0[i][j]));
                    } else {
                        assert(d1[i] == c0);
                        assert(p.contains(split_ws(p).1[j]));
                    }
                }
            } else {
                assert(d1 == d0);
                assert forall|i: int| 0 <= i < d1.len() implies is_word(#[trigger] d1[i]) by {
                    assert(is_word(split_ws(p).0[i]));
                }
                assert forall|i: int, j: int| 0 <= i < d1.len() && 0 <= j < d1[i].len() implies s.contains(
                    #[trigger] d1[i][j],
                ) by {
                    assert(p.contains(split_ws(p).0[i][j]));
                }
            }
        } else {
            assert(d1 == d0);
            assert(c1 == c0.push(c));
            assert forall|i: int| 0 <= i < d1.len() implies is_word(#[trigger] d1[i]) by {
                assert(is_word(split_ws(p).0[i]));
            }
            assert forall|i: int, j: int| 0 <= i < d1.len() && 0 <= j < d1[i].len() implies s.contains(
                #[trigger] d1[i][j],
            ) by {
                assert(p.contains(split_ws(p).0[i][j]));
            }
            assert forall|j: int| 0 <= j < c1.len() implies !is_ws(#[trigger] c1[j]) && s.contains(c1[j]) by {
                if j < c0.len() {
                    assert(c1[j] == c0[j]);
                    assert(!is_ws(split_ws(p).1[j]));
                    assert(p.contains(split_ws(p).1[j]));
                }
            }
        }
    }
    let (done, cur) = split_ws(s);
    if cur.len() > 0 {
        assert(words(s) == done.push(cur));
        assert forall|i: int| 0 <= i < words(s).len() implies is_word(#[trigger] words(s)[i]) by {
            if i < done.len() {
                assert(words(s)[i] == done[i]);
                assert(is_word(split_ws(s).0[i]));
            } else {
                assert(words(s)[i] == cur);
                assert forall|j: int| 0 <= j < cur.len() implies !is_ws(#[trigger] cur[j]) by {
                    assert(!is_ws(split_ws(s).1[j]));
                }
            }
        }
        assert forall|i: int, j: int|
            0 <= i < words(s).len() && 0 <= j < words(s)[i].len() implies s.contains(#[trigger] words(s)[i][j]) by {
            if i < done.len() {
                assert(words(s)[i] == done[i]);
                assert(s.contains(split_ws(s).0[i][j]));
            } else {
                assert(words(s)[i] == cur);
                assert(s.contains(split_ws(s).1[j]));
            }
        }
    }
}

/// Splitting words joined by single spaces gives back the words.
pub proof fn law_words_join(ws: Seq<Seq<char>>)
    requires
        forall|i: int| 0 <= i < ws.len() ==> is_word(#[trigger] ws[i]),
    ensures
        words(join_space(ws)) == ws,
    decreases ws.len(),
{
    if ws.len() == 0 {
        assert(words(join_space(ws)) =~= ws);
    } else if ws.len() == 1 {
        assert(is_word(ws[0]));
        lemma_split_ws_word_suffix(Seq::empty(), ws[0]);
        assert(Seq::<char>::empty() + ws[0] =~= ws[0]);
        assert(Seq::<char>::empty() + ws[0] =~= ws[0]);
        assert(words(join_space(ws)) =~= ws);
    } else {
        let init = ws.drop_last();
        assert forall|i: int| 0 <= i < init.len() implies is_word(#[trigger] init[i]) by {
            assert(init[i] == ws[i]);
        }
        law_words_join(init);
        let j = join_space(init);
        assert(is_word(ws[ws.len() - 1]));
        lemma_split_ws_space(j);
        lemma_split_ws_word_suffix(j.push(' '), ws.last());
        assert(join_space(ws) =~= j.push(' ') + ws.last());
        assert(Seq::<char>::empty() + ws.last() =~= ws.last());
        assert(words(join_space(ws)) =~= ws);
    }
}

} // verus!
