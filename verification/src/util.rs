//! Reading assembly text: normalising lines, splitting them into words and
//! classifying words.
use vstd::prelude::*;

use crate::assembler::{AssemblyLine, LineView};
use crate::text::{
    ascii_lower, char_is_numeric, chars_of, contains_char, dec, is_dec_digit, is_digit, is_numeric, lines,
    push_char, push_str, radix_chars, remove_ws, remove_ws_chars, split_lines, split_words, string_of,
    to_ascii_lowercase, trim, trim_chars, words,
};

verus! {

/// `word` with every white-space character removed.
pub fn remove_all_whitespace(word: &str) -> (r: String)
    ensures
        r@ == remove_ws(word@),
{
    let v = chars_of(word);
    let w = remove_ws_chars(&v);
    string_of(&w)
}

/// `word` without leading and trailing white space.
pub fn trim_whitespace(word: &str) -> (r: String)
    ensures
        r@ == trim(word@),
{
    let v = chars_of(word);
    let w = trim_chars(&v);
    string_of(&w)
}

/// How many digits `num` has in decimal.
pub fn count_digits(num: usize) -> (n: usize)
    ensures
        n == dec(num as nat).len(),
{
    let v = radix_chars(num as u64, 10);
    v.len()
}

/// The decimal numeral of a register number, 0 to 15, without leading zeros.
pub open spec fn is_register_number(d: Seq<char>) -> bool {
    ||| d.len() == 1 && is_dec_digit(d[0])
    ||| d.len() == 2 && d[0] == '1' && '0' <= d[1] && d[1] <= '5'
}

/// `word` names a register: `ra` followed by a register number, `ra0` to `ra15`.
pub open spec fn is_register_spec(word: Seq<char>) -> bool {
    word.len() >= 3 && word[0] == 'r' && word[1] == 'a' && is_register_number(word.skip(2))
}

/// Whether `word` refers to a register.
pub fn is_register(word: &str) -> (b: bool)
    ensures
        b == is_register_spec(word@),
{
    let v = chars_of(word);
    let n = v.len();
    if n < 3 || n > 4 || v[0] != 'r' || v[1] != 'a' {
        return false;
    }
    let ghost d = word@.skip(2);
    assert(d[0] == v@[2]);
    if n == 3 {
        is_digit(v[2])
    } else {
        assert(d[1] == v@[3]);
        v[2] == '1' && '0' <= v[3] && v[3] <= '5'
    }
}

/// `word` is wrapped in parentheses.
pub open spec fn is_in_parentheses_spec(word: Seq<char>) -> bool {
    word.len() > 0 && word[0] == '(' && word.last() == ')'
}

/// `word` names a base address register: a register in parentheses.
pub open spec fn is_base_addr_register_spec(word: Seq<char>) -> bool {
    is_in_parentheses_spec(word) && is_register_spec(word.subrange(1, word.len() - 1))
}

/// Whether `word` refers to a base address register.
pub fn is_base_addr_register(word: &str) -> (b: bool)
    ensures
        b == is_base_addr_register_spec(word@),
{
    if is_in_parentheses(word) {
        let v = chars_of(word);
        let mut inner: Vec<char> = Vec::new();
        let mut i: usize = 1;
        while i < v.len() - 1
            invariant
                v@ == word@,
                v@.len() >= 2,
                1 <= i <= v@.len() - 1,
                inner@ == v@.subrange(1, i as int),
            decreases v.len() - 1 - i,
        {
            inner.push(v[i]);
            assert(inner@ =~= v@.subrange(1, i + 1));
            i += 1;
        }
        let s = string_of(&inner);
        is_register(s.as_str())
    } else {
        false
    }
}

/// Whether `word` is wrapped in parentheses.
pub fn is_in_parentheses(word: &str) -> (b: bool)
    ensures
        b == is_in_parentheses_spec(word@),
        b ==> word@.len() >= 2,
{
    let v = chars_of(word);
    v.len() > 0 && v[0] == '(' && v[v.len() - 1] == ')'
}

/// Every character of `s` is an ASCII decimal digit.
pub open spec fn all_digits(s: Seq<char>) -> bool {
    forall|i: int| 0 <= i < s.len() ==> is_dec_digit(#[trigger] s[i])
}

/// `word` is an immediate value: decimal digits, with an optional leading `-`.
pub open spec fn is_immediate_value_spec(word: Seq<char>) -> bool {
    if word.len() == 0 {
        false
    } else if word[0] == '-' {
        word.len() > 1 && all_digits(word.drop_first())
    } else {
        all_digits(word)
    }
}

/// Whether `word` is an immediate value.
pub fn is_immediate_value(word: &str) -> (b: bool)
    ensures
        b == is_immediate_value_spec(word@),
{
    let v = chars_of(word);
    if v.len() == 0 {
        return false;
    }
    let start: usize = if v[0] == '-' {
        if v.len() <= 1 {
            return false;
        }
        1
    } else {
        0
    };
    let mut i: usize = start;
    while i < v.len()
        invariant
            v@ == word@,
            v@.len() > 0,
            start == (if v@[0] == '-' { 1usize } else { 0usize }),
            start == 1 ==> v@.len() > 1,
            start <= i <= v@.len(),
            forall|j: int| start <= j < i ==> is_dec_digit(#[trigger] v@[j]),
        decreases v.len() - i,
    {
        if !is_digit(v[i]) {
            proof {
                if start == 1 {
                    assert(v@.drop_first()[i - 1] == v@[i as int]);
                    assert(!is_dec_digit(v@.drop_first()[i - 1]));
                } else {
                    assert(!is_dec_digit(word@[i as int]));
                }
            }
            return false;
        }
        i += 1;
    }
    proof {
        if start == 1 {
            assert forall|j: int| 0 <= j < v@.drop_first().len() implies is_dec_digit(#[trigger] v@.drop_first()[j]) by {
                assert(v@.drop_first()[j] == v@[j + 1]);
            }
        }
    }
    true
}

/// The position of the first `;` in `l`, or its length if there is none.
pub open spec fn comment_start(l: Seq<char>) -> nat
    decreases l.len(),
{
    if l.len() == 0 || l[0] == ';' {
        0
    } else {
        1 + comment_start(l.drop_first())
    }
}

pub(crate) proof fn lemma_comment_start(l: Seq<char>, i: int)
    requires
        0 <= i <= l.len(),
        forall|j: int| 0 <= j < i ==> l[j] != ';',
        i == l.len() || l[i] == ';',
    ensures
        comment_start(l) == i,
    decreases l.len(),
{
    if i > 0 {
        lemma_comment_start(l.drop_first(), i - 1);
    }
}

/// A line as the assembler reads it: lower-case, without its comment, and
/// trimmed.
pub open spec fn format_contents(l: Seq<char>) -> Seq<char> {
    trim(l.take(comment_start(l) as int).map_values(|c: char| ascii_lower(c)))
}

/// Formats `line` into an assembly line numbered `*line_num`, and advances
/// the line number.
pub fn format_line(line_num: &mut usize, line: &str) -> (r: AssemblyLine)
    requires
        *old(line_num) < usize::MAX,
    ensures
        r@ == (*old(line_num), format_contents(line@)),
        *final(line_num) == *old(line_num) + 1,
{
    let number = *line_num;
    *line_num += 1;
    let v = chars_of(line);
    let mut result: Vec<char> = Vec::new();
    let mut i: usize = 0;
    while i < v.len() && v[i] != ';'
        invariant
            v@ == line@,
            i <= v.len(),
            forall|j: int| 0 <= j < i ==> v@[j] != ';',
            result@ == v@.take(i as int).map_values(|c: char| ascii_lower(c)),
        decreases v.len() - i,
    {
        let c = v[i];
        result.push(to_ascii_lowercase(c));
        assert(result@ =~= v@.take(i + 1).map_values(|c: char| ascii_lower(c)));
        i += 1;
    }
    proof {
        lemma_comment_start(line@, i as int);
    }
    let contents = string_of(&trim_chars(&result));
    AssemblyLine { num: number, contents }
}

/// The numbered, formatted, non-empty lines among `ls`, the first line of
/// `ls` being number 1.
pub open spec fn numbered_lines(ls: Seq<Seq<char>>) -> Seq<LineView>
    decreases ls.len(),
{
    if ls.len() == 0 {
        seq![]
    } else {
        let prev = numbered_lines(ls.drop_last());
        let c = format_contents(ls.last());
        if c.len() > 0 {
            prev.push((ls.len() as usize, c))
        } else {
            prev
        }
    }
}

/// The lines of `code` as the assembler reads them.
pub open spec fn assembly_lines(code: Seq<char>) -> Seq<LineView> {
    numbered_lines(lines(code))
}

/// The views of a vector of assembly lines.
pub open spec fn lines_view(v: Seq<AssemblyLine>) -> Seq<LineView> {
    v.map_values(|l: AssemblyLine| l@)
}

/// Splits `assembly_code` into numbered lines, dropping those that are
/// empty once formatted.
pub fn assembly_str_to_line_vec(assembly_code: &str) -> (r: Vec<AssemblyLine>)
    requires
        lines(assembly_code@).len() < usize::MAX,
    ensures
        lines_view(r@) == assembly_lines(assembly_code@),
{
    let chars = chars_of(assembly_code);
    let ls = split_lines(&chars);
    let ghost lsv = ls@.map_values(|l: Vec<char>| l@);
    let mut out: Vec<AssemblyLine> = Vec::new();
    let mut line_num: usize = 1;
    let mut i: usize = 0;
    while i < ls.len()
        invariant
            lsv == lines(assembly_code@),
            lsv == ls@.map_values(|l: Vec<char>| l@),
            lsv.len() < usize::MAX,
            i <= ls.len(),
            line_num == i + 1,
            lines_view(out@) == numbered_lines(lsv.take(i as int)),
        decreases ls.len() - i,
    {
        let s = string_of(&ls[i]);
        let line = format_line(&mut line_num, s.as_str());
        assert(lsv.take(i + 1).drop_last() =~= lsv.take(i as int));
        assert(lsv.take(i + 1).last() == lsv[i as int]);
        if !line.contents.as_str().is_empty() {
            out.push(line);
        }
        assert(lines_view(out@) =~= numbered_lines(lsv.take(i + 1)));
        i += 1;
    }
    assert(lsv.take(ls.len() as int) =~= lsv);
    out
}

/// The words of `line`.
pub fn split_args(line: &AssemblyLine) -> (r: Vec<String>)
    ensures
        r@.map_values(|s: String| s@) == words(line.contents@),
{
    let v = chars_of(line.contents.as_str());
    let ws = split_words(&v);
    let mut out: Vec<String> = Vec::new();
    let mut i: usize = 0;
    while i < ws.len()
        invariant
            i <= ws.len(),
            out@.len() == i,
            forall|j: int| 0 <= j < i ==> (#[trigger] out@[j])@ == ws@[j]@,
        decreases ws.len() - i,
    {
        let s = string_of(&ws[i]);
        out.push(s);
        i += 1;
    }
    assert(out@.map_values(|s: String| s@) =~= ws@.map_values(|w: Vec<char>| w@));
    out
}

/// `word` without parentheses.
pub open spec fn remove_parentheses_spec(word: Seq<char>) -> Seq<char> {
    word.filter(|c: char| c != '(' && c != ')')
}

/// `word` with all parentheses removed.
pub fn remove_parentheses(word: &str) -> (r: String)
    ensures
        r@ == remove_parentheses_spec(word@),
{
    let v = chars_of(word);
    let mut output = String::new();
    let mut i: usize = 0;
    while i < v.len()
        invariant
            v@ == word@,
            i <= v.len(),
            output@ == remove_parentheses_spec(v@.take(i as int)),
        decreases v.len() - i,
    {
        let c = v[i];
        assert(v@.take(i + 1).drop_last() =~= v@.take(i as int));
        assert(remove_parentheses_spec(v@.take(i + 1)) == remove_parentheses_spec(v@.take(i as int)) + (if c
            != '(' && c != ')' {
            seq![c]
        } else {
            seq![]
        })) by {
            reveal(Seq::filter);
            assert(v@.take(i + 1).last() == c);
        }
        if c != '(' && c != ')' {
            push_char(&mut output, c);
        }
        assert(output@ =~= remove_parentheses_spec(v@.take(i + 1)));
        i += 1;
    }
    assert(v@.take(v.len() as int) =~= v@);
    output
}

/// The numeric characters of `word`.
pub open spec fn remove_non_numeric_spec(word: Seq<char>) -> Seq<char> {
    word.filter(|c: char| char_is_numeric(c))
}

/// Every character of `s` is ASCII.
pub open spec fn all_ascii(s: Seq<char>) -> bool {
    forall|i: int| 0 <= i < s.len() ==> (#[trigger] s[i] as u32) < 0x80
}

/// The numeric characters of `word`: on ASCII text its decimal digits.
pub open spec fn numeric_part(word: Seq<char>) -> Seq<char> {
    if all_ascii(word) {
        word.filter(|c: char| is_dec_digit(c))
    } else {
        remove_non_numeric_spec(word)
    }
}

/// `word` with all non-numeric characters removed; on ASCII text, the
/// decimal digits of `word`.
pub fn remove_non_numeric(word: &str) -> (r: String)
    ensures
        r@ == remove_non_numeric_spec(word@),
        all_ascii(word@) ==> r@ == word@.filter(|c: char| is_dec_digit(c)),
        r@ == numeric_part(word@),
{
    let v = chars_of(word);
    let mut output = String::new();
    let mut i: usize = 0;
    while i < v.len()
        invariant
            v@ == word@,
            i <= v.len(),
            output@ == remove_non_numeric_spec(v@.take(i as int)),
            all_ascii(v@.take(i as int)) ==> output@ == v@.take(i as int).filter(|c: char| is_dec_digit(c)),
        decreases v.len() - i,
    {
        let c = v[i];
        let ghost before = output@;
        assert(v@.take(i + 1).drop_last() =~= v@.take(i as int));
        assert(remove_non_numeric_spec(v@.take(i + 1)) == remove_non_numeric_spec(v@.take(i as int)) + (
        if char_is_numeric(c) {
            seq![c]
        } else {
            seq![]
        })) by {
            reveal(Seq::filter);
            assert(v@.take(i + 1).last() == c);
        }
        assert(v@.take(i + 1).filter(|c: char| is_dec_digit(c)) == v@.take(i as int).filter(
            |c: char| is_dec_digit(c),
        ) + (if is_dec_digit(c) {
            seq![c]
        } else {
            seq![]
        })) by {
            reveal(Seq::filter);
            assert(v@.take(i + 1).last() == c);
        }
        let b = is_numeric(c);
        if b {
            push_char(&mut output, c);
        }
        assert(output@ =~= remove_non_numeric_spec(v@.take(i + 1)));
        proof {
            if all_ascii(v@.take(i + 1)) {
                assert(v@.take(i + 1)[i as int] == c);
                assert(all_ascii(v@.take(i as int))) by {
                    assert forall|k: int| 0 <= k < i implies (#[trigger] v@.take(i as int)[k] as u32) < 0x80 by {
                        assert(v@.take(i as int)[k] == v@.take(i + 1)[k]);
                    }
                }
                assert(output@ =~= v@.take(i + 1).filter(|c: char| is_dec_digit(c)));
            }
        }
        i += 1;
    }
    assert(v@.take(v.len() as int) =~= v@);
    output
}

/// Whether `line` declares an alias (holds `=`).
pub fn is_alias(line: &str) -> (b: bool)
    ensures
        b == line@.contains('='),
{
    contains_char(line, '=')
}

/// `word` in parentheses.
pub fn add_parentheses(word: &str) -> (r: String)
    ensures
        r@ == seq!['('] + word@ + seq![')'],
{
    let mut r = String::new();
    push_char(&mut r, '(');
    push_str(&mut r, word);
    push_char(&mut r, ')');
    assert(r@ =~= seq!['('] + word@ + seq![')']);
    r
}

} // verus!

verus! {

/// The registers are exactly `ra0` to `ra15`: `ra` followed by a number from
/// 0 to 15 written in decimal.
pub proof fn law_register_names(word: Seq<char>)
    ensures
        is_register_spec(word) <==> exists|n: nat| n <= 15 && word == "ra"@ + #[trigger] dec(n),
{
    reveal_strlit("ra");
    if is_register_spec(word) {
        let n: nat = if word.len() == 3 {
            (word[2] as nat - 48) as nat
        } else {
            (10 + word[3] as nat - 48) as nat
        };
        if word.len() == 3 {
            assert(dec(n) == seq![crate::text::digit_char(n)]);
            assert(crate::text::digit_char(n) == word[2]);
        } else {
            assert(n / 10 == 1 && n % 10 == word[3] as nat - 48);
            assert(dec(n) == dec(1).push(crate::text::digit_char(n % 10)));
            assert(dec(1) == seq![crate::text::digit_char(1)]);
            assert(crate::text::digit_char(1) == '1');
            assert(crate::text::digit_char(n % 10) == word[3]);
        }
        assert(word =~= "ra"@ + dec(n));
    }
    if exists|n: nat| n <= 15 && word == "ra"@ + #[trigger] dec(n) {
        let n = choose|n: nat| n <= 15 && word == "ra"@ + #[trigger] dec(n);
        if n < 10 {
            assert(dec(n) == seq![crate::text::digit_char(n)]);
            assert(word.skip(2) =~= dec(n));
        } else {
            assert(dec(n) == dec(1).push(crate::text::digit_char(n % 10)));
            assert(dec(1) == seq![crate::text::digit_char(1)]);
            assert(word.skip(2) =~= dec(n));
        }
    }
}

} // verus!
