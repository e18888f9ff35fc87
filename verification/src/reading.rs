//! What reading a program does to its text: formatting a line, and
//! substituting the aliases declared so far.
use vstd::prelude::*;

use crate::assembler::LineView;
use crate::semantics::{parse_alias, run_prefix, subst_word, substitute, RunState};
use crate::text::{ascii_lower, is_word, is_ws, law_words_join, lemma_trim_end_prefix, lemma_trim_start_suffix, lemma_words_are_words, trim, trim_start, words};
use crate::util::{comment_start, format_contents, remove_parentheses_spec};

verus! {

/// Before the first `;` there is no `;`.
proof fn lemma_before_comment(l: Seq<char>)
    ensures
        comment_start(l) <= l.len(),
        forall|j: int| 0 <= j < comment_start(l) ==> l[j] != ';',
    decreases l.len(),
{
    if l.len() > 0 && l[0] != ';' {
        lemma_before_comment(l.drop_first());
        assert forall|j: int| 0 <= j < comment_start(l) implies l[j] != ';' by {
            if j > 0 {
                assert(l[j] == l.drop_first()[j - 1]);
            }
        }
    }
}

/// A character mapped to ASCII lower case is no upper-case letter, and is
/// `;` only if it was `;`.
proof fn lemma_ascii_lower(c: char)
    ensures
        !('A' <= ascii_lower(c) && ascii_lower(c) <= 'Z'),
        ascii_lower(c) == ';' ==> c == ';',
{
    if 'A' <= c && c <= 'Z' {
        let u = (c as u32) + 32;
        assert(97 <= u <= 122);
        assert((u as char) as u32 == u);
    }
}

/// A formatted line is lower case: no ASCII upper-case letter and no `;`
/// is left in it, whether or not the line had a comment, and it is no
/// longer than the line.
pub proof fn law_format_lower_case(l: Seq<char>)
    ensures
        format_contents(l).len() <= l.len(),
        forall|i: int|
            0 <= i < format_contents(l).len() ==> !('A' <= #[trigger] format_contents(l)[i] && format_contents(
                l,
            )[i] <= 'Z') && format_contents(l)[i] != ';',
{
    lemma_before_comment(l);
    let p = l.take(comment_start(l) as int).map_values(|c: char| ascii_lower(c));
    assert forall|i: int| 0 <= i < p.len() implies !('A' <= #[trigger] p[i] && p[i] <= 'Z') && p[i] != ';' by {
        lemma_ascii_lower(l[i]);
    }
    let t = trim_start(p);
    lemma_trim_start_suffix(p);
    lemma_trim_end_prefix(t);
    let r = trim(p);
    assert(r == format_contents(l));
    let m = p.len() - t.len();
    assert forall|i: int| 0 <= i < r.len() implies !('A' <= #[trigger] r[i] && r[i] <= 'Z') && r[i] != ';' by {
        assert(r[i] == t[i]);
        assert(t[i] == p[i + m]);
    }
}


/// Every value of `aliases` is a word.
pub open spec fn alias_values_are_words(aliases: Map<Seq<char>, Seq<char>>) -> bool {
    forall|k: Seq<char>| aliases.contains_key(k) ==> is_word(#[trigger] aliases[k])
}

/// What substituting makes of one word is a word.
proof fn lemma_subst_word(w: Seq<char>, aliases: Map<Seq<char>, Seq<char>>)
    requires
        is_word(w),
        alias_values_are_words(aliases),
    ensures
        is_word(subst_word(w, aliases)),
{
    if !aliases.contains_key(w) {
        let stripped = remove_parentheses_spec(w);
        if aliases.contains_key(stripped) {
            let v = aliases[stripped];
            assert(is_word(v));
            let x = seq!['('] + v + seq![')'];
            assert forall|i: int| 0 <= i < x.len() implies !is_ws(#[trigger] x[i]) by {
                if 0 < i < x.len() - 1 {
                    assert(x[i] == v[i - 1]);
                }
            }
        }
    }
}

/// Substituting aliases replaces every word of a line that is a declared
/// alias by its value, and every word that is a declared alias in
/// parentheses by its value in parentheses, and leaves every other word as
/// it is, whatever the number of words in the line; the line keeps its
/// number and its number of words.
pub proof fn law_substitute_aliases(line: LineView, aliases: Map<Seq<char>, Seq<char>>)
    requires
        alias_values_are_words(aliases),
    ensures
        substitute(line, aliases).0 == line.0,
        words(substitute(line, aliases).1).len() == words(line.1).len(),
        forall|i: int|
            0 <= i < words(line.1).len() && aliases.contains_key(#[trigger] words(line.1)[i]) ==> words(
                substitute(line, aliases).1,
            )[i] == aliases[words(line.1)[i]],
        forall|i: int|
            0 <= i < words(line.1).len() && !aliases.contains_key(#[trigger] words(line.1)[i])
                && aliases.contains_key(remove_parentheses_spec(words(line.1)[i])) ==> words(
                substitute(line, aliases).1,
            )[i] == seq!['('] + aliases[remove_parentheses_spec(words(line.1)[i])] + seq![')'],
        forall|i: int|
            0 <= i < words(line.1).len() && !aliases.contains_key(#[trigger] words(line.1)[i])
                && !aliases.contains_key(remove_parentheses_spec(words(line.1)[i])) ==> words(
                substitute(line, aliases).1,
            )[i] == words(line.1)[i],
{
    let ws = words(line.1);
    lemma_words_are_words(line.1);
    let xs = ws.map_values(|w: Seq<char>| subst_word(w, aliases));
    assert forall|i: int| 0 <= i < xs.len() implies is_word(#[trigger] xs[i]) by {
        lemma_subst_word(ws[i], aliases);
    }
    law_words_join(xs);
}

/// The aliases declared while a program is read have words as values.
pub proof fn law_alias_values_are_words(
    lines: Seq<LineView>,
    n: nat,
    a0: Map<Seq<char>, Seq<char>>,
    c0: LineView,
    depth: nat,
)
    requires
        alias_values_are_words(a0),
    ensures
        run_prefix(lines, n, a0, c0, depth) matches RunState::Running { aliases, .. } ==> alias_values_are_words(
            aliases,
        ),
    decreases n,
{
    if n > 0 && n <= lines.len() {
        law_alias_values_are_words(lines, (n - 1) as nat, a0, c0, depth);
        if let RunState::Running { aliases, cur, mc, listing } = run_prefix(lines, (n - 1) as nat, a0, c0, depth) {
            let c = substitute(lines[n - 1], aliases);
            if c.1.len() != 0 && c.1.contains('=') {
                if let Ok((k, v)) = parse_alias(c, aliases) {
                    lemma_words_are_words(c.1);
                    assert(v == words(c.1)[2]);
                    assert forall|key: Seq<char>| aliases.insert(k, v).contains_key(key) implies is_word(
                        #[trigger] aliases.insert(k, v)[key],
                    ) by {
                        if key != k {
                            assert(aliases.contains_key(key));
                        }
                    }
                }
            }
        }
    }
}


/// A line without comment and without upper-case letters is only trimmed.
pub proof fn law_format_plain_line(l: Seq<char>)
    requires
        forall|i: int| 0 <= i < l.len() ==> #[trigger] l[i] != ';' && !('A' <= l[i] && l[i] <= 'Z'),
    ensures
        format_contents(l) == trim(l),
{
    crate::util::lemma_comment_start(l, l.len() as int);
    assert(l.take(l.len() as int).map_values(|c: char| ascii_lower(c)) =~= l);
}

/// A declaration `name = value`, whose value is a valid word that is no
/// alias, and where neither side has parentheses, declares `name` with the
/// value `value`.
pub proof fn law_alias_declaration(line: LineView, aliases: Map<Seq<char>, Seq<char>>, name: Seq<char>, value: Seq<char>)
    requires
        words(line.1) == seq![name, "="@, value],
        crate::semantics::arg_type(value) is Some,
        !name.contains('('),
        !value.contains('('),
        !aliases.contains_key(value),
    ensures
        parse_alias(line, aliases) == Ok::<(Seq<char>, Seq<char>), crate::semantics::ErrView>((name, value)),
{
}

} // verus!
