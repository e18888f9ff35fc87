//! The lines that an instruction with a large immediate value expands into:
//! what they compute, and that they never expand again.
use vstd::prelude::*;

use crate::assembler::{Arg, LineView};
use crate::machine_code::lemma_arg_types_each;
use crate::semantics::{
    arg_type, arg_types, i_type, pseudo_type, instruction_outcome, instruction_step, jmp_i_type, li_instr, load_large_imm,
    mem_type, r_type_of, rat, run_prefix, run_program, subst_word, substitute, ErrView, RunState, Step,
};
use crate::text::{
    dec, digit_char, is_word, is_ws, join_space, law_parse_dec, law_words_join, lemma_words_are_words, parse_usize,
    words,
};
use crate::util::{is_base_addr_register_spec, is_register_spec, remove_parentheses_spec};

verus! {

// ---------------------------------------------------------------------------
// Laws of the expansion of large immediate values
// ---------------------------------------------------------------------------

/// What the temporary register holds after one of the lines that load an
/// immediate, run on the CPU: `li ra14 v` sets it to `v`, `sll ra14 ra14 k`
/// shifts it left by `k` bits, `addi ra14 ra14 v` adds `v`. Any other line
/// is not such a line (`None`).
pub open spec fn rat_step(prev: Option<nat>, ws: Seq<Seq<char>>) -> Option<nat> {
    if ws.len() == 3 && ws[0] == "li"@ && ws[1] == rat() {
        match parse_usize(ws[2]) {
            Ok(v) => Some(v),
            Err(_) => None,
        }
    } else if ws.len() == 4 && ws[0] == "sll"@ && ws[1] == rat() && ws[2] == rat() {
        match (prev, parse_usize(ws[3])) {
            (Some(r), Ok(k)) => Some(r * vstd::arithmetic::power2::pow2(k)),
            _ => None,
        }
    } else if ws.len() == 4 && ws[0] == "addi"@ && ws[1] == rat() && ws[2] == rat() {
        match (prev, parse_usize(ws[3])) {
            (Some(r), Ok(v)) => Some(r + v),
            _ => None,
        }
    } else {
        None
    }
}

/// What the temporary register holds after `lines` run on the CPU.
pub open spec fn rat_after(lines: Seq<LineView>) -> Option<nat>
    decreases lines.len(),
{
    if lines.len() == 0 {
        None
    } else {
        rat_step(rat_after(lines.drop_last()), words(lines.last().1))
    }
}

pub(crate) proof fn lemma_dec_digits(n: nat)
    ensures
        dec(n).len() > 0,
        forall|i: int| 0 <= i < dec(n).len() ==> '0' <= #[trigger] dec(n)[i] && dec(n)[i] <= '9',
    decreases n,
{
    if n >= 10 {
        assert(n / 10 < n);
        lemma_dec_digits(n / 10);
        let s = dec(n);
        assert(s.drop_last() == dec(n / 10));
        assert forall|i: int| 0 <= i < s.len() implies '0' <= #[trigger] s[i] && s[i] <= '9' by {
            if i < s.len() - 1 {
                assert(s[i] == dec(n / 10)[i]);
            } else {
                let d = n % 10;
                assert(s[i] == digit_char(d));
                assert(digit_char(d) as nat == d + 48);
            }
        }
    } else {
        assert(dec(n) == seq![digit_char(n)]);
        assert(digit_char(n) as nat == n + 48);
    }
}

/// A decimal number is a word.
pub(crate) proof fn lemma_dec_is_word(n: nat)
    ensures
        is_word(dec(n)),
        !dec(n).contains('='),
        !dec(n).contains('('),
{
    lemma_dec_digits(n);
    assert forall|i: int| 0 <= i < dec(n).len() implies !is_ws(#[trigger] dec(n)[i]) by {
        assert('0' <= dec(n)[i] && dec(n)[i] <= '9');
    }
    if dec(n).contains('=') {
        let i = choose|i: int| 0 <= i < dec(n).len() && dec(n)[i] == '=';
        assert('0' <= dec(n)[i]);
    }
    if dec(n).contains('(') {
        let i = choose|i: int| 0 <= i < dec(n).len() && dec(n)[i] == '(';
        assert('0' <= dec(n)[i]);
    }
}

/// Three words joined by single spaces.
pub(crate) proof fn lemma_join3(a: Seq<char>, b: Seq<char>, c: Seq<char>)
    ensures
        join_space(seq![a, b, c]) == a + seq![' '] + b + seq![' '] + c,
{
    let ws = seq![a, b, c];
    assert(seq![a].len() == 1);
    assert(join_space(seq![a]) == a);
    assert(seq![a, b].drop_last() =~= seq![a]);
    assert(join_space(seq![a, b]) == a + seq![' '] + b);
    assert(ws.drop_last() =~= seq![a, b]);
    assert(ws.last() == c);
}

/// Four words joined by single spaces.
pub(crate) proof fn lemma_join4(a: Seq<char>, b: Seq<char>, c: Seq<char>, d: Seq<char>)
    ensures
        join_space(seq![a, b, c, d]) == a + seq![' '] + b + seq![' '] + c + seq![' '] + d,
{
    let ws = seq![a, b, c, d];
    lemma_join3(a, b, c);
    assert(ws.drop_last() =~= seq![a, b, c]);
    assert(ws.last() == d);
}

/// The words of `li ra14 x`.
proof fn lemma_li_words(x: nat)
    ensures
        words("li ra14 "@ + dec(x)) == seq!["li"@, rat(), dec(x)],
        "li ra14 "@ + dec(x) == join_space(seq!["li"@, rat(), dec(x)]),
{
    reveal_strlit("li ra14 ");
    reveal_strlit("li");
    reveal_strlit("ra14");
    lemma_dec_is_word(x);
    let ws = seq!["li"@, rat(), dec(x)];
    assert(is_word(ws[0]));
    assert(is_word(ws[1]));
    assert(is_word(ws[2]));
    law_words_join(ws);
    lemma_join3(ws[0], ws[1], ws[2]);
    assert(join_space(ws) =~= "li ra14 "@ + dec(x));
}

/// The words of `addi ra14 ra14 x`.
proof fn lemma_addi_words(x: nat)
    ensures
        words("addi ra14 ra14 "@ + dec(x)) == seq!["addi"@, rat(), rat(), dec(x)],
        "addi ra14 ra14 "@ + dec(x) == join_space(seq!["addi"@, rat(), rat(), dec(x)]),
{
    reveal_strlit("addi ra14 ra14 ");
    reveal_strlit("addi");
    reveal_strlit("ra14");
    lemma_dec_is_word(x);
    let ws = seq!["addi"@, rat(), rat(), dec(x)];
    assert(is_word(ws[0]));
    assert(is_word(ws[1]));
    assert(is_word(ws[2]));
    assert(is_word(ws[3]));
    law_words_join(ws);
    lemma_join4(ws[0], ws[1], ws[2], ws[3]);
    assert(join_space(ws) =~= "addi ra14 ra14 "@ + dec(x));
}

/// The words of `sll ra14 ra14 4` and `sll ra14 ra14 8`.
proof fn lemma_sll_words()
    ensures
        words("sll ra14 ra14 4"@) == seq!["sll"@, rat(), rat(), dec(4)],
        words("sll ra14 ra14 8"@) == seq!["sll"@, rat(), rat(), dec(8)],
        "sll ra14 ra14 4"@ == join_space(seq!["sll"@, rat(), rat(), dec(4)]),
        "sll ra14 ra14 8"@ == join_space(seq!["sll"@, rat(), rat(), dec(8)]),
{
    reveal_strlit("sll ra14 ra14 4");
    reveal_strlit("sll ra14 ra14 8");
    reveal_strlit("sll");
    reveal_strlit("ra14");
    assert(dec(4) == seq!['4']);
    assert(dec(8) == seq!['8']);
    let w4 = seq!["sll"@, rat(), rat(), dec(4)];
    let w8 = seq!["sll"@, rat(), rat(), dec(8)];
    assert(is_word(w4[0]) && is_word(w4[1]) && is_word(w4[2]) && is_word(w4[3]));
    assert(is_word(w8[3]));
    law_words_join(w4);
    law_words_join(w8);
    lemma_join4(w4[0], w4[1], w4[2], w4[3]);
    lemma_join4(w8[0], w8[1], w8[2], w8[3]);
    assert(join_space(w4) =~= "sll ra14 ra14 4"@);
    assert(join_space(w8) =~= "sll ra14 ra14 8"@);
}

/// After a line `li ra14 x`, the temporary register holds `x`.
proof fn lemma_rat_li(lines: Seq<LineView>, x: nat)
    requires
        lines.len() > 0,
        lines.last().1 == "li ra14 "@ + dec(x),
        x <= 255,
    ensures
        rat_after(lines) == Some(x),
{
    reveal_strlit("li");
    reveal_strlit("ra14");
    lemma_li_words(x);
    law_parse_dec(x);
    let ws = words(lines.last().1);
    assert(ws.len() == 3 && ws[0] == "li"@ && ws[1] == rat());
}

/// After a line `addi ra14 ra14 x`, the temporary register holds `x` more.
proof fn lemma_rat_addi(lines: Seq<LineView>, x: nat, r: nat)
    requires
        lines.len() > 0,
        lines.last().1 == "addi ra14 ra14 "@ + dec(x),
        x <= 255,
        rat_after(lines.drop_last()) == Some(r),
    ensures
        rat_after(lines) == Some(r + x),
{
    reveal_strlit("li");
    reveal_strlit("sll");
    reveal_strlit("addi");
    reveal_strlit("ra14");
    lemma_addi_words(x);
    law_parse_dec(x);
    let ws = words(lines.last().1);
    assert(ws.len() == 4 && ws[0] == "addi"@ && ws[1] == rat() && ws[2] == rat());
    assert(ws[0].len() != "li"@.len() && ws[0][0] != "sll"@[0]);
}

/// After a line `sll ra14 ra14 4`, the temporary register holds 16 times as much.
proof fn lemma_rat_sll4(lines: Seq<LineView>, r: nat)
    requires
        lines.len() > 0,
        lines.last().1 == "sll ra14 ra14 4"@,
        rat_after(lines.drop_last()) == Some(r),
    ensures
        rat_after(lines) == Some(r * 16),
{
    reveal_strlit("li");
    reveal_strlit("sll");
    reveal_strlit("ra14");
    vstd::arithmetic::power2::lemma2_to64();
    lemma_sll_words();
    law_parse_dec(4);
    let ws = words(lines.last().1);
    assert(ws.len() == 4 && ws[0] == "sll"@ && ws[1] == rat() && ws[2] == rat());
    assert(ws[0].len() != "li"@.len());
}

/// After a line `sll ra14 ra14 8`, the temporary register holds 256 times as much.
proof fn lemma_rat_sll8(lines: Seq<LineView>, r: nat)
    requires
        lines.len() > 0,
        lines.last().1 == "sll ra14 ra14 8"@,
        rat_after(lines.drop_last()) == Some(r),
    ensures
        rat_after(lines) == Some(r * 256),
{
    reveal_strlit("li");
    reveal_strlit("sll");
    reveal_strlit("ra14");
    vstd::arithmetic::power2::lemma2_to64();
    lemma_sll_words();
    law_parse_dec(8);
    let ws = words(lines.last().1);
    assert(ws.len() == 4 && ws[0] == "sll"@ && ws[1] == rat() && ws[2] == rat());
    assert(ws[0].len() != "li"@.len());
}

/// The lines that `load_large_imm` generates leave exactly the immediate
/// value in the temporary register: the expansion of a pseudo-instruction
/// loads the value the programmer wrote.
pub proof fn law_load_large_imm(imm: nat)
    requires
        imm <= 65535,
    ensures
        rat_after(load_large_imm(imm)) == Some(imm),
{
    let lines = load_large_imm(imm);
    if imm <= 255 {
        lemma_rat_li(lines, imm);
    } else {
        let hi = (imm / 256) % 256;
        let mid = (imm / 16) % 16;
        let lo = imm % 16;
        assert(imm == hi * 256 + mid * 16 + lo) by (nonlinear_arith)
            requires
                imm <= 65535,
                hi == (imm / 256) % 256,
                mid == (imm / 16) % 16,
                lo == imm % 16,
        ;
        let first = seq![(0usize, "li ra14 "@ + dec(hi))];
        lemma_rat_li(first, hi);
        if mid != 0 {
            let l1 = first.push((1usize, "sll ra14 ra14 4"@));
            let l2 = l1.push((2usize, "addi ra14 ra14 "@ + dec(mid)));
            let l3 = l2.push((3usize, "sll ra14 ra14 4"@));
            assert(l1.drop_last() == first);
            lemma_rat_sll4(l1, hi);
            assert(l2.drop_last() == l1);
            lemma_rat_addi(l2, mid, hi * 16);
            assert(l3.drop_last() == l2);
            lemma_rat_sll4(l3, hi * 16 + mid);
            let middle = first + seq![
                (1usize, "sll ra14 ra14 4"@),
                (2usize, "addi ra14 ra14 "@ + dec(mid)),
                (3usize, "sll ra14 ra14 4"@),
            ];
            assert(middle =~= l3);
            assert((hi * 16 + mid) * 16 == hi * 256 + mid * 16);
            if lo != 0 {
                let l4 = middle.push((middle.len() as usize, "addi ra14 ra14 "@ + dec(lo)));
                assert(l4.drop_last() == middle);
                lemma_rat_addi(l4, lo, (hi * 16 + mid) * 16);
                assert(lines == l4);
            } else {
                assert(lines == middle);
            }
        } else {
            let middle = first.push((1usize, "sll ra14 ra14 8"@));
            assert(middle.drop_last() == first);
            lemma_rat_sll8(middle, hi);
            if lo != 0 {
                let l4 = middle.push((middle.len() as usize, "addi ra14 ra14 "@ + dec(lo)));
                assert(l4.drop_last() == middle);
                lemma_rat_addi(l4, lo, hi * 256);
                assert(lines == l4);
            } else {
                assert(lines == middle);
            }
        }
    }
}


// ---------------------------------------------------------------------------
// The expanded lines never expand again
// ---------------------------------------------------------------------------

/// The words `ws` of an instruction that may expand into several lines: an
/// immediate value too large for its field.
spec fn big_imm(ws: Seq<Seq<char>>) -> bool {
    ||| ws.len() == 4 && arg_type(ws[0]) == Some(Arg::ITypeInstr) && (parse_usize(ws[3]) matches Ok(v) && v > 15)
    ||| ws.len() == 3 && arg_type(ws[0]) == Some(Arg::LiInstr) && (parse_usize(ws[2]) matches Ok(v) && v > 255)
    ||| ws.len() == 4 && arg_type(ws[0]) == Some(Arg::MemInstr) && (parse_usize(ws[2]) matches Ok(v) && v > 15)
    ||| ws.len() == 2 && arg_type(ws[0]) == Some(Arg::ITypeJmp) && (parse_usize(ws[1]) matches Ok(v) && v > 4095)
    ||| ws.len() == 4 && arg_type(ws[0]) == Some(Arg::PseudoInstr)
}

/// A generated line that, read by a fresh assembler, is no alias
/// declaration and cannot expand.
spec fn closed(line: LineView) -> bool {
    let c = substitute(line, Map::empty());
    !c.1.contains('=') && !big_imm(words(c.1))
}

/// Words without `=` joined by spaces hold no `=`.
pub(crate) proof fn lemma_join_no_eq(ws: Seq<Seq<char>>)
    requires
        forall|i: int| 0 <= i < ws.len() ==> !(#[trigger] ws[i]).contains('='),
    ensures
        !join_space(ws).contains('='),
    decreases ws.len(),
{
    if ws.len() == 1 {
        assert(!ws[0].contains('='));
    } else if ws.len() > 1 {
        let p = ws.drop_last();
        assert forall|i: int| 0 <= i < p.len() implies !(#[trigger] p[i]).contains('=') by {
            assert(p[i] == ws[i]);
        }
        lemma_join_no_eq(p);
        let a = join_space(p);
        let l = ws.last();
        assert(!l.contains('='));
        let j = a + seq![' '] + l;
        assert(join_space(ws) == j);
        if j.contains('=') {
            let k = choose|k: int| 0 <= k < j.len() && j[k] == '=';
            if k < a.len() {
                assert(a[k] == j[k]);
            } else if k > a.len() {
                assert(l[k - a.len() - 1] == j[k]);
            }
        }
    }
}

/// A line whose text is words joined by single spaces is left as it is by
/// substituting no alias, and its words are those words.
pub(crate) proof fn lemma_subst_empty(ws: Seq<Seq<char>>, n: usize)
    requires
        forall|i: int| 0 <= i < ws.len() ==> is_word(#[trigger] ws[i]),
    ensures
        words(join_space(ws)) == ws,
        substitute((n, join_space(ws)), Map::empty()) == (n, join_space(ws)),
{
    law_words_join(ws);
    let m = Map::<Seq<char>, Seq<char>>::empty();
    assert(ws.map_values(|w: Seq<char>| subst_word(w, m)) =~= ws);
}

/// A generated line made of words without `=`, that cannot expand, is closed.
proof fn lemma_closed_of(ws: Seq<Seq<char>>, n: usize)
    requires
        forall|i: int| 0 <= i < ws.len() ==> is_word(#[trigger] ws[i]),
        forall|i: int| 0 <= i < ws.len() ==> !(#[trigger] ws[i]).contains('='),
        !big_imm(ws),
    ensures
        closed((n, join_space(ws))),
{
    lemma_subst_empty(ws, n);
    lemma_join_no_eq(ws);
}

/// The kinds of the operations that generated lines use.
pub(crate) proof fn lemma_op_types()
    ensures
        arg_type("li"@) == Some(Arg::LiInstr),
        arg_type("sll"@) == Some(Arg::ITypeInstr),
        arg_type("addi"@) == Some(Arg::ITypeInstr),
        arg_type("add"@) == Some(Arg::RTypeInstr),
        arg_type("and"@) == Some(Arg::RTypeInstr),
        arg_type("or"@) == Some(Arg::RTypeInstr),
        arg_type("sub"@) == Some(Arg::RTypeInstr),
        arg_type("jmpr"@) == Some(Arg::RTypeJmp),
{
    reveal_strlit("add");
    reveal_strlit("and");
    reveal_strlit("or");
    reveal_strlit("sub");
    reveal_strlit("addi");
    reveal_strlit("sll");
    reveal_strlit("andi");
    reveal_strlit("ori");
    reveal_strlit("subi");
    reveal_strlit("li");
    reveal_strlit("lw");
    reveal_strlit("sw");
    reveal_strlit("jmpr");
    reveal_strlit("jmpi");
    // Each name differs from the names tested before it, by its length or a character.
    assert("and"@[1] != "add"@[1]);
    assert("sub"@[0] != "add"@[0] && "sub"@[0] != "and"@[0]);
    assert("or"@.len() != "add"@.len() && "or"@.len() != "and"@.len());
    assert("addi"@.len() != "add"@.len() && "addi"@.len() != "and"@.len() && "addi"@.len() != "or"@.len()
        && "addi"@.len() != "sub"@.len());
    assert("sll"@[0] != "add"@[0] && "sll"@[0] != "and"@[0] && "sll"@.len() != "or"@.len() && "sll"@[1]
        != "sub"@[1] && "sll"@.len() != "addi"@.len());
    assert("li"@.len() != "add"@.len() && "li"@.len() != "and"@.len() && "li"@[0] != "or"@[0] && "li"@.len()
        != "sub"@.len() && "li"@.len() != "addi"@.len() && "li"@.len() != "sll"@.len() && "li"@.len()
        != "andi"@.len() && "li"@.len() != "ori"@.len() && "li"@.len() != "subi"@.len());
    assert("jmpr"@.len() != "add"@.len() && "jmpr"@.len() != "and"@.len() && "jmpr"@.len() != "or"@.len()
        && "jmpr"@.len() != "sub"@.len() && "jmpr"@[0] != "addi"@[0] && "jmpr"@.len() != "sll"@.len()
        && "jmpr"@[0] != "andi"@[0] && "jmpr"@.len() != "ori"@.len() && "jmpr"@[0] != "subi"@[0]
        && "jmpr"@.len() != "li"@.len() && "jmpr"@.len() != "lw"@.len() && "jmpr"@.len() != "sw"@.len());
}


/// The fixed words of generated lines are words without `=`.
pub(crate) proof fn lemma_fixed_words()
    ensures
        is_word("li"@) && !"li"@.contains('='),
        is_word("sll"@) && !"sll"@.contains('='),
        is_word("addi"@) && !"addi"@.contains('='),
        is_word(rat()) && !rat().contains('='),
        is_word("0"@) && !"0"@.contains('='),
        is_word("(ra14)"@) && !"(ra14)"@.contains('='),
        is_word("add"@) && !"add"@.contains('='),
        is_word("and"@) && !"and"@.contains('='),
        is_word("or"@) && !"or"@.contains('='),
        is_word("sub"@) && !"sub"@.contains('='),
        is_word("jmpr"@) && !"jmpr"@.contains('='),
{
    reveal_strlit("add");
    reveal_strlit("and");
    reveal_strlit("or");
    reveal_strlit("sub");
    reveal_strlit("jmpr");
    assert(is_word("add"@) && is_word("and"@) && is_word("or"@) && is_word("sub"@) && is_word("jmpr"@));
    assert(forall|i: int| 0 <= i < "add"@.len() ==> "add"@[i] != '=');
    assert(forall|i: int| 0 <= i < "and"@.len() ==> "and"@[i] != '=');
    assert(forall|i: int| 0 <= i < "or"@.len() ==> "or"@[i] != '=');
    assert(forall|i: int| 0 <= i < "sub"@.len() ==> "sub"@[i] != '=');
    assert(forall|i: int| 0 <= i < "jmpr"@.len() ==> "jmpr"@[i] != '=');
    reveal_strlit("li");
    reveal_strlit("sll");
    reveal_strlit("addi");
    reveal_strlit("ra14");
    reveal_strlit("0");
    reveal_strlit("(ra14)");
    assert(is_word("li"@) && is_word("sll"@) && is_word("addi"@) && is_word(rat()) && is_word("0"@)
        && is_word("(ra14)"@));
    assert(forall|i: int| 0 <= i < "li"@.len() ==> "li"@[i] != '=');
    assert(forall|i: int| 0 <= i < "sll"@.len() ==> "sll"@[i] != '=');
    assert(forall|i: int| 0 <= i < "addi"@.len() ==> "addi"@[i] != '=');
    assert(forall|i: int| 0 <= i < rat().len() ==> rat()[i] != '=');
    assert(forall|i: int| 0 <= i < "0"@.len() ==> "0"@[i] != '=');
    assert(forall|i: int| 0 <= i < "(ra14)"@.len() ==> "(ra14)"@[i] != '=');
}

/// Every line that loads a large immediate is closed.
proof fn lemma_load_closed(imm: nat)
    requires
        imm <= 65535,
    ensures
        forall|i: int| 0 <= i < load_large_imm(imm).len() ==> closed(#[trigger] load_large_imm(imm)[i]),
{
    lemma_fixed_words();
    lemma_op_types();
    let lines = load_large_imm(imm);
    let hi = if imm <= 255 { imm } else { (imm / 256) % 256 };
    let mid = (imm / 16) % 16;
    let lo = imm % 16;
    lemma_li_words(hi);
    lemma_dec_is_word(hi);
    law_parse_dec(hi);
    lemma_closed_of(seq!["li"@, rat(), dec(hi)], 0usize);
    lemma_sll_words();
    law_parse_dec(4);
    law_parse_dec(8);
    lemma_dec_is_word(4);
    lemma_dec_is_word(8);
    lemma_closed_of(seq!["sll"@, rat(), rat(), dec(4)], 1usize);
    lemma_closed_of(seq!["sll"@, rat(), rat(), dec(8)], 1usize);
    lemma_closed_of(seq!["sll"@, rat(), rat(), dec(4)], 3usize);
    lemma_addi_words(mid);
    lemma_dec_is_word(mid);
    law_parse_dec(mid);
    lemma_closed_of(seq!["addi"@, rat(), rat(), dec(mid)], 2usize);
    lemma_addi_words(lo);
    lemma_dec_is_word(lo);
    law_parse_dec(lo);
    lemma_closed_of(seq!["addi"@, rat(), rat(), dec(lo)], 2usize);
    lemma_closed_of(seq!["addi"@, rat(), rat(), dec(lo)], 4usize);
    assert forall|i: int| 0 <= i < lines.len() implies closed(#[trigger] lines[i]) by {
        if imm > 255 {
            let first = seq![(0usize, "li ra14 "@ + dec(hi))];
            if mid != 0 {
                let middle = first + seq![
                    (1usize, "sll ra14 ra14 4"@),
                    (2usize, "addi ra14 ra14 "@ + dec(mid)),
                    (3usize, "sll ra14 ra14 4"@),
                ];
                assert(i < 4 ==> lines[i] == middle[i]);
            } else {
                let middle = first.push((1usize, "sll ra14 ra14 8"@));
                assert(i < 2 ==> lines[i] == middle[i]);
            }
        }
    }
}


/// Two words joined by a space.
pub(crate) proof fn lemma_join2(a: Seq<char>, b: Seq<char>)
    ensures
        join_space(seq![a, b]) == a + seq![' '] + b,
{
    assert(seq![a, b].drop_last() =~= seq![a]);
    assert(join_space(seq![a]) == a);
}

/// The words of a line without `=` are words without `=`.
proof fn lemma_word_of_line(s: Seq<char>, k: int)
    requires
        !s.contains('='),
        0 <= k < words(s).len(),
    ensures
        is_word(words(s)[k]),
        !words(s)[k].contains('='),
{
    lemma_words_are_words(s);
    let w = words(s)[k];
    if w.contains('=') {
        let j = choose|j: int| 0 <= j < w.len() && w[j] == '=';
        assert(s.contains(words(s)[k][j]));
    }
}

/// The operation that stands for an immediate one is an R-type operation
/// or `jmpr`.
proof fn lemma_r_op(op: Seq<char>, line: LineView)
    requires
        r_type_of(op, line) is Ok,
    ensures
        r_type_of(op, line) matches Ok(r) && (r == "add"@ || r == "and"@ || r == "or"@ || r == "sub"@ || r
            == "jmpr"@),
{
}

/// A line whose operation is an R-type operation or `jmpr`, made of words
/// without `=`, is closed.
proof fn lemma_r_line_closed(ws: Seq<Seq<char>>, n: usize)
    requires
        ws.len() > 0,
        ws[0] == "add"@ || ws[0] == "and"@ || ws[0] == "or"@ || ws[0] == "sub"@ || ws[0] == "jmpr"@,
        forall|i: int| 0 <= i < ws.len() ==> is_word(#[trigger] ws[i]),
        forall|i: int| 0 <= i < ws.len() ==> !(#[trigger] ws[i]).contains('='),
    ensures
        closed((n, join_space(ws))),
{
    lemma_op_types();
    lemma_closed_of(ws, n);
}

/// The lines an I-type instruction with a large immediate expands into are closed.
proof fn lemma_i_type_closed(ws: Seq<Seq<char>>, line: LineView)
    requires
        ws == words(line.1),
        ws.len() == 4,
        !line.1.contains('='),
        i_type(ws, line) is Expand,
    ensures
        i_type(ws, line) matches Step::Expand(sub) && forall|i: int| 0 <= i < sub.len() ==> closed(#[trigger] sub[i]),
        i_type(ws, line) matches Step::Expand(sub) && sub.len() > 0 && sub.drop_last() == load_large_imm(
            parse_usize(ws[3])->Ok_0,
        ) && words(sub.last().1) == seq![r_type_of(ws[0], line)->Ok_0, ws[1], ws[2], rat()],
{
    reveal_strlit(" ");
    lemma_fixed_words();
    let imm = parse_usize(ws[3])->Ok_0;
    let exp = load_large_imm(imm);
    lemma_load_closed(imm);
    lemma_r_op(ws[0], line);
    let op = r_type_of(ws[0], line)->Ok_0;
    lemma_word_of_line(line.1, 1);
    lemma_word_of_line(line.1, 2);
    let gen = seq![op, ws[1], ws[2], rat()];
    lemma_join4(op, ws[1], ws[2], rat());
    assert(op + " "@ + ws[1] + " "@ + ws[2] + " "@ + rat() == join_space(gen));
    let n = (exp.len() + 1) as usize;
    lemma_r_line_closed(gen, n);
    lemma_subst_empty(gen, n);
    let sub = exp.push((n, join_space(gen)));
    assert(sub.drop_last() =~= exp);
    assert forall|i: int| 0 <= i < sub.len() implies closed(#[trigger] sub[i]) by {
        if i < exp.len() {
            assert(sub[i] == exp[i]);
        }
    }
}


/// The lines an immediate form without an instruction of its own expands into are closed.
proof fn lemma_pseudo_closed(ws: Seq<Seq<char>>, line: LineView)
    requires
        ws == words(line.1),
        ws.len() == 4,
        !line.1.contains('='),
        pseudo_type(ws, line) is Expand,
    ensures
        pseudo_type(ws, line) matches Step::Expand(sub) && forall|i: int| 0 <= i < sub.len() ==> closed(#[trigger] sub[i]),
        pseudo_type(ws, line) matches Step::Expand(sub) && sub.len() > 0 && sub.drop_last() == load_large_imm(
            parse_usize(ws[3])->Ok_0,
        ) && words(sub.last().1) == seq![r_type_of(ws[0], line)->Ok_0, ws[1], ws[2], rat()],
{
    reveal_strlit(" ");
    lemma_fixed_words();
    let imm = parse_usize(ws[3])->Ok_0;
    let exp = load_large_imm(imm);
    lemma_load_closed(imm);
    lemma_r_op(ws[0], line);
    let op = r_type_of(ws[0], line)->Ok_0;
    lemma_word_of_line(line.1, 1);
    lemma_word_of_line(line.1, 2);
    let gen = seq![op, ws[1], ws[2], rat()];
    lemma_join4(op, ws[1], ws[2], rat());
    assert(op + " "@ + ws[1] + " "@ + ws[2] + " "@ + rat() == join_space(gen));
    let n = (exp.len() + 1) as usize;
    lemma_r_line_closed(gen, n);
    lemma_subst_empty(gen, n);
    let sub = exp.push((n, join_space(gen)));
    assert(sub.drop_last() =~= exp);
    assert forall|i: int| 0 <= i < sub.len() implies closed(#[trigger] sub[i]) by {
        if i < exp.len() {
            assert(sub[i] == exp[i]);
        }
    }
}


/// `0` is written `0`.
proof fn lemma_zero()
    ensures
        dec(0) == "0"@,
        parse_usize("0"@) == Ok::<nat, crate::text::IntErrorKind>(0),
{
    reveal_strlit("0");
    assert(dec(0) =~= "0"@);
    law_parse_dec(0);
}

/// The lines a load-immediate instruction with a large immediate expands into are closed.
proof fn lemma_li_closed(ws: Seq<Seq<char>>, line: LineView)
    requires
        ws == words(line.1),
        ws.len() == 3,
        !line.1.contains('='),
        li_instr(ws, line) is Expand,
    ensures
        li_instr(ws, line) matches Step::Expand(sub) && forall|i: int| 0 <= i < sub.len() ==> closed(#[trigger] sub[i]),
        li_instr(ws, line) matches Step::Expand(sub) && sub.len() > 0 && sub.drop_last() == load_large_imm(
            parse_usize(ws[2])->Ok_0,
        ) && (ws[0] == "li"@ ==> words(sub.last().1) == seq!["addi"@, ws[1], rat(), "0"@]),
{
    reveal_strlit(" ");
    reveal_strlit("addi ");
    reveal_strlit(" 0");
    reveal_strlit("addi");
    reveal_strlit("0");
    lemma_fixed_words();
    lemma_op_types();
    lemma_zero();
    let imm = parse_usize(ws[2])->Ok_0;
    let exp = load_large_imm(imm);
    lemma_load_closed(imm);
    lemma_word_of_line(line.1, 1);
    let n = (exp.len() + 1) as usize;
    let last = if ws[0] == "li"@ {
        let gen = seq!["addi"@, ws[1], rat(), "0"@];
        lemma_join4("addi"@, ws[1], rat(), "0"@);
        assert("addi "@ + ws[1] + " "@ + rat() + " 0"@ =~= join_space(gen));
        lemma_closed_of(gen, n);
        lemma_subst_empty(gen, n);
        (n, join_space(gen))
    } else {
        lemma_r_op(ws[0], line);
        let op = r_type_of(ws[0], line)->Ok_0;
        let gen = seq![op, ws[1], rat()];
        lemma_join3(op, ws[1], rat());
        assert(op + " "@ + ws[1] + " "@ + rat() == join_space(gen));
        lemma_r_line_closed(gen, n);
        (n, join_space(gen))
    };
    let sub = exp.push(last);
    assert(sub.drop_last() =~= exp);
    assert forall|i: int| 0 <= i < sub.len() implies closed(#[trigger] sub[i]) by {
        if i < exp.len() {
            assert(sub[i] == exp[i]);
        }
    }
}

/// The lines a jump to a large address expands into are closed.
proof fn lemma_jmp_i_closed(ws: Seq<Seq<char>>, line: LineView)
    requires
        ws == words(line.1),
        ws.len() == 2,
        !line.1.contains('='),
        jmp_i_type(ws, line) is Expand,
    ensures
        jmp_i_type(ws, line) matches Step::Expand(sub) && forall|i: int| 0 <= i < sub.len() ==> closed(
            #[trigger] sub[i],
        ),
        jmp_i_type(ws, line) matches Step::Expand(sub) && sub.len() > 0 && sub.drop_last() == load_large_imm(
            parse_usize(ws[1])->Ok_0,
        ) && words(sub.last().1) == seq![r_type_of(ws[0], line)->Ok_0, rat()],
{
    reveal_strlit(" ");
    lemma_fixed_words();
    let imm = parse_usize(ws[1])->Ok_0;
    let exp = load_large_imm(imm);
    lemma_load_closed(imm);
    lemma_r_op(ws[0], line);
    let op = r_type_of(ws[0], line)->Ok_0;
    let gen = seq![op, rat()];
    lemma_join2(op, rat());
    assert(op + " "@ + rat() == join_space(gen));
    let n = (exp.len() + 1) as usize;
    lemma_r_line_closed(gen, n);
    lemma_subst_empty(gen, n);
    let sub = exp.push((n, join_space(gen)));
    assert(sub.drop_last() =~= exp);
    assert forall|i: int| 0 <= i < sub.len() implies closed(#[trigger] sub[i]) by {
        if i < exp.len() {
            assert(sub[i] == exp[i]);
        }
    }
}

/// A base address register without its parentheses is a word without `=`.
proof fn lemma_base_word(w: Seq<char>, s: Seq<char>)
    requires
        is_base_addr_register_spec(w),
        is_word(w),
        forall|j: int| 0 <= j < w.len() ==> s.contains(#[trigger] w[j]),
        !s.contains('='),
    ensures
        is_word(remove_parentheses_spec(w)),
        !remove_parentheses_spec(w).contains('='),
{
    let pred = |c: char| c != '(' && c != ')';
    let x = remove_parentheses_spec(w);
    assert(x == w.filter(pred));
    let inner = w.subrange(1, w.len() - 1);
    assert(is_register_spec(inner));
    assert(inner[0] == 'r');
    assert(w[1] == 'r');
    w.lemma_filter_contains(pred, 1);
    assert(x.len() > 0);
    assert forall|k: int| 0 <= k < x.len() implies !is_ws(#[trigger] x[k]) && x[k] != '=' by {
        assert(x.contains(x[k]));
        w.lemma_filter_contains_rev(pred, x[k]);
        let j = choose|j: int| 0 <= j < w.len() && w[j] == x[k];
        assert(s.contains(w[j]));
    }
}

/// The lines a memory instruction with a large offset expands into are closed.
proof fn lemma_mem_closed(ws: Seq<Seq<char>>, line: LineView)
    requires
        ws == words(line.1),
        ws.len() == 4,
        arg_type(ws[0]) == Some(Arg::MemInstr),
        arg_type(ws[3]) == Some(Arg::BaseAddrReg),
        !line.1.contains('='),
        mem_type(ws, line) is Expand,
    ensures
        mem_type(ws, line) matches Step::Expand(sub) && forall|i: int| 0 <= i < sub.len() ==> closed(#[trigger] sub[i]),
        mem_type(ws, line) matches Step::Expand(sub) && sub.len() >= 2 && sub.drop_last().drop_last()
            == load_large_imm(parse_usize(ws[2])->Ok_0) && words(sub[sub.len() - 2].1) == seq![
            "add"@,
            rat(),
            rat(),
            remove_parentheses_spec(ws[3]),
        ] && words(sub.last().1) == seq![ws[0], ws[1], "0"@, "(ra14)"@],
{
    reveal_strlit(" ");
    reveal_strlit("add ");
    reveal_strlit("add");
    reveal_strlit(" 0 (");
    reveal_strlit(")");
    reveal_strlit("0");
    reveal_strlit("(ra14)");
    reveal_strlit("ra14");
    lemma_fixed_words();
    lemma_op_types();
    lemma_zero();
    let imm = parse_usize(ws[2])->Ok_0;
    let exp = load_large_imm(imm);
    lemma_load_closed(imm);
    lemma_word_of_line(line.1, 0);
    lemma_word_of_line(line.1, 1);
    lemma_word_of_line(line.1, 3);
    lemma_words_are_words(line.1);
    assert(is_base_addr_register_spec(ws[3]));
    assert forall|j: int| 0 <= j < ws[3].len() implies line.1.contains(#[trigger] ws[3][j]) by {
        assert(line.1.contains(words(line.1)[3][j]));
    }
    lemma_base_word(ws[3], line.1);
    let x = remove_parentheses_spec(ws[3]);
    let pen_gen = seq!["add"@, rat(), rat(), x];
    lemma_join4("add"@, rat(), rat(), x);
    assert("add "@ + rat() + " "@ + rat() + " "@ + x =~= join_space(pen_gen));
    lemma_r_line_closed(pen_gen, (exp.len() + 1) as usize);
    let last_gen = seq![ws[0], ws[1], "0"@, "(ra14)"@];
    lemma_join4(ws[0], ws[1], "0"@, "(ra14)"@);
    assert(ws[0] + " "@ + ws[1] + " 0 ("@ + rat() + ")"@ =~= join_space(last_gen));
    lemma_closed_of(last_gen, (exp.len() + 2) as usize);
    lemma_subst_empty(pen_gen, (exp.len() + 1) as usize);
    lemma_subst_empty(last_gen, (exp.len() + 2) as usize);
    let sub = exp.push(((exp.len() + 1) as usize, join_space(pen_gen))).push(
        ((exp.len() + 2) as usize, join_space(last_gen)),
    );
    assert(sub.drop_last().drop_last() =~= exp);
    assert forall|i: int| 0 <= i < sub.len() implies closed(#[trigger] sub[i]) by {
        if i < exp.len() {
            assert(sub[i] == exp[i]);
        }
    }
}


/// An instruction without a large immediate does not expand.
proof fn lemma_no_expand(ws: Seq<Seq<char>>, ts: Seq<Arg>, line: LineView, orig: LineView)
    requires
        arg_types(ws, line) == Ok::<Seq<Arg>, ErrView>(ts),
        !big_imm(ws),
    ensures
        !(instruction_step(ws, ts, line, orig) is Expand),
{
    reveal(instruction_step);
    lemma_arg_types_each(ws, line);
    let n = ts.len();
    if n > 0 {
        assert(arg_type(ws[0]) == Some(ts[0]));
        if n == 4 && ts[0] == Arg::ITypeInstr && ts[1] == Arg::Reg && ts[2] == Arg::Reg && ts[3] == Arg::Imm {
            assert(!(i_type(ws, line) is Expand));
        } else if n == 4 && ts[0] == Arg::PseudoInstr {
            assert(big_imm(ws));
        } else if n == 3 && ts[0] == Arg::LiInstr && ts[1] == Arg::Reg && ts[2] == Arg::Imm {
            assert(!(li_instr(ws, line) is Expand));
        } else if n == 4 && ts[0] == Arg::MemInstr && ts[1] == Arg::Reg && ts[2] == Arg::Imm && ts[3]
            == Arg::BaseAddrReg {
            assert(!(mem_type(ws, line) is Expand));
        } else if n == 2 && ts[0] == Arg::ITypeJmp && ts[1] == Arg::Imm {
            assert(!(jmp_i_type(ws, line) is Expand));
        }
    }
}

/// What an instruction expands into is closed.
proof fn lemma_expansion_closed(ws: Seq<Seq<char>>, ts: Seq<Arg>, line: LineView, orig: LineView)
    requires
        ws == words(line.1),
        arg_types(ws, line) == Ok::<Seq<Arg>, ErrView>(ts),
        !line.1.contains('='),
        instruction_step(ws, ts, line, orig) is Expand,
    ensures
        instruction_step(ws, ts, line, orig) matches Step::Expand(sub) && forall|i: int|
            0 <= i < sub.len() ==> closed(#[trigger] sub[i]),
{
    reveal(instruction_step);
    lemma_arg_types_each(ws, line);
    let n = ts.len();
    assert(arg_type(ws[0]) == Some(ts[0]));
    if n == 4 && ts[0] == Arg::ITypeInstr && ts[1] == Arg::Reg && ts[2] == Arg::Reg && ts[3] == Arg::Imm {
        lemma_i_type_closed(ws, line);
    } else if n == 4 && ts[0] == Arg::PseudoInstr && ts[1] == Arg::Reg && ts[2] == Arg::Reg && ts[3] == Arg::Imm {
        lemma_pseudo_closed(ws, line);
    } else if n == 3 && ts[0] == Arg::LiInstr && ts[1] == Arg::Reg && ts[2] == Arg::Imm {
        lemma_li_closed(ws, line);
    } else if n == 4 && ts[0] == Arg::MemInstr && ts[1] == Arg::Reg && ts[2] == Arg::Imm && ts[3]
        == Arg::BaseAddrReg {
        assert(arg_type(ws[3]) == Some(ts[3]));
        lemma_mem_closed(ws, line);
    } else if n == 2 && ts[0] == Arg::ITypeJmp && ts[1] == Arg::Imm {
        lemma_jmp_i_closed(ws, line);
    }
}

/// A fresh assembler reading closed lines declares no alias, and what it
/// makes of them does not depend on how deeply it may expand.
proof fn lemma_closed_run(lines: Seq<LineView>, n: nat, c0: LineView, da: nat, db: nat)
    requires
        forall|i: int| 0 <= i < lines.len() ==> closed(#[trigger] lines[i]),
    ensures
        run_prefix(lines, n, Map::empty(), c0, da) == run_prefix(lines, n, Map::empty(), c0, db),
        run_prefix(lines, n, Map::empty(), c0, da) matches RunState::Running { aliases, .. } ==> aliases
            == Map::<Seq<char>, Seq<char>>::empty(),
    decreases n,
{
    if n > 0 && n <= lines.len() {
        lemma_closed_run(lines, (n - 1) as nat, c0, da, db);
        if let RunState::Running { aliases, cur, mc, listing } = run_prefix(
            lines,
            (n - 1) as nat,
            Map::empty(),
            c0,
            da,
        ) {
            let line = lines[n - 1];
            assert(closed(line));
            let c = substitute(line, aliases);
            let ws = words(c.1);
            if c.1.len() != 0 && !c.1.contains('=') {
                if let Ok(ts) = arg_types(ws, c) {
                    lemma_no_expand(ws, ts, c, line);
                }
                assert(instruction_outcome(c, line, da) == instruction_outcome(c, line, db));
            }
        }
    }
}

/// What an instruction line assembles to is the same at every depth of at
/// least one.
proof fn lemma_outcome_depth(line: LineView, orig: LineView, d1: nat, d2: nat)
    requires
        d1 >= 1,
        d2 >= 1,
        !line.1.contains('='),
    ensures
        instruction_outcome(line, orig, d1) == instruction_outcome(line, orig, d2),
{
    let ws = words(line.1);
    if let Ok(ts) = arg_types(ws, line) {
        if let Step::Expand(sub) = instruction_step(ws, ts, line, orig) {
            lemma_expansion_closed(ws, ts, line, orig);
            lemma_closed_run(sub, sub.len(), (0usize, Seq::empty()), (d1 - 1) as nat, (d2 - 1) as nat);
        }
    }
}

/// Reading lines gives the same state at every depth of at least one.
proof fn lemma_run_depth(
    lines: Seq<LineView>,
    n: nat,
    a0: Map<Seq<char>, Seq<char>>,
    c0: LineView,
    d1: nat,
    d2: nat,
)
    requires
        d1 >= 1,
        d2 >= 1,
    ensures
        run_prefix(lines, n, a0, c0, d1) == run_prefix(lines, n, a0, c0, d2),
    decreases n,
{
    if n > 0 && n <= lines.len() {
        lemma_run_depth(lines, (n - 1) as nat, a0, c0, d1, d2);
        if let RunState::Running { aliases, cur, mc, listing } = run_prefix(lines, (n - 1) as nat, a0, c0, d1) {
            let line = lines[n - 1];
            let c = substitute(line, aliases);
            if c.1.len() != 0 && !c.1.contains('=') {
                lemma_outcome_depth(c, line, d1, d2);
            }
        }
    }
}

/// The lines that an instruction expands into never expand again, so
/// assembling them one level deep is assembling them as deeply as the
/// program nests: the outcome of a program is the same for every depth of
/// at least one.
pub proof fn law_one_level_of_expansion(
    lines: Seq<LineView>,
    aliases: Map<Seq<char>, Seq<char>>,
    cur: LineView,
    depth: nat,
)
    requires
        depth >= 1,
    ensures
        run_program(lines, aliases, cur, depth) == run_program(lines, aliases, cur, 1),
{
    lemma_run_depth(lines, lines.len(), aliases, cur, depth, 1);
}


/// The R-type operation that an immediate operation stands for.
pub open spec fn register_form(op: Seq<char>) -> Seq<char> {
    if op == "addi"@ {
        "add"@
    } else if op == "andi"@ {
        "and"@
    } else if op == "ori"@ {
        "or"@
    } else {
        "sub"@
    }
}

/// The operation that stands for an immediate one, other than `jmpi`'s,
/// is its register form.
proof fn lemma_register_form(op: Seq<char>, line: LineView)
    requires
        r_type_of(op, line) is Ok,
        op != "jmpi"@,
    ensures
        r_type_of(op, line)->Ok_0 == register_form(op),
{
    reveal_strlit("addi");
    reveal_strlit("andi");
    reveal_strlit("ori");
    reveal_strlit("subi");
    reveal_strlit("jmpi");
    if op == "subi"@ {
        assert("subi"@[0] != "addi"@[0] && "subi"@[0] != "andi"@[0] && "subi"@.len() != "ori"@.len());
    }
}

/// What an I-type instruction or an immediate form expands into computes.
proof fn lemma_computes_i(ws: Seq<Seq<char>>, line: LineView, pseudo: bool)
    requires
        ws == words(line.1),
        ws.len() == 4,
        !line.1.contains('='),
        pseudo ==> pseudo_type(ws, line) is Expand,
        !pseudo ==> i_type(ws, line) is Expand,
        pseudo ==> arg_type(ws[0]) == Some(Arg::PseudoInstr),
        !pseudo ==> arg_type(ws[0]) == Some(Arg::ITypeInstr),
    ensures
        (if pseudo { pseudo_type(ws, line) } else { i_type(ws, line) }) matches Step::Expand(sub) && rat_after(
            sub.drop_last(),
        ) == Some(parse_usize(ws[3])->Ok_0) && words(sub.last().1) == seq![register_form(ws[0]), ws[1], ws[2], rat()],
{
    if pseudo {
        lemma_pseudo_closed(ws, line);
    } else {
        lemma_i_type_closed(ws, line);
    }
    assert(ws[0] != "jmpi"@) by {
        reveal_strlit("jmpi");
        reveal_strlit("addi");
        reveal_strlit("sll");
        reveal_strlit("andi");
        reveal_strlit("ori");
        reveal_strlit("subi");
        assert(ws[0] == "addi"@ || ws[0] == "sll"@ || ws[0] == "andi"@ || ws[0] == "ori"@ || ws[0] == "subi"@);
        assert("jmpi"@[0] != "addi"@[0] && "jmpi"@[0] != "andi"@[0] && "jmpi"@[0] != "subi"@[0] && "jmpi"@.len()
            != "ori"@.len() && "jmpi"@.len() != "sll"@.len());
    }
    lemma_register_form(ws[0], line);
    law_load_large_imm(parse_usize(ws[3])->Ok_0);
}

/// What a load-immediate instruction expands into computes.
proof fn lemma_computes_li(ws: Seq<Seq<char>>, line: LineView)
    requires
        ws == words(line.1),
        ws.len() == 3,
        !line.1.contains('='),
        ws[0] == "li"@,
        li_instr(ws, line) is Expand,
    ensures
        li_instr(ws, line) matches Step::Expand(sub) && rat_after(sub.drop_last()) == Some(parse_usize(ws[2])->Ok_0)
            && words(sub.last().1) == seq!["addi"@, ws[1], rat(), "0"@],
{
    lemma_li_closed(ws, line);
    law_load_large_imm(parse_usize(ws[2])->Ok_0);
}

/// What a jump to a large address expands into computes.
proof fn lemma_computes_jmpi(ws: Seq<Seq<char>>, line: LineView)
    requires
        ws == words(line.1),
        ws.len() == 2,
        !line.1.contains('='),
        ws[0] == "jmpi"@,
        jmp_i_type(ws, line) is Expand,
    ensures
        jmp_i_type(ws, line) matches Step::Expand(sub) && rat_after(sub.drop_last()) == Some(
            parse_usize(ws[1])->Ok_0,
        ) && words(sub.last().1) == seq!["jmpr"@, rat()],
{
    lemma_jmp_i_closed(ws, line);
    law_load_large_imm(parse_usize(ws[1])->Ok_0);
    reveal_strlit("jmpi");
    reveal_strlit("addi");
    reveal_strlit("andi");
    reveal_strlit("ori");
    reveal_strlit("subi");
    assert("jmpi"@[0] != "addi"@[0] && "jmpi"@[0] != "andi"@[0] && "jmpi"@[0] != "subi"@[0] && "jmpi"@.len()
        != "ori"@.len());
}

/// What a memory instruction with a large offset expands into computes.
proof fn lemma_computes_mem(ws: Seq<Seq<char>>, line: LineView)
    requires
        ws == words(line.1),
        ws.len() == 4,
        arg_type(ws[0]) == Some(Arg::MemInstr),
        arg_type(ws[3]) == Some(Arg::BaseAddrReg),
        !line.1.contains('='),
        mem_type(ws, line) is Expand,
    ensures
        mem_type(ws, line) matches Step::Expand(sub) && sub.len() >= 2 && rat_after(sub.drop_last().drop_last())
            == Some(parse_usize(ws[2])->Ok_0) && words(sub[sub.len() - 2].1) == seq![
            "add"@,
            rat(),
            rat(),
            remove_parentheses_spec(ws[3]),
        ] && words(sub.last().1) == seq![ws[0], ws[1], "0"@, "(ra14)"@],
{
    lemma_mem_closed(ws, line);
    law_load_large_imm(parse_usize(ws[2])->Ok_0);
}

/// What an instruction with a large immediate expands into computes: its
/// first lines leave the immediate value in the temporary register ra14,
/// and its last line does the instruction's work with ra14 in place of the
/// immediate, on the instruction's own registers in their order:
/// `op rd rs imm` becomes `op' rd rs ra14` (the register form of `op`),
/// `li rd imm` becomes `addi rd ra14 0`, `jmpi imm` becomes `jmpr ra14`, and
/// `op rd off (base)` adds `base` to ra14 and then becomes
/// `op rd 0 (ra14)`.
#[verifier::spinoff_prover]
#[verifier::rlimit(80)]
pub proof fn law_expansion_computes(ws: Seq<Seq<char>>, ts: Seq<Arg>, line: LineView, orig: LineView)
    requires
        ws == words(line.1),
        arg_types(ws, line) == Ok::<Seq<Arg>, ErrView>(ts),
        !line.1.contains('='),
        instruction_step(ws, ts, line, orig) is Expand,
    ensures
        instruction_step(ws, ts, line, orig) matches Step::Expand(sub) && ({
            &&& (ts[0] == Arg::ITypeInstr || ts[0] == Arg::PseudoInstr) ==> {
                &&& rat_after(sub.drop_last()) == Some(parse_usize(ws[3])->Ok_0)
                &&& words(sub.last().1) == seq![register_form(ws[0]), ws[1], ws[2], rat()]
            }
            &&& ts[0] == Arg::LiInstr ==> {
                &&& rat_after(sub.drop_last()) == Some(parse_usize(ws[2])->Ok_0)
                &&& words(sub.last().1) == seq!["addi"@, ws[1], rat(), "0"@]
            }
            &&& ts[0] == Arg::ITypeJmp ==> {
                &&& rat_after(sub.drop_last()) == Some(parse_usize(ws[1])->Ok_0)
                &&& words(sub.last().1) == seq!["jmpr"@, rat()]
            }
            &&& ts[0] == Arg::MemInstr ==> {
                &&& sub.len() >= 2
                &&& rat_after(sub.drop_last().drop_last()) == Some(parse_usize(ws[2])->Ok_0)
                &&& words(sub[sub.len() - 2].1) == seq!["add"@, rat(), rat(), remove_parentheses_spec(ws[3])]
                &&& words(sub.last().1) == seq![ws[0], ws[1], "0"@, "(ra14)"@]
            }
        }),
{
    lemma_arg_types_each(ws, line);
    let n = ts.len();
    if n == 0 {
        assert(!(instruction_step(ws, ts, line, orig) is Expand)) by {
            reveal(instruction_step);
        }
    }
    assert(arg_type(ws[0]) == Some(ts[0]));
    if n == 4 && ts[0] == Arg::ITypeInstr && ts[1] == Arg::Reg && ts[2] == Arg::Reg && ts[3] == Arg::Imm {
        assert(instruction_step(ws, ts, line, orig) == i_type(ws, line)) by {
            reveal(instruction_step);
        }
        lemma_computes_i(ws, line, false);
    } else if n == 4 && ts[0] == Arg::PseudoInstr && ts[1] == Arg::Reg && ts[2] == Arg::Reg && ts[3] == Arg::Imm {
        assert(instruction_step(ws, ts, line, orig) == pseudo_type(ws, line)) by {
            reveal(instruction_step);
        }
        lemma_computes_i(ws, line, true);
    } else if n == 3 && ts[0] == Arg::LiInstr && ts[1] == Arg::Reg && ts[2] == Arg::Imm {
        assert(instruction_step(ws, ts, line, orig) == li_instr(ws, line)) by {
            reveal(instruction_step);
        }
        assert(ws[0] == "li"@);
        lemma_computes_li(ws, line);
    } else if n == 4 && ts[0] == Arg::MemInstr && ts[1] == Arg::Reg && ts[2] == Arg::Imm && ts[3]
        == Arg::BaseAddrReg {
        assert(instruction_step(ws, ts, line, orig) == mem_type(ws, line)) by {
            reveal(instruction_step);
        }
        assert(arg_type(ws[3]) == Some(ts[3]));
        lemma_computes_mem(ws, line);
    } else if n == 2 && ts[0] == Arg::ITypeJmp && ts[1] == Arg::Imm {
        assert(instruction_step(ws, ts, line, orig) == jmp_i_type(ws, line)) by {
            reveal(instruction_step);
        }
        assert(ws[0] == "jmpi"@);
        lemma_computes_jmpi(ws, line);
    } else {
        assert(!(instruction_step(ws, ts, line, orig) is Expand)) by {
            reveal(instruction_step);
        }
    }
}

} // verus!
