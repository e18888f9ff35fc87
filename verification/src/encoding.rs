//! The layout of instruction words, stated over the numbers a program
//! writes: which field of the word holds which argument.
use vstd::prelude::*;

use crate::assembler::{Arg, LineView};
use crate::expansion::{lemma_dec_digits, lemma_dec_is_word, lemma_join_no_eq, lemma_subst_empty};
use crate::machine_code::lemma_radix2;
use crate::semantics::{
    arg_type, arg_types, as_line, bin_field, i_type, imm_bits, instruction_outcome, instruction_step, jmp_i_type,
    jmp_r_type, li_instr, max_of_width, mem_type, opcode_of, opcodes, r_type, reg_addr, run_prefix, run_program,
    substitute, ErrView, Outcome, RunState, Step,
};
use crate::text::{dec, digit_char, is_dec_digit, is_word, is_ws, join_space, law_parse_dec, pad_zeros, parse_usize, radix_str, words};
use crate::util::{all_ascii, is_base_addr_register_spec, is_immediate_value_spec, is_register_spec, law_register_names, numeric_part};

verus! {

/// The number that the binary digits `s` write (`'1'` for one, anything
/// else for zero), most significant first.
pub open spec fn bits_value(s: Seq<char>) -> nat
    decreases s.len(),
{
    if s.len() == 0 {
        0
    } else {
        2 * bits_value(s.drop_last()) + if s.last() == '1' {
            1nat
        } else {
            0nat
        }
    }
}

/// The name of register `n`: `ra` and `n` in decimal.
pub open spec fn reg_name(n: nat) -> Seq<char> {
    "ra"@ + dec(n)
}

/// Register `n` as a base address: its name in parentheses.
pub open spec fn base_name(n: nat) -> Seq<char> {
    seq!['('] + reg_name(n) + seq![')']
}

/// `n` in binary reads back as `n`.
proof fn lemma_bits_radix(n: nat)
    ensures
        bits_value(radix_str(n, 2)) == n,
    decreases n,
{
    if n < 2 {
        let s = radix_str(n, 2);
        assert(s == seq![digit_char(n)]);
        assert(s.drop_last() =~= Seq::<char>::empty());
        assert(bits_value(s.drop_last()) == 0);
        assert(s.last() == digit_char(n));
        if n == 1 {
            assert(digit_char(1) == '1');
        } else {
            assert(digit_char(0) == '0');
        }
        assert(bits_value(s) == 2 * bits_value(s.drop_last()) + (if s.last() == '1' { 1nat } else { 0nat }));
    } else {
        lemma_bits_radix(n / 2);
        let s = radix_str(n, 2);
        assert(s == radix_str(n / 2, 2).push(digit_char(n % 2)));
        assert(s.drop_last() =~= radix_str(n / 2, 2));
        assert(s.last() == digit_char(n % 2));
        if n % 2 == 1 {
            assert(digit_char(1) == '1');
        } else {
            assert(digit_char(0) == '0');
        }
        assert(bits_value(s) == 2 * bits_value(s.drop_last()) + (if s.last() == '1' { 1nat } else { 0nat }));
    }
}

/// Leading zeros do not change what binary digits read as.
proof fn lemma_bits_zeros(z: Seq<char>, s: Seq<char>)
    requires
        forall|i: int| 0 <= i < z.len() ==> z[i] == '0',
    ensures
        bits_value(z + s) == bits_value(s),
    decreases z.len() + s.len(),
{
    if s.len() == 0 {
        assert(z + s =~= z);
        if z.len() > 0 {
            lemma_bits_zeros(z.drop_last(), s);
            assert(z.drop_last() + s =~= z.drop_last());
        }
    } else {
        lemma_bits_zeros(z, s.drop_last());
        assert((z + s).drop_last() =~= z + s.drop_last());
        assert((z + s).last() == s.last());
    }
}

/// A number of at most `width` bits, padded to `width` binary digits, is
/// `width` digits long and reads back as itself.
proof fn lemma_bits_field(n: nat, width: nat)
    requires
        width >= 1,
        n <= max_of_width(width),
    ensures
        pad_zeros(radix_str(n, 2), width).len() == width,
        bits_value(pad_zeros(radix_str(n, 2), width)) == n,
{
    lemma_radix2(n, width);
    lemma_bits_radix(n);
    let s = radix_str(n, 2);
    if s.len() < width {
        let z = Seq::new((width - s.len()) as nat, |i: int| '0');
        lemma_bits_zeros(z, s);
    }
}

/// Keeping every character that a predicate keeps anyway changes nothing.
proof fn lemma_filter_all(s: Seq<char>, p: spec_fn(char) -> bool)
    requires
        forall|i: int| 0 <= i < s.len() ==> p(s[i]),
    ensures
        s.filter(p) == s,
    decreases s.len(),
{
    reveal(Seq::filter);
    if s.len() > 0 {
        lemma_filter_all(s.drop_last(), p);
        assert(s.drop_last().push(s.last()) =~= s);
    }
}

/// Keeping no character of `s` leaves nothing.
proof fn lemma_filter_none(s: Seq<char>, p: spec_fn(char) -> bool)
    requires
        forall|i: int| 0 <= i < s.len() ==> !p(s[i]),
    ensures
        s.filter(p) == Seq::<char>::empty(),
    decreases s.len(),
{
    reveal(Seq::filter);
    if s.len() > 0 {
        lemma_filter_none(s.drop_last(), p);
    }
}

/// A word that starts with none of the letters that start an operation's
/// name is no operation.
proof fn lemma_not_op(w: Seq<char>)
    requires
        w.len() > 0,
        w[0] != 'a' && w[0] != 'o' && w[0] != 's' && w[0] != 'l' && w[0] != 'j',
    ensures
        w != "add"@ && w != "and"@ && w != "or"@ && w != "sub"@ && w != "addi"@ && w != "sll"@ && w != "andi"@
            && w != "ori"@ && w != "subi"@ && w != "li"@ && w != "lw"@ && w != "sw"@ && w != "jmpr"@ && w
            != "jmpi"@,
{
    reveal_strlit("add");
    reveal_strlit("and");
    reveal_strlit("or");
    reveal_strlit("sub");
    reveal_strlit("addi");
    reveal_strlit("sll");
    reveal_strlit("andi");
    reveal_strlit("ori");
    reveal_strlit("subi");
    reveal_strlit("li");
    reveal_strlit("lw");
    reveal_strlit("sw");
    reveal_strlit("jmpr");
    reveal_strlit("jmpi");
}

/// The kinds of `lw` and `sw`.
proof fn lemma_mem_ops()
    ensures
        arg_type("lw"@) == Some(Arg::MemInstr),
        arg_type("sw"@) == Some(Arg::MemInstr),
{
    reveal_strlit("add");
    reveal_strlit("and");
    reveal_strlit("or");
    reveal_strlit("sub");
    reveal_strlit("addi");
    reveal_strlit("sll");
    reveal_strlit("andi");
    reveal_strlit("ori");
    reveal_strlit("subi");
    reveal_strlit("li");
    reveal_strlit("lw");
    reveal_strlit("sw");
    assert("lw"@[0] != "or"@[0] && "lw"@[1] != "li"@[1] && "lw"@.len() != "add"@.len() && "lw"@.len()
        != "and"@.len() && "lw"@.len() != "sub"@.len() && "lw"@.len() != "addi"@.len() && "lw"@.len()
        != "sll"@.len() && "lw"@.len() != "andi"@.len() && "lw"@.len() != "ori"@.len() && "lw"@.len()
        != "subi"@.len());
    assert("sw"@[0] != "or"@[0] && "sw"@[0] != "li"@[0] && "sw"@[0] != "lw"@[0] && "sw"@.len() != "add"@.len()
        && "sw"@.len() != "and"@.len() && "sw"@.len() != "sub"@.len() && "sw"@.len() != "addi"@.len()
        && "sw"@.len() != "sll"@.len() && "sw"@.len() != "andi"@.len() && "sw"@.len() != "ori"@.len()
        && "sw"@.len() != "subi"@.len());
}


/// The characters of a register's name, with `n` digits after `ra`.
proof fn lemma_reg_chars(n: nat)
    ensures
        reg_name(n).len() >= 3,
        reg_name(n)[0] == 'r',
        reg_name(n)[1] == 'a',
        forall|i: int| 2 <= i < reg_name(n).len() ==> '0' <= #[trigger] reg_name(n)[i] && reg_name(n)[i] <= '9',
        reg_name(n).skip(2) == dec(n),
{
    reveal_strlit("ra");
    lemma_dec_digits(n);
    let w = reg_name(n);
    assert forall|i: int| 2 <= i < w.len() implies '0' <= #[trigger] w[i] && w[i] <= '9' by {
        assert(w[i] == dec(n)[i - 2]);
    }
    assert(w.skip(2) =~= dec(n));
}

/// The decimal digits of a register's name are the register's number.
proof fn lemma_reg_digits(n: nat)
    ensures
        all_ascii(reg_name(n)),
        reg_name(n).filter(|c: char| is_dec_digit(c)) == dec(n),
{
    reveal_strlit("ra");
    lemma_reg_chars(n);
    lemma_dec_digits(n);
    let p = |c: char| is_dec_digit(c);
    let w = reg_name(n);
    assert forall|i: int| 0 <= i < w.len() implies (#[trigger] w[i] as u32) < 0x80 by {
        if i >= 2 {
            assert('0' <= w[i] && w[i] <= '9');
        }
    }
    Seq::filter_distributes_over_add("ra"@, dec(n), p);
    lemma_filter_none("ra"@, p);
    lemma_filter_all(dec(n), p);
    assert(Seq::<char>::empty() + dec(n) =~= dec(n));
}

/// Register `n` (at most 15) is named by a word without `=` that is a
/// register, whose address field reads as `n`.
proof fn lemma_reg_name(n: nat, k: nat, line: LineView)
    requires
        n <= 15,
    ensures
        is_word(reg_name(n)),
        !reg_name(n).contains('='),
        arg_type(reg_name(n)) == Some(Arg::Reg),
        reg_addr(reg_name(n), k, line) matches Ok(f) && f.len() == 4 && bits_value(f) == n,
{
    lemma_reg_chars(n);
    lemma_reg_digits(n);
    let w = reg_name(n);
    assert forall|i: int| 0 <= i < w.len() implies !is_ws(#[trigger] w[i]) && w[i] != '=' by {
        if i >= 2 {
            assert('0' <= w[i] && w[i] <= '9');
        }
    }
    law_register_names(w);
    assert(w == "ra"@ + dec(n));
    assert(is_register_spec(w));
    assert(!is_base_addr_register_spec(w));
    lemma_not_op(w);
    assert(numeric_part(w) == dec(n));
    law_parse_dec(n);
    crate::machine_code::lemma_widths();
    lemma_bits_field(n, 4);
}


/// The characters of register `n` in parentheses.
proof fn lemma_base_chars(n: nat)
    requires
        n <= 15,
    ensures
        base_name(n).len() >= 5,
        base_name(n)[0] == '(',
        base_name(n).last() == ')',
        base_name(n).subrange(1, base_name(n).len() - 1) == reg_name(n),
        forall|i: int| 0 <= i < base_name(n).len() ==> !is_ws(#[trigger] base_name(n)[i]) && base_name(n)[i]
            != '=' && (base_name(n)[i] as u32) < 0x80,
{
    lemma_reg_chars(n);
    let r = reg_name(n);
    let w = base_name(n);
    assert(w.subrange(1, w.len() - 1) =~= r);
    assert forall|i: int| 0 <= i < w.len() implies !is_ws(#[trigger] w[i]) && w[i] != '=' && (w[i] as u32)
        < 0x80 by {
        if 0 < i < w.len() - 1 {
            assert(w[i] == r[i - 1]);
            if i - 1 >= 2 {
                assert('0' <= r[i - 1] && r[i - 1] <= '9');
            }
        }
    }
}

/// The decimal digits of register `n` in parentheses are its number.
proof fn lemma_base_digits(n: nat)
    requires
        n <= 15,
    ensures
        numeric_part(base_name(n)) == dec(n),
{
    lemma_base_chars(n);
    lemma_reg_digits(n);
    let r = reg_name(n);
    let w = base_name(n);
    assert(all_ascii(w));
    let p = |c: char| is_dec_digit(c);
    Seq::filter_distributes_over_add(seq!['('] + r, seq![')'], p);
    Seq::filter_distributes_over_add(seq!['('], r, p);
    lemma_filter_none(seq!['('], p);
    lemma_filter_none(seq![')'], p);
    assert(w.filter(p) =~= dec(n));
}

/// Register `n` (at most 15) in parentheses is a word without `=` that is a
/// base address register, whose address field reads as `n`.
proof fn lemma_base_name(n: nat, k: nat, line: LineView)
    requires
        n <= 15,
    ensures
        is_word(base_name(n)),
        !base_name(n).contains('='),
        arg_type(base_name(n)) == Some(Arg::BaseAddrReg),
        reg_addr(base_name(n), k, line) matches Ok(f) && f.len() == 4 && bits_value(f) == n,
{
    let w = base_name(n);
    assert(is_word(w) && !w.contains('=')) by {
        lemma_base_chars(n);
    }
    assert(arg_type(w) == Some(Arg::BaseAddrReg)) by {
        lemma_base_chars(n);
        lemma_reg_chars(n);
        law_register_names(reg_name(n));
        assert(reg_name(n) == "ra"@ + dec(n));
        assert(is_register_spec(w.subrange(1, w.len() - 1)));
        assert(is_base_addr_register_spec(w));
        lemma_not_op(w);
    }
    assert(reg_addr(w, k, line) matches Ok(f) && f.len() == 4 && bits_value(f) == n) by {
        lemma_base_digits(n);
        law_parse_dec(n);
        crate::machine_code::lemma_widths();
        lemma_bits_field(n, 4);
    }
}

/// A number written in decimal is a word without `=` that is an immediate
/// value and reads back as the number; where it fits `width` bits, its
/// immediate field reads as the number too.
proof fn lemma_imm_name(v: nat, k: nat, width: nat, line: LineView)
    requires
        v <= usize::MAX,
    ensures
        is_word(dec(v)),
        !dec(v).contains('='),
        arg_type(dec(v)) == Some(Arg::Imm),
        parse_usize(dec(v)) == Ok::<nat, crate::text::IntErrorKind>(v),
        1 <= width && v <= max_of_width(width) ==> (imm_bits(dec(v), k, width, line) matches Ok(f) && f.len()
            == width && bits_value(f) == v),
{
    lemma_dec_is_word(v);
    lemma_dec_digits(v);
    law_parse_dec(v);
    let w = dec(v);
    assert(w[0] != '(' && w[0] != 'r' && w[0] != '-');
    lemma_not_op(w);
    assert(is_immediate_value_spec(w));
    if 1 <= width && v <= max_of_width(width) {
        lemma_bits_field(v, width);
    }
}


/// Words of the given kinds have those kinds, in order.
proof fn lemma_arg_types_of(ws: Seq<Seq<char>>, ts: Seq<Arg>, line: LineView)
    requires
        ws.len() == ts.len(),
        forall|i: int| 0 <= i < ws.len() ==> arg_type(#[trigger] ws[i]) == Some(ts[i]),
    ensures
        arg_types(ws, line) == Ok::<Seq<Arg>, ErrView>(ts),
    decreases ws.len(),
{
    if ws.len() > 0 {
        let ws0 = ws.drop_last();
        let ts0 = ts.drop_last();
        assert forall|i: int| 0 <= i < ws0.len() implies arg_type(#[trigger] ws0[i]) == Some(ts0[i]) by {
            assert(ws0[i] == ws[i]);
        }
        lemma_arg_types_of(ws0, ts0, line);
        assert(arg_type(ws.last()) == Some(ts.last()));
        assert(ts0.push(ts.last()) =~= ts);
    } else {
        assert(ts =~= Seq::<Arg>::empty());
    }
}

/// A program of one instruction line, made of words without `=`, runs as
/// that instruction assembles.
proof fn lemma_run_single(ws: Seq<Seq<char>>, k: usize, cur: LineView, depth: nat)
    requires
        ws.len() > 0,
        forall|i: int| 0 <= i < ws.len() ==> is_word(#[trigger] ws[i]),
        forall|i: int| 0 <= i < ws.len() ==> !(#[trigger] ws[i]).contains('='),
    ensures
        words(join_space(ws)) == ws,
        join_space(ws).len() > 0,
        run_program(seq![(k, join_space(ws))], Map::empty(), cur, depth) == (match instruction_outcome(
            (k, join_space(ws)),
            (k, join_space(ws)),
            depth,
        ) {
            Outcome::Assembled(b, a) => RunState::Running {
                aliases: Map::empty(),
                cur: (k, join_space(ws)),
                mc: as_line(b),
                listing: as_line(a),
            },
            Outcome::Failed(e) => RunState::Stopped { aliases: Map::empty(), cur: (k, join_space(ws)), err: e },
        }),
{
    let text = join_space(ws);
    lemma_subst_empty(ws, k);
    lemma_join_no_eq(ws);
    if text.len() == 0 {
        assert(words(text) =~= Seq::<Seq<char>>::empty());
    }
    let lines = seq![(k, text)];
    assert(lines[0] == (k, text));
    assert(run_prefix(lines, 0, Map::empty(), cur, depth) == RunState::Running {
        aliases: Map::empty(),
        cur,
        mc: Seq::empty(),
        listing: Seq::empty(),
    });
    match instruction_outcome((k, text), (k, text), depth) {
        Outcome::Assembled(b, a) => {
            assert(Seq::<char>::empty() + as_line(b) =~= as_line(b));
            assert(Seq::<char>::empty() + as_line(a) =~= as_line(a));
        },
        Outcome::Failed(e) => {},
    }
}


/// The codes of the memory operations.
proof fn lemma_mem_opcodes(line: LineView)
    ensures
        opcode_of("lw"@, line) == Ok::<Seq<char>, ErrView>("1101"@),
        opcode_of("sw"@, line) == Ok::<Seq<char>, ErrView>("1100"@),
{
    reveal_strlit("add");
    reveal_strlit("and");
    reveal_strlit("or");
    reveal_strlit("sub");
    reveal_strlit("addi");
    reveal_strlit("li");
    reveal_strlit("sll");
    reveal_strlit("sw");
    reveal_strlit("lw");
    reveal_strlit("jmpr");
    reveal_strlit("jmpi");
    assert("lw"@[0] != "sw"@[0]);
    assert(opcodes().contains_key("lw"@));
    assert(opcodes().contains_key("sw"@));
}

/// The word of a memory instruction with a small offset, from the numbers
/// it names.
#[verifier::spinoff_prover]
#[verifier::rlimit(40)]
proof fn lemma_mem_step(op: Seq<char>, rd: nat, off: nat, base: nat, line: LineView, orig: LineView)
    requires
        op == "lw"@ || op == "sw"@,
        rd <= 15,
        base <= 15,
        off <= 15,
    ensures
        ({
            let ws = seq![op, reg_name(rd), dec(off), base_name(base)];
            let ts = seq![Arg::MemInstr, Arg::Reg, Arg::Imm, Arg::BaseAddrReg];
            &&& arg_types(ws, line) == Ok::<Seq<Arg>, ErrView>(ts)
            &&& instruction_step(ws, ts, line, orig) matches Step::Code(w, a) && a == line.1 && w.len() == 16
                && w.take(4) == (if op == "lw"@ { "1101"@ } else { "1100"@ }) && bits_value(w.subrange(4, 8))
                == rd && bits_value(w.subrange(8, 12)) == base && bits_value(w.subrange(12, 16)) == off
        }),
{
    let ws = seq![op, reg_name(rd), dec(off), base_name(base)];
    let ts = seq![Arg::MemInstr, Arg::Reg, Arg::Imm, Arg::BaseAddrReg];
    lemma_mem_ops();
    lemma_reg_name(rd, 1, line);
    lemma_imm_name(off, 2, 4, line);
    lemma_base_name(base, 3, line);
    crate::machine_code::lemma_widths();
    lemma_arg_types_of(ws, ts, line);
    lemma_mem_opcodes(line);
    let o = opcode_of(op, line)->Ok_0;
    let r = reg_addr(ws[1], 1, line)->Ok_0;
    let f = imm_bits(ws[2], 2, 4, line)->Ok_0;
    let b = reg_addr(ws[3], 3, line)->Ok_0;
    assert(mem_type(ws, line) == Step::Code(o + r + b + f, line.1));
    assert(instruction_step(ws, ts, line, orig) == mem_type(ws, line)) by {
        reveal(instruction_step);
    }
    reveal_strlit("1101");
    reveal_strlit("1100");
    let w = o + r + b + f;
    assert(w.take(4) =~= o);
    assert(w.subrange(4, 8) =~= r);
    assert(w.subrange(8, 12) =~= b);
    assert(w.subrange(12, 16) =~= f);
}

/// A memory instruction with a small offset, `op rd off (base)`, assembles
/// to one word: the operation's code, then the address of the register
/// loaded or stored (bits 11-8), then the address of the base register
/// (bits 7-4), then the offset (bits 3-0), for every register and offset.
pub proof fn law_mem_layout(op: Seq<char>, rd: nat, off: nat, base: nat, k: usize, cur: LineView)
    requires
        op == "lw"@ || op == "sw"@,
        rd <= 15,
        base <= 15,
        off <= 15,
    ensures
        ({
            let text = join_space(seq![op, reg_name(rd), dec(off), base_name(base)]);
            run_program(seq![(k, text)], Map::empty(), cur, 1) matches RunState::Running { mc, listing, .. }
                && mc.len() == 17 && mc[16] == '\n' && mc.take(4) == (if op == "lw"@ { "1101"@ } else { "1100"@ })
                && bits_value(mc.subrange(4, 8)) == rd && bits_value(mc.subrange(8, 12)) == base && bits_value(
                mc.subrange(12, 16),
            ) == off && listing == text.push('\n')
        }),
{
    let ws = seq![op, reg_name(rd), dec(off), base_name(base)];
    let text = join_space(ws);
    lemma_mem_ops();
    lemma_reg_name(rd, 1, (k, text));
    lemma_imm_name(off, 2, 4, (k, text));
    lemma_base_name(base, 3, (k, text));
    reveal_strlit("lw");
    reveal_strlit("sw");
    assert(is_word(op) && !op.contains('='));
    assert forall|i: int| 0 <= i < ws.len() implies is_word(#[trigger] ws[i]) && !ws[i].contains('=') by {}
    lemma_run_single(ws, k, cur, 1);
    lemma_mem_step(op, rd, off, base, (k, text), (k, text));
    let w = instruction_step(ws, seq![Arg::MemInstr, Arg::Reg, Arg::Imm, Arg::BaseAddrReg], (k, text), (k, text))->Code_0;
    let mc = w.push('\n');
    assert(mc.take(4) =~= w.take(4));
    assert(mc.subrange(4, 8) =~= w.subrange(4, 8));
    assert(mc.subrange(8, 12) =~= w.subrange(8, 12));
    assert(mc.subrange(12, 16) =~= w.subrange(12, 16));
}


/// The codes of the R-type and I-type operations.
proof fn lemma_ri_opcodes(line: LineView)
    ensures
        opcode_of("add"@, line) == Ok::<Seq<char>, ErrView>("0000"@),
        opcode_of("and"@, line) == Ok::<Seq<char>, ErrView>("0001"@),
        opcode_of("or"@, line) == Ok::<Seq<char>, ErrView>("0010"@),
        opcode_of("sub"@, line) == Ok::<Seq<char>, ErrView>("0011"@),
        opcode_of("addi"@, line) == Ok::<Seq<char>, ErrView>("1000"@),
        opcode_of("sll"@, line) == Ok::<Seq<char>, ErrView>("1011"@),
{
    reveal_strlit("add");
    reveal_strlit("and");
    reveal_strlit("or");
    reveal_strlit("sub");
    reveal_strlit("addi");
    reveal_strlit("li");
    reveal_strlit("sll");
    reveal_strlit("sw");
    reveal_strlit("lw");
    reveal_strlit("jmpr");
    reveal_strlit("jmpi");
    assert("and"@[1] != "add"@[1]);
    assert("sub"@[0] != "add"@[0] && "sub"@[0] != "and"@[0]);
    assert("sll"@[0] != "add"@[0] && "sll"@[0] != "and"@[0] && "sll"@[1] != "sub"@[1]);
    assert("addi"@[0] != "jmpr"@[0] && "addi"@[0] != "jmpi"@[0]);
    assert("or"@[0] != "li"@[0] && "or"@[0] != "sw"@[0] && "or"@[0] != "lw"@[0]);
    assert("add"@.len() != "addi"@.len());
    assert(opcodes().contains_key("add"@));
    assert(opcodes().contains_key("and"@));
    assert(opcodes().contains_key("or"@));
    assert(opcodes().contains_key("sub"@));
    assert(opcodes().contains_key("addi"@));
    assert(opcodes().contains_key("sll"@));
}

/// The code an R-type operation is written with.
pub open spec fn r_code(op: Seq<char>) -> Seq<char> {
    if op == "add"@ {
        "0000"@
    } else if op == "and"@ {
        "0001"@
    } else if op == "or"@ {
        "0010"@
    } else {
        "0011"@
    }
}

/// The word of an R-type instruction, from the registers it names.
#[verifier::spinoff_prover]
#[verifier::rlimit(40)]
proof fn lemma_r_step(op: Seq<char>, rd: nat, rs: nat, rt: nat, line: LineView, orig: LineView)
    requires
        op == "add"@ || op == "and"@ || op == "or"@ || op == "sub"@,
        rd <= 15,
        rs <= 15,
        rt <= 15,
    ensures
        ({
            let ws = seq![op, reg_name(rd), reg_name(rs), reg_name(rt)];
            let ts = seq![Arg::RTypeInstr, Arg::Reg, Arg::Reg, Arg::Reg];
            &&& arg_types(ws, line) == Ok::<Seq<Arg>, ErrView>(ts)
            &&& instruction_step(ws, ts, line, orig) matches Step::Code(w, a) && a == line.1 && w.len() == 16
                && w.take(4) == r_code(op) && bits_value(w.subrange(4, 8)) == rd && bits_value(w.subrange(8, 12))
                == rs && bits_value(w.subrange(12, 16)) == rt
        }),
{
    let ws = seq![op, reg_name(rd), reg_name(rs), reg_name(rt)];
    let ts = seq![Arg::RTypeInstr, Arg::Reg, Arg::Reg, Arg::Reg];
    crate::expansion::lemma_op_types();
    lemma_reg_name(rd, 1, line);
    lemma_reg_name(rs, 2, line);
    lemma_reg_name(rt, 3, line);
    lemma_arg_types_of(ws, ts, line);
    lemma_ri_opcodes(line);
    let o = opcode_of(op, line)->Ok_0;
    let a = reg_addr(ws[1], 1, line)->Ok_0;
    let b = reg_addr(ws[2], 2, line)->Ok_0;
    let c = reg_addr(ws[3], 3, line)->Ok_0;
    assert(r_type(ws, line) == Step::Code(o + a + b + c, line.1));
    assert(instruction_step(ws, ts, line, orig) == r_type(ws, line)) by {
        reveal(instruction_step);
    }
    reveal_strlit("0000");
    reveal_strlit("0001");
    reveal_strlit("0010");
    reveal_strlit("0011");
    assert(o == r_code(op));
    let w = o + a + b + c;
    assert(w.take(4) =~= o);
    assert(w.subrange(4, 8) =~= a);
    assert(w.subrange(8, 12) =~= b);
    assert(w.subrange(12, 16) =~= c);
}

/// An R-type instruction `op rd rs rt` assembles to one word: the
/// operation's code, then the addresses of the first, second and third
/// registers, in that order, for every operation and every registers, the
/// same or not.
pub proof fn law_r_type_layout(op: Seq<char>, rd: nat, rs: nat, rt: nat, k: usize, cur: LineView)
    requires
        op == "add"@ || op == "and"@ || op == "or"@ || op == "sub"@,
        rd <= 15,
        rs <= 15,
        rt <= 15,
    ensures
        ({
            let text = join_space(seq![op, reg_name(rd), reg_name(rs), reg_name(rt)]);
            run_program(seq![(k, text)], Map::empty(), cur, 1) matches RunState::Running { mc, listing, .. }
                && mc.len() == 17 && mc[16] == '\n' && mc.take(4) == r_code(op) && bits_value(mc.subrange(4, 8))
                == rd && bits_value(mc.subrange(8, 12)) == rs && bits_value(mc.subrange(12, 16)) == rt && listing
                == text.push('\n')
        }),
{
    let ws = seq![op, reg_name(rd), reg_name(rs), reg_name(rt)];
    let text = join_space(ws);
    lemma_reg_name(rd, 1, (k, text));
    lemma_reg_name(rs, 2, (k, text));
    lemma_reg_name(rt, 3, (k, text));
    crate::expansion::lemma_fixed_words();
    assert(is_word(op) && !op.contains('='));
    assert forall|i: int| 0 <= i < ws.len() implies is_word(#[trigger] ws[i]) && !ws[i].contains('=') by {}
    lemma_run_single(ws, k, cur, 1);
    lemma_r_step(op, rd, rs, rt, (k, text), (k, text));
    let w = instruction_step(ws, seq![Arg::RTypeInstr, Arg::Reg, Arg::Reg, Arg::Reg], (k, text), (k, text))->Code_0;
    let mc = w.push('\n');
    assert(mc.take(4) =~= w.take(4));
    assert(mc.subrange(4, 8) =~= w.subrange(4, 8));
    assert(mc.subrange(8, 12) =~= w.subrange(8, 12));
    assert(mc.subrange(12, 16) =~= w.subrange(12, 16));
}

/// The word of an I-type instruction with a small immediate.
#[verifier::spinoff_prover]
#[verifier::rlimit(40)]
proof fn lemma_i_step(op: Seq<char>, rd: nat, rs: nat, imm: nat, line: LineView, orig: LineView)
    requires
        op == "addi"@ || op == "sll"@,
        rd <= 15,
        rs <= 15,
        imm <= 15,
    ensures
        ({
            let ws = seq![op, reg_name(rd), reg_name(rs), dec(imm)];
            let ts = seq![Arg::ITypeInstr, Arg::Reg, Arg::Reg, Arg::Imm];
            &&& arg_types(ws, line) == Ok::<Seq<Arg>, ErrView>(ts)
            &&& instruction_step(ws, ts, line, orig) matches Step::Code(w, a) && a == line.1 && w.len() == 16
                && w.take(4) == (if op == "addi"@ { "1000"@ } else { "1011"@ }) && bits_value(w.subrange(4, 8))
                == rd && bits_value(w.subrange(8, 12)) == rs && bits_value(w.subrange(12, 16)) == imm
        }),
{
    let ws = seq![op, reg_name(rd), reg_name(rs), dec(imm)];
    let ts = seq![Arg::ITypeInstr, Arg::Reg, Arg::Reg, Arg::Imm];
    crate::expansion::lemma_op_types();
    lemma_reg_name(rd, 1, line);
    lemma_reg_name(rs, 2, line);
    lemma_imm_name(imm, 3, 4, line);
    crate::machine_code::lemma_widths();
    lemma_arg_types_of(ws, ts, line);
    lemma_ri_opcodes(line);
    let o = opcode_of(op, line)->Ok_0;
    let a = reg_addr(ws[1], 1, line)->Ok_0;
    let b = reg_addr(ws[2], 2, line)->Ok_0;
    let c = imm_bits(ws[3], 3, 4, line)->Ok_0;
    assert(i_type(ws, line) == Step::Code(o + a + b + c, line.1));
    assert(instruction_step(ws, ts, line, orig) == i_type(ws, line)) by {
        reveal(instruction_step);
    }
    reveal_strlit("1000");
    reveal_strlit("1011");
    let w = o + a + b + c;
    assert(w.take(4) =~= o);
    assert(w.subrange(4, 8) =~= a);
    assert(w.subrange(8, 12) =~= b);
    assert(w.subrange(12, 16) =~= c);
}

/// An I-type instruction with a small immediate, `op rd rs imm`, assembles
/// to one word: the operation's code, then the addresses of the first and
/// second registers, in that order, then the immediate, for every I-type
/// operation.
pub proof fn law_i_type_layout(op: Seq<char>, rd: nat, rs: nat, imm: nat, k: usize, cur: LineView)
    requires
        op == "addi"@ || op == "sll"@,
        rd <= 15,
        rs <= 15,
        imm <= 15,
    ensures
        ({
            let text = join_space(seq![op, reg_name(rd), reg_name(rs), dec(imm)]);
            run_program(seq![(k, text)], Map::empty(), cur, 1) matches RunState::Running { mc, listing, .. }
                && mc.len() == 17 && mc[16] == '\n' && mc.take(4) == (if op == "addi"@ { "1000"@ } else { "1011"@ })
                && bits_value(mc.subrange(4, 8)) == rd && bits_value(mc.subrange(8, 12)) == rs && bits_value(
                mc.subrange(12, 16),
            ) == imm && listing == text.push('\n')
        }),
{
    let ws = seq![op, reg_name(rd), reg_name(rs), dec(imm)];
    let text = join_space(ws);
    lemma_reg_name(rd, 1, (k, text));
    lemma_reg_name(rs, 2, (k, text));
    lemma_imm_name(imm, 3, 4, (k, text));
    crate::expansion::lemma_fixed_words();
    assert(is_word(op) && !op.contains('='));
    assert forall|i: int| 0 <= i < ws.len() implies is_word(#[trigger] ws[i]) && !ws[i].contains('=') by {}
    lemma_run_single(ws, k, cur, 1);
    lemma_i_step(op, rd, rs, imm, (k, text), (k, text));
    let w = instruction_step(ws, seq![Arg::ITypeInstr, Arg::Reg, Arg::Reg, Arg::Imm], (k, text), (k, text))->Code_0;
    let mc = w.push('\n');
    assert(mc.take(4) =~= w.take(4));
    assert(mc.subrange(4, 8) =~= w.subrange(4, 8));
    assert(mc.subrange(8, 12) =~= w.subrange(8, 12));
    assert(mc.subrange(12, 16) =~= w.subrange(12, 16));
}


/// The kind of `jmpi`, and the codes of `li`, `jmpr` and `jmpi`.
proof fn lemma_other_ops(line: LineView)
    ensures
        arg_type("jmpi"@) == Some(Arg::ITypeJmp),
        is_word("jmpi"@) && !"jmpi"@.contains('='),
        opcode_of("li"@, line) == Ok::<Seq<char>, ErrView>("1111"@),
        opcode_of("jmpr"@, line) == Ok::<Seq<char>, ErrView>("011000000000"@),
        opcode_of("jmpi"@, line) == Ok::<Seq<char>, ErrView>("1110"@),
{
    reveal_strlit("add");
    reveal_strlit("and");
    reveal_strlit("or");
    reveal_strlit("sub");
    reveal_strlit("addi");
    reveal_strlit("sll");
    reveal_strlit("andi");
    reveal_strlit("ori");
    reveal_strlit("subi");
    reveal_strlit("li");
    reveal_strlit("lw");
    reveal_strlit("sw");
    reveal_strlit("jmpr");
    reveal_strlit("jmpi");
    assert("jmpi"@[0] != "addi"@[0] && "jmpi"@[0] != "andi"@[0] && "jmpi"@[0] != "subi"@[0] && "jmpi"@[3]
        != "jmpr"@[3] && "jmpi"@.len() != "add"@.len() && "jmpi"@.len() != "and"@.len() && "jmpi"@.len()
        != "or"@.len() && "jmpi"@.len() != "sub"@.len() && "jmpi"@.len() != "sll"@.len() && "jmpi"@.len()
        != "ori"@.len() && "jmpi"@.len() != "li"@.len() && "jmpi"@.len() != "lw"@.len() && "jmpi"@.len()
        != "sw"@.len());
    assert(forall|i: int| 0 <= i < "jmpi"@.len() ==> "jmpi"@[i] != '=' && !is_ws("jmpi"@[i]));
    assert("li"@[0] != "or"@[0] && "li"@[1] != "lw"@[1] && "li"@[0] != "sw"@[0]);
    assert("li"@.len() != "add"@.len() && "li"@.len() != "and"@.len() && "li"@.len() != "sub"@.len()
        && "li"@.len() != "addi"@.len() && "li"@.len() != "sll"@.len() && "li"@.len() != "jmpr"@.len());
    assert("jmpr"@.len() != "add"@.len() && "jmpr"@.len() != "li"@.len() && "jmpr"@[0] != "addi"@[0]);
    assert(opcodes().contains_key("li"@));
    assert(opcodes().contains_key("jmpr"@));
    assert(opcodes().contains_key("jmpi"@));
}

/// A load-immediate instruction with an immediate of 8 bits, `li rd imm`,
/// assembles to one word: the code `1111`, the address of the register
/// (bits 11-8), then the immediate (bits 7-0).
#[verifier::spinoff_prover]
#[verifier::rlimit(40)]
pub proof fn law_li_layout(rd: nat, imm: nat, k: usize, cur: LineView)
    requires
        rd <= 15,
        imm <= 255,
    ensures
        ({
            let text = join_space(seq!["li"@, reg_name(rd), dec(imm)]);
            run_program(seq![(k, text)], Map::empty(), cur, 1) matches RunState::Running { mc, listing, .. }
                && mc.len() == 17 && mc[16] == '\n' && mc.take(4) == "1111"@ && bits_value(mc.subrange(4, 8))
                == rd && bits_value(mc.subrange(8, 16)) == imm && listing == text.push('\n')
        }),
{
    let ws = seq!["li"@, reg_name(rd), dec(imm)];
    let ts = seq![Arg::LiInstr, Arg::Reg, Arg::Imm];
    let text = join_space(ws);
    let line = (k, text);
    crate::expansion::lemma_op_types();
    crate::expansion::lemma_fixed_words();
    crate::machine_code::lemma_widths();
    lemma_reg_name(rd, 1, line);
    lemma_imm_name(imm, 2, 8, line);
    assert forall|i: int| 0 <= i < ws.len() implies is_word(#[trigger] ws[i]) && !ws[i].contains('=') by {}
    lemma_run_single(ws, k, cur, 1);
    lemma_arg_types_of(ws, ts, line);
    lemma_other_ops(line);
    let o = opcode_of(ws[0], line)->Ok_0;
    let a = reg_addr(ws[1], 1, line)->Ok_0;
    let c = imm_bits(ws[2], 2, 8, line)->Ok_0;
    assert(li_instr(ws, line) == Step::Code(o + a + c, line.1));
    assert(instruction_step(ws, ts, line, line) == li_instr(ws, line)) by {
        reveal(instruction_step);
    }
    reveal_strlit("1111");
    let mc = (o + a + c).push('\n');
    assert(mc.take(4) =~= o);
    assert(mc.subrange(4, 8) =~= a);
    assert(mc.subrange(8, 16) =~= c);
}

/// A jump to a register, `jmpr r`, assembles to one word: the code
/// `011000000000`, then the address of the register (bits 3-0).
#[verifier::spinoff_prover]
#[verifier::rlimit(40)]
pub proof fn law_jmpr_layout(r: nat, k: usize, cur: LineView)
    requires
        r <= 15,
    ensures
        ({
            let text = join_space(seq!["jmpr"@, reg_name(r)]);
            run_program(seq![(k, text)], Map::empty(), cur, 1) matches RunState::Running { mc, listing, .. }
                && mc.len() == 17 && mc[16] == '\n' && mc.take(12) == "011000000000"@ && bits_value(
                mc.subrange(12, 16),
            ) == r && listing == text.push('\n')
        }),
{
    let ws = seq!["jmpr"@, reg_name(r)];
    let ts = seq![Arg::RTypeJmp, Arg::Reg];
    let text = join_space(ws);
    let line = (k, text);
    crate::expansion::lemma_op_types();
    crate::expansion::lemma_fixed_words();
    lemma_reg_name(r, 1, line);
    assert forall|i: int| 0 <= i < ws.len() implies is_word(#[trigger] ws[i]) && !ws[i].contains('=') by {}
    lemma_run_single(ws, k, cur, 1);
    lemma_arg_types_of(ws, ts, line);
    lemma_other_ops(line);
    let o = opcode_of(ws[0], line)->Ok_0;
    let a = reg_addr(ws[1], 1, line)->Ok_0;
    assert(jmp_r_type(ws, line) == Step::Code(o + a, line.1));
    assert(instruction_step(ws, ts, line, line) == jmp_r_type(ws, line)) by {
        reveal(instruction_step);
    }
    reveal_strlit("011000000000");
    let mc = (o + a).push('\n');
    assert(mc.take(12) =~= o);
    assert(mc.subrange(12, 16) =~= a);
}

/// A jump to an address of 12 bits, `jmpi imm`, assembles to one word: the
/// code `1110`, then the address (bits 11-0).
#[verifier::spinoff_prover]
#[verifier::rlimit(40)]
pub proof fn law_jmpi_layout(imm: nat, k: usize, cur: LineView)
    requires
        imm <= 4095,
    ensures
        ({
            let text = join_space(seq!["jmpi"@, dec(imm)]);
            run_program(seq![(k, text)], Map::empty(), cur, 1) matches RunState::Running { mc, listing, .. }
                && mc.len() == 17 && mc[16] == '\n' && mc.take(4) == "1110"@ && bits_value(mc.subrange(4, 16))
                == imm && listing == text.push('\n')
        }),
{
    let ws = seq!["jmpi"@, dec(imm)];
    let ts = seq![Arg::ITypeJmp, Arg::Imm];
    let text = join_space(ws);
    let line = (k, text);
    crate::machine_code::lemma_widths();
    lemma_other_ops(line);
    lemma_imm_name(imm, 1, 12, line);
    assert forall|i: int| 0 <= i < ws.len() implies is_word(#[trigger] ws[i]) && !ws[i].contains('=') by {}
    lemma_run_single(ws, k, cur, 1);
    lemma_arg_types_of(ws, ts, line);
    let o = opcode_of(ws[0], line)->Ok_0;
    let c = imm_bits(ws[1], 1, 12, line)->Ok_0;
    assert(jmp_i_type(ws, line) == Step::Code(o + c, line.1));
    assert(instruction_step(ws, ts, line, line) == jmp_i_type(ws, line)) by {
        reveal(instruction_step);
    }
    reveal_strlit("1110");
    let mc = (o + c).push('\n');
    assert(mc.take(4) =~= o);
    assert(mc.subrange(4, 16) =~= c);
}

} // verus!
