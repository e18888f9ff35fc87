//! The form of the machine code the assembler writes: every instruction is
//! one 16-bit word, written as 16 binary digits on a line of its own.
use vstd::prelude::*;

use crate::assembler::{Arg, LineView};
use crate::semantics::{
    arg_type, arg_types, as_line, bin_field, i_type, imm_bits, instruction_outcome, instruction_step, jmp_i_type,
    jmp_r_type, li_instr, max_of_width, mem_type, opcode_of, opcodes, r_type, reg_addr, run_prefix, run_program,
    substitute, Outcome, RunState, Step,
};
use crate::binary_to_hex::hex_of_line;
use crate::text::{digit_char, law_parse_formatted, pad_zeros, parse_unsigned, radix_str, scan_digits, words, IntErrorKind};

verus! {

/// `s` holds only the binary digits `0` and `1`.
pub open spec fn is_bin(s: Seq<char>) -> bool {
    forall|i: int| 0 <= i < s.len() ==> (#[trigger] s[i] == '0' || s[i] == '1')
}

/// An instruction word: 16 binary digits.
pub open spec fn is_word16(w: Seq<char>) -> bool {
    w.len() == 16 && is_bin(w)
}

/// Machine code text: lines that are each empty or one instruction word,
/// each ended by a line break.
pub open spec fn is_code_text(s: Seq<char>) -> bool
    decreases s.len(),
{
    if s.len() == 0 {
        true
    } else if s[0] == '\n' {
        is_code_text(s.drop_first())
    } else {
        s.len() >= 17 && is_word16(s.take(16)) && s[16] == '\n' && is_code_text(s.skip(17))
    }
}

/// Binary text stays binary when joined.
pub(crate) proof fn lemma_bin_concat(a: Seq<char>, b: Seq<char>)
    requires
        is_bin(a),
        is_bin(b),
    ensures
        is_bin(a + b),
{
    assert forall|i: int| 0 <= i < (a + b).len() implies (#[trigger] (a + b)[i] == '0' || (a + b)[i] == '1') by {
        if i < a.len() {
            assert((a + b)[i] == a[i]);
        } else {
            assert((a + b)[i] == b[i - a.len()]);
        }
    }
}

/// A number of at most `width` bits is written in binary with at most
/// `width` digits.
pub(crate) proof fn lemma_radix2(n: nat, width: nat)
    requires
        width >= 1,
        n <= max_of_width(width),
    ensures
        radix_str(n, 2).len() <= width,
        is_bin(radix_str(n, 2)),
    decreases n,
{
    if n < 2 {
        assert(radix_str(n, 2) == seq![digit_char(n)]);
        assert(digit_char(n) as nat == n + 48);
    } else {
        assert(width >= 2) by {
            if width == 1 {
                assert(max_of_width(0) == 0);
                assert(max_of_width(1) == 1);
            }
        }
        let w1 = (width - 1) as nat;
        assert(max_of_width(width) == 2 * max_of_width(w1) + 1);
        assert(n / 2 <= max_of_width(w1));
        lemma_radix2(n / 2, w1);
        let s = radix_str(n, 2);
        assert(s == radix_str(n / 2, 2).push(digit_char(n % 2)));
        assert(digit_char(n % 2) as nat == n % 2 + 48);
        lemma_bin_concat(radix_str(n / 2, 2), seq![digit_char(n % 2)]);
        assert(radix_str(n / 2, 2) + seq![digit_char(n % 2)] == s);
    }
}

/// A field that `bin_field` fills is exactly `digits` binary digits wide.
proof fn lemma_bin_field(num: nat, digits: nat, line: LineView)
    requires
        digits >= 1,
        bin_field(num, max_of_width(digits), digits, line) is Ok,
    ensures
        bin_field(num, max_of_width(digits), digits, line) matches Ok(f) && f.len() == digits && is_bin(f),
{
    lemma_radix2(num, digits);
    let s = radix_str(num, 2);
    let f = pad_zeros(s, digits);
    if s.len() < digits {
        let z = Seq::new((digits - s.len()) as nat, |i: int| '0');
        assert(is_bin(z));
        lemma_bin_concat(z, s);
    }
}

/// The widths of the fields of an instruction.
pub(crate) proof fn lemma_widths()
    ensures
        max_of_width(4) == 15,
        max_of_width(8) == 255,
        max_of_width(12) == 4095,
{
    reveal_with_fuel(max_of_width, 13);
}

/// A register address is 4 binary digits.
proof fn lemma_reg_addr(arg: Seq<char>, arg_num: nat, line: LineView)
    requires
        reg_addr(arg, arg_num, line) is Ok,
    ensures
        reg_addr(arg, arg_num, line) matches Ok(f) && f.len() == 4 && is_bin(f),
{
    lemma_widths();
    let p = crate::text::parse_usize(crate::util::numeric_part(arg));
    if let Ok(n) = p {
        lemma_bin_field(n, 4, line);
    }
}

/// An immediate field is `width` binary digits.
proof fn lemma_imm_bits(arg: Seq<char>, arg_num: nat, width: nat, line: LineView)
    requires
        width >= 1,
        imm_bits(arg, arg_num, width, line) is Ok,
    ensures
        imm_bits(arg, arg_num, width, line) matches Ok(f) && f.len() == width && is_bin(f),
{
    if let Ok(n) = crate::text::parse_usize(arg) {
        lemma_bin_field(n, width, line);
    }
}

/// The kinds of a line's words are the kinds of each word, in order.
pub proof fn lemma_arg_types_each(ws: Seq<Seq<char>>, line: LineView)
    ensures
        arg_types(ws, line) matches Ok(ts) ==> ts.len() == ws.len() && forall|i: int|
            0 <= i < ws.len() ==> arg_type(#[trigger] ws[i]) == Some(ts[i]),
    decreases ws.len(),
{
    if ws.len() > 0 {
        lemma_arg_types_each(ws.drop_last(), line);
        if let Ok(ts) = arg_types(ws, line) {
            let ts0 = arg_types(ws.drop_last(), line)->Ok_0;
            assert(ts == ts0.push(arg_type(ws.last())->Some_0));
            assert forall|i: int| 0 <= i < ws.len() implies arg_type(#[trigger] ws[i]) == Some(ts[i]) by {
                if i < ws.len() - 1 {
                    assert(ws[i] == ws.drop_last()[i]);
                }
            }
        }
    }
}

/// Every operation's code is binary: 12 digits for `jmpr`, 4 for the others.
proof fn lemma_opcode(op: Seq<char>, line: LineView)
    requires
        opcode_of(op, line) is Ok,
    ensures
        opcode_of(op, line) matches Ok(o) && is_bin(o) && o.len() == (if op == "jmpr"@ { 12nat } else { 4nat }),
{
    reveal_strlit("add");
    reveal_strlit("and");
    reveal_strlit("or");
    reveal_strlit("sub");
    reveal_strlit("addi");
    reveal_strlit("li");
    reveal_strlit("sll");
    reveal_strlit("sw");
    reveal_strlit("lw");
    reveal_strlit("jmpr");
    reveal_strlit("jmpi");
    reveal_strlit("0000");
    reveal_strlit("0001");
    reveal_strlit("0010");
    reveal_strlit("0011");
    reveal_strlit("1000");
    reveal_strlit("1111");
    reveal_strlit("1011");
    reveal_strlit("1100");
    reveal_strlit("1101");
    reveal_strlit("011000000000");
    reveal_strlit("1110");
    let m = opcodes();
    let o = m[op];
    assert(m.contains_key(op));
    if op == "jmpr"@ {
        assert("jmpr"@[3] != "jmpi"@[3]);
        assert(o == "011000000000"@);
    } else {
        assert(op != "jmpr"@);
        assert(o == "0000"@ || o == "0001"@ || o == "0010"@ || o == "0011"@ || o == "1000"@ || o == "1111"@
            || o == "1011"@ || o == "1100"@ || o == "1101"@ || o == "1110"@);
    }
    assert(is_bin(o));
}

/// Four binary fields of 4 digits make an instruction word.
proof fn lemma_four_fields(a: Seq<char>, b: Seq<char>, c: Seq<char>, d: Seq<char>)
    requires
        is_bin(a) && is_bin(b) && is_bin(c) && is_bin(d),
        a.len() + b.len() + c.len() + d.len() == 16,
    ensures
        is_word16(a + b + c + d),
{
    lemma_bin_concat(a, b);
    lemma_bin_concat(a + b, c);
    lemma_bin_concat(a + b + c, d);
}

/// The names of the operations other than `jmpr`.
proof fn lemma_not_jmpr(op: Seq<char>)
    requires
        op == "add"@ || op == "and"@ || op == "or"@ || op == "sub"@ || op == "addi"@ || op == "sll"@ || op == "li"@
            || op == "lw"@ || op == "sw"@ || op == "jmpi"@,
    ensures
        op != "jmpr"@,
{
    reveal_strlit("add");
    reveal_strlit("and");
    reveal_strlit("or");
    reveal_strlit("sub");
    reveal_strlit("addi");
    reveal_strlit("sll");
    reveal_strlit("li");
    reveal_strlit("lw");
    reveal_strlit("sw");
    reveal_strlit("jmpi");
    reveal_strlit("jmpr");
    if op == "addi"@ {
        assert(op[1] != "jmpr"@[1]);
    } else if op == "jmpi"@ {
        assert(op[3] != "jmpr"@[3]);
    } else {
        assert(op.len() != "jmpr"@.len());
    }
}

/// An R-type instruction assembles to one instruction word.
proof fn lemma_r_type_word(ws: Seq<Seq<char>>, line: LineView)
    requires
        ws.len() == 4,
        arg_type(ws[0]) == Some(Arg::RTypeInstr),
        r_type(ws, line) is Code,
    ensures
        r_type(ws, line) matches Step::Code(b, _) && is_word16(b),
{
    lemma_not_jmpr(ws[0]);
    lemma_opcode(ws[0], line);
    lemma_reg_addr(ws[1], 1, line);
    lemma_reg_addr(ws[2], 2, line);
    lemma_reg_addr(ws[3], 3, line);
    let o = opcode_of(ws[0], line)->Ok_0;
    let a = reg_addr(ws[1], 1, line)->Ok_0;
    let b = reg_addr(ws[2], 2, line)->Ok_0;
    let c = reg_addr(ws[3], 3, line)->Ok_0;
    lemma_four_fields(o, a, b, c);
}

/// An I-type instruction with a small immediate assembles to one word.
proof fn lemma_i_type_word(ws: Seq<Seq<char>>, line: LineView)
    requires
        ws.len() == 4,
        arg_type(ws[0]) == Some(Arg::ITypeInstr),
        i_type(ws, line) is Code,
    ensures
        i_type(ws, line) matches Step::Code(b, _) && is_word16(b),
{
    lemma_not_jmpr(ws[0]);
    lemma_opcode(ws[0], line);
    lemma_reg_addr(ws[1], 1, line);
    lemma_reg_addr(ws[2], 2, line);
    lemma_imm_bits(ws[3], 3, 4, line);
    let o = opcode_of(ws[0], line)->Ok_0;
    let a = reg_addr(ws[1], 1, line)->Ok_0;
    let b = reg_addr(ws[2], 2, line)->Ok_0;
    let c = imm_bits(ws[3], 3, 4, line)->Ok_0;
    lemma_four_fields(o, a, b, c);
}

/// A load-immediate instruction with a small immediate assembles to one word.
proof fn lemma_li_word(ws: Seq<Seq<char>>, line: LineView)
    requires
        ws.len() == 3,
        arg_type(ws[0]) == Some(Arg::LiInstr),
        li_instr(ws, line) is Code,
    ensures
        li_instr(ws, line) matches Step::Code(b, _) && is_word16(b),
{
    lemma_not_jmpr(ws[0]);
    lemma_opcode(ws[0], line);
    lemma_reg_addr(ws[1], 1, line);
    lemma_imm_bits(ws[2], 2, 8, line);
    let o = opcode_of(ws[0], line)->Ok_0;
    let a = reg_addr(ws[1], 1, line)->Ok_0;
    let c = imm_bits(ws[2], 2, 8, line)->Ok_0;
    lemma_four_fields(o, a, c, Seq::empty());
    assert(o + a + c + Seq::<char>::empty() == o + a + c);
}

/// A memory instruction with a small offset assembles to one word.
proof fn lemma_mem_word(ws: Seq<Seq<char>>, line: LineView)
    requires
        ws.len() == 4,
        arg_type(ws[0]) == Some(Arg::MemInstr),
        mem_type(ws, line) is Code,
    ensures
        mem_type(ws, line) matches Step::Code(b, _) && is_word16(b),
{
    lemma_not_jmpr(ws[0]);
    lemma_opcode(ws[0], line);
    lemma_reg_addr(ws[1], 1, line);
    lemma_imm_bits(ws[2], 2, 4, line);
    lemma_reg_addr(ws[3], 3, line);
    let o = opcode_of(ws[0], line)->Ok_0;
    let r = reg_addr(ws[1], 1, line)->Ok_0;
    let off = imm_bits(ws[2], 2, 4, line)->Ok_0;
    let base = reg_addr(ws[3], 3, line)->Ok_0;
    lemma_four_fields(o, r, base, off);
}

/// A jump to a register assembles to one word.
proof fn lemma_jmp_r_word(ws: Seq<Seq<char>>, line: LineView)
    requires
        ws.len() == 2,
        arg_type(ws[0]) == Some(Arg::RTypeJmp),
        jmp_r_type(ws, line) is Code,
    ensures
        jmp_r_type(ws, line) matches Step::Code(b, _) && is_word16(b),
{
    lemma_opcode(ws[0], line);
    lemma_reg_addr(ws[1], 1, line);
    let o = opcode_of(ws[0], line)->Ok_0;
    let a = reg_addr(ws[1], 1, line)->Ok_0;
    lemma_four_fields(o, a, Seq::empty(), Seq::empty());
    assert(o + a + Seq::<char>::empty() + Seq::<char>::empty() == o + a);
}

/// A jump to a small address assembles to one word.
proof fn lemma_jmp_i_word(ws: Seq<Seq<char>>, line: LineView)
    requires
        ws.len() == 2,
        arg_type(ws[0]) == Some(Arg::ITypeJmp),
        jmp_i_type(ws, line) is Code,
    ensures
        jmp_i_type(ws, line) matches Step::Code(b, _) && is_word16(b),
{
    lemma_not_jmpr(ws[0]);
    lemma_opcode(ws[0], line);
    lemma_widths();
    lemma_imm_bits(ws[1], 1, 12, line);
    let o = opcode_of(ws[0], line)->Ok_0;
    let c = imm_bits(ws[1], 1, 12, line)->Ok_0;
    lemma_four_fields(o, c, Seq::empty(), Seq::empty());
    assert(o + c + Seq::<char>::empty() + Seq::<char>::empty() == o + c);
}

/// An instruction that assembles to code on its own assembles to exactly
/// one instruction word.
proof fn lemma_step_word(ws: Seq<Seq<char>>, ts: Seq<Arg>, line: LineView, orig: LineView)
    requires
        arg_types(ws, line) == Ok::<Seq<Arg>, crate::semantics::ErrView>(ts),
        instruction_step(ws, ts, line, orig) is Code,
    ensures
        instruction_step(ws, ts, line, orig) matches Step::Code(b, _) && is_word16(b),
{
    reveal(instruction_step);
    lemma_arg_types_each(ws, line);
    let n = ts.len();
    assert(arg_type(ws[0]) == Some(ts[0]));
    if n == 4 && ts[0] == Arg::RTypeInstr && ts[1] == Arg::Reg && ts[2] == Arg::Reg && ts[3] == Arg::Reg {
        lemma_r_type_word(ws, line);
    } else if n == 4 && ts[0] == Arg::ITypeInstr && ts[1] == Arg::Reg && ts[2] == Arg::Reg && ts[3] == Arg::Imm {
        lemma_i_type_word(ws, line);
    } else if n == 3 && ts[0] == Arg::LiInstr && ts[1] == Arg::Reg && ts[2] == Arg::Imm {
        lemma_li_word(ws, line);
    } else if n == 4 && ts[0] == Arg::MemInstr && ts[1] == Arg::Reg && ts[2] == Arg::Imm && ts[3]
        == Arg::BaseAddrReg {
        lemma_mem_word(ws, line);
    } else if n == 2 && ts[0] == Arg::RTypeJmp && ts[1] == Arg::Reg {
        lemma_jmp_r_word(ws, line);
    } else if n == 2 && ts[0] == Arg::ITypeJmp && ts[1] == Arg::Imm {
        lemma_jmp_i_word(ws, line);
    }
}

/// Machine code text stays machine code text when joined.
proof fn lemma_code_concat(a: Seq<char>, b: Seq<char>)
    requires
        is_code_text(a),
        is_code_text(b),
    ensures
        is_code_text(a + b),
    decreases a.len(),
{
    if a.len() == 0 {
        assert(a + b =~= b);
    } else if a[0] == '\n' {
        lemma_code_concat(a.drop_first(), b);
        assert((a + b).drop_first() =~= a.drop_first() + b);
    } else {
        lemma_code_concat(a.skip(17), b);
        assert((a + b).take(16) =~= a.take(16));
        assert((a + b).skip(17) =~= a.skip(17) + b);
    }
}

/// What `as_line` makes of an instruction word, or of machine code text,
/// is machine code text.
proof fn lemma_as_line_code(b: Seq<char>)
    requires
        is_word16(b) || is_code_text(b),
    ensures
        is_code_text(as_line(b)),
{
    if b.len() > 0 {
        let s = b.push('\n');
        if is_word16(b) {
            assert(s.take(16) =~= b);
            assert(s.skip(17) =~= Seq::<char>::empty());
            assert(is_code_text(s.skip(17)));
            assert(s[0] == b[0]);
        } else {
            let nl = seq!['\n'];
            assert(nl.drop_first() =~= Seq::<char>::empty());
            assert(is_code_text(nl.drop_first()));
            lemma_code_concat(b, nl);
            assert(b + nl =~= s);
        }
    }
}

/// The run of a program that goes on reads only machine code text.
proof fn lemma_run_code(
    lines: Seq<LineView>,
    n: nat,
    a0: Map<Seq<char>, Seq<char>>,
    c0: LineView,
    depth: nat,
)
    ensures
        run_prefix(lines, n, a0, c0, depth) matches RunState::Running { mc, .. } ==> is_code_text(mc),
    decreases depth, n + 1,
{
    if n > 0 && n <= lines.len() {
        lemma_run_code(lines, (n - 1) as nat, a0, c0, depth);
        if let RunState::Running { aliases, cur, mc, listing } = run_prefix(lines, (n - 1) as nat, a0, c0, depth) {
            let line = lines[n - 1];
            let c = substitute(line, aliases);
            if c.1.len() != 0 && !c.1.contains('=') {
                lemma_outcome_code(c, line, depth);
                if let Outcome::Assembled(b, a) = instruction_outcome(c, line, depth) {
                    lemma_as_line_code(b);
                    lemma_code_concat(mc, as_line(b));
                }
            }
        }
    }
}

/// An instruction assembles to one instruction word, or to the machine
/// code text of the lines it expands into.
proof fn lemma_outcome_code(line: LineView, orig: LineView, depth: nat)
    ensures
        instruction_outcome(line, orig, depth) matches Outcome::Assembled(b, _) ==> is_word16(b) || is_code_text(b),
    decreases depth, 0nat,
{
    let ws = words(line.1);
    if let Ok(ts) = arg_types(ws, line) {
        match instruction_step(ws, ts, line, orig) {
            Step::Code(b, a) => {
                lemma_step_word(ws, ts, line, orig);
            },
            Step::Expand(sub) => {
                if depth > 0 {
                    lemma_run_code(sub, sub.len(), Map::empty(), (0usize, Seq::empty()), (depth - 1) as nat);
                }
            },
            _ => {},
        }
    }
}

/// Every instruction assembles to one 16-bit instruction word: the machine
/// code of an assembled program is made of lines that each hold one word of
/// 16 binary digits (or nothing, after an instruction that expanded into
/// several).
pub proof fn law_machine_code_words(
    lines: Seq<LineView>,
    aliases: Map<Seq<char>, Seq<char>>,
    cur: LineView,
    depth: nat,
)
    ensures
        run_program(lines, aliases, cur, depth) matches RunState::Running { mc, .. } ==> is_code_text(mc),
{
    lemma_run_code(lines, lines.len(), aliases, cur, depth);
}

/// Binary digits read in base 2 give a number of at most as many bits.
proof fn lemma_scan_bin(d: Seq<char>, max: nat)
    requires
        is_bin(d),
        max_of_width(d.len()) <= max,
    ensures
        scan_digits(d, 2, max) matches Ok(v) && v <= max_of_width(d.len()),
    decreases d.len(),
{
    if d.len() > 0 {
        let p = d.drop_last();
        assert(is_bin(p)) by {
            assert forall|i: int| 0 <= i < p.len() implies (#[trigger] p[i] == '0' || p[i] == '1') by {
                assert(p[i] == d[i]);
            }
        }
        assert(max_of_width(d.len()) == 2 * max_of_width(p.len()) + 1);
        lemma_scan_bin(p, max);
        assert(d.last() == d[d.len() - 1]);
    }
}

/// A number below 2^16 has at most four hex digits.
proof fn lemma_hex_len(n: nat)
    requires
        n <= 65535,
    ensures
        radix_str(n, 16).len() <= 4,
{
    if n >= 16 {
        let a = n / 16;
        assert(radix_str(n, 16).len() == radix_str(a, 16).len() + 1);
        if a >= 16 {
            let b = a / 16;
            assert(radix_str(a, 16).len() == radix_str(b, 16).len() + 1);
            if b >= 16 {
                let c = b / 16;
                assert(radix_str(b, 16).len() == radix_str(c, 16).len() + 1);
                assert(c < 16);
                assert(radix_str(c, 16).len() == 1);
            }
        }
    }
}

/// An instruction word converts to hex without error: six hex digits that
/// denote the same 16-bit number as the word's binary digits.
pub proof fn law_word_to_hex(w: Seq<char>)
    requires
        is_word16(w),
    ensures
        parse_unsigned(w, 2, u32::MAX as nat) matches Ok(v) && (v <= 65535 && (hex_of_line(w) matches Ok(h)
            && h.len() == 6 && parse_unsigned(h, 16, u32::MAX as nat) == Ok::<nat, IntErrorKind>(v))),
{
    reveal_with_fuel(max_of_width, 17);
    assert(max_of_width(16) == 65535);
    lemma_scan_bin(w, u32::MAX as nat);
    assert(w[0] == '0' || w[0] == '1');
    let v = scan_digits(w, 2, u32::MAX as nat)->Ok_0;
    lemma_hex_len(v);
    law_parse_formatted(v, 16, u32::MAX as nat, 6);
}

} // verus!
