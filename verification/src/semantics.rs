//! What a program assembles to: the meaning of the assembler, stated over
//! sequences of characters. The functions of `assembler` are proved to
//! compute exactly this.
use vstd::prelude::*;

use crate::assembler::{Arg, ErrorKind, LineView};
use crate::text::{dec, int_error_text, join_space, pad_zeros, parse_usize, radix_str, words, IntErrorKind};
use crate::util::{
    is_base_addr_register_spec, is_immediate_value_spec, is_register_spec, numeric_part,
    remove_parentheses_spec,
};

verus! {

/// An error: its kind and its message.
pub type ErrView = (ErrorKind, Seq<char>);

/// The machine code of each operation.
pub open spec fn opcodes() -> Map<Seq<char>, Seq<char>> {
    map![
        "add"@ => "0000"@,
        "and"@ => "0001"@,
        "or"@ => "0010"@,
        "sub"@ => "0011"@,
        "addi"@ => "1000"@,
        "li"@ => "1111"@,
        "sll"@ => "1011"@,
        "sw"@ => "1100"@,
        "lw"@ => "1101"@,
        "jmpr"@ => "011000000000"@,
        "jmpi"@ => "1110"@
    ]
}

/// The name of the temporary register.
pub open spec fn rat() -> Seq<char> {
    "ra14"@
}

/// How an error message of each kind starts.
pub open spec fn kind_prefix(k: ErrorKind) -> Seq<char> {
    match k {
        ErrorKind::InvalidArgument => "\nInvalid argument"@,
        ErrorKind::AliasError => "\nInvalid alias"@,
        ErrorKind::SyntaxError => "\nSyntax (or unknown) error"@,
    }
}

/// The error of kind `k` about `line`, naming an argument position and an
/// explanation where they are given.
pub open spec fn err_at(k: ErrorKind, line: LineView, pos: Option<nat>, msg: Option<Seq<char>>) -> ErrView {
    (
        k,
        kind_prefix(k) + " on line "@ + dec(line.0 as nat) + (match pos {
            Some(p) => ", position "@ + dec(p),
            None => Seq::empty(),
        }) + ":\n\t"@ + line.1 + "\n"@ + (match msg {
            Some(m) => "Explanation: "@ + m,
            None => Seq::empty(),
        }),
    )
}

/// The syntax error about the line `orig` as written.
pub open spec fn syntax_error(orig: LineView) -> ErrView {
    (ErrorKind::SyntaxError, "Syntax error on line "@ + dec(orig.0 as nat) + ": \n\t"@ + orig.1)
}

/// What kind of word `w` is, if it is a valid word.
pub open spec fn arg_type(w: Seq<char>) -> Option<Arg> {
    if w == "add"@ || w == "and"@ || w == "or"@ || w == "sub"@ {
        Some(Arg::RTypeInstr)
    } else if w == "addi"@ || w == "sll"@ {
        Some(Arg::ITypeInstr)
    } else if w == "andi"@ || w == "ori"@ || w == "subi"@ {
        Some(Arg::PseudoInstr)
    } else if w == "li"@ {
        Some(Arg::LiInstr)
    } else if w == "lw"@ || w == "sw"@ {
        Some(Arg::MemInstr)
    } else if w == "jmpr"@ {
        Some(Arg::RTypeJmp)
    } else if w == "jmpi"@ {
        Some(Arg::ITypeJmp)
    } else if is_base_addr_register_spec(w) {
        Some(Arg::BaseAddrReg)
    } else if is_register_spec(w) {
        Some(Arg::Reg)
    } else if is_immediate_value_spec(w) {
        Some(Arg::Imm)
    } else {
        None
    }
}

/// The kinds of the words `ws` of `line`, or the error about the first
/// invalid word.
pub open spec fn arg_types(ws: Seq<Seq<char>>, line: LineView) -> Result<Seq<Arg>, ErrView>
    decreases ws.len(),
{
    if ws.len() == 0 {
        Ok(Seq::empty())
    } else {
        match arg_types(ws.drop_last(), line) {
            Err(e) => Err(e),
            Ok(ts) => match arg_type(ws.last()) {
                None => Err(err_at(ErrorKind::InvalidArgument, line, Some(ws.len()), None)),
                Some(t) => Ok(ts.push(t)),
            },
        }
    }
}

/// The machine code of operation `op`.
pub open spec fn opcode_of(op: Seq<char>, line: LineView) -> Result<Seq<char>, ErrView> {
    if opcodes().contains_key(op) {
        Ok(opcodes()[op])
    } else {
        Err(err_at(ErrorKind::InvalidArgument, line, Some(1), Some("Invalid operation (not yet implemented)"@)))
    }
}

/// `num` in binary, padded to `digits` digits, if it is at most `max`.
pub open spec fn bin_field(num: nat, max: nat, digits: nat, line: LineView) -> Result<Seq<char>, ErrView> {
    if num <= max {
        Ok(pad_zeros(radix_str(num, 2), digits))
    } else {
        Err(err_at(ErrorKind::InvalidArgument, line, Some(3), Some(
            "Number out of range (must be between 0 and "@ + dec(max) + ", inclusive)"@)))
    }
}

/// The 4-bit address of the register that `arg` names (its numeric characters).
pub open spec fn reg_addr(arg: Seq<char>, arg_num: nat, line: LineView) -> Result<Seq<char>, ErrView> {
    match parse_usize(numeric_part(arg)) {
        Ok(n) => bin_field(n, 15, 4, line),
        Err(e) => Err(err_at(ErrorKind::InvalidArgument, line, Some(arg_num), Some(
            "Failed to parse register address: "@ + int_error_text(e)))),
    }
}

/// The largest value of `width` bits.
pub open spec fn max_of_width(width: nat) -> nat
    decreases width,
{
    if width == 0 {
        0
    } else {
        2 * max_of_width((width - 1) as nat) + 1
    }
}

/// The immediate value `arg` in binary, `width` digits wide.
pub open spec fn imm_bits(arg: Seq<char>, arg_num: nat, width: nat, line: LineView) -> Result<Seq<char>, ErrView> {
    match parse_usize(arg) {
        Ok(n) => bin_field(n, max_of_width(width), width, line),
        Err(e) => Err(err_at(ErrorKind::InvalidArgument, line, Some(arg_num), Some(
            "Error while parsing the argument: "@ + int_error_text(e)))),
    }
}

/// The R-type operation that uses a register where `op` takes an immediate.
pub open spec fn r_type_of(op: Seq<char>, line: LineView) -> Result<Seq<char>, ErrView> {
    if op == "addi"@ {
        Ok("add"@)
    } else if op == "andi"@ {
        Ok("and"@)
    } else if op == "ori"@ {
        Ok("or"@)
    } else if op == "subi"@ {
        Ok("sub"@)
    } else if op == "jmpi"@ {
        Ok("jmpr"@)
    } else {
        Err(err_at(ErrorKind::InvalidArgument, line, Some(0), Some(
            op + " doesn't have a corresponding R-type instruction"@)))
    }
}

/// The lines that load `imm` into the temporary register, numbered from 0.
pub open spec fn load_large_imm(imm: nat) -> Seq<LineView> {
    if imm <= 255 {
        seq![(0usize, "li ra14 "@ + dec(imm))]
    } else {
        let hi = (imm / 256) % 256;
        let mid = (imm / 16) % 16;
        let lo = imm % 16;
        let first = seq![(0usize, "li ra14 "@ + dec(hi))];
        let middle = if mid != 0 {
            first + seq![
                (1usize, "sll ra14 ra14 4"@),
                (2usize, "addi ra14 ra14 "@ + dec(mid)),
                (3usize, "sll ra14 ra14 4"@),
            ]
        } else {
            first.push((1usize, "sll ra14 ra14 8"@))
        };
        if lo != 0 {
            middle.push((middle.len() as usize, "addi ra14 ra14 "@ + dec(lo)))
        } else {
            middle
        }
    }
}

/// What one instruction line turns into.
pub enum Step {
    /// Machine code, and the assembly it came from.
    Code(Seq<char>, Seq<char>),
    /// An error.
    Error(ErrView),
    /// These lines, assembled on their own, stand for the instruction.
    Expand(Seq<LineView>),
}

/// The error about an immediate value, argument `pos` of `line`, that is not
/// a `usize` (negative, too large, or no number).
pub open spec fn imm_parse_error(line: LineView, pos: nat, e: IntErrorKind) -> ErrView {
    err_at(ErrorKind::InvalidArgument, line, Some(pos), Some("Error while parsing the argument: "@ + int_error_text(e)))
}

/// The message for an immediate value above 16 bits.
pub open spec fn too_large() -> Seq<char> {
    "Immediate value is above the maximum of 65535"@
}

/// An R-type instruction: `op rd rs rt`.
pub open spec fn r_type(ws: Seq<Seq<char>>, line: LineView) -> Step {
    match opcode_of(ws[0], line) {
        Err(e) => Step::Error(e),
        Ok(o) => match reg_addr(ws[1], 1, line) {
            Err(e) => Step::Error(e),
            Ok(a) => match reg_addr(ws[2], 2, line) {
                Err(e) => Step::Error(e),
                Ok(b) => match reg_addr(ws[3], 3, line) {
                    Err(e) => Step::Error(e),
                    Ok(c) => Step::Code(o + a + b + c, line.1),
                },
            },
        },
    }
}

/// An I-type instruction: `op rd rs imm`.
pub open spec fn i_type(ws: Seq<Seq<char>>, line: LineView) -> Step {
    match parse_usize(ws[3]) {
        Err(e) => Step::Error(imm_parse_error(line, 4, e)),
        Ok(imm) => if imm > 15 {
            if imm > 65535 {
                Step::Error(err_at(ErrorKind::InvalidArgument, line, Some(4), Some(too_large())))
            } else {
                let exp = load_large_imm(imm);
                match r_type_of(ws[0], line) {
                    Err(e) => Step::Error(e),
                    Ok(op) => Step::Expand(
                        exp.push(
                            (
                                (exp.len() + 1) as usize,
                                op + " "@ + ws[1] + " "@ + ws[2] + " "@ + rat(),
                            ),
                        ),
                    ),
                }
            }
        } else {
            match opcode_of(ws[0], line) {
                Err(e) => Step::Error(e),
                Ok(o) => match reg_addr(ws[1], 1, line) {
                    Err(e) => Step::Error(e),
                    Ok(a) => match reg_addr(ws[2], 2, line) {
                        Err(e) => Step::Error(e),
                        Ok(b) => match imm_bits(ws[3], 3, 4, line) {
                            Err(e) => Step::Error(e),
                            Ok(c) => Step::Code(o + a + b + c, line.1),
                        },
                    },
                },
            }
        },
    }
}

/// A load-immediate instruction: `li rd imm`.
pub open spec fn li_instr(ws: Seq<Seq<char>>, line: LineView) -> Step {
    match parse_usize(ws[2]) {
        Err(e) => Step::Error(imm_parse_error(line, 3, e)),
        Ok(imm) => if imm > 255 {
            if imm > 65535 {
                Step::Error(err_at(ErrorKind::InvalidArgument, line, Some(3), Some(too_large())))
            } else {
                let exp = load_large_imm(imm);
                let n = (exp.len() + 1) as usize;
                if ws[0] == "li"@ {
                    Step::Expand(exp.push((n, "addi "@ + ws[1] + " "@ + rat() + " 0"@)))
                } else {
                    match r_type_of(ws[0], line) {
                        Err(e) => Step::Error(e),
                        Ok(op) => Step::Expand(exp.push((n, op + " "@ + ws[1] + " "@ + rat()))),
                    }
                }
            }
        } else {
            match opcode_of(ws[0], line) {
                Err(e) => Step::Error(e),
                Ok(o) => match reg_addr(ws[1], 1, line) {
                    Err(e) => Step::Error(e),
                    Ok(a) => match imm_bits(ws[2], 2, 8, line) {
                        Err(e) => Step::Error(e),
                        Ok(c) => Step::Code(o + a + c, line.1),
                    },
                },
            }
        },
    }
}

/// A memory instruction: `op rd offset (base)`.
pub open spec fn mem_type(ws: Seq<Seq<char>>, line: LineView) -> Step {
    match parse_usize(ws[2]) {
        Err(e) => Step::Error(imm_parse_error(line, 3, e)),
        Ok(imm) => if imm > 15 {
            if imm > 65535 {
                Step::Error(err_at(ErrorKind::InvalidArgument, line, Some(3), Some(too_large())))
            } else {
                let exp = load_large_imm(imm);
                let penultimate = (
                    (exp.len() + 1) as usize,
                    "add "@ + rat() + " "@ + rat() + " "@ + remove_parentheses_spec(ws[3]),
                );
                let last = ((exp.len() + 2) as usize, ws[0] + " "@ + ws[1] + " 0 ("@ + rat() + ")"@);
                Step::Expand(exp.push(penultimate).push(last))
            }
        } else {
            match opcode_of(ws[0], line) {
                Err(e) => Step::Error(e),
                Ok(o) => match reg_addr(ws[1], 1, line) {
                    Err(e) => Step::Error(e),
                    Ok(r) => match imm_bits(ws[2], 2, 4, line) {
                        Err(e) => Step::Error(e),
                        Ok(off) => match reg_addr(ws[3], 3, line) {
                            Err(e) => Step::Error(e),
                            Ok(base) => Step::Code(o + r + base + off, line.1),
                        },
                    },
                },
            }
        },
    }
}

/// An immediate form that has no machine instruction of its own (`andi`,
/// `ori`, `subi`): `op rd rs imm` loads `imm` into the temporary register
/// and applies the R-type operation to it.
pub open spec fn pseudo_type(ws: Seq<Seq<char>>, line: LineView) -> Step {
    match parse_usize(ws[3]) {
        Err(e) => Step::Error(imm_parse_error(line, 4, e)),
        Ok(imm) => if imm > 65535 {
            Step::Error(err_at(ErrorKind::InvalidArgument, line, Some(4), Some(too_large())))
        } else {
            let exp = load_large_imm(imm);
            match r_type_of(ws[0], line) {
                Err(e) => Step::Error(e),
                Ok(op) => Step::Expand(
                    exp.push(((exp.len() + 1) as usize, op + " "@ + ws[1] + " "@ + ws[2] + " "@ + rat())),
                ),
            }
        },
    }
}

/// A jump to a register: `jmpr rd`.
pub open spec fn jmp_r_type(ws: Seq<Seq<char>>, line: LineView) -> Step {
    match opcode_of(ws[0], line) {
        Err(e) => Step::Error(e),
        Ok(o) => match reg_addr(ws[1], 1, line) {
            Err(e) => Step::Error(e),
            Ok(a) => Step::Code(o + a, line.1),
        },
    }
}

/// A jump to an address: `jmpi imm`.
pub open spec fn jmp_i_type(ws: Seq<Seq<char>>, line: LineView) -> Step {
    match parse_usize(ws[1]) {
        Err(e) => Step::Error(imm_parse_error(line, 2, e)),
        Ok(imm) => if imm > 4095 {
            if imm > 65535 {
                Step::Error(err_at(ErrorKind::InvalidArgument, line, Some(2), Some(too_large())))
            } else {
                let exp = load_large_imm(imm);
                match r_type_of(ws[0], line) {
                    Err(e) => Step::Error(e),
                    Ok(op) => Step::Expand(exp.push(((exp.len() + 1) as usize, op + " "@ + rat()))),
                }
            }
        } else {
            match opcode_of(ws[0], line) {
                Err(e) => Step::Error(e),
                Ok(o) => match imm_bits(ws[1], 1, 12, line) {
                    Err(e) => Step::Error(e),
                    Ok(c) => Step::Code(o + c, line.1),
                },
            }
        },
    }
}

/// An error about argument `pos` of `line`, with an explanation.
pub open spec fn arg_err(line: LineView, pos: nat, msg: Seq<char>) -> Step {
    Step::Error(err_at(ErrorKind::InvalidArgument, line, Some(pos), Some(msg)))
}

/// What an instruction line `line` (written as `orig`) turns into, given
/// the kinds `ts` of its words `ws`.
#[verifier::opaque]
pub open spec fn instruction_step(ws: Seq<Seq<char>>, ts: Seq<Arg>, line: LineView, orig: LineView) -> Step {
    let n = ts.len();
    if n == 4 && ts[0] == Arg::RTypeInstr && ts[1] == Arg::Reg && ts[2] == Arg::Reg && ts[3] == Arg::Reg {
        r_type(ws, line)
    } else if n == 4 && ts[0] == Arg::ITypeInstr && ts[1] == Arg::Reg && ts[2] == Arg::Reg && ts[3] == Arg::Imm {
        i_type(ws, line)
    } else if n == 4 && ts[0] == Arg::PseudoInstr && ts[1] == Arg::Reg && ts[2] == Arg::Reg && ts[3] == Arg::Imm {
        pseudo_type(ws, line)
    } else if n == 3 && ts[0] == Arg::LiInstr && ts[1] == Arg::Reg && ts[2] == Arg::Imm {
        li_instr(ws, line)
    } else if n == 4 && ts[0] == Arg::MemInstr && ts[1] == Arg::Reg && ts[2] == Arg::Imm && ts[3]
        == Arg::BaseAddrReg {
        mem_type(ws, line)
    } else if n == 2 && ts[0] == Arg::RTypeJmp && ts[1] == Arg::Reg {
        jmp_r_type(ws, line)
    } else if n == 2 && ts[0] == Arg::ITypeJmp && ts[1] == Arg::Imm {
        jmp_i_type(ws, line)
    } else if n == 4 && ts[0] == Arg::RTypeInstr && ts[3] == Arg::Imm {
        arg_err(line, 4, "R-type instructions don't take an immediate value as an argument."@)
    } else if n == 4 && ts[0] == Arg::ITypeInstr && ts[3] == Arg::Reg {
        arg_err(line, 4, "I-type instructions take an immediate value, not a register."@)
    } else if n == 4 && ts[0] == Arg::MemInstr && ts[3] == Arg::Reg {
        arg_err(line, 4, "Base address register needs parentheses, e.g. (ra0) instead of ra0"@)
    } else if n == 4 && ts[0] == Arg::MemInstr {
        arg_err(line, 4, "Memory instructions only take 3 arguments"@)
    } else if n >= 1 && (ts[0] == Arg::Reg || ts[0] == Arg::Imm || ts[0] == Arg::BaseAddrReg) {
        arg_err(line, 1, "The first argument must be an operation."@)
    } else if n == 2 && ts[0] == Arg::RTypeJmp && ts[1] == Arg::Imm {
        arg_err(line, 2, "This argument must be a register, not an immediate value."@)
    } else if n == 2 && ts[0] == Arg::ITypeJmp && ts[1] == Arg::Reg {
        arg_err(line, 2, "This argument must be an immediate value, not a register."@)
    } else if n >= 2 && ts[0] == Arg::RTypeJmp {
        arg_err(line, 2, "Too many arguments: jmpr only takes the destination register as an argument."@)
    } else if n >= 2 && ts[0] == Arg::ITypeJmp {
        arg_err(line, 2, "Too many arguments: jmpi only takes an immediate value as an argument."@)
    } else {
        Step::Error(syntax_error(orig))
    }
}

/// What assembling yields: the machine code and the assembly code, or an
/// error.
pub enum Outcome {
    Assembled(Seq<char>, Seq<char>),
    Failed(ErrView),
}

/// The state of an assembler that has read some lines.
pub enum RunState {
    /// Still going: the aliases so far, the current line, and the code so far.
    Running { aliases: Map<Seq<char>, Seq<char>>, cur: LineView, mc: Seq<char>, listing: Seq<char> },
    /// Stopped at an error.
    Stopped { aliases: Map<Seq<char>, Seq<char>>, cur: LineView, err: ErrView },
}

/// A word with aliases substituted: an alias is replaced by its value, and
/// an alias in parentheses by its value in parentheses.
pub open spec fn subst_word(w: Seq<char>, aliases: Map<Seq<char>, Seq<char>>) -> Seq<char> {
    if aliases.contains_key(w) {
        aliases[w]
    } else {
        let stripped = remove_parentheses_spec(w);
        if aliases.contains_key(stripped) {
            seq!['('] + aliases[stripped] + seq![')']
        } else {
            w
        }
    }
}

/// `line` with aliases substituted, its words joined by single spaces.
pub open spec fn substitute(line: LineView, aliases: Map<Seq<char>, Seq<char>>) -> LineView {
    (line.0, join_space(words(line.1).map_values(|w: Seq<char>| subst_word(w, aliases))))
}

/// The name and value that the alias declaration `line` declares.
pub open spec fn parse_alias(line: LineView, aliases: Map<Seq<char>, Seq<char>>) -> Result<(Seq<char>, Seq<char>), ErrView> {
    let ws = words(line.1);
    if ws.len() != 3 || ws[1] != "="@ {
        Err(err_at(ErrorKind::AliasError, line, None, None))
    } else if arg_type(ws[2]) is None {
        Err(err_at(ErrorKind::AliasError, line, None, Some("Invalid value for the alias"@)))
    } else if ws[0].contains('(') || ws[2].contains('(') {
        Err(err_at(ErrorKind::AliasError, line, None, Some("Aliases can't have parentheses"@)))
    } else if aliases.contains_key(ws[2]) {
        Err(err_at(ErrorKind::AliasError, line, None, Some("Aliases can't store other aliases"@)))
    } else {
        Ok((ws[0], ws[2]))
    }
}

/// The outcome of a finished run.
pub open spec fn outcome_of(s: RunState) -> Outcome {
    match s {
        RunState::Running { mc, listing, .. } => Outcome::Assembled(mc, listing),
        RunState::Stopped { err, .. } => Outcome::Failed(err),
    }
}

/// `code` followed by a line break, or nothing if `code` is empty.
pub open spec fn as_line(code: Seq<char>) -> Seq<char> {
    if code.len() > 0 {
        code.push('\n')
    } else {
        Seq::empty()
    }
}

/// The state after reading the first `n` of `lines`, starting from the
/// aliases `a0` and current line `c0`. Lines that expand into several are
/// assembled on their own, `depth` levels deep.
pub open spec fn run_prefix(
    lines: Seq<LineView>,
    n: nat,
    a0: Map<Seq<char>, Seq<char>>,
    c0: LineView,
    depth: nat,
) -> RunState
    decreases depth, n + 1,
{
    if n == 0 || n > lines.len() {
        RunState::Running { aliases: a0, cur: c0, mc: Seq::empty(), listing: Seq::empty() }
    } else {
        match run_prefix(lines, (n - 1) as nat, a0, c0, depth) {
            RunState::Running { aliases, cur, mc, listing } => {
                let line = lines[n - 1];
                let c = substitute(line, aliases);
                if c.1.len() == 0 {
                    RunState::Running { aliases, cur: c, mc, listing }
                } else if c.1.contains('=') {
                    match parse_alias(c, aliases) {
                        Ok((k, v)) => RunState::Running { aliases: aliases.insert(k, v), cur: c, mc, listing },
                        Err(e) => RunState::Stopped { aliases, cur: c, err: e },
                    }
                } else {
                    match instruction_outcome(c, line, depth) {
                        Outcome::Assembled(b, a) => RunState::Running {
                            aliases,
                            cur: c,
                            mc: mc + as_line(b),
                            listing: listing + as_line(a),
                        },
                        Outcome::Failed(e) => RunState::Stopped { aliases, cur: c, err: e },
                    }
                }
            },
            other => other,
        }
    }
}

/// What the instruction line `line` (written as `orig`) assembles to.
pub open spec fn instruction_outcome(line: LineView, orig: LineView, depth: nat) -> Outcome
    decreases depth, 0nat,
{
    let ws = words(line.1);
    match arg_types(ws, line) {
        Err(e) => Outcome::Failed(e),
        Ok(ts) => match instruction_step(ws, ts, line, orig) {
            Step::Code(b, a) => Outcome::Assembled(b, a),
            Step::Error(e) => Outcome::Failed(e),
            Step::Expand(sub) => if depth == 0 {
                Outcome::Failed(syntax_error(orig))
            } else {
                outcome_of(run_prefix(sub, sub.len(), Map::empty(), (0usize, Seq::empty()), (depth - 1) as nat))
            },
        },
    }
}

/// The state after reading all of `lines`.
pub open spec fn run_program(
    lines: Seq<LineView>,
    aliases: Map<Seq<char>, Seq<char>>,
    cur: LineView,
    depth: nat,
) -> RunState {
    run_prefix(lines, lines.len(), aliases, cur, depth)
}

} // verus!
