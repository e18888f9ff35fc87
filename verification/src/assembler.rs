//! Assembling programs for the 16-bit CPU into machine code.
use vstd::prelude::*;

use crate::hash_map::HashMap;
use crate::semantics::{
    arg_type, arg_types, bin_field, err_at, imm_bits, imm_parse_error, instruction_outcome, instruction_step,
    load_large_imm,
    max_of_width, opcode_of, opcodes, outcome_of, parse_alias, r_type_of, reg_addr, run_prefix,
    run_program, substitute, subst_word, syntax_error, ErrView, Outcome, RunState, Step,
};
use crate::text::{
    chars_of, contains_char, dec, int_error_message, join_space, parse_usize, parse_usize_str,
    push_char, push_str, words, usize_to_string, radix_chars, pad_zeros_chars, string_of, str_eq,
    IntErrorKind,
};
use crate::util::{
    add_parentheses, assembly_lines, assembly_str_to_line_vec, is_alias, is_base_addr_register,
    is_immediate_value, is_register, lines_view, remove_non_numeric, remove_parentheses, split_args,
};

verus! {

/// The highest register number (registers 12-15 are reserved: stack
/// pointer, return address, temporary, zero).
pub const MAX_REGISTER: usize = 15;

/// What register names start with.
pub const REGISTER_PREFIX: &'static str = "ra";

/// The temporary register that pseudo-instructions use.
pub const RAT_ADDR: usize = 14;

/// A line of assembly code and its line number.
pub struct AssemblyLine {
    pub num: usize,
    pub contents: String,
}

/// A line as a number and its characters.
pub type LineView = (usize, Seq<char>);

impl View for AssemblyLine {
    type V = LineView;

    open spec fn view(&self) -> LineView {
        (self.num, self.contents@)
    }
}

} // verus!

verus! {

/// An error found while assembling; each carries its message.
pub enum AssemblyError {
    InvalidArgument(String),
    SyntaxError(String),
    AliasError(String),
}

/// The kinds of assembly errors.
#[derive(PartialEq, Eq, Structural, Clone, Copy, Debug)]
pub enum ErrorKind {
    InvalidArgument,
    SyntaxError,
    AliasError,
}

impl View for AssemblyError {
    type V = (ErrorKind, Seq<char>);

    open spec fn view(&self) -> (ErrorKind, Seq<char>) {
        match self {
            AssemblyError::InvalidArgument(m) => (ErrorKind::InvalidArgument, m@),
            AssemblyError::SyntaxError(m) => (ErrorKind::SyntaxError, m@),
            AssemblyError::AliasError(m) => (ErrorKind::AliasError, m@),
        }
    }
}

/// What a word of an instruction is.
#[derive(PartialEq, Eq, Structural, Clone, Copy, Debug)]
pub enum Arg {
    Reg,
    Imm,
    BaseAddrReg,
    RTypeInstr,
    ITypeInstr,
    LiInstr,
    PseudoInstr,
    MemInstr,
    RTypeJmp,
    ITypeJmp,
}

} // verus!

verus! {

impl AssemblyError {
    /// An error of kind `err_type` with message `msg`.
    fn new(err_type: ErrorKind, msg: &str) -> (e: Self)
        ensures
            e@ == (err_type, msg@),
    {
        let m = msg.to_owned();
        match err_type {
            ErrorKind::InvalidArgument => AssemblyError::InvalidArgument(m),
            ErrorKind::AliasError => AssemblyError::AliasError(m),
            ErrorKind::SyntaxError => AssemblyError::SyntaxError(m),
        }
    }

    /// The message of this error.
    pub fn message(&self) -> (m: String)
        ensures
            m@ == self@.1,
    {
        match self {
            AssemblyError::InvalidArgument(msg) => msg.clone(),
            AssemblyError::SyntaxError(msg) => msg.clone(),
            AssemblyError::AliasError(msg) => msg.clone(),
        }
    }
}

/// A copy of `l`.
fn copy_line(l: &AssemblyLine) -> (r: AssemblyLine)
    ensures
        r@ == l@,
{
    AssemblyLine { num: l.num, contents: l.contents.clone() }
}

/// The values of an alias map as character sequences.
pub open spec fn alias_values(m: Map<Seq<char>, String>) -> Map<Seq<char>, Seq<char>> {
    m.map_values(|s: String| s@)
}

/// The view of a result of an error-returning step.
pub open spec fn res_view<T: View>(r: Result<T, AssemblyError>) -> Result<T::V, ErrView> {
    match r {
        Ok(v) => Ok(v@),
        Err(e) => Err(e@),
    }
}

/// The outcome that a run's result stands for.
pub open spec fn outcome_view(r: Result<(String, String), AssemblyError>) -> Outcome {
    match r {
        Ok((a, b)) => Outcome::Assembled(a@, b@),
        Err(e) => Outcome::Failed(e@),
    }
}

/// An optional position as a number.
pub open spec fn opt_nat(o: Option<usize>) -> Option<nat> {
    match o {
        Some(p) => Some(p as nat),
        None => None,
    }
}

/// An optional message as characters.
pub open spec fn opt_chars(o: Option<&str>) -> Option<Seq<char>> {
    match o {
        Some(m) => Some(m@),
        None => None,
    }
}

/// The words of `v` joined by single spaces.
fn join_words(v: &Vec<String>) -> (s: String)
    ensures
        s@ == join_space(v@.map_values(|w: String| w@)),
{
    let mut s = String::new();
    let mut i: usize = 0;
    while i < v.len()
        invariant
            i <= v.len(),
            s@ == join_space(v@.map_values(|w: String| w@).take(i as int)),
        decreases v.len() - i,
    {
        let ghost ws = v@.map_values(|w: String| w@);
        assert(ws.take(i + 1).drop_last() =~= ws.take(i as int));
        assert(ws.take(i + 1).last() == v@[i as int]@);
        if i > 0 {
            push_char(&mut s, ' ');
        } else {
            assert(s@ =~= Seq::<char>::empty());
        }
        push_str(&mut s, v[i].as_str());
        assert(s@ =~= join_space(ws.take(i + 1)));
        i += 1;
    }
    assert(v@.map_values(|w: String| w@).take(v.len() as int) =~= v@.map_values(|w: String| w@));
    s
}

/// What one instruction line turns into (see `Step`).
enum Parsed {
    Code(String, String),
    Error(AssemblyError),
    Expand(Vec<AssemblyLine>),
}

impl View for Parsed {
    type V = Step;

    closed spec fn view(&self) -> Step {
        match self {
            Parsed::Code(a, b) => Step::Code(a@, b@),
            Parsed::Error(e) => Step::Error(e@),
            Parsed::Expand(v) => Step::Expand(lines_view(v@)),
        }
    }
}

/// An assembler: the program it reads, the opcode table, the line it is
/// at, and the aliases declared so far.
pub struct Assembler {
    instructions: Vec<AssemblyLine>,
    lookup_table: HashMap<String, String>,
    cur_line: AssemblyLine,
    aliases: HashMap<String, String>,
}

impl Assembler {
    /// The tables are well formed and the opcode table holds `opcodes()`.
    pub closed spec fn wf(&self) -> bool {
        &&& self.lookup_table.wf()
        &&& self.lookup_table.spec_capacity() > 0
        &&& alias_values(self.lookup_table@) == opcodes()
        &&& self.aliases.wf()
        &&& self.aliases.spec_capacity() > 0
    }

    /// The lines of the program.
    pub closed spec fn spec_lines(&self) -> Seq<LineView> {
        lines_view(self.instructions@)
    }

    /// The aliases declared so far.
    pub closed spec fn spec_aliases(&self) -> Map<Seq<char>, Seq<char>> {
        alias_values(self.aliases@)
    }

    /// How many aliases are declared.
    pub closed spec fn alias_count(&self) -> nat {
        self.aliases@.len()
    }

    /// The line the assembler is at.
    pub closed spec fn spec_cur(&self) -> LineView {
        self.cur_line@
    }

    /// An assembler for `lines`.
    pub fn from_vec(lines: Vec<AssemblyLine>) -> (a: Self)
        ensures
            a.wf(),
            a.spec_lines() == lines_view(lines@),
            a.spec_aliases() == Map::<Seq<char>, Seq<char>>::empty(),
            a.alias_count() == 0,
            a.spec_cur() == (0usize, Seq::<char>::empty()),
    {
        let instructions = lines;
        let lookup_table = Self::initialize_lookup_table();
        let aliases: HashMap<String, String> = HashMap::new();
        let cur_line: AssemblyLine = AssemblyLine { num: 0, contents: String::new() };
        let a = Assembler { instructions, lookup_table, cur_line, aliases };
        assert(a.spec_aliases() =~= Map::<Seq<char>, Seq<char>>::empty());
        a
    }

    /// An assembler for the assembly code `assembly_code`, one instruction per line.
    pub fn from_str(assembly_code: &str) -> (a: Self)
        requires
            crate::text::lines(assembly_code@).len() < usize::MAX,
        ensures
            a.wf(),
            a.spec_lines() == assembly_lines(assembly_code@),
            a.spec_aliases() == Map::<Seq<char>, Seq<char>>::empty(),
            a.alias_count() == 0,
            a.spec_cur() == (0usize, Seq::<char>::empty()),
    {
        let contents = assembly_str_to_line_vec(assembly_code);
        Self::from_vec(contents)
    }

    /// The opcode table.
    fn initialize_lookup_table() -> (t: HashMap<String, String>)
        ensures
            t.wf(),
            t.spec_capacity() > 0,
            alias_values(t@) == opcodes(),
    {
        let mut table: HashMap<String, String> = HashMap::new();
        // R-type instructions
        table.insert("add".to_owned(), "0000".to_owned());
        table.insert("and".to_owned(), "0001".to_owned());
        table.insert("or".to_owned(), "0010".to_owned());
        table.insert("sub".to_owned(), "0011".to_owned());
        // I-type instructions
        table.insert("addi".to_owned(), "1000".to_owned());
        // LI instruction
        table.insert("li".to_owned(), "1111".to_owned());
        // SLL instruction
        table.insert("sll".to_owned(), "1011".to_owned());
        // Memory instructions
        table.insert("sw".to_owned(), "1100".to_owned());
        table.insert("lw".to_owned(), "1101".to_owned());
        // JMP instructions
        table.insert("jmpr".to_owned(), "011000000000".to_owned());
        table.insert("jmpi".to_owned(), "1110".to_owned());
        assert(alias_values(table@) =~= opcodes());
        table
    }

    /// The error of kind `err` about the current line.
    fn format_err(&self, err: ErrorKind, pos_opt: Option<usize>, msg_opt: Option<&str>) -> (e: AssemblyError)
        ensures
            e@ == err_at(err, self.cur_line@, opt_nat(pos_opt), opt_chars(msg_opt)),
    {
        let line: &AssemblyLine = &self.cur_line;
        let mut msg = match err {
            ErrorKind::InvalidArgument => "\nInvalid argument".to_owned(),
            ErrorKind::AliasError => "\nInvalid alias".to_owned(),
            ErrorKind::SyntaxError => "\nSyntax (or unknown) error".to_owned(),
        };
        push_str(&mut msg, " on line ");
        let n = usize_to_string(line.num);
        push_str(&mut msg, n.as_str());
        match pos_opt {
            Some(pos) => {
                push_str(&mut msg, ", position ");
                let p = usize_to_string(pos);
                push_str(&mut msg, p.as_str());
            },
            None => {},
        }
        push_str(&mut msg, ":\n\t");
        push_str(&mut msg, line.contents.as_str());
        push_str(&mut msg, "\n");
        match msg_opt {
            Some(m) => {
                push_str(&mut msg, "Explanation: ");
                push_str(&mut msg, m);
            },
            None => {},
        }
        proof {
            let expected = err_at(err, self.cur_line@, opt_nat(pos_opt), opt_chars(msg_opt));
            assert(msg@ =~= expected.1);
        }
        AssemblyError::new(err, msg.as_str())
    }

    /// `num` in binary, padded to `digits` digits, if it is at most `max_value`.
    fn decimal_to_binary_str(&self, num: usize, max_value: usize, digits: usize) -> (r: Result<String, AssemblyError>)
        ensures
            res_view(r) == bin_field(num as nat, max_value as nat, digits as nat, self.cur_line@),
    {
        if num <= max_value {
            let b = radix_chars(num as u64, 2);
            let p = pad_zeros_chars(&b, digits);
            Ok(string_of(&p))
        } else {
            let mut m = "Number out of range (must be between 0 and ".to_owned();
            let d = usize_to_string(max_value);
            push_str(&mut m, d.as_str());
            push_str(&mut m, ", inclusive)");
            Err(self.format_err(ErrorKind::InvalidArgument, Some(3), Some(m.as_str())))
        }
    }

    /// The binary address of the register `arg` names.
    fn get_register_addr(&self, arg: &str, arg_num: usize) -> (r: Result<String, AssemblyError>)
        ensures
            res_view(r) == reg_addr(arg@, arg_num as nat, self.cur_line@),
    {
        let width: usize = 4;
        // Remove register prefix (and "()", if applicable) from the arg
        let output = remove_non_numeric(arg);
        match parse_usize_str(output.as_str()) {
            Ok(dec_addr) => self.decimal_to_binary_str(dec_addr, MAX_REGISTER, width),
            Err(e) => {
                let mut m = "Failed to parse register address: ".to_owned();
                let t = int_error_message(e);
                push_str(&mut m, t.as_str());
                Err(self.format_err(ErrorKind::InvalidArgument, Some(arg_num), Some(m.as_str())))
            },
        }
    }

    /// The immediate value `arg` in binary, `pad_to` digits wide.
    fn get_imm_value(&self, arg: &str, arg_num: usize, pad_to: usize) -> (r: Result<String, AssemblyError>)
        requires
            pad_to <= 16,
        ensures
            res_view(r) == imm_bits(arg@, arg_num as nat, pad_to as nat, self.cur_line@),
    {
        let mut max_value: usize = 0;
        let mut k: usize = 0;
        proof {
            vstd::arithmetic::power2::lemma2_to64();
        }
        while k < pad_to
            invariant
                k <= pad_to <= 16,
                max_value == max_of_width(k as nat),
                max_value + 1 == vstd::arithmetic::power2::pow2(k as nat),
            decreases pad_to - k,
        {
            proof {
                vstd::arithmetic::power2::lemma_pow2_unfold((k + 1) as nat);
                vstd::arithmetic::power2::lemma2_to64();
                if k + 1 < 16 {
                    vstd::arithmetic::power2::lemma_pow2_strictly_increases((k + 1) as nat, 16);
                }
            }
            max_value = 2 * max_value + 1;
            k += 1;
        }
        match parse_usize_str(arg) {
            Ok(dec_addr) => self.decimal_to_binary_str(dec_addr, max_value, pad_to),
            Err(e) => {
                let mut m = "Error while parsing the argument: ".to_owned();
                let t = int_error_message(e);
                push_str(&mut m, t.as_str());
                Err(self.format_err(ErrorKind::InvalidArgument, Some(arg_num), Some(m.as_str())))
            },
        }
    }

    /// The machine code of operation `op`.
    fn get_opcode(&self, op: &str) -> (r: Result<String, AssemblyError>)
        requires
            self.wf(),
        ensures
            res_view(r) == opcode_of(op@, self.cur_line@),
    {
        let key = op.to_owned();
        match self.lookup_table.get(&key) {
            Some(opcode) => Ok(opcode.clone()),
            None => Err(self.format_err(
                ErrorKind::InvalidArgument,
                Some(1),
                Some("Invalid operation (not yet implemented)"),
            )),
        }
    }

    /// The R-type operation that uses a register where `op` takes an immediate.
    fn map_i_to_r_type(&self, op: &str) -> (r: Result<&'static str, AssemblyError>)
        ensures
            res_view(r) == r_type_of(op@, self.cur_line@),
    {
        if str_eq(op, "addi") {
            Ok("add")
        } else if str_eq(op, "andi") {
            Ok("and")
        } else if str_eq(op, "ori") {
            Ok("or")
        } else if str_eq(op, "subi") {
            Ok("sub")
        } else if str_eq(op, "jmpi") {
            Ok("jmpr")
        } else {
            let mut m = op.to_owned();
            push_str(&mut m, " doesn't have a corresponding R-type instruction");
            Err(self.format_err(ErrorKind::InvalidArgument, Some(0), Some(m.as_str())))
        }
    }

    /// What kind of word `word` is.
    fn find_arg_type(&self, word: &str, arg_pos: usize) -> (r: Result<Arg, AssemblyError>)
        requires
            arg_pos < usize::MAX,
        ensures
            match arg_type(word@) {
                Some(t) => r == Ok::<Arg, AssemblyError>(t),
                None => r matches Err(e) && e@ == err_at(
                    ErrorKind::InvalidArgument,
                    self.cur_line@,
                    Some((arg_pos + 1) as nat),
                    None,
                ),
            },
    {
        if str_eq(word, "add") || str_eq(word, "and") || str_eq(word, "or") || str_eq(word, "sub") {
            Ok(Arg::RTypeInstr)
        } else if str_eq(word, "addi") || str_eq(word, "sll") {
            Ok(Arg::ITypeInstr)
        } else if str_eq(word, "andi") || str_eq(word, "ori") || str_eq(word, "subi") {
            Ok(Arg::PseudoInstr)
        } else if str_eq(word, "li") {
            Ok(Arg::LiInstr)
        } else if str_eq(word, "lw") || str_eq(word, "sw") {
            Ok(Arg::MemInstr)
        } else if str_eq(word, "jmpr") {
            Ok(Arg::RTypeJmp)
        } else if str_eq(word, "jmpi") {
            Ok(Arg::ITypeJmp)
        } else if is_base_addr_register(word) {
            Ok(Arg::BaseAddrReg)
        } else if is_register(word) {
            Ok(Arg::Reg)
        } else if is_immediate_value(word) {
            Ok(Arg::Imm)
        } else {
            Err(self.format_err(ErrorKind::InvalidArgument, Some(arg_pos + 1), None))
        }
    }

    /// The kinds of the words of the current line.
    fn parse_instr_arg_types(&self) -> (r: Result<Vec<Arg>, AssemblyError>)
        ensures
            match arg_types(words(self.cur_line@.1), self.cur_line@) {
                Ok(ts) => r matches Ok(v) && v@ == ts,
                Err(e) => r matches Err(x) && x@ == e,
            },
    {
        let line: &AssemblyLine = &self.cur_line;
        let instruction_words: Vec<String> = split_args(line);
        let ghost ws = instruction_words@.map_values(|w: String| w@);
        let mut types: Vec<Arg> = Vec::new();
        let mut i: usize = 0;
        while i < instruction_words.len()
            invariant
                ws == instruction_words@.map_values(|w: String| w@),
                ws == words(self.cur_line@.1),
                i <= ws.len(),
                arg_types(ws.take(i as int), self.cur_line@) == Ok::<Seq<Arg>, ErrView>(types@),
            decreases ws.len() - i,
        {
            assert(ws.take(i + 1).drop_last() =~= ws.take(i as int));
            assert(ws.take(i + 1).last() == instruction_words@[i as int]@);
            match self.find_arg_type(instruction_words[i].as_str(), i) {
                Ok(t) => {
                    types.push(t);
                },
                Err(e) => {
                    proof { lemma_arg_types_err(ws, (i + 1) as int, self.cur_line@); }
                    return Err(e);
                },
            }
            i += 1;
        }
        assert(ws.take(ws.len() as int) =~= ws);
        Ok(types)
    }

    /// The lines that load `imm` into the temporary register.
    fn load_large_imm(&self, imm: usize) -> (r: Result<Vec<AssemblyLine>, AssemblyError>)
        ensures
            r matches Ok(v) && lines_view(v@) == load_large_imm(imm as nat),
    {
        let mut expanded_instructions: Vec<AssemblyLine> = Vec::new();
        // Can load into rat with only one instruction if value is 8 bits or less
        if imm <= 255 {
            let mut c = "li ra14 ".to_owned();
            push_str(&mut c, usize_to_string(imm).as_str());
            expanded_instructions.push(AssemblyLine { num: 0, contents: c });
            assert(lines_view(expanded_instructions@) =~= load_large_imm(imm as nat));
            return Ok(expanded_instructions);
        }
        // Load bits 15-8
        let mut shifted: usize = (imm / 256) % 256;
        let mut line_num: usize = 0;
        let mut c = "li ra14 ".to_owned();
        push_str(&mut c, usize_to_string(shifted).as_str());
        expanded_instructions.push(AssemblyLine { num: line_num, contents: c });
        line_num += 1;
        // Load bits 7-4
        shifted = (imm / 16) % 16;
        if shifted != 0 {
            // sll to put the bits in the proper position
            expanded_instructions.push(AssemblyLine { num: line_num, contents: "sll ra14 ra14 4".to_owned() });
            line_num += 1;
            let mut c = "addi ra14 ra14 ".to_owned();
            push_str(&mut c, usize_to_string(shifted).as_str());
            expanded_instructions.push(AssemblyLine { num: line_num, contents: c });
            line_num += 1;
            expanded_instructions.push(AssemblyLine { num: line_num, contents: "sll ra14 ra14 4".to_owned() });
            line_num += 1;
        } else {
            // if bits 7-4 were all 0, we can just shift by 8 instead
            expanded_instructions.push(AssemblyLine { num: line_num, contents: "sll ra14 ra14 8".to_owned() });
            line_num += 1;
        }
        // Load bits 3-0
        shifted = imm % 16;
        if shifted != 0 {
            let mut c = "addi ra14 ra14 ".to_owned();
            push_str(&mut c, usize_to_string(shifted).as_str());
            expanded_instructions.push(AssemblyLine { num: line_num, contents: c });
        }
        assert(lines_view(expanded_instructions@) =~= load_large_imm(imm as nat));
        Ok(expanded_instructions)
    }
}

/// Once a word is invalid, every longer line has the same error.
proof fn lemma_arg_types_err(ws: Seq<Seq<char>>, k: int, line: LineView)
    requires
        0 <= k <= ws.len(),
        arg_types(ws.take(k), line) is Err,
    ensures
        arg_types(ws, line) == arg_types(ws.take(k), line),
    decreases ws.len(),
{
    if k < ws.len() {
        assert(ws.drop_last().take(k) =~= ws.take(k));
        lemma_arg_types_err(ws.drop_last(), k, line);
    } else {
        assert(ws.take(k) =~= ws);
    }
}

/// What kind of line the assembler is at.
enum LineType {
    Empty,
    AliasDeclaration,
    Instruction,
}

impl Assembler {
    /// The line `line` with aliases substituted.
    fn substitute_aliases(&self, line: AssemblyLine) -> (r: AssemblyLine)
        requires
            self.wf(),
        ensures
            r@ == substitute(line@, self.spec_aliases()),
    {
        let mut line = line;
        let aliases = &self.aliases;
        let args = split_args(&line);
        let ghost a = self.spec_aliases();
        let mut subbed: Vec<String> = Vec::new();
        let mut i: usize = 0;
        while i < args.len()
            invariant
                self.wf(),
                a == self.spec_aliases(),
                aliases == &self.aliases,
                args@.map_values(|s: String| s@) == words(line.contents@),
                i <= args.len(),
                subbed@.len() == i,
                forall|j: int| 0 <= j < i ==> (#[trigger] subbed@[j])@ == subst_word(args@[j]@, a),
            decreases args.len() - i,
        {
            let arg = &args[i];
            // If the arg is an alias, or an alias in parentheses, use its value
            let w = match aliases.get(arg) {
                Some(alias_value) => alias_value.clone(),
                None => {
                    let stripped = remove_parentheses(arg.as_str());
                    match aliases.get(&stripped) {
                        Some(alias_value) => add_parentheses(alias_value.as_str()),
                        None => arg.clone(),
                    }
                },
            };
            subbed.push(w);
            i += 1;
        }
        let ghost sv = subbed@.map_values(|s: String| s@);
        let ghost av = args@.map_values(|s: String| s@);
        let ghost target = words(line.contents@).map_values(|w: Seq<char>| subst_word(w, a));
        assert forall|j: int| 0 <= j < sv.len() implies #[trigger] sv[j] == target[j] by {
            assert(words(line.contents@)[j] == av[j]);
        }
        assert(sv =~= target);
        line.contents = join_words(&subbed);
        line
    }

    /// The name and value that the current line, an alias declaration, declares.
    fn parse_alias(&self) -> (r: Result<(String, String), AssemblyError>)
        requires
            self.wf(),
        ensures
            match parse_alias(self.cur_line@, self.spec_aliases()) {
                Ok((k, v)) => r matches Ok((a, b)) && a@ == k && b@ == v,
                Err(e) => r matches Err(x) && x@ == e,
            },
    {
        let line: &AssemblyLine = &self.cur_line;
        let args = split_args(line);
        let ghost ws = words(line.contents@);
        assert(args@.len() == ws.len());
        if args.len() != 3 || !str_eq(args[1].as_str(), "=") {
            return Err(self.format_err(ErrorKind::AliasError, None, None));
        }
        assert(args@[1]@ == ws[1]);
        assert(args@[0]@ == ws[0]);
        assert(args@[2]@ == ws[2]);
        let name = args[0].clone();
        let value = args[2].clone();
        match self.find_arg_type(value.as_str(), 2) {
            Err(_) => {
                return Err(self.format_err(ErrorKind::AliasError, None, Some("Invalid value for the alias")));
            },
            _ => {},
        }
        if contains_char(name.as_str(), '(') || contains_char(value.as_str(), '(') {
            return Err(self.format_err(ErrorKind::AliasError, None, Some("Aliases can't have parentheses")));
        }
        if self.aliases.contains_key(&value) {
            return Err(self.format_err(
                ErrorKind::AliasError,
                None,
                Some("Aliases can't store other aliases"),
            ));
        }
        Ok((name, value))
    }

    /// Whether the current line is empty, declares an alias, or is an instruction.
    fn get_line_type(&self) -> (t: LineType)
        ensures
            self.cur_line@.1.len() == 0 ==> t is Empty,
            self.cur_line@.1.len() > 0 && self.cur_line@.1.contains('=') ==> t is AliasDeclaration,
            self.cur_line@.1.len() > 0 && !self.cur_line@.1.contains('=') ==> t is Instruction,
    {
        let line: &AssemblyLine = &self.cur_line;
        if line.contents.as_str().is_empty() {
            LineType::Empty
        } else if is_alias(line.contents.as_str()) {
            LineType::AliasDeclaration
        } else {
            LineType::Instruction
        }
    }

    /// An R-type instruction: `op rd rs rt`.
    fn parse_r_type(&self) -> (p: Parsed)
        requires
            self.wf(),
            words(self.cur_line@.1).len() == 4,
        ensures
            p@ == crate::semantics::r_type(words(self.cur_line@.1), self.cur_line@),
    {
        let line: &AssemblyLine = &self.cur_line;
        let args = split_args(line);
        let ghost ws = words(line.contents@);
        assert(forall|k: int| 0 <= k < 4 ==> args@[k]@ == #[trigger] ws[k]);
        let op = match self.get_opcode(args[0].as_str()) {
            Ok(o) => o,
            Err(e) => { return Parsed::Error(e); },
        };
        let mut output = op;
        // Get register addresses
        match self.get_register_addr(args[1].as_str(), 1) {
            Ok(a) => push_str(&mut output, a.as_str()),
            Err(e) => { return Parsed::Error(e); },
        }
        match self.get_register_addr(args[2].as_str(), 2) {
            Ok(a) => push_str(&mut output, a.as_str()),
            Err(e) => { return Parsed::Error(e); },
        }
        match self.get_register_addr(args[3].as_str(), 3) {
            Ok(a) => push_str(&mut output, a.as_str()),
            Err(e) => { return Parsed::Error(e); },
        }
        Parsed::Code(output, line.contents.clone())
    }
}

/// The message for an immediate value above 16 bits.
impl Assembler {
    /// The error about immediate value `pos` of the current line, which is
    /// not a `usize`.
    fn imm_parse_err(&self, pos: usize, e: IntErrorKind) -> (r: AssemblyError)
        ensures
            r@ == imm_parse_error(self.cur_line@, pos as nat, e),
    {
        let mut m = "Error while parsing the argument: ".to_owned();
        let t = int_error_message(e);
        push_str(&mut m, t.as_str());
        self.format_err(ErrorKind::InvalidArgument, Some(pos), Some(m.as_str()))
    }
}

fn too_large_message() -> (s: String)
    ensures
        s@ == crate::semantics::too_large(),
{
    "Immediate value is above the maximum of 65535".to_owned()
}

impl Assembler {
    /// An I-type instruction: `op rd rs imm`.
    fn parse_i_type(&self) -> (p: Parsed)
        requires
            self.wf(),
            words(self.cur_line@.1).len() == 4,
        ensures
            p@ == crate::semantics::i_type(words(self.cur_line@.1), self.cur_line@),
    {
        let line: &AssemblyLine = &self.cur_line;
        let args = split_args(line);
        let ghost ws = words(line.contents@);
        assert(forall|k: int| 0 <= k < 4 ==> args@[k]@ == #[trigger] ws[k]);
        let imm_pos: usize = 3;
        let op = args[0].as_str();
        let imm_str = args[imm_pos].as_str();
        let imm = match parse_usize_str(imm_str) {
            Ok(v) => v,
            Err(e) => { return Parsed::Error(self.imm_parse_err(imm_pos + 1, e)); },
        };
        // If the value is too large to be used as a single immediate (>=16)
        if imm > 15 {
            // If the value is too large for the CPU altogether, return an error
            if imm > 65535 {
                let m = too_large_message();
                return Parsed::Error(self.format_err(ErrorKind::InvalidArgument, Some(imm_pos + 1), Some(m.as_str())));
            }
            let mut expanded_instructions = match self.load_large_imm(imm) {
                Ok(v) => v,
                Err(e) => { return Parsed::Error(e); },
            };
            let new_op = match self.map_i_to_r_type(op) {
                Ok(o) => o,
                Err(e) => { return Parsed::Error(e); },
            };
            let mut c = new_op.to_owned();
            push_str(&mut c, " ");
            push_str(&mut c, args[1].as_str());
            push_str(&mut c, " ");
            push_str(&mut c, args[2].as_str());
            push_str(&mut c, " ");
            push_str(&mut c, "ra14");
            let final_line = AssemblyLine { num: expanded_instructions.len() + 1, contents: c };
            let ghost before = expanded_instructions@;
            let ghost fv = final_line@;
            expanded_instructions.push(final_line);
            assert(lines_view(expanded_instructions@) =~= lines_view(before).push(fv));
            return Parsed::Expand(expanded_instructions);
        }
        let mut output = match self.get_opcode(op) {
            Ok(o) => o,
            Err(e) => { return Parsed::Error(e); },
        };
        match self.get_register_addr(args[1].as_str(), 1) {
            Ok(a) => push_str(&mut output, a.as_str()),
            Err(e) => { return Parsed::Error(e); },
        }
        match self.get_register_addr(args[2].as_str(), 2) {
            Ok(a) => push_str(&mut output, a.as_str()),
            Err(e) => { return Parsed::Error(e); },
        }
        match self.get_imm_value(imm_str, imm_pos, 4) {
            Ok(a) => push_str(&mut output, a.as_str()),
            Err(e) => { return Parsed::Error(e); },
        }
        Parsed::Code(output, line.contents.clone())
    }
}

impl Assembler {
    /// A load-immediate instruction: `li rd imm`.
    fn parse_li_instr(&self) -> (p: Parsed)
        requires
            self.wf(),
            words(self.cur_line@.1).len() == 3,
        ensures
            p@ == crate::semantics::li_instr(words(self.cur_line@.1), self.cur_line@),
    {
        let line: &AssemblyLine = &self.cur_line;
        let args = split_args(line);
        let ghost ws = words(line.contents@);
        assert(forall|k: int| 0 <= k < 3 ==> args@[k]@ == #[trigger] ws[k]);
        let imm_pos: usize = 2;
        let op = args[0].as_str();
        let imm_str = args[imm_pos].as_str();
        let imm = match parse_usize_str(imm_str) {
            Ok(v) => v,
            Err(e) => { return Parsed::Error(self.imm_parse_err(imm_pos + 1, e)); },
        };
        // If the value is too large to handle in just one instruction
        if imm > 255 {
            if imm > 65535 {
                let m = too_large_message();
                return Parsed::Error(self.format_err(ErrorKind::InvalidArgument, Some(imm_pos + 1), Some(m.as_str())));
            }
            let mut expanded_instructions = match self.load_large_imm(imm) {
                Ok(v) => v,
                Err(e) => { return Parsed::Error(e); },
            };
            // The final line uses the value now stored in the temporary register
            let c = if str_eq(op, "li") {
                let mut c = "addi ".to_owned();
                push_str(&mut c, args[1].as_str());
                push_str(&mut c, " ");
                push_str(&mut c, "ra14");
                push_str(&mut c, " 0");
                c
            } else {
                let new_op = match self.map_i_to_r_type(op) {
                    Ok(o) => o,
                    Err(e) => { return Parsed::Error(e); },
                };
                let mut c = new_op.to_owned();
                push_str(&mut c, " ");
                push_str(&mut c, args[1].as_str());
                push_str(&mut c, " ");
                push_str(&mut c, "ra14");
                c
            };
            let final_line = AssemblyLine { num: expanded_instructions.len() + 1, contents: c };
            let ghost before = expanded_instructions@;
            let ghost fv = final_line@;
            expanded_instructions.push(final_line);
            assert(lines_view(expanded_instructions@) =~= lines_view(before).push(fv));
            return Parsed::Expand(expanded_instructions);
        }
        let mut output = match self.get_opcode(op) {
            Ok(o) => o,
            Err(e) => { return Parsed::Error(e); },
        };
        match self.get_register_addr(args[1].as_str(), 1) {
            Ok(a) => push_str(&mut output, a.as_str()),
            Err(e) => { return Parsed::Error(e); },
        }
        match self.get_imm_value(imm_str, imm_pos, 8) {
            Ok(a) => push_str(&mut output, a.as_str()),
            Err(e) => { return Parsed::Error(e); },
        }
        Parsed::Code(output, line.contents.clone())
    }

    /// A memory instruction (`sw` or `lw`): `op rd offset (base)`.
    fn parse_mem_type(&self) -> (p: Parsed)
        requires
            self.wf(),
            words(self.cur_line@.1).len() == 4,
        ensures
            p@ == crate::semantics::mem_type(words(self.cur_line@.1), self.cur_line@),
    {
        let line: &AssemblyLine = &self.cur_line;
        let args = split_args(line);
        let ghost ws = words(line.contents@);
        assert(forall|k: int| 0 <= k < 4 ==> args@[k]@ == #[trigger] ws[k]);
        let reg_pos: usize = 1;
        let imm_pos: usize = 2;
        let base_addr_pos: usize = 3;
        let op = args[0].as_str();
        let imm_str = args[imm_pos].as_str();
        let imm = match parse_usize_str(imm_str) {
            Ok(v) => v,
            Err(e) => { return Parsed::Error(self.imm_parse_err(imm_pos + 1, e)); },
        };
        if imm > 15 {
            if imm > 65535 {
                let m = too_large_message();
                return Parsed::Error(self.format_err(ErrorKind::InvalidArgument, Some(imm_pos + 1), Some(m.as_str())));
            }
            let mut expanded_instructions = match self.load_large_imm(imm) {
                Ok(v) => v,
                Err(e) => { return Parsed::Error(e); },
            };
            // First add the base address to the temporary register, then use an offset of 0
            let orig_base_addr_reg = remove_parentheses(args[base_addr_pos].as_str());
            let mut pc = "add ".to_owned();
            push_str(&mut pc, "ra14");
            push_str(&mut pc, " ");
            push_str(&mut pc, "ra14");
            push_str(&mut pc, " ");
            push_str(&mut pc, orig_base_addr_reg.as_str());
            let penultimate_line = AssemblyLine { num: expanded_instructions.len() + 1, contents: pc };
            let mut fc = op.to_owned();
            push_str(&mut fc, " ");
            push_str(&mut fc, args[reg_pos].as_str());
            push_str(&mut fc, " 0 (");
            push_str(&mut fc, "ra14");
            push_str(&mut fc, ")");
            let final_line = AssemblyLine { num: expanded_instructions.len() + 2, contents: fc };
            let ghost before = expanded_instructions@;
            let ghost pv = penultimate_line@;
            let ghost fv = final_line@;
            expanded_instructions.push(penultimate_line);
            expanded_instructions.push(final_line);
            assert(lines_view(expanded_instructions@) =~= lines_view(before).push(pv).push(fv));
            return Parsed::Expand(expanded_instructions);
        }
        let mut output = match self.get_opcode(op) {
            Ok(o) => o,
            Err(e) => { return Parsed::Error(e); },
        };
        match self.get_register_addr(args[reg_pos].as_str(), reg_pos) {
            Ok(a) => push_str(&mut output, a.as_str()),
            Err(e) => { return Parsed::Error(e); },
        }
        // The offset and the base address go in the other order in machine code
        let offset_result = self.get_imm_value(args[imm_pos].as_str(), imm_pos, 4);
        let base_addr_result = self.get_register_addr(args[base_addr_pos].as_str(), base_addr_pos);
        match (offset_result, base_addr_result) {
            (Ok(offset), Ok(base_addr)) => {
                push_str(&mut output, base_addr.as_str());
                push_str(&mut output, offset.as_str());
            },
            (Err(e), _) => { return Parsed::Error(e); },
            (_, Err(e)) => { return Parsed::Error(e); },
        }
        Parsed::Code(output, line.contents.clone())
    }

    /// An immediate form without a machine instruction of its own (`andi`,
    /// `ori`, `subi`): `op rd rs imm`, assembled by loading `imm` into the
    /// temporary register and applying the R-type operation.
    fn parse_pseudo_type(&self) -> (p: Parsed)
        requires
            self.wf(),
            words(self.cur_line@.1).len() == 4,
        ensures
            p@ == crate::semantics::pseudo_type(words(self.cur_line@.1), self.cur_line@),
    {
        let line: &AssemblyLine = &self.cur_line;
        let args = split_args(line);
        let ghost ws = words(line.contents@);
        assert(forall|k: int| 0 <= k < 4 ==> args@[k]@ == #[trigger] ws[k]);
        let imm_pos: usize = 3;
        let op = args[0].as_str();
        let imm = match parse_usize_str(args[imm_pos].as_str()) {
            Ok(v) => v,
            Err(e) => { return Parsed::Error(self.imm_parse_err(imm_pos + 1, e)); },
        };
        if imm > 65535 {
            let m = too_large_message();
            return Parsed::Error(self.format_err(ErrorKind::InvalidArgument, Some(imm_pos + 1), Some(m.as_str())));
        }
        let mut expanded_instructions = match self.load_large_imm(imm) {
            Ok(v) => v,
            Err(e) => { return Parsed::Error(e); },
        };
        let new_op = match self.map_i_to_r_type(op) {
            Ok(o) => o,
            Err(e) => { return Parsed::Error(e); },
        };
        let mut c = new_op.to_owned();
        push_str(&mut c, " ");
        push_str(&mut c, args[1].as_str());
        push_str(&mut c, " ");
        push_str(&mut c, args[2].as_str());
        push_str(&mut c, " ");
        push_str(&mut c, "ra14");
        let final_line = AssemblyLine { num: expanded_instructions.len() + 1, contents: c };
        let ghost before = expanded_instructions@;
        let ghost fv = final_line@;
        expanded_instructions.push(final_line);
        assert(lines_view(expanded_instructions@) =~= lines_view(before).push(fv));
        Parsed::Expand(expanded_instructions)
    }

    /// A jump to a register: `jmpr rd`.
    fn parse_jmp_r_type(&self) -> (p: Parsed)
        requires
            self.wf(),
            words(self.cur_line@.1).len() == 2,
        ensures
            p@ == crate::semantics::jmp_r_type(words(self.cur_line@.1), self.cur_line@),
    {
        let line: &AssemblyLine = &self.cur_line;
        let args = split_args(line);
        let ghost ws = words(line.contents@);
        assert(forall|k: int| 0 <= k < 2 ==> args@[k]@ == #[trigger] ws[k]);
        let op = args[0].as_str();
        let reg = args[1].as_str();
        let mut output = match self.get_opcode(op) {
            Ok(o) => o,
            Err(e) => { return Parsed::Error(e); },
        };
        match self.get_register_addr(reg, 1) {
            Ok(a) => push_str(&mut output, a.as_str()),
            Err(e) => { return Parsed::Error(e); },
        }
        Parsed::Code(output, line.contents.clone())
    }

    /// A jump to an address: `jmpi imm`.
    fn parse_jmp_i_type(&self) -> (p: Parsed)
        requires
            self.wf(),
            words(self.cur_line@.1).len() == 2,
        ensures
            p@ == crate::semantics::jmp_i_type(words(self.cur_line@.1), self.cur_line@),
    {
        let line: &AssemblyLine = &self.cur_line;
        let args = split_args(line);
        let ghost ws = words(line.contents@);
        assert(forall|k: int| 0 <= k < 2 ==> args@[k]@ == #[trigger] ws[k]);
        let imm_pos: usize = 1;
        let op = args[0].as_str();
        let imm_str = args[imm_pos].as_str();
        let imm = match parse_usize_str(imm_str) {
            Ok(v) => v,
            Err(e) => { return Parsed::Error(self.imm_parse_err(imm_pos + 1, e)); },
        };
        if imm > 4095 {
            if imm > 65535 {
                let m = too_large_message();
                return Parsed::Error(self.format_err(ErrorKind::InvalidArgument, Some(imm_pos + 1), Some(m.as_str())));
            }
            let mut expanded_instructions = match self.load_large_imm(imm) {
                Ok(v) => v,
                Err(e) => { return Parsed::Error(e); },
            };
            let new_op = match self.map_i_to_r_type(op) {
                Ok(o) => o,
                Err(e) => { return Parsed::Error(e); },
            };
            let mut c = new_op.to_owned();
            push_str(&mut c, " ");
            push_str(&mut c, "ra14");
            let final_line = AssemblyLine { num: expanded_instructions.len() + 1, contents: c };
            let ghost before = expanded_instructions@;
            let ghost fv = final_line@;
            expanded_instructions.push(final_line);
            assert(lines_view(expanded_instructions@) =~= lines_view(before).push(fv));
            return Parsed::Expand(expanded_instructions);
        }
        let mut output = match self.get_opcode(op) {
            Ok(o) => o,
            Err(e) => { return Parsed::Error(e); },
        };
        match self.get_imm_value(imm_str, imm_pos, 12) {
            Ok(a) => push_str(&mut output, a.as_str()),
            Err(e) => { return Parsed::Error(e); },
        }
        Parsed::Code(output, line.contents.clone())
    }
}

/// The kinds of a line's words are as many as its words.
proof fn lemma_arg_types_len(ws: Seq<Seq<char>>, line: LineView)
    ensures
        arg_types(ws, line) matches Ok(ts) ==> ts.len() == ws.len(),
    decreases ws.len(),
{
    if ws.len() > 0 {
        lemma_arg_types_len(ws.drop_last(), line);
    }
}

/// Once a run stops, reading further lines changes nothing.
proof fn lemma_run_stays_stopped(
    lines: Seq<LineView>,
    k: nat,
    n: nat,
    a0: Map<Seq<char>, Seq<char>>,
    c0: LineView,
    depth: nat,
)
    requires
        k <= n <= lines.len(),
        !(run_prefix(lines, k, a0, c0, depth) is Running),
    ensures
        run_prefix(lines, n, a0, c0, depth) == run_prefix(lines, k, a0, c0, depth),
    decreases n,
{
    if n > k {
        lemma_run_stays_stopped(lines, k, (n - 1) as nat, a0, c0, depth);
    }
}

/// What a run's result and final state say about the run `s`.
pub open spec fn run_matches(
    s: RunState,
    r: Result<(String, String), AssemblyError>,
    aliases: Map<Seq<char>, Seq<char>>,
    cur: LineView,
) -> bool {
    match s {
        RunState::Running { aliases: a, cur: c, mc, listing } => {
            &&& r matches Ok((x, y))
            &&& x@ == mc
            &&& y@ == listing
            &&& aliases == a
            &&& cur == c
        },
        RunState::Stopped { aliases: a, cur: c, err } => {
            &&& r matches Err(e)
            &&& e@ == err
            &&& aliases == a
            &&& cur == c
        },
    }
}

/// The result of a run stands for the outcome of the run.
proof fn lemma_run_matches_outcome(
    s: RunState,
    r: Result<(String, String), AssemblyError>,
    aliases: Map<Seq<char>, Seq<char>>,
    cur: LineView,
)
    requires
        run_matches(s, r, aliases, cur),
    ensures
        outcome_view(r) == outcome_of(s),
{
}

impl Assembler {
    /// Assembles the instruction at the current line (written as
    /// `original_line`); instructions that expand into several lines are
    /// assembled by a fresh assembler, `depth` levels deep.
    fn parse_instruction(&self, original_line: &AssemblyLine, depth: usize) -> (r: Result<
        (String, String),
        AssemblyError,
    >)
        requires
            self.wf(),
        ensures
            outcome_view(r) == instruction_outcome(self.cur_line@, original_line@, depth as nat),
        decreases depth, 0nat,
    {
        let ghost ws = words(self.cur_line@.1);
        let at = match self.parse_instr_arg_types() {
            Ok(v) => v,
            Err(e) => {
                return Err(e);
            },
        };
        proof {
            lemma_arg_types_len(ws, self.cur_line@);
        }
        let parsed = self.dispatch(&at, original_line);
        match parsed {
            Parsed::Code(a, b) => Ok((a, b)),
            Parsed::Error(e) => Err(e),
            Parsed::Expand(expanded) => {
                if depth == 0 {
                    Err(Self::syntax_err(original_line))
                } else {
                    // A fresh assembler assembles the generated instructions
                    let mut temp_assembler = Self::from_vec(expanded);
                    let r = temp_assembler.run(depth - 1);
                    proof {
                        lemma_run_matches_outcome(
                            run_program(temp_assembler.spec_lines(), Map::empty(), (0usize, Seq::empty()), (depth - 1) as nat),
                            r,
                            temp_assembler.spec_aliases(),
                            temp_assembler.spec_cur(),
                        );
                    }
                    r
                }
            },
        }
    }


    /// What the current line turns into, given the kinds `at` of its words.
    #[verifier::rlimit(40)]
    fn dispatch(&self, at: &Vec<Arg>, original_line: &AssemblyLine) -> (p: Parsed)
        requires
            self.wf(),
            at@.len() == words(self.cur_line@.1).len(),
        ensures
            p@ == instruction_step(words(self.cur_line@.1), at@, self.cur_line@, original_line@),
            p@ matches Step::Expand(sub) ==> sub.len() <= 7,
    {
        reveal(instruction_step);
        let n = at.len();
        if n == 4 && at[0] == Arg::RTypeInstr && at[1] == Arg::Reg && at[2] == Arg::Reg && at[3] == Arg::Reg {
            self.parse_r_type()
        } else if n == 4 && at[0] == Arg::ITypeInstr && at[1] == Arg::Reg && at[2] == Arg::Reg && at[3] == Arg::Imm {
            self.parse_i_type()
        } else if n == 4 && at[0] == Arg::PseudoInstr && at[1] == Arg::Reg && at[2] == Arg::Reg && at[3]
            == Arg::Imm {
            self.parse_pseudo_type()
        } else if n == 3 && at[0] == Arg::LiInstr && at[1] == Arg::Reg && at[2] == Arg::Imm {
            self.parse_li_instr()
        } else if n == 4 && at[0] == Arg::MemInstr && at[1] == Arg::Reg && at[2] == Arg::Imm && at[3]
            == Arg::BaseAddrReg {
            self.parse_mem_type()
        } else if n == 2 && at[0] == Arg::RTypeJmp && at[1] == Arg::Reg {
            self.parse_jmp_r_type()
        } else if n == 2 && at[0] == Arg::ITypeJmp && at[1] == Arg::Imm {
            self.parse_jmp_i_type()
        } else if n == 4 && at[0] == Arg::RTypeInstr && at[3] == Arg::Imm {
            Parsed::Error(self.format_err(
                ErrorKind::InvalidArgument,
                Some(4),
                Some("R-type instructions don't take an immediate value as an argument."),
            ))
        } else if n == 4 && at[0] == Arg::ITypeInstr && at[3] == Arg::Reg {
            Parsed::Error(self.format_err(
                ErrorKind::InvalidArgument,
                Some(4),
                Some("I-type instructions take an immediate value, not a register."),
            ))
        } else if n == 4 && at[0] == Arg::MemInstr && at[3] == Arg::Reg {
            Parsed::Error(self.format_err(
                ErrorKind::InvalidArgument,
                Some(4),
                Some("Base address register needs parentheses, e.g. (ra0) instead of ra0"),
            ))
        } else if n == 4 && at[0] == Arg::MemInstr {
            Parsed::Error(self.format_err(ErrorKind::InvalidArgument, Some(4), Some("Memory instructions only take 3 arguments")))
        } else if n >= 1 && (at[0] == Arg::Reg || at[0] == Arg::Imm || at[0] == Arg::BaseAddrReg) {
            Parsed::Error(self.format_err(ErrorKind::InvalidArgument, Some(1), Some("The first argument must be an operation.")))
        } else if n == 2 && at[0] == Arg::RTypeJmp && at[1] == Arg::Imm {
            Parsed::Error(self.format_err(
                ErrorKind::InvalidArgument,
                Some(2),
                Some("This argument must be a register, not an immediate value."),
            ))
        } else if n == 2 && at[0] == Arg::ITypeJmp && at[1] == Arg::Reg {
            Parsed::Error(self.format_err(
                ErrorKind::InvalidArgument,
                Some(2),
                Some("This argument must be an immediate value, not a register."),
            ))
        } else if n >= 2 && at[0] == Arg::RTypeJmp {
            Parsed::Error(self.format_err(
                ErrorKind::InvalidArgument,
                Some(2),
                Some("Too many arguments: jmpr only takes the destination register as an argument."),
            ))
        } else if n >= 2 && at[0] == Arg::ITypeJmp {
            Parsed::Error(self.format_err(
                ErrorKind::InvalidArgument,
                Some(2),
                Some("Too many arguments: jmpi only takes an immediate value as an argument."),
            ))
        } else {
            Parsed::Error(Self::syntax_err(original_line))
        }
    }

    /// The syntax error about `original_line`.
    fn syntax_err(original_line: &AssemblyLine) -> (e: AssemblyError)
        ensures
            e@ == syntax_error(original_line@),
    {
        let mut m = "Syntax error on line ".to_owned();
        push_str(&mut m, usize_to_string(original_line.num).as_str());
        push_str(&mut m, ": \n\t");
        push_str(&mut m, original_line.contents.as_str());
        AssemblyError::new(ErrorKind::SyntaxError, m.as_str())
    }

    /// Reads every line of the program, up to the first error.
    fn run(&mut self, depth: usize) -> (r: Result<(String, String), AssemblyError>)
        requires
            old(self).wf(),
            old(self).alias_count() + old(self).spec_lines().len() < usize::MAX,
        ensures
            final(self).wf(),
            final(self).spec_lines() == old(self).spec_lines(),
            run_matches(
                run_program(old(self).spec_lines(), old(self).spec_aliases(), old(self).spec_cur(), depth as nat),
                r,
                final(self).spec_aliases(),
                final(self).spec_cur(),
            ),
        decreases depth, 1nat,
    {
        let ghost lines = self.spec_lines();
        let ghost a0 = self.spec_aliases();
        let ghost c0 = self.spec_cur();
        let mut machine_code = String::new();
        let mut listing = String::new();
        let n = self.instructions.len();
        let mut i: usize = 0;
        while i < n
            invariant
                self.wf(),
                lines == old(self).spec_lines(),
                a0 == old(self).spec_aliases(),
                c0 == old(self).spec_cur(),
                n == lines.len(),
                self.spec_lines() == lines,
                i <= n,
                self.alias_count() + (n - i) < usize::MAX,
                run_prefix(lines, i as nat, a0, c0, depth as nat) == (RunState::Running {
                    aliases: self.spec_aliases(),
                    cur: self.cur_line@,
                    mc: machine_code@,
                    listing: listing@,
                }),
            decreases n - i,
        {
            let line = copy_line(&self.instructions[i]);
            let original = copy_line(&self.instructions[i]);
            assert(line@ == lines[i as int]);
            self.cur_line = self.substitute_aliases(line);
            match self.get_line_type() {
                LineType::Empty => {},
                LineType::AliasDeclaration => {
                    match self.parse_alias() {
                        Ok((name, value)) => {
                            let ghost before = self.aliases@;
                            let ghost k = name@;
                            self.aliases.insert(name, value);
                            assert(self.spec_aliases() =~= alias_values(before).insert(name@, value@));

                        },
                        Err(e) => {
                            proof {
                                lemma_run_stays_stopped(lines, (i + 1) as nat, n as nat, a0, c0, depth as nat);
                            }
                            return Err(e);
                        },
                    }
                },
                LineType::Instruction => {
                    match self.parse_instruction(&original, depth) {
                        Err(e) => {
                            proof {
                                lemma_run_stays_stopped(lines, (i + 1) as nat, n as nat, a0, c0, depth as nat);
                            }
                            return Err(e);
                        },
                        Ok((binary_line, code_line)) => {
                            if !binary_line.as_str().is_empty() {
                                push_str(&mut machine_code, binary_line.as_str());
                                push_char(&mut machine_code, '\n');
                            }
                            if !code_line.as_str().is_empty() {
                                push_str(&mut listing, code_line.as_str());
                                push_char(&mut listing, '\n');
                            }
                        },
                    }
                },
            }
            i += 1;
        }
        Ok((machine_code, listing))
    }

    /// Assembles the program into machine code and the assembly code it was
    /// expanded into, one instruction per line; or the first error.
    pub fn as_string(&mut self) -> (r: Result<(String, String), AssemblyError>)
        requires
            old(self).wf(),
            old(self).alias_count() + old(self).spec_lines().len() < usize::MAX,
        ensures
            final(self).wf(),
            final(self).spec_lines() == old(self).spec_lines(),
            run_matches(
                run_program(old(self).spec_lines(), old(self).spec_aliases(), old(self).spec_cur(), 1),
                r,
                final(self).spec_aliases(),
                final(self).spec_cur(),
            ),
    {
        self.run(1)
    }
}

} // verus!
