//! Turning machine code, one binary word per line, into a hex image.
use vstd::prelude::*;

use crate::assembler::AssemblyLine;
use crate::text::{
    chars_of, int_error_message, int_error_text, pad_zeros, pad_zeros_chars, parse_unsigned,
    push_char, push_str, radix_chars, radix_str, string_of,
};

verus! {

/// An error while converting machine code to hex; each carries its message.
pub enum HexEncodingError {
    FileReadError(String),
    ParseError(String),
}

/// The kinds of hex encoding errors.
#[derive(PartialEq, Eq, Structural, Clone, Copy, Debug)]
pub enum HexErrorKind {
    FileReadError,
    ParseError,
}

impl View for HexEncodingError {
    type V = (HexErrorKind, Seq<char>);

    open spec fn view(&self) -> (HexErrorKind, Seq<char>) {
        match self {
            HexEncodingError::FileReadError(m) => (HexErrorKind::FileReadError, m@),
            HexEncodingError::ParseError(m) => (HexErrorKind::ParseError, m@),
        }
    }
}

impl HexEncodingError {
    /// The message of this error.
    pub fn message(&self) -> (m: String)
        ensures
            m@ == self@.1,
    {
        match self {
            HexEncodingError::FileReadError(msg) => msg.clone(),
            HexEncodingError::ParseError(msg) => msg.clone(),
        }
    }
}

/// What starts the hex image.
pub open spec fn file_header() -> Seq<char> {
    "v2.0 raw\n"@
}

/// The hex form of the binary word `line`: six lower-case hex digits at
/// least, or the error message about the line.
pub open spec fn hex_of_line(line: Seq<char>) -> Result<Seq<char>, Seq<char>> {
    match parse_unsigned(line, 2, u32::MAX as nat) {
        Ok(v) => Ok(pad_zeros(radix_str(v, 16), 6)),
        Err(e) => Err(int_error_text(e) + "\nError encountered on this line:\n\t"@ + line + "\n"@),
    }
}

/// The hex form of the binary word `line` (`u32::from_str_radix(line, 2)`
/// written with `{:0>6x}`).
pub fn convert_line(line: &str) -> (r: Result<String, HexEncodingError>)
    ensures
        match hex_of_line(line@) {
            Ok(h) => r matches Ok(s) && s@ == h,
            Err(m) => r matches Err(e) && e@ == (HexErrorKind::ParseError, m),
        },
{
    let v = chars_of(line);
    match parse_unsigned_chars_u32(&v) {
        Ok(value) => {
            let digits = radix_chars(value as u64, 16);
            let padded = pad_zeros_chars(&digits, 6);
            Ok(string_of(&padded))
        },
        Err(e) => {
            let mut error_msg = int_error_message(e);
            push_str(&mut error_msg, "\nError encountered on this line:\n\t");
            push_str(&mut error_msg, line);
            push_str(&mut error_msg, "\n");
            Err(HexEncodingError::ParseError(error_msg))
        },
    }
}

/// `v` read as a binary `u32`.
fn parse_unsigned_chars_u32(v: &Vec<char>) -> (r: Result<u32, crate::text::IntErrorKind>)
    ensures
        match parse_unsigned(v@, 2, u32::MAX as nat) {
            Ok(x) => r == Ok::<u32, crate::text::IntErrorKind>(x as u32),
            Err(e) => r == Err::<u32, crate::text::IntErrorKind>(e),
        },
{
    match crate::text::parse_unsigned_chars(v, 2, u32::MAX as u64) {
        Ok(x) => {
            proof {
                crate::text::lemma_parse_bounded(v@, 2, u32::MAX as nat);
            }
            Ok(x as u32)
        },
        Err(e) => Err(e),
    }
}

/// The hex image of the binary words `lines`: the header, then the words in
/// hex separated by single spaces; or the error about the first word that is
/// not a binary `u32`.
pub open spec fn hex_image(lines: Seq<Seq<char>>) -> Result<Seq<char>, Seq<char>>
    decreases lines.len(),
{
    if lines.len() == 0 {
        Ok(file_header())
    } else {
        match hex_image(lines.drop_last()) {
            Err(m) => Err(m),
            Ok(prefix) => match hex_of_line(lines.last()) {
                Err(m) => Err(m),
                Ok(h) => Ok(if lines.len() > 1 { prefix + seq![' '] + h } else { prefix + h }),
            },
        }
    }
}

/// The contents of the machine-code lines `lines`.
pub open spec fn line_contents(lines: Seq<AssemblyLine>) -> Seq<Seq<char>> {
    lines.map_values(|l: AssemblyLine| l.contents@)
}

/// The hex image of the machine code `contents`, one binary word per line.
pub fn hex_encode(contents: &Vec<AssemblyLine>) -> (r: Result<String, HexEncodingError>)
    ensures
        match hex_image(line_contents(contents@)) {
            Ok(h) => r matches Ok(s) && s@ == h,
            Err(m) => r matches Err(e) && e@ == (HexErrorKind::ParseError, m),
        },
{
    let ghost ls = line_contents(contents@);
    let mut output = "v2.0 raw\n".to_owned();
    let len = contents.len();
    let mut i: usize = 0;
    while i < len
        invariant
            len == contents@.len(),
            ls == line_contents(contents@),
            i <= len,
            hex_image(ls.take(i as int)) == Ok::<Seq<char>, Seq<char>>(output@),
        decreases len - i,
    {
        assert(ls.take(i + 1).drop_last() =~= ls.take(i as int));
        assert(ls.take(i + 1).last() == contents@[i as int].contents@);
        match convert_line(contents[i].contents.as_str()) {
            Ok(converted_line) => {
                let ghost before = output@;
                if i > 0 {
                    push_char(&mut output, ' ');
                }
                push_str(&mut output, converted_line.as_str());
                assert(output@ =~= (if i > 0 { before + seq![' '] + converted_line@ } else { before + converted_line@ }));
            },
            Err(e) => {
                proof {
                    lemma_hex_image_err(ls, (i + 1) as int);
                }
                return Err(e);
            },
        }
        i += 1;
    }
    assert(ls.take(len as int) =~= ls);
    Ok(output)
}

proof fn lemma_hex_image_err(ls: Seq<Seq<char>>, k: int)
    requires
        0 <= k <= ls.len(),
        hex_image(ls.take(k)) is Err,
    ensures
        hex_image(ls) == hex_image(ls.take(k)),
    decreases ls.len(),
{
    if k < ls.len() {
        assert(ls.drop_last().take(k) =~= ls.take(k));
        lemma_hex_image_err(ls.drop_last(), k);
    } else {
        assert(ls.take(k) =~= ls);
    }
}

} // verus!
