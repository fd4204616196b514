//! The assembler front end: from assembly text to statements.
//!
//! A program is a sequence of statements, separated by blanks. A statement
//! is a label definition `:name`, a two-operand instruction `OP b, a` or a
//! one-operand instruction `OP a`. A comment runs from `;` to the end of
//! the line and counts as a blank.

use crate::arithmetic::wrap16;
use crate::opcodes::{BinaryOp, Opcode, OpcodeView, Operand, OperandView, Register, SpecialOp};
use vstd::prelude::*;
use vstd::string::StringSliceAdditionalSpecFns;

verus! {

/// One statement of an assembly program.
#[derive(Debug, PartialEq)]
pub enum Statement {
    /// `:name`, the definition of a label.
    LabelDef(String),
    Instruction(Opcode),
}

/// The mathematical value of a [`Statement`].
pub enum StatementView {
    LabelDef(Seq<char>),
    Instruction(OpcodeView),
}

impl View for Statement {
    type V = StatementView;

    open spec fn view(&self) -> StatementView {
        match *self {
            Statement::LabelDef(s) => StatementView::LabelDef(s@),
            Statement::Instruction(op) => StatementView::Instruction(op@),
        }
    }
}

impl Clone for Statement {
    fn clone(&self) -> (r: Self)
        ensures
            r == *self,
    {
        match self {
            Statement::LabelDef(s) => Statement::LabelDef(s.clone()),
            Statement::Instruction(op) => Statement::Instruction(op.clone()),
        }
    }
}

/// Why a text is no program.
#[derive(Debug, PartialEq)]
pub enum ParseError {
    /// The text does not follow the grammar: the byte offset where it
    /// stops to, and what was expected there.
    GrammarError(usize, String),
    /// A literal that does not fit into 16 bits; the payload is its
    /// magnitude.
    ExceedsLiteralSize(u32),
    /// A literal that does not even fit into 32 bits; the payload is its
    /// text.
    ParseIntError(String),
    /// Brackets around what is no address: `PC`, `EX`, or `SP` with an
    /// offset; the payload is the text in the brackets.
    InvalidDeref(String),
}

/// The mathematical value of a [`ParseError`].
pub enum ParseErrorView {
    GrammarError(nat, Seq<char>),
    ExceedsLiteralSize(u32),
    ParseIntError(Seq<char>),
    InvalidDeref(Seq<char>),
}

impl View for ParseError {
    type V = ParseErrorView;

    open spec fn view(&self) -> ParseErrorView {
        match *self {
            ParseError::GrammarError(p, m) => ParseErrorView::GrammarError(p as nat, m@),
            ParseError::ExceedsLiteralSize(n) => ParseErrorView::ExceedsLiteralSize(n),
            ParseError::ParseIntError(s) => ParseErrorView::ParseIntError(s@),
            ParseError::InvalidDeref(s) => ParseErrorView::InvalidDeref(s@),
        }
    }
}

/// `String::push` of the standard library appends one character to the
/// end of the string.
pub assume_specification[ String::push ](s: &mut String, ch: char)
    ensures
        final(s)@ == old(s)@.push(ch),
;

pub open spec fn expected_statement() -> Seq<char> {
    "expected a label definition or an instruction"@
}

pub open spec fn expected_label() -> Seq<char> {
    "expected a label name"@
}

pub open spec fn expected_term() -> Seq<char> {
    "expected a register, a label or a number"@
}

pub open spec fn expected_digit() -> Seq<char> {
    "expected a digit"@
}

pub open spec fn expected_comma() -> Seq<char> {
    "expected `,`"@
}

pub open spec fn expected_bracket() -> Seq<char> {
    "expected `]`"@
}

pub open spec fn misplaced_push() -> Seq<char> {
    "PUSH can only be the first operand of two"@
}

pub open spec fn misplaced_pop() -> Seq<char> {
    "POP cannot be the first operand of two"@
}

pub open spec fn number_with_offset() -> Seq<char> {
    "a number in brackets cannot have an offset"@
}

pub open spec fn trailing_text() -> Seq<char> {
    "unexpected text after the end"@
}

/// The bytes of the punctuation that the grammar knows.
pub const LINE_FEED: u8 = 10;

pub const HASH: u8 = 35;

pub const PLUS: u8 = 43;

pub const COMMA: u8 = 44;

pub const MINUS: u8 = 45;

pub const DIGIT_ZERO: u8 = 48;

pub const COLON: u8 = 58;

pub const SEMICOLON: u8 = 59;

pub const LEFT_BRACKET: u8 = 91;

pub const RIGHT_BRACKET: u8 = 93;

pub const LOWER_X: u8 = 120;

/// Space, tab, line feed and carriage return.
pub open spec fn is_blank(c: u8) -> bool {
    c == 32 || c == 9 || c == 10 || c == 13
}

pub open spec fn is_digit(c: u8) -> bool {
    48 <= c <= 57
}

pub open spec fn is_hex_digit(c: u8) -> bool {
    (48 <= c <= 57) || (65 <= c <= 70) || (97 <= c <= 102)
}

/// A letter or `_`.
pub open spec fn is_ident_start(c: u8) -> bool {
    (65 <= c <= 90) || (97 <= c <= 122) || c == 95
}

/// A letter, a digit or `_`.
pub open spec fn is_ident_char(c: u8) -> bool {
    is_ident_start(c) || is_digit(c)
}

/// The position of the next line feed from `i` on, or the end of the text.
pub open spec fn line_end(s: Seq<u8>, i: int) -> int
    decreases s.len() - i,
{
    if 0 <= i < s.len() && s[i] != LINE_FEED {
        line_end(s, i + 1)
    } else {
        i
    }
}

/// The position of the first byte from `i` on that is neither blank nor
/// in a comment, or the end of the text.
pub open spec fn skip_blank(s: Seq<u8>, i: int) -> int
    decreases s.len() - i, 1int,
{
    if 0 <= i < s.len() && is_blank(s[i]) {
        skip_blank(s, i + 1)
    } else if 0 <= i < s.len() && s[i] == SEMICOLON {
        skip_comment(s, i + 1)
    } else {
        i
    }
}

/// Like [`skip_blank`], from inside a comment.
pub open spec fn skip_comment(s: Seq<u8>, i: int) -> int
    decreases s.len() - i, 0int,
{
    if 0 <= i < s.len() && s[i] != LINE_FEED {
        skip_comment(s, i + 1)
    } else if 0 <= i < s.len() {
        skip_blank(s, i + 1)
    } else {
        i
    }
}

/// The end of the longest run of identifier characters from `i` on.
pub open spec fn ident_end(s: Seq<u8>, i: int) -> int
    decreases s.len() - i,
{
    if 0 <= i < s.len() && is_ident_char(s[i]) {
        ident_end(s, i + 1)
    } else {
        i
    }
}

/// The end of the longest run of decimal digits from `i` on.
pub open spec fn digits_end(s: Seq<u8>, i: int) -> int
    decreases s.len() - i,
{
    if 0 <= i < s.len() && is_digit(s[i]) {
        digits_end(s, i + 1)
    } else {
        i
    }
}

/// The end of the longest run of hexadecimal digits from `i` on.
pub open spec fn hex_end(s: Seq<u8>, i: int) -> int
    decreases s.len() - i,
{
    if 0 <= i < s.len() && is_hex_digit(s[i]) {
        hex_end(s, i + 1)
    } else {
        i
    }
}

/// The bytes `s[i..j]` as characters.
pub open spec fn text(s: Seq<u8>, i: int, j: int) -> Seq<char> {
    s.subrange(i, j).map_values(|b: u8| b as char)
}

pub open spec fn digit_value(c: u8) -> nat {
    if 97 <= c {
        (c - 87) as nat
    } else if 65 <= c {
        (c - 55) as nat
    } else {
        (c - 48) as nat
    }
}

/// The number that the digits `s[i..j]` denote in base `base`.
pub open spec fn digits_value(s: Seq<u8>, i: int, j: int, base: nat) -> nat
    decreases j - i,
{
    if j <= i {
        0
    } else {
        digits_value(s, i, j - 1, base) * base + digit_value(s[j - 1])
    }
}

/// A hexadecimal literal that starts at `start` and has its digits from
/// `d` on: at least one digit, a value of at most 32 bits, and of that at
/// most 16.
pub open spec fn parse_hex(s: Seq<u8>, start: int, d: int) -> Result<(u16, int), ParseErrorView> {
    let e = hex_end(s, d);
    let v = digits_value(s, d, e, 16);
    if e == d {
        Err(ParseErrorView::GrammarError(d as nat, expected_digit()))
    } else if v > 0xffff_ffff {
        Err(ParseErrorView::ParseIntError(text(s, start, e)))
    } else if v > 0xffff {
        Err(ParseErrorView::ExceedsLiteralSize(v as u32))
    } else {
        Ok((v as u16, e))
    }
}

/// A number literal at `i`: `#` or `0x` and hexadecimal digits, or decimal
/// digits with or without `-` before them. A decimal literal must fit into
/// 32 bits with its sign, and its magnitude into 16; a negative one
/// denotes its value modulo 65536.
pub open spec fn parse_number(s: Seq<u8>, i: int) -> Result<(u16, int), ParseErrorView> {
    if s[i] == HASH {
        parse_hex(s, i, i + 1)
    } else if s[i] == DIGIT_ZERO && i + 1 < s.len() && s[i + 1] == LOWER_X {
        parse_hex(s, i, i + 2)
    } else {
        let neg = s[i] == MINUS;
        let d = if neg {
            i + 1
        } else {
            i
        };
        let e = digits_end(s, d);
        let v = digits_value(s, d, e, 10);
        if e == d {
            Err(ParseErrorView::GrammarError(d as nat, expected_digit()))
        } else if (!neg && v > 0x7fff_ffff) || (neg && v > 0x8000_0000) {
            Err(ParseErrorView::ParseIntError(text(s, i, e)))
        } else if v > 0xffff {
            Err(ParseErrorView::ExceedsLiteralSize(v as u32))
        } else {
            Ok(
                (
                    if neg {
                        wrap16(-(v as int))
                    } else {
                        v as u16
                    },
                    e,
                ),
            )
        }
    }
}

/// What can stand in brackets or alone: a word, given by its place in the
/// text, or a number.
pub enum TermView {
    Word(int, int),
    Number(u16),
}

/// The term at `i`: an identifier, as long as it goes, or a number
/// literal.
pub open spec fn parse_term(s: Seq<u8>, i: int) -> Result<(TermView, int), ParseErrorView> {
    if !(0 <= i < s.len()) {
        Err(ParseErrorView::GrammarError(i as nat, expected_term()))
    } else if is_ident_start(s[i]) {
        Ok((TermView::Word(i, ident_end(s, i)), ident_end(s, i)))
    } else if s[i] == HASH || s[i] == MINUS || is_digit(s[i]) {
        match parse_number(s, i) {
            Err(e) => Err(e),
            Ok((n, e)) => Ok((TermView::Number(n), e)),
        }
    } else {
        Err(ParseErrorView::GrammarError(i as nat, expected_term()))
    }
}

/// The upper-case form of an ASCII letter; any other byte itself.
pub open spec fn upper(c: u8) -> u8 {
    if 97 <= c <= 122 {
        (c - 32) as u8
    } else {
        c
    }
}

/// The general register that a letter names, in either case.
pub open spec fn register_of(c: u8) -> Option<Register> {
    if c == 65 || c == 97 {
        Some(Register::A)
    } else if c == 66 || c == 98 {
        Some(Register::B)
    } else if c == 67 || c == 99 {
        Some(Register::C)
    } else if c == 88 || c == 120 {
        Some(Register::X)
    } else if c == 89 || c == 121 {
        Some(Register::Y)
    } else if c == 90 || c == 122 {
        Some(Register::Z)
    } else if c == 73 || c == 105 {
        Some(Register::I)
    } else if c == 74 || c == 106 {
        Some(Register::J)
    } else {
        None
    }
}

/// The general register that the word `s[i..j]` names.
pub open spec fn word_register(s: Seq<u8>, i: int, j: int) -> Option<Register> {
    if j - i == 1 {
        register_of(s[i])
    } else {
        None
    }
}

/// True if the word `s[i..j]` has the two letters `c0 c1`, in either case.
pub open spec fn word_is2(s: Seq<u8>, i: int, j: int, c0: u8, c1: u8) -> bool {
    j - i == 2 && upper(s[i]) == c0 && upper(s[i + 1]) == c1
}

/// True if the word `s[i..j]` is `SP`, in either case.
pub open spec fn word_is_sp(s: Seq<u8>, i: int, j: int) -> bool {
    word_is2(s, i, j, 83, 80)
}

/// True if the word `s[i..j]` is `PC`, in either case.
pub open spec fn word_is_pc(s: Seq<u8>, i: int, j: int) -> bool {
    word_is2(s, i, j, 80, 67)
}

/// True if the word `s[i..j]` is `EX`, in either case.
pub open spec fn word_is_ex(s: Seq<u8>, i: int, j: int) -> bool {
    word_is2(s, i, j, 69, 88)
}

/// True if the word `s[i..j]` is `PUSH`, in either case.
pub open spec fn word_is_push(s: Seq<u8>, i: int, j: int) -> bool {
    j - i == 4 && upper(s[i]) == 80 && upper(s[i + 1]) == 85 && upper(s[i + 2]) == 83 && upper(
        s[i + 3],
    ) == 72
}

/// True if the word `s[i..j]` is `POP`, in either case.
pub open spec fn word_is_pop(s: Seq<u8>, i: int, j: int) -> bool {
    j - i == 3 && upper(s[i]) == 80 && upper(s[i + 1]) == 79 && upper(s[i + 2]) == 80
}

/// The two-operand opcode with the three upper-case letters `c0 c1 c2` as
/// its name.
pub open spec fn binary_named(c0: u8, c1: u8, c2: u8) -> Option<BinaryOp> {
    if c0 == 83 && c1 == 69 && c2 == 84 {
        Some(BinaryOp::SET)
    } else if c0 == 65 && c1 == 68 && c2 == 68 {
        Some(BinaryOp::ADD)
    } else if c0 == 83 && c1 == 85 && c2 == 66 {
        Some(BinaryOp::SUB)
    } else if c0 == 77 && c1 == 85 && c2 == 76 {
        Some(BinaryOp::MUL)
    } else if c0 == 77 && c1 == 76 && c2 == 73 {
        Some(BinaryOp::MLI)
    } else if c0 == 68 && c1 == 73 && c2 == 86 {
        Some(BinaryOp::DIV)
    } else if c0 == 68 && c1 == 86 && c2 == 73 {
        Some(BinaryOp::DVI)
    } else if c0 == 77 && c1 == 79 && c2 == 68 {
        Some(BinaryOp::MOD)
    } else if c0 == 77 && c1 == 68 && c2 == 73 {
        Some(BinaryOp::MDI)
    } else if c0 == 65 && c1 == 78 && c2 == 68 {
        Some(BinaryOp::AND)
    } else if c0 == 66 && c1 == 79 && c2 == 82 {
        Some(BinaryOp::BOR)
    } else if c0 == 88 && c1 == 79 && c2 == 82 {
        Some(BinaryOp::XOR)
    } else if c0 == 83 && c1 == 72 && c2 == 82 {
        Some(BinaryOp::SHR)
    } else if c0 == 65 && c1 == 83 && c2 == 82 {
        Some(BinaryOp::ASR)
    } else if c0 == 83 && c1 == 72 && c2 == 76 {
        Some(BinaryOp::SHL)
    } else if c0 == 73 && c1 == 70 && c2 == 66 {
        Some(BinaryOp::IFB)
    } else if c0 == 73 && c1 == 70 && c2 == 67 {
        Some(BinaryOp::IFC)
    } else if c0 == 73 && c1 == 70 && c2 == 69 {
        Some(BinaryOp::IFE)
    } else if c0 == 73 && c1 == 70 && c2 == 78 {
        Some(BinaryOp::IFN)
    } else if c0 == 73 && c1 == 70 && c2 == 71 {
        Some(BinaryOp::IFG)
    } else if c0 == 73 && c1 == 70 && c2 == 65 {
        Some(BinaryOp::IFA)
    } else if c0 == 73 && c1 == 70 && c2 == 76 {
        Some(BinaryOp::IFL)
    } else if c0 == 73 && c1 == 70 && c2 == 85 {
        Some(BinaryOp::IFU)
    } else if c0 == 65 && c1 == 68 && c2 == 88 {
        Some(BinaryOp::ADX)
    } else if c0 == 83 && c1 == 66 && c2 == 88 {
        Some(BinaryOp::SBX)
    } else if c0 == 83 && c1 == 84 && c2 == 73 {
        Some(BinaryOp::STI)
    } else if c0 == 83 && c1 == 84 && c2 == 68 {
        Some(BinaryOp::STD)
    } else {
        None
    }
}

/// The one-operand opcode with the three upper-case letters `c0 c1 c2` as
/// its name.
pub open spec fn special_named(c0: u8, c1: u8, c2: u8) -> Option<SpecialOp> {
    if c0 == 74 && c1 == 83 && c2 == 82 {
        Some(SpecialOp::JSR)
    } else if c0 == 73 && c1 == 78 && c2 == 84 {
        Some(SpecialOp::INT)
    } else if c0 == 73 && c1 == 65 && c2 == 71 {
        Some(SpecialOp::IAG)
    } else if c0 == 73 && c1 == 65 && c2 == 83 {
        Some(SpecialOp::IAS)
    } else if c0 == 82 && c1 == 70 && c2 == 73 {
        Some(SpecialOp::RFI)
    } else if c0 == 73 && c1 == 65 && c2 == 81 {
        Some(SpecialOp::IAQ)
    } else if c0 == 72 && c1 == 87 && c2 == 78 {
        Some(SpecialOp::HWN)
    } else if c0 == 72 && c1 == 87 && c2 == 81 {
        Some(SpecialOp::HWQ)
    } else if c0 == 72 && c1 == 87 && c2 == 73 {
        Some(SpecialOp::HWI)
    } else {
        None
    }
}

/// The operand that a term in brackets stands for: `[reg]`, `[SP]`,
/// `[label]` or `[number]`. `[PC]` and `[EX]` are no addresses.
pub open spec fn deref_single(s: Seq<u8>, t: TermView) -> Result<OperandView, ParseErrorView> {
    match t {
        TermView::Number(n) => Ok(OperandView::LiteralDeref(n)),
        TermView::Word(a, b) => match word_register(s, a, b) {
            Some(r) => Ok(OperandView::RegisterDeref(r)),
            None => if word_is_sp(s, a, b) {
                Ok(OperandView::Peek)
            } else if word_is_pc(s, a, b) || word_is_ex(s, a, b) {
                Err(ParseErrorView::InvalidDeref(text(s, a, b)))
            } else {
                Ok(OperandView::LabelDeref(text(s, a, b)))
            },
        },
    }
}

/// The operand that a sum in brackets stands for: `[reg+number]`,
/// `[reg+label]`, `[label+number]` or `[label+label]`. `SP`, `PC` and `EX`
/// take no offset, and a number none either; `at` is where the sum starts.
pub open spec fn deref_sum(s: Seq<u8>, at: int, t1: TermView, t2: TermView) -> Result<
    OperandView,
    ParseErrorView,
> {
    match t1 {
        TermView::Number(_) => Err(ParseErrorView::GrammarError(at as nat, number_with_offset())),
        TermView::Word(a, b) => match word_register(s, a, b) {
            Some(r) => match t2 {
                TermView::Word(c, d) => Ok(OperandView::RegisterPlusLabelDeref(r, text(s, c, d))),
                TermView::Number(n) => Ok(OperandView::RegisterPlusDeref(r, n)),
            },
            None => if word_is_sp(s, a, b) || word_is_pc(s, a, b) || word_is_ex(s, a, b) {
                Err(ParseErrorView::InvalidDeref(text(s, a, b)))
            } else {
                match t2 {
                    TermView::Word(c, d) => Ok(
                        OperandView::LabelPlusLabelDeref(text(s, a, b), text(s, c, d)),
                    ),
                    TermView::Number(n) => Ok(OperandView::LabelPlusDeref(text(s, a, b), n)),
                }
            },
        },
    }
}

/// The operand in brackets that starts at `i`, where `s[i]` is `[`: one
/// term, or two with `+` between them, then `]`, with blanks wherever.
pub open spec fn parse_deref(s: Seq<u8>, i: int) -> Result<(OperandView, int), ParseErrorView> {
    let p = skip_blank(s, i + 1);
    match parse_term(s, p) {
        Err(e) => Err(e),
        Ok((t1, e1)) => {
            let q = skip_blank(s, e1);
            if 0 <= q < s.len() && s[q] == PLUS {
                let r = skip_blank(s, q + 1);
                match parse_term(s, r) {
                    Err(e) => Err(e),
                    Ok((t2, e2)) => {
                        let c = skip_blank(s, e2);
                        if 0 <= c < s.len() && s[c] == RIGHT_BRACKET {
                            match deref_sum(s, p, t1, t2) {
                                Err(e) => Err(e),
                                Ok(o) => Ok((o, c + 1)),
                            }
                        } else {
                            Err(ParseErrorView::GrammarError(c as nat, expected_bracket()))
                        }
                    },
                }
            } else if 0 <= q < s.len() && s[q] == RIGHT_BRACKET {
                match deref_single(s, t1) {
                    Err(e) => Err(e),
                    Ok(o) => Ok((o, q + 1)),
                }
            } else {
                Err(ParseErrorView::GrammarError(q as nat, expected_bracket()))
            }
        },
    }
}

/// The operand that a word outside brackets stands for: a register, `SP`,
/// `PC`, `EX`, `PUSH` or `POP` where they may stand, or else a label.
pub open spec fn word_operand(s: Seq<u8>, a: int, b: int, allow_push: bool, allow_pop: bool)
    -> Result<OperandView, ParseErrorView> {
    match word_register(s, a, b) {
        Some(r) => Ok(OperandView::Register(r)),
        None => if word_is_sp(s, a, b) {
            Ok(OperandView::Sp)
        } else if word_is_pc(s, a, b) {
            Ok(OperandView::Pc)
        } else if word_is_ex(s, a, b) {
            Ok(OperandView::Ex)
        } else if word_is_push(s, a, b) {
            if allow_push {
                Ok(OperandView::Push)
            } else {
                Err(ParseErrorView::GrammarError(a as nat, misplaced_push()))
            }
        } else if word_is_pop(s, a, b) {
            if allow_pop {
                Ok(OperandView::Pop)
            } else {
                Err(ParseErrorView::GrammarError(a as nat, misplaced_pop()))
            }
        } else {
            Ok(OperandView::Label(text(s, a, b)))
        },
    }
}

/// The operand that starts at `i`, and where it ends.
pub open spec fn parse_operand(s: Seq<u8>, i: int, allow_push: bool, allow_pop: bool) -> Result<
    (OperandView, int),
    ParseErrorView,
> {
    if 0 <= i < s.len() && s[i] == LEFT_BRACKET {
        parse_deref(s, i)
    } else {
        match parse_term(s, i) {
            Err(e) => Err(e),
            Ok((TermView::Number(n), e)) => Ok((OperandView::Literal(n), e)),
            Ok((TermView::Word(a, b), e)) => match word_operand(s, a, b, allow_push, allow_pop) {
                Err(e) => Err(e),
                Ok(o) => Ok((o, e)),
            },
        }
    }
}

/// The opcode, if any, that the word `s[i..j]` names. The names are in
/// upper case.
pub open spec fn word_binary(s: Seq<u8>, i: int, j: int) -> Option<BinaryOp> {
    if j - i == 3 {
        binary_named(s[i], s[i + 1], s[i + 2])
    } else {
        None
    }
}

pub open spec fn word_special(s: Seq<u8>, i: int, j: int) -> Option<SpecialOp> {
    if j - i == 3 {
        special_named(s[i], s[i + 1], s[i + 2])
    } else {
        None
    }
}

/// The label definition `:name` at `i`.
pub open spec fn parse_label_def(s: Seq<u8>, i: int) -> Result<
    (StatementView, int),
    ParseErrorView,
> {
    if 0 <= i < s.len() && s[i] == COLON && i + 1 < s.len() && is_ident_start(s[i + 1]) {
        Ok((StatementView::LabelDef(text(s, i + 1, ident_end(s, i + 1))), ident_end(s, i + 1)))
    } else if 0 <= i < s.len() && s[i] == COLON {
        Err(ParseErrorView::GrammarError((i + 1) as nat, expected_label()))
    } else {
        Err(ParseErrorView::GrammarError(i as nat, expected_label()))
    }
}

/// The two-operand instruction at `i`: its name, operand `b`, which may
/// be `PUSH`, a comma, and operand `a`, which may be `POP`.
pub open spec fn parse_double(s: Seq<u8>, i: int) -> Result<(StatementView, int), ParseErrorView> {
    match word_binary(s, i, ident_end(s, i)) {
        None => Err(ParseErrorView::GrammarError(i as nat, expected_statement())),
        Some(op) => match parse_operand(s, skip_blank(s, ident_end(s, i)), true, false) {
            Err(e) => Err(e),
            Ok((b, e1)) => {
                let q = skip_blank(s, e1);
                if 0 <= q < s.len() && s[q] == COMMA {
                    match parse_operand(s, skip_blank(s, q + 1), false, true) {
                        Err(e) => Err(e),
                        Ok((a, e2)) => Ok(
                            (StatementView::Instruction(OpcodeView::Binary(op, b, a)), e2),
                        ),
                    }
                } else {
                    Err(ParseErrorView::GrammarError(q as nat, expected_comma()))
                }
            },
        },
    }
}

/// The one-operand instruction at `i`: its name and operand `a`, which
/// may be `POP`.
pub open spec fn parse_single(s: Seq<u8>, i: int) -> Result<(StatementView, int), ParseErrorView> {
    match word_special(s, i, ident_end(s, i)) {
        None => Err(ParseErrorView::GrammarError(i as nat, expected_statement())),
        Some(op) => match parse_operand(s, skip_blank(s, ident_end(s, i)), false, true) {
            Err(e) => Err(e),
            Ok((a, e1)) => Ok((StatementView::Instruction(OpcodeView::Special(op, a)), e1)),
        },
    }
}

/// The statement at `i`, and where it ends.
pub open spec fn parse_statement(s: Seq<u8>, i: int) -> Result<
    (StatementView, int),
    ParseErrorView,
> {
    if 0 <= i < s.len() && s[i] == COLON {
        parse_label_def(s, i)
    } else if 0 <= i < s.len() && is_ident_start(s[i]) {
        if word_binary(s, i, ident_end(s, i)) is Some {
            parse_double(s, i)
        } else {
            parse_single(s, i)
        }
    } else {
        Err(ParseErrorView::GrammarError(i as nat, expected_statement()))
    }
}

/// The statements from `i` to the end of the text, or the first error.
pub open spec fn parse_from(s: Seq<u8>, i: int) -> Result<Seq<StatementView>, ParseErrorView>
    decreases s.len() - i,
{
    let j = skip_blank(s, i);
    if !(0 <= i <= j < s.len()) {
        Ok(Seq::empty())
    } else {
        match parse_statement(s, j) {
            Err(e) => Err(e),
            Ok((stmt, k)) => if j < k <= s.len() {
                match parse_from(s, k) {
                    Err(e) => Err(e),
                    Ok(rest) => Ok(seq![stmt] + rest),
                }
            } else {
                Ok(seq![stmt])
            },
        }
    }
}

/// The program that a text denotes.
pub open spec fn parse_text(s: Seq<u8>) -> Result<Seq<StatementView>, ParseErrorView> {
    parse_from(s, 0)
}

/// What `parse` of one construct gives when the construct has to be the
/// whole text but for blanks around it.
pub open spec fn whole<T>(s: Seq<u8>, r: Result<(T, int), ParseErrorView>) -> Result<
    T,
    ParseErrorView,
> {
    match r {
        Err(e) => Err(e),
        Ok((v, e)) => if skip_blank(s, e) >= s.len() {
            Ok(v)
        } else {
            Err(ParseErrorView::GrammarError(skip_blank(s, e) as nat, trailing_text()))
        },
    }
}

/// A grammar error at `pos` with the message `msg`.
fn grammar_error(pos: usize, msg: &str) -> (e: ParseError)
    ensures
        e@ == ParseErrorView::GrammarError(pos as nat, msg@),
{
    ParseError::GrammarError(pos, msg.to_owned())
}

/// The bytes `s[i..j]` as a string.
fn make_string(s: &[u8], i: usize, j: usize) -> (r: String)
    requires
        i <= j <= s@.len(),
    ensures
        r@ == text(s@, i as int, j as int),
{
    let mut r: String = String::new();
    let mut k: usize = i;
    while k < j
        invariant
            i <= k <= j <= s@.len(),
            r@ == text(s@, i as int, k as int),
        decreases j - k,
    {
        r.push(s[k] as char);
        k = k + 1;
        assert(r@ =~= text(s@, i as int, k as int));
    }
    r
}

fn blank(c: u8) -> (r: bool)
    ensures
        r == is_blank(c),
{
    c == 32 || c == 9 || c == LINE_FEED || c == 13
}

fn digit(c: u8) -> (r: bool)
    ensures
        r == is_digit(c),
{
    48 <= c && c <= 57
}

fn hex_digit(c: u8) -> (r: bool)
    ensures
        r == is_hex_digit(c),
{
    (48 <= c && c <= 57) || (65 <= c && c <= 70) || (97 <= c && c <= 102)
}

fn ident_start(c: u8) -> (r: bool)
    ensures
        r == is_ident_start(c),
{
    (65 <= c && c <= 90) || (97 <= c && c <= 122) || c == 95
}

fn ident_char(c: u8) -> (r: bool)
    ensures
        r == is_ident_char(c),
{
    ident_start(c) || digit(c)
}

fn to_upper(c: u8) -> (r: u8)
    ensures
        r == upper(c),
{
    if 97 <= c && c <= 122 {
        c - 32
    } else {
        c
    }
}

/// Skips blanks and comments from `i` on.
fn skip_blanks(s: &[u8], i: usize) -> (j: usize)
    requires
        i <= s@.len(),
    ensures
        j == skip_blank(s@, i as int),
        i <= j <= s@.len(),
{
    let mut j: usize = i;
    let mut in_comment: bool = false;
    while j < s.len()
        invariant
            i <= j <= s@.len(),
            skip_blank(s@, i as int) == (if in_comment {
                skip_comment(s@, j as int)
            } else {
                skip_blank(s@, j as int)
            }),
        decreases s@.len() - j,
    {
        let c: u8 = s[j];
        if in_comment {
            if c == LINE_FEED {
                in_comment = false;
            }
        } else if c == SEMICOLON {
            in_comment = true;
        } else if !blank(c) {
            return j;
        }
        j = j + 1;
    }
    j
}

/// Finds the end of the identifier characters from `i` on.
fn scan_ident(s: &[u8], i: usize) -> (j: usize)
    requires
        i <= s@.len(),
    ensures
        j == ident_end(s@, i as int),
        i <= j <= s@.len(),
        i < s@.len() && is_ident_start(s@[i as int]) ==> i < j,
{
    let mut j: usize = i;
    while j < s.len() && ident_char(s[j])
        invariant
            i <= j <= s@.len(),
            ident_end(s@, i as int) == ident_end(s@, j as int),
            i < s@.len() && is_ident_start(s@[i as int]) && j == i ==> is_ident_char(s@[j as int]),
        decreases s@.len() - j,
    {
        j = j + 1;
    }
    j
}

fn digit_in(c: u8, hex: bool) -> (r: bool)
    ensures
        r == (if hex {
            is_hex_digit(c)
        } else {
            is_digit(c)
        }),
{
    if hex {
        hex_digit(c)
    } else {
        digit(c)
    }
}

/// Finds the end of the digits from `i` on, decimal or hexadecimal.
fn scan_digits(s: &[u8], i: usize, hex: bool) -> (j: usize)
    requires
        i <= s@.len(),
    ensures
        j == (if hex {
            hex_end(s@, i as int)
        } else {
            digits_end(s@, i as int)
        }),
        i <= j <= s@.len(),
        forall|k: int|
            i <= k < j ==> (if hex {
                is_hex_digit(#[trigger] s@[k])
            } else {
                is_digit(s@[k])
            }),
{
    let mut j: usize = i;
    while j < s.len() && digit_in(s[j], hex)
        invariant
            i <= j <= s@.len(),
            (if hex {
                hex_end(s@, i as int) == hex_end(s@, j as int)
            } else {
                digits_end(s@, i as int) == digits_end(s@, j as int)
            }),
            forall|k: int|
                i <= k < j ==> (if hex {
                    is_hex_digit(#[trigger] s@[k])
                } else {
                    is_digit(s@[k])
                }),
        decreases s@.len() - j,
    {
        j = j + 1;
    }
    j
}

/// The value of the digits `s[i..j]` in base 10 or 16, as far as it is at
/// most 32 bits; a larger value comes back as some number above 32 bits.
fn read_digits(s: &[u8], i: usize, j: usize, hex: bool) -> (v: u64)
    requires
        i <= j <= s@.len(),
        forall|k: int| i <= k < j ==> is_hex_digit(#[trigger] s@[k]),
    ensures
        v <= 0xffff_ffff ==> v == digits_value(
            s@,
            i as int,
            j as int,
            if hex {
                16
            } else {
                10
            },
        ),
        v > 0xffff_ffff ==> digits_value(
            s@,
            i as int,
            j as int,
            if hex {
                16
            } else {
                10
            },
        ) > 0xffff_ffff,
{
    let base: u64 = if hex {
        16
    } else {
        10
    };
    let mut v: u64 = 0;
    let mut k: usize = i;
    while k < j
        invariant
            i <= k <= j <= s@.len(),
            base == (if hex {
                16u64
            } else {
                10u64
            }),
            forall|m: int| i <= m < j ==> is_hex_digit(#[trigger] s@[m]),
            v <= 0xffff_ffff * 16 + 15,
            v <= 0xffff_ffff ==> v == digits_value(s@, i as int, k as int, base as nat),
            v > 0xffff_ffff ==> digits_value(s@, i as int, k as int, base as nat) > 0xffff_ffff,
        decreases j - k,
    {
        let c: u8 = s[k];
        let d: u64 = if 97 <= c {
            (c - 87) as u64
        } else if 65 <= c {
            (c - 55) as u64
        } else {
            (c - 48) as u64
        };
        proof {
            let before = digits_value(s@, i as int, k as int, base as nat);
            assert(digits_value(s@, i as int, k + 1, base as nat) == before * (base as nat)
                + digit_value(c));
            assert(before * (base as nat) >= before) by (nonlinear_arith)
                requires
                    base >= 1,
            ;
            assert(d <= 15);
        }
        if v <= 0xffff_ffff {
            assert(v * base <= 0xffff_ffff * 16) by (nonlinear_arith)
                requires
                    v <= 0xffff_ffff,
                    base <= 16,
            ;
            v = v * base + d;
        }
        k = k + 1;
    }
    v
}

/// Reads a hexadecimal literal that starts at `start` and has its digits
/// from `d` on.
fn read_hex(s: &[u8], start: usize, d: usize) -> (r: Result<(u16, usize), ParseError>)
    requires
        start <= d <= s@.len(),
    ensures
        match r {
            Ok((n, e)) => parse_hex(s@, start as int, d as int) == Ok::<
                (u16, int),
                ParseErrorView,
            >((n, e as int)) && d < e <= s@.len(),
            Err(e) => parse_hex(s@, start as int, d as int) == Err::<(u16, int), ParseErrorView>(
                e@,
            ),
        },
{
    let e: usize = scan_digits(s, d, true);
    if e == d {
        return Err(grammar_error(d, "expected a digit"));
    }
    let v: u64 = read_digits(s, d, e, true);
    if v > 0xffff_ffff {
        Err(ParseError::ParseIntError(make_string(s, start, e)))
    } else if v > 0xffff {
        Err(ParseError::ExceedsLiteralSize(v as u32))
    } else {
        Ok((v as u16, e))
    }
}

/// Reads the number literal at `i`.
fn parse_literal(s: &[u8], i: usize) -> (r: Result<(u16, usize), ParseError>)
    requires
        i < s@.len(),
    ensures
        match r {
            Ok((n, e)) => parse_number(s@, i as int) == Ok::<(u16, int), ParseErrorView>(
                (n, e as int),
            ) && i < e <= s@.len(),
            Err(e) => parse_number(s@, i as int) == Err::<(u16, int), ParseErrorView>(e@),
        },
{
    if s[i] == HASH {
        read_hex(s, i, i + 1)
    } else if s[i] == DIGIT_ZERO && i + 1 < s.len() && s[i + 1] == LOWER_X {
        read_hex(s, i, i + 2)
    } else {
        let neg: bool = s[i] == MINUS;
        let d: usize = if neg {
            i + 1
        } else {
            i
        };
        let e: usize = scan_digits(s, d, false);
        if e == d {
            return Err(grammar_error(d, "expected a digit"));
        }
        let v: u64 = read_digits(s, d, e, false);
        if (!neg && v > 0x7fff_ffff) || (neg && v > 0x8000_0000) {
            Err(ParseError::ParseIntError(make_string(s, i, e)))
        } else if v > 0xffff {
            Err(ParseError::ExceedsLiteralSize(v as u32))
        } else if neg {
            Ok((((0x10000 - v) % 0x10000) as u16, e))
        } else {
            Ok((v as u16, e))
        }
    }
}

/// What can stand in brackets or alone: a word, given by its place in the
/// text, or a number.
#[derive(Copy, Clone)]
enum Term {
    Word(usize, usize),
    Number(u16),
}

impl View for Term {
    type V = TermView;

    closed spec fn view(&self) -> TermView {
        match *self {
            Term::Word(a, b) => TermView::Word(a as int, b as int),
            Term::Number(n) => TermView::Number(n),
        }
    }
}

/// Reads the term at `i`.
fn read_term(s: &[u8], i: usize) -> (r: Result<(Term, usize), ParseError>)
    requires
        i <= s@.len(),
    ensures
        match r {
            Ok((t, e)) => parse_term(s@, i as int) == Ok::<(TermView, int), ParseErrorView>(
                (t@, e as int),
            ) && i < e <= s@.len() && (t matches Term::Word(a, b) ==> a == i && b == e),
            Err(e) => parse_term(s@, i as int) == Err::<(TermView, int), ParseErrorView>(e@),
        },
{
    if i >= s.len() {
        Err(grammar_error(i, "expected a register, a label or a number"))
    } else if ident_start(s[i]) {
        let e: usize = scan_ident(s, i);
        Ok((Term::Word(i, e), e))
    } else if s[i] == HASH || s[i] == MINUS || digit(s[i]) {
        match parse_literal(s, i) {
            Err(e) => Err(e),
            Ok((n, e)) => Ok((Term::Number(n), e)),
        }
    } else {
        Err(grammar_error(i, "expected a register, a label or a number"))
    }
}

fn register_named(c: u8) -> (r: Option<Register>)
    ensures
        r == register_of(c),
{
    if c == 65 || c == 97 {
        Some(Register::A)
    } else if c == 66 || c == 98 {
        Some(Register::B)
    } else if c == 67 || c == 99 {
        Some(Register::C)
    } else if c == 88 || c == 120 {
        Some(Register::X)
    } else if c == 89 || c == 121 {
        Some(Register::Y)
    } else if c == 90 || c == 122 {
        Some(Register::Z)
    } else if c == 73 || c == 105 {
        Some(Register::I)
    } else if c == 74 || c == 106 {
        Some(Register::J)
    } else {
        None
    }
}

fn find_register(s: &[u8], i: usize, j: usize) -> (r: Option<Register>)
    requires
        i < j <= s@.len(),
    ensures
        r == word_register(s@, i as int, j as int),
{
    if j - i == 1 {
        register_named(s[i])
    } else {
        None
    }
}

fn is_pair(s: &[u8], i: usize, j: usize, c0: u8, c1: u8) -> (r: bool)
    requires
        i < j <= s@.len(),
    ensures
        r == word_is2(s@, i as int, j as int, c0, c1),
{
    j - i == 2 && to_upper(s[i]) == c0 && to_upper(s[i + 1]) == c1
}

fn is_sp(s: &[u8], i: usize, j: usize) -> (r: bool)
    requires
        i < j <= s@.len(),
    ensures
        r == word_is_sp(s@, i as int, j as int),
{
    is_pair(s, i, j, 83, 80)
}

fn is_pc(s: &[u8], i: usize, j: usize) -> (r: bool)
    requires
        i < j <= s@.len(),
    ensures
        r == word_is_pc(s@, i as int, j as int),
{
    is_pair(s, i, j, 80, 67)
}

fn is_ex(s: &[u8], i: usize, j: usize) -> (r: bool)
    requires
        i < j <= s@.len(),
    ensures
        r == word_is_ex(s@, i as int, j as int),
{
    is_pair(s, i, j, 69, 88)
}

fn is_push(s: &[u8], i: usize, j: usize) -> (r: bool)
    requires
        i < j <= s@.len(),
    ensures
        r == word_is_push(s@, i as int, j as int),
{
    j - i == 4 && to_upper(s[i]) == 80 && to_upper(s[i + 1]) == 85 && to_upper(s[i + 2]) == 83
        && to_upper(s[i + 3]) == 72
}

fn is_pop(s: &[u8], i: usize, j: usize) -> (r: bool)
    requires
        i < j <= s@.len(),
    ensures
        r == word_is_pop(s@, i as int, j as int),
{
    j - i == 3 && to_upper(s[i]) == 80 && to_upper(s[i + 1]) == 79 && to_upper(s[i + 2]) == 80
}

fn binary_by_name(c0: u8, c1: u8, c2: u8) -> (r: Option<BinaryOp>)
    ensures
        r == binary_named(c0, c1, c2),
{
    if c0 == 83 && c1 == 69 && c2 == 84 {
        Some(BinaryOp::SET)
    } else if c0 == 65 && c1 == 68 && c2 == 68 {
        Some(BinaryOp::ADD)
    } else if c0 == 83 && c1 == 85 && c2 == 66 {
        Some(BinaryOp::SUB)
    } else if c0 == 77 && c1 == 85 && c2 == 76 {
        Some(BinaryOp::MUL)
    } else if c0 == 77 && c1 == 76 && c2 == 73 {
        Some(BinaryOp::MLI)
    } else if c0 == 68 && c1 == 73 && c2 == 86 {
        Some(BinaryOp::DIV)
    } else if c0 == 68 && c1 == 86 && c2 == 73 {
        Some(BinaryOp::DVI)
    } else if c0 == 77 && c1 == 79 && c2 == 68 {
        Some(BinaryOp::MOD)
    } else if c0 == 77 && c1 == 68 && c2 == 73 {
        Some(BinaryOp::MDI)
    } else if c0 == 65 && c1 == 78 && c2 == 68 {
        Some(BinaryOp::AND)
    } else if c0 == 66 && c1 == 79 && c2 == 82 {
        Some(BinaryOp::BOR)
    } else if c0 == 88 && c1 == 79 && c2 == 82 {
        Some(BinaryOp::XOR)
    } else if c0 == 83 && c1 == 72 && c2 == 82 {
        Some(BinaryOp::SHR)
    } else if c0 == 65 && c1 == 83 && c2 == 82 {
        Some(BinaryOp::ASR)
    } else if c0 == 83 && c1 == 72 && c2 == 76 {
        Some(BinaryOp::SHL)
    } else if c0 == 73 && c1 == 70 && c2 == 66 {
        Some(BinaryOp::IFB)
    } else if c0 == 73 && c1 == 70 && c2 == 67 {
        Some(BinaryOp::IFC)
    } else if c0 == 73 && c1 == 70 && c2 == 69 {
        Some(BinaryOp::IFE)
    } else if c0 == 73 && c1 == 70 && c2 == 78 {
        Some(BinaryOp::IFN)
    } else if c0 == 73 && c1 == 70 && c2 == 71 {
        Some(BinaryOp::IFG)
    } else if c0 == 73 && c1 == 70 && c2 == 65 {
        Some(BinaryOp::IFA)
    } else if c0 == 73 && c1 == 70 && c2 == 76 {
        Some(BinaryOp::IFL)
    } else if c0 == 73 && c1 == 70 && c2 == 85 {
        Some(BinaryOp::IFU)
    } else if c0 == 65 && c1 == 68 && c2 == 88 {
        Some(BinaryOp::ADX)
    } else if c0 == 83 && c1 == 66 && c2 == 88 {
        Some(BinaryOp::SBX)
    } else if c0 == 83 && c1 == 84 && c2 == 73 {
        Some(BinaryOp::STI)
    } else if c0 == 83 && c1 == 84 && c2 == 68 {
        Some(BinaryOp::STD)
    } else {
        None
    }
}

fn special_by_name(c0: u8, c1: u8, c2: u8) -> (r: Option<SpecialOp>)
    ensures
        r == special_named(c0, c1, c2),
{
    if c0 == 74 && c1 == 83 && c2 == 82 {
        Some(SpecialOp::JSR)
    } else if c0 == 73 && c1 == 78 && c2 == 84 {
        Some(SpecialOp::INT)
    } else if c0 == 73 && c1 == 65 && c2 == 71 {
        Some(SpecialOp::IAG)
    } else if c0 == 73 && c1 == 65 && c2 == 83 {
        Some(SpecialOp::IAS)
    } else if c0 == 82 && c1 == 70 && c2 == 73 {
        Some(SpecialOp::RFI)
    } else if c0 == 73 && c1 == 65 && c2 == 81 {
        Some(SpecialOp::IAQ)
    } else if c0 == 72 && c1 == 87 && c2 == 78 {
        Some(SpecialOp::HWN)
    } else if c0 == 72 && c1 == 87 && c2 == 81 {
        Some(SpecialOp::HWQ)
    } else if c0 == 72 && c1 == 87 && c2 == 73 {
        Some(SpecialOp::HWI)
    } else {
        None
    }
}

fn single_in_brackets(s: &[u8], t: Term) -> (r: Result<Operand, ParseError>)
    requires
        t matches Term::Word(a, b) ==> a < b <= s@.len(),
    ensures
        match r {
            Ok(o) => deref_single(s@, t@) == Ok::<OperandView, ParseErrorView>(o@),
            Err(e) => deref_single(s@, t@) == Err::<OperandView, ParseErrorView>(e@),
        },
{
    match t {
        Term::Number(n) => Ok(Operand::LiteralDeref(n)),
        Term::Word(a, b) => match find_register(s, a, b) {
            Some(r) => Ok(Operand::RegisterDeref(r)),
            None => {
                if is_sp(s, a, b) {
                    Ok(Operand::Peek)
                } else if is_pc(s, a, b) || is_ex(s, a, b) {
                    Err(ParseError::InvalidDeref(make_string(s, a, b)))
                } else {
                    Ok(Operand::LabelDeref(make_string(s, a, b)))
                }
            },
        },
    }
}

fn sum_in_brackets(s: &[u8], at: usize, t1: Term, t2: Term) -> (r: Result<Operand, ParseError>)
    requires
        t1 matches Term::Word(a, b) ==> a < b <= s@.len(),
        t2 matches Term::Word(a, b) ==> a < b <= s@.len(),
    ensures
        match r {
            Ok(o) => deref_sum(s@, at as int, t1@, t2@) == Ok::<OperandView, ParseErrorView>(o@),
            Err(e) => deref_sum(s@, at as int, t1@, t2@) == Err::<OperandView, ParseErrorView>(
                e@,
            ),
        },
{
    match t1 {
        Term::Number(_) => Err(grammar_error(at, "a number in brackets cannot have an offset")),
        Term::Word(a, b) => match find_register(s, a, b) {
            Some(r) => match t2 {
                Term::Word(c, d) => Ok(Operand::RegisterPlusLabelDeref(r, make_string(s, c, d))),
                Term::Number(n) => Ok(Operand::RegisterPlusDeref(r, n)),
            },
            None => {
                if is_sp(s, a, b) || is_pc(s, a, b) || is_ex(s, a, b) {
                    Err(ParseError::InvalidDeref(make_string(s, a, b)))
                } else {
                    match t2 {
                        Term::Word(c, d) => Ok(
                            Operand::LabelPlusLabelDeref(
                                make_string(s, a, b),
                                make_string(s, c, d),
                            ),
                        ),
                        Term::Number(n) => Ok(
                            Operand::LabelPlusDeref(make_string(s, a, b), n),
                        ),
                    }
                }
            },
        },
    }
}

/// Reads the operand in brackets at `i`.
fn emit_deref(s: &[u8], i: usize) -> (r: Result<(Operand, usize), ParseError>)
    requires
        i < s@.len(),
    ensures
        match r {
            Ok((o, e)) => parse_deref(s@, i as int) == Ok::<(OperandView, int), ParseErrorView>(
                (o@, e as int),
            ) && i < e <= s@.len(),
            Err(e) => parse_deref(s@, i as int) == Err::<(OperandView, int), ParseErrorView>(e@),
        },
{
    let len: usize = s.len();
    let p: usize = skip_blanks(s, i + 1);
    let (t1, e1) = match read_term(s, p) {
        Err(e) => {
            return Err(e);
        },
        Ok(x) => x,
    };
    let q: usize = skip_blanks(s, e1);
    if q < len && s[q] == PLUS {
        let r: usize = skip_blanks(s, q + 1);
        let (t2, e2) = match read_term(s, r) {
            Err(e) => {
                return Err(e);
            },
            Ok(x) => x,
        };
        let c: usize = skip_blanks(s, e2);
        if c < len && s[c] == RIGHT_BRACKET {
            match sum_in_brackets(s, p, t1, t2) {
                Err(e) => Err(e),
                Ok(o) => Ok((o, c + 1)),
            }
        } else {
            Err(grammar_error(c, "expected `]`"))
        }
    } else if q < len && s[q] == RIGHT_BRACKET {
        match single_in_brackets(s, t1) {
            Err(e) => Err(e),
            Ok(o) => Ok((o, q + 1)),
        }
    } else {
        Err(grammar_error(q, "expected `]`"))
    }
}

fn emit_word(s: &[u8], a: usize, b: usize, allow_push: bool, allow_pop: bool) -> (r: Result<
    Operand,
    ParseError,
>)
    requires
        a < b <= s@.len(),
    ensures
        match r {
            Ok(o) => word_operand(s@, a as int, b as int, allow_push, allow_pop) == Ok::<
                OperandView,
                ParseErrorView,
            >(o@),
            Err(e) => word_operand(s@, a as int, b as int, allow_push, allow_pop) == Err::<
                OperandView,
                ParseErrorView,
            >(e@),
        },
{
    match find_register(s, a, b) {
        Some(r) => Ok(Operand::Register(r)),
        None => {
            if is_sp(s, a, b) {
                Ok(Operand::Sp)
            } else if is_pc(s, a, b) {
                Ok(Operand::Pc)
            } else if is_ex(s, a, b) {
                Ok(Operand::Ex)
            } else if is_push(s, a, b) {
                if allow_push {
                    Ok(Operand::Push)
                } else {
                    Err(grammar_error(a, "PUSH can only be the first operand of two"))
                }
            } else if is_pop(s, a, b) {
                if allow_pop {
                    Ok(Operand::Pop)
                } else {
                    Err(grammar_error(a, "POP cannot be the first operand of two"))
                }
            } else {
                Ok(Operand::Label(make_string(s, a, b)))
            }
        },
    }
}

/// Reads the operand at `i`.
fn read_operand(s: &[u8], i: usize, allow_push: bool, allow_pop: bool) -> (r: Result<
    (Operand, usize),
    ParseError,
>)
    requires
        i <= s@.len(),
    ensures
        match r {
            Ok((o, e)) => parse_operand(s@, i as int, allow_push, allow_pop) == Ok::<
                (OperandView, int),
                ParseErrorView,
            >((o@, e as int)) && i < e <= s@.len(),
            Err(e) => parse_operand(s@, i as int, allow_push, allow_pop) == Err::<
                (OperandView, int),
                ParseErrorView,
            >(e@),
        },
{
    if i < s.len() && s[i] == LEFT_BRACKET {
        emit_deref(s, i)
    } else {
        match read_term(s, i) {
            Err(e) => Err(e),
            Ok((Term::Number(n), e)) => Ok((Operand::Literal(n), e)),
            Ok((Term::Word(a, b), e)) => match emit_word(s, a, b, allow_push, allow_pop) {
                Err(e) => Err(e),
                Ok(o) => Ok((o, e)),
            },
        }
    }
}

/// Reads the label definition at `i`.
fn read_label_def(s: &[u8], i: usize) -> (r: Result<(Statement, usize), ParseError>)
    requires
        i <= s@.len(),
    ensures
        match r {
            Ok((st, e)) => parse_label_def(s@, i as int) == Ok::<
                (StatementView, int),
                ParseErrorView,
            >((st@, e as int)) && i < e <= s@.len(),
            Err(e) => parse_label_def(s@, i as int) == Err::<(StatementView, int), ParseErrorView>(
                e@,
            ),
        },
{
    if i < s.len() && s[i] == COLON {
        if i + 1 < s.len() && ident_start(s[i + 1]) {
            let e: usize = scan_ident(s, i + 1);
            Ok((Statement::LabelDef(make_string(s, i + 1, e)), e))
        } else {
            Err(grammar_error(i + 1, "expected a label name"))
        }
    } else {
        Err(grammar_error(i, "expected a label name"))
    }
}

/// Reads the two-operand instruction at `i`.
fn read_double(s: &[u8], i: usize) -> (r: Result<(Statement, usize), ParseError>)
    requires
        i < s@.len(),
        is_ident_start(s@[i as int]),
    ensures
        match r {
            Ok((st, e)) => parse_double(s@, i as int) == Ok::<
                (StatementView, int),
                ParseErrorView,
            >((st@, e as int)) && i < e <= s@.len(),
            Err(e) => parse_double(s@, i as int) == Err::<(StatementView, int), ParseErrorView>(
                e@,
            ),
        },
{
    let w: usize = scan_ident(s, i);
    let op: BinaryOp = match (if w - i == 3 {
        binary_by_name(s[i], s[i + 1], s[i + 2])
    } else {
        None
    }) {
        Some(op) => op,
        None => {
            return Err(grammar_error(i, "expected a label definition or an instruction"));
        },
    };
    let p: usize = skip_blanks(s, w);
    let (b, e1) = match read_operand(s, p, true, false) {
        Err(e) => {
            return Err(e);
        },
        Ok(x) => x,
    };
    let q: usize = skip_blanks(s, e1);
    if q < s.len() && s[q] == COMMA {
        let r: usize = skip_blanks(s, q + 1);
        match read_operand(s, r, false, true) {
            Err(e) => Err(e),
            Ok((a, e2)) => Ok((Statement::Instruction(Opcode::binary(op, b, a)), e2)),
        }
    } else {
        Err(grammar_error(q, "expected `,`"))
    }
}

/// Reads the one-operand instruction at `i`.
fn read_single(s: &[u8], i: usize) -> (r: Result<(Statement, usize), ParseError>)
    requires
        i < s@.len(),
        is_ident_start(s@[i as int]),
    ensures
        match r {
            Ok((st, e)) => parse_single(s@, i as int) == Ok::<
                (StatementView, int),
                ParseErrorView,
            >((st@, e as int)) && i < e <= s@.len(),
            Err(e) => parse_single(s@, i as int) == Err::<(StatementView, int), ParseErrorView>(
                e@,
            ),
        },
{
    let w: usize = scan_ident(s, i);
    let op: SpecialOp = match (if w - i == 3 {
        special_by_name(s[i], s[i + 1], s[i + 2])
    } else {
        None
    }) {
        Some(op) => op,
        None => {
            return Err(grammar_error(i, "expected a label definition or an instruction"));
        },
    };
    let p: usize = skip_blanks(s, w);
    match read_operand(s, p, false, true) {
        Err(e) => Err(e),
        Ok((a, e1)) => Ok((Statement::Instruction(Opcode::special(op, a)), e1)),
    }
}

/// Reads the statement at `i`.
fn read_statement(s: &[u8], i: usize) -> (r: Result<(Statement, usize), ParseError>)
    requires
        i <= s@.len(),
    ensures
        match r {
            Ok((st, e)) => parse_statement(s@, i as int) == Ok::<
                (StatementView, int),
                ParseErrorView,
            >((st@, e as int)) && i < e <= s@.len(),
            Err(e) => parse_statement(s@, i as int) == Err::<(StatementView, int), ParseErrorView>(
                e@,
            ),
        },
{
    if i < s.len() && s[i] == COLON {
        read_label_def(s, i)
    } else if i < s.len() && ident_start(s[i]) {
        let w: usize = scan_ident(s, i);
        let double: bool = w - i == 3 && binary_by_name(s[i], s[i + 1], s[i + 2]).is_some();
        if double {
            read_double(s, i)
        } else {
            read_single(s, i)
        }
    } else {
        Err(grammar_error(i, "expected a label definition or an instruction"))
    }
}

/// The values of a list of statements.
pub open spec fn statements_view(stmts: Seq<Statement>) -> Seq<StatementView> {
    stmts.map_values(|st: Statement| st@)
}

/// Reads a program from its bytes.
pub fn parse_bytes(s: &[u8]) -> (r: Result<Vec<Statement>, ParseError>)
    ensures
        match r {
            Ok(stmts) => parse_text(s@) == Ok::<Seq<StatementView>, ParseErrorView>(
                statements_view(stmts@),
            ),
            Err(e) => parse_text(s@) == Err::<Seq<StatementView>, ParseErrorView>(e@),
        },
{
    let mut ret: Vec<Statement> = Vec::new();
    let mut i: usize = 0;
    proof {
        match parse_from(s@, 0) {
            Ok(rest) => {
                assert(statements_view(ret@) + rest =~= rest);
            },
            Err(_) => {},
        }
    }
    loop
        invariant
            i <= s@.len(),
            parse_text(s@) == (match parse_from(s@, i as int) {
                Err(e) => Err(e),
                Ok(rest) => Ok(statements_view(ret@) + rest),
            }),
        decreases s@.len() - i,
    {
        let j: usize = skip_blanks(s, i);
        if j >= s.len() {
            proof {
                assert(statements_view(ret@) + Seq::<StatementView>::empty() =~= statements_view(
                    ret@,
                ));
            }
            return Ok(ret);
        }
        match read_statement(s, j) {
            Err(e) => {
                return Err(e);
            },
            Ok((stmt, k)) => {
                proof {
                    let before = statements_view(ret@);
                    assert(statements_view(ret@.push(stmt)) =~= before + seq![stmt@]);
                    match parse_from(s@, k as int) {
                        Err(_) => {},
                        Ok(rest) => {
                            assert(before + (seq![stmt@] + rest) =~= (before + seq![stmt@])
                                + rest);
                        },
                    }
                }
                ret.push(stmt);
                i = k;
            },
        }
    }
}

/// Reads a program from its text: the statements in the order of the
/// text, or the first error ([`parse_text`]).
pub fn parse(src: &str) -> (r: Result<Vec<Statement>, ParseError>)
    ensures
        match r {
            Ok(stmts) => parse_text(src.spec_bytes()) == Ok::<
                Seq<StatementView>,
                ParseErrorView,
            >(statements_view(stmts@)),
            Err(e) => parse_text(src.spec_bytes()) == Err::<Seq<StatementView>, ParseErrorView>(
                e@,
            ),
        },
{
    parse_bytes(src.as_bytes())
}

/// Accepts what was read at the end `e` of a construct only if nothing
/// but blanks follows it.
fn to_the_end<T>(s: &[u8], value: T, e: usize) -> (r: Result<T, ParseError>)
    requires
        e <= s@.len(),
    ensures
        match r {
            Ok(v) => v == value && skip_blank(s@, e as int) >= s@.len(),
            Err(err) => skip_blank(s@, e as int) < s@.len() && err@
                == ParseErrorView::GrammarError(
                skip_blank(s@, e as int) as nat,
                trailing_text(),
            ),
        },
{
    let end: usize = skip_blanks(s, e);
    if end >= s.len() {
        Ok(value)
    } else {
        Err(grammar_error(end, "unexpected text after the end"))
    }
}

/// Reads a text that holds one operand and nothing else. `PUSH` and `POP`
/// are both accepted.
pub fn emit_operand(src: &str) -> (r: Result<Operand, ParseError>)
    ensures
        match r {
            Ok(o) => whole(
                src.spec_bytes(),
                parse_operand(src.spec_bytes(), skip_blank(src.spec_bytes(), 0), true, true),
            ) == Ok::<OperandView, ParseErrorView>(o@),
            Err(e) => whole(
                src.spec_bytes(),
                parse_operand(src.spec_bytes(), skip_blank(src.spec_bytes(), 0), true, true),
            ) == Err::<OperandView, ParseErrorView>(e@),
        },
{
    let s: &[u8] = src.as_bytes();
    let p: usize = skip_blanks(s, 0);
    match read_operand(s, p, true, true) {
        Err(e) => Err(e),
        Ok((o, e)) => to_the_end(s, o, e),
    }
}

/// The number literal at `i`, as a literal operand.
pub open spec fn parse_literal_operand(s: Seq<u8>, i: int, hex: bool) -> Result<
    (OperandView, int),
    ParseErrorView,
> {
    if 0 <= i < s.len() && (if hex {
        s[i] == HASH || s[i] == DIGIT_ZERO
    } else {
        s[i] == MINUS || is_digit(s[i])
    }) {
        match parse_number(s, i) {
            Err(e) => Err(e),
            Ok((n, e)) => Ok((OperandView::Literal(n), e)),
        }
    } else {
        Err(ParseErrorView::GrammarError(i as nat, expected_digit()))
    }
}

fn literal_operand(src: &str, hex: bool) -> (r: Result<Operand, ParseError>)
    ensures
        match r {
            Ok(o) => whole(
                src.spec_bytes(),
                parse_literal_operand(src.spec_bytes(), skip_blank(src.spec_bytes(), 0), hex),
            ) == Ok::<OperandView, ParseErrorView>(o@),
            Err(e) => whole(
                src.spec_bytes(),
                parse_literal_operand(src.spec_bytes(), skip_blank(src.spec_bytes(), 0), hex),
            ) == Err::<OperandView, ParseErrorView>(e@),
        },
{
    let s: &[u8] = src.as_bytes();
    let p: usize = skip_blanks(s, 0);
    let starts: bool = p < s.len() && (if hex {
        s[p] == HASH || s[p] == DIGIT_ZERO
    } else {
        s[p] == MINUS || digit(s[p])
    });
    if starts {
        match parse_literal(s, p) {
            Err(e) => Err(e),
            Ok((n, e)) => to_the_end(s, Operand::Literal(n), e),
        }
    } else {
        Err(grammar_error(p, "expected a digit"))
    }
}

/// Reads a text that holds one decimal literal and nothing else.
pub fn emit_int_literal(src: &str) -> (r: Result<Operand, ParseError>)
    ensures
        match r {
            Ok(o) => whole(
                src.spec_bytes(),
                parse_literal_operand(src.spec_bytes(), skip_blank(src.spec_bytes(), 0), false),
            ) == Ok::<OperandView, ParseErrorView>(o@),
            Err(e) => whole(
                src.spec_bytes(),
                parse_literal_operand(src.spec_bytes(), skip_blank(src.spec_bytes(), 0), false),
            ) == Err::<OperandView, ParseErrorView>(e@),
        },
{
    literal_operand(src, false)
}

/// Reads a text that holds one hexadecimal literal and nothing else.
pub fn emit_hex_literal(src: &str) -> (r: Result<Operand, ParseError>)
    ensures
        match r {
            Ok(o) => whole(
                src.spec_bytes(),
                parse_literal_operand(src.spec_bytes(), skip_blank(src.spec_bytes(), 0), true),
            ) == Ok::<OperandView, ParseErrorView>(o@),
            Err(e) => whole(
                src.spec_bytes(),
                parse_literal_operand(src.spec_bytes(), skip_blank(src.spec_bytes(), 0), true),
            ) == Err::<OperandView, ParseErrorView>(e@),
        },
{
    literal_operand(src, true)
}

/// Reads a text that holds one label definition and nothing else.
pub fn emit_label_def(src: &str) -> (r: Result<Statement, ParseError>)
    ensures
        match r {
            Ok(st) => whole(
                src.spec_bytes(),
                parse_label_def(src.spec_bytes(), skip_blank(src.spec_bytes(), 0)),
            ) == Ok::<StatementView, ParseErrorView>(st@),
            Err(e) => whole(
                src.spec_bytes(),
                parse_label_def(src.spec_bytes(), skip_blank(src.spec_bytes(), 0)),
            ) == Err::<StatementView, ParseErrorView>(e@),
        },
{
    let s: &[u8] = src.as_bytes();
    let p: usize = skip_blanks(s, 0);
    match read_label_def(s, p) {
        Err(e) => Err(e),
        Ok((st, e)) => to_the_end(s, st, e),
    }
}

/// The instruction at `i`, which must have one operand (`double` false)
/// or two (`double` true).
pub open spec fn parse_instruction(s: Seq<u8>, i: int, double: bool) -> Result<
    (StatementView, int),
    ParseErrorView,
> {
    if 0 <= i < s.len() && is_ident_start(s[i]) {
        if double {
            parse_double(s, i)
        } else {
            parse_single(s, i)
        }
    } else {
        Err(ParseErrorView::GrammarError(i as nat, expected_statement()))
    }
}

fn instruction(src: &str, double: bool) -> (r: Result<Statement, ParseError>)
    ensures
        match r {
            Ok(st) => whole(
                src.spec_bytes(),
                parse_instruction(src.spec_bytes(), skip_blank(src.spec_bytes(), 0), double),
            ) == Ok::<StatementView, ParseErrorView>(st@),
            Err(e) => whole(
                src.spec_bytes(),
                parse_instruction(src.spec_bytes(), skip_blank(src.spec_bytes(), 0), double),
            ) == Err::<StatementView, ParseErrorView>(e@),
        },
{
    let s: &[u8] = src.as_bytes();
    let p: usize = skip_blanks(s, 0);
    if p < s.len() && ident_start(s[p]) {
        let read = if double {
            read_double(s, p)
        } else {
            read_single(s, p)
        };
        match read {
            Err(e) => Err(e),
            Ok((st, e)) => to_the_end(s, st, e),
        }
    } else {
        Err(grammar_error(p, "expected a label definition or an instruction"))
    }
}

/// Reads a text that holds one one-operand instruction and nothing else.
pub fn emit_opcode_single(src: &str) -> (r: Result<Statement, ParseError>)
    ensures
        match r {
            Ok(st) => whole(
                src.spec_bytes(),
                parse_instruction(src.spec_bytes(), skip_blank(src.spec_bytes(), 0), false),
            ) == Ok::<StatementView, ParseErrorView>(st@),
            Err(e) => whole(
                src.spec_bytes(),
                parse_instruction(src.spec_bytes(), skip_blank(src.spec_bytes(), 0), false),
            ) == Err::<StatementView, ParseErrorView>(e@),
        },
{
    instruction(src, false)
}

/// Reads a text that holds one two-operand instruction and nothing else.
pub fn emit_opcode_double(src: &str) -> (r: Result<Statement, ParseError>)
    ensures
        match r {
            Ok(st) => whole(
                src.spec_bytes(),
                parse_instruction(src.spec_bytes(), skip_blank(src.spec_bytes(), 0), true),
            ) == Ok::<StatementView, ParseErrorView>(st@),
            Err(e) => whole(
                src.spec_bytes(),
                parse_instruction(src.spec_bytes(), skip_blank(src.spec_bytes(), 0), true),
            ) == Err::<StatementView, ParseErrorView>(e@),
        },
{
    instruction(src, true)
}

/// The general register that a text names: one letter, in either case.
/// Any other text is an `InvalidDeref` error that holds the text.
pub fn parse_register(s: String) -> (r: Result<Register, ParseError>)
    ensures
        match r {
            Ok(reg) => word_register(vstd::utf8::encode_utf8(s@), 0, vstd::utf8::encode_utf8(s@).len() as int) == Some(reg),
            Err(e) => word_register(vstd::utf8::encode_utf8(s@), 0, vstd::utf8::encode_utf8(s@).len() as int) is None && e
                == ParseError::InvalidDeref(s),
        },
{
    match Register::from_str(&s) {
        Some(reg) => Ok(reg),
        None => Err(ParseError::InvalidDeref(s)),
    }
}

impl Register {
    /// The general register that a text names: one of the letters A, B,
    /// C, X, Y, Z, I and J, in either case.
    pub fn from_str(s: &String) -> (r: Option<Register>)
        ensures
            r == word_register(vstd::utf8::encode_utf8(s@), 0, vstd::utf8::encode_utf8(s@).len() as int),
    {
        let bytes: &[u8] = s.as_str().as_bytes();
        if bytes.len() == 1 {
            register_named(bytes[0])
        } else {
            None
        }
    }
}

} // verus!
