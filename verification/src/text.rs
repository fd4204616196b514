//! Text for people: instructions as they are written in assembly, and
//! errors as sentences.

use crate::assembly::assemble::{AssemblyError, AssemblyErrorView};
use crate::assembly::layout::{LayoutError, LayoutErrorView};
use crate::hardware::device::HardwareInfo;
use crate::opcodes::{Opcode, OpcodeParts, OpcodeView, Operand, OperandView, Register};
use crate::parser::{ParseError, ParseErrorView};
use crate::result::{DcpuError, DcpuErrorKind};
use crate::virtual_machine::DcpuVMError;
use vstd::prelude::*;
use vstd::string::StringExecFns;

verus! {

/// The character for a digit up to 15: `0` to `9`, then `a` to `f`.
pub open spec fn digit_char(d: nat) -> char {
    if d < 10 {
        (48 + d) as char
    } else {
        (87 + d) as char
    }
}

/// The digits of `n` in base `base`, without leading zeros.
pub open spec fn digits(n: nat, base: nat) -> Seq<char>
    decreases n,
{
    if base < 2 || n < base {
        seq![digit_char(n)]
    } else {
        proof {
            assert(n / base < n) by (nonlinear_arith)
                requires
                    n >= base,
                    base >= 2,
            ;
        }
        digits(n / base, base).push(digit_char(n % base))
    }
}

/// The digits of `n` in base `base`, with zeros before them up to a width
/// of `width`.
pub open spec fn padded(n: nat, base: nat, width: nat) -> Seq<char> {
    if digits(n, base).len() >= width {
        digits(n, base)
    } else {
        Seq::new((width - digits(n, base).len()) as nat, |i: int| '0') + digits(n, base)
    }
}

/// The name of a register.
pub open spec fn register_name(r: Register) -> Seq<char> {
    match r {
        Register::A => "A"@,
        Register::B => "B"@,
        Register::C => "C"@,
        Register::X => "X"@,
        Register::Y => "Y"@,
        Register::Z => "Z"@,
        Register::I => "I"@,
        Register::J => "J"@,
    }
}

/// An operand as it is written in assembly. Numbers are hexadecimal with
/// `0x` before them, but for the offset of a label, which is decimal.
pub open spec fn operand_text(o: OperandView) -> Seq<char> {
    match o {
        OperandView::Register(r) => register_name(r),
        OperandView::RegisterDeref(r) => "["@ + register_name(r) + "]"@,
        OperandView::RegisterPlusDeref(r, n) => "["@ + register_name(r) + " + 0x"@ + digits(
            n as nat,
            16,
        ) + "]"@,
        OperandView::RegisterPlusLabelDeref(r, s) => "["@ + register_name(r) + " + "@ + s + "]"@,
        OperandView::Push => "PUSH"@,
        OperandView::Pop => "POP"@,
        OperandView::Peek => "[SP]"@,
        OperandView::Pick(n) => "[SP + 0x"@ + digits(n as nat, 16) + "]"@,
        OperandView::Sp => "SP"@,
        OperandView::Pc => "PC"@,
        OperandView::Ex => "EX"@,
        OperandView::Literal(n) => "0x"@ + digits(n as nat, 16),
        OperandView::LiteralDeref(n) => "[0x"@ + digits(n as nat, 16) + "]"@,
        OperandView::Label(s) => s,
        OperandView::LabelDeref(s) => "["@ + s + "]"@,
        OperandView::LabelPlusDeref(s, n) => "["@ + s + "+"@ + digits(n as nat, 10) + "]"@,
        OperandView::LabelPlusLabelDeref(s, t) => "["@ + s + "+"@ + t + "]"@,
    }
}

/// An instruction as it is written in assembly: the name of the opcode,
/// then operand `b` and a comma where there is one, then operand `a`.
pub open spec fn opcode_text(op: OpcodeView) -> Seq<char> {
    match op {
        OpcodeView::Binary(o, b, a) => o.spec_mnemonic() + " "@ + operand_text(b) + ", "@
            + operand_text(a),
        OpcodeView::Special(o, a) => o.spec_mnemonic() + " "@ + operand_text(a),
    }
}

fn digit_for(d: usize) -> (c: char)
    requires
        d < 16,
    ensures
        c == digit_char(d as nat),
{
    if d < 10 {
        (48 + d as u8) as char
    } else {
        (87 + d as u8) as char
    }
}

/// Appends the digits of `n` in base `base` to `s`.
fn push_digits(s: &mut String, n: usize, base: usize)
    requires
        2 <= base <= 16,
    ensures
        final(s)@ == old(s)@ + digits(n as nat, base as nat),
    decreases n,
{
    if n >= base {
        assert(n / base < n) by (nonlinear_arith)
            requires
                n >= base,
                base >= 2,
        ;
        push_digits(s, n / base, base);
        s.push(digit_for(n % base));
        proof {
            assert(s@ =~= old(s)@ + digits(n as nat, base as nat));
        }
    } else {
        s.push(digit_for(n));
        proof {
            assert(s@ =~= old(s)@ + digits(n as nat, base as nat));
        }
    }
}

/// The number of digits of `n` in base `base`.
fn count_digits(n: usize, base: usize) -> (k: usize)
    requires
        2 <= base <= 16,
    ensures
        k == digits(n as nat, base as nat).len(),
        1 <= k <= 64,
{
    let mut k: usize = 1;
    let mut m: usize = n;
    proof {
        lemma_digits_len(n as nat, base as nat);
    }
    while m >= base
        invariant
            2 <= base <= 16,
            1 <= k,
            digits(n as nat, base as nat).len() <= 64,
            k + digits(m as nat, base as nat).len() == 1 + digits(n as nat, base as nat).len(),
        decreases m,
    {
        assert(m / base < m) by (nonlinear_arith)
            requires
                m >= base,
                base >= 2,
        ;
        m = m / base;
        k = k + 1;
    }
    k
}

/// A number that fits the machine has at most 64 digits.
proof fn lemma_digits_len(n: nat, base: nat)
    requires
        2 <= base,
        n <= usize::MAX,
    ensures
        digits(n, base).len() <= 64,
{
    vstd::arithmetic::power2::lemma2_to64();
    lemma_digits_bound(n, base, 64);
}

/// A number below 2 to the `k` has at most `k` digits, but at least one.
proof fn lemma_digits_bound(n: nat, base: nat, k: nat)
    requires
        2 <= base,
        k >= 1,
        n < vstd::arithmetic::power2::pow2(k),
    ensures
        digits(n, base).len() <= k,
    decreases k,
{
    if n >= base {
        vstd::arithmetic::power2::lemma2_to64();
        if k == 1 {
            assert(vstd::arithmetic::power2::pow2(1) == 2);
        } else {
            vstd::arithmetic::power2::lemma_pow2_unfold(k);
            assert(n / base <= n / 2) by (nonlinear_arith)
                requires
                    base >= 2,
                    n >= 0,
            ;
            assert(n / base < vstd::arithmetic::power2::pow2((k - 1) as nat));
            lemma_digits_bound(n / base, base, (k - 1) as nat);
        }
    }
}

/// Appends the digits of `n` in base `base` to `s`, with zeros before
/// them up to a width of `width`.
fn push_padded(s: &mut String, n: usize, base: usize, width: usize)
    requires
        2 <= base <= 16,
    ensures
        final(s)@ == old(s)@ + padded(n as nat, base as nat, width as nat),
{
    let k: usize = count_digits(n, base);
    let mut i: usize = k;
    while i < width
        invariant
            k <= i,
            i <= width || k >= width,
            k >= width ==> i == k,
            s@ == old(s)@ + Seq::new((i - k) as nat, |j: int| '0'),
        decreases width - i,
    {
        s.push('0');
        i = i + 1;
        proof {
            assert(s@ =~= old(s)@ + Seq::new((i - k) as nat, |j: int| '0'));
        }
    }
    let ghost before = s@;
    push_digits(s, n, base);
    proof {
        if k >= width {
            assert(Seq::new(0nat, |j: int| '0') =~= Seq::<char>::empty());
            assert(before =~= old(s)@);
        } else {
            assert(s@ =~= old(s)@ + (Seq::new((width - k) as nat, |j: int| '0') + digits(
                n as nat,
                base as nat,
            )));
        }
    }
}

impl Register {
    /// The name of the register.
    pub fn name(self) -> (s: &'static str)
        ensures
            s@ == register_name(self),
    {
        match self {
            Register::A => "A",
            Register::B => "B",
            Register::C => "C",
            Register::X => "X",
            Register::Y => "Y",
            Register::Z => "Z",
            Register::I => "I",
            Register::J => "J",
        }
    }
}

impl Operand {
    /// The operand as it is written in assembly ([`operand_text`]).
    pub fn to_text(&self) -> (s: String)
        ensures
            s@ == operand_text(self@),
    {
        let mut s: String = String::new();
        proof {
            assert(forall|t: Seq<char>| #[trigger] (Seq::<char>::empty() + t) =~= t);
        }
        match self {
            Operand::Register(r) => {
                s.append(r.name());
            },
            Operand::RegisterDeref(r) => {
                s.append("[");
                s.append(r.name());
                s.append("]");
            },
            Operand::RegisterPlusDeref(r, n) => {
                s.append("[");
                s.append(r.name());
                s.append(" + 0x");
                push_digits(&mut s, *n as usize, 16);
                s.append("]");
            },
            Operand::RegisterPlusLabelDeref(r, l) => {
                s.append("[");
                s.append(r.name());
                s.append(" + ");
                s.append(l.as_str());
                s.append("]");
            },
            Operand::Push => {
                s.append("PUSH");
            },
            Operand::Pop => {
                s.append("POP");
            },
            Operand::Peek => {
                s.append("[SP]");
            },
            Operand::Pick(n) => {
                s.append("[SP + 0x");
                push_digits(&mut s, *n as usize, 16);
                s.append("]");
            },
            Operand::Sp => {
                s.append("SP");
            },
            Operand::Pc => {
                s.append("PC");
            },
            Operand::Ex => {
                s.append("EX");
            },
            Operand::Literal(n) => {
                s.append("0x");
                push_digits(&mut s, *n as usize, 16);
            },
            Operand::LiteralDeref(n) => {
                s.append("[0x");
                push_digits(&mut s, *n as usize, 16);
                s.append("]");
            },
            Operand::Label(l) => {
                s.append(l.as_str());
            },
            Operand::LabelDeref(l) => {
                s.append("[");
                s.append(l.as_str());
                s.append("]");
            },
            Operand::LabelPlusDeref(l, n) => {
                s.append("[");
                s.append(l.as_str());
                s.append("+");
                push_digits(&mut s, *n as usize, 10);
                s.append("]");
            },
            Operand::LabelPlusLabelDeref(l, m) => {
                s.append("[");
                s.append(l.as_str());
                s.append("+");
                s.append(m.as_str());
                s.append("]");
            },
        }
        s
    }
}

impl Opcode {
    /// The instruction as it is written in assembly ([`opcode_text`]).
    pub fn to_text(&self) -> (s: String)
        ensures
            s@ == opcode_text(self@),
    {
        let mut s: String = String::new();
        proof {
            assert(forall|t: Seq<char>| #[trigger] (Seq::<char>::empty() + t) =~= t);
        }
        match self.parts() {
            OpcodeParts::Binary(op, b, a) => {
                s.append(op.mnemonic());
                s.append(" ");
                s.append(b.to_text().as_str());
                s.append(", ");
                s.append(a.to_text().as_str());
            },
            OpcodeParts::Special(op, a) => {
                s.append(op.mnemonic());
                s.append(" ");
                s.append(a.to_text().as_str());
            },
        }
        s
    }
}

/// The sentence for an error of the decoder.
pub open spec fn decode_error_text(e: DcpuErrorKind) -> Seq<char> {
    match e {
        DcpuErrorKind::PushInAOp => "Invalid A operand (cannot put push there)"@,
        DcpuErrorKind::PopInBOp => "Invalid B operand (cannot put pop there)"@,
        DcpuErrorKind::MissingNextWord => "Missing next word needed by opcode"@,
        DcpuErrorKind::ReservedOpcode(w) => "Reserved opcode found "@ + digits(w as nat, 16),
        DcpuErrorKind::EmptyIterator => "Someone passed in an empty iterator!"@,
        DcpuErrorKind::EmptyInstruction => "0b0000000000000000 isn't a valid instruction!"@,
    }
}

/// The sentence for an error of the machine.
pub open spec fn vm_error_text(e: DcpuVMError) -> Seq<char> {
    match e {
        DcpuVMError::PushInAOp => "Invalid operand A. Cannot put PUSH there."@,
        DcpuVMError::PopInBOp => "Invalid operand B. Cannot put POP there."@,
        DcpuVMError::EmptyInstruction => "0x00 isn't a valid instruction"@,
        DcpuVMError::OutOfBoundsMemory =>
            "Address out of bounds. Maybe external hardware tried to read too much RAM"@,
        DcpuVMError::OnFire => "The machine is on fire"@,
        DcpuVMError::EmptyIterator => "Someone passed in an empty iterator!"@,
        DcpuVMError::DisassemblyFailed(d) => "Disassembly error: "@ + decode_error_text(d.reason),
    }
}

/// The sentence for an error of the encoder.
pub open spec fn assembly_error_text(e: AssemblyErrorView) -> Seq<char> {
    match e {
        AssemblyErrorView::PushInAOp => "Invalid operand A. Cannot put PUSH there."@,
        AssemblyErrorView::PopInBOp => "Invalid operand B. Cannot put POP there."@,
        AssemblyErrorView::CannotAssembleLabels(s) => "Label not resolved to literal yet: "@ + s,
    }
}

/// The sentence for an error of the layout. Positions are hexadecimal.
pub open spec fn layout_error_text(e: LayoutErrorView) -> Seq<char> {
    match e {
        LayoutErrorView::RedefinedSymbol(s, p, q) => "Symbol redefined: "@ + s + ", @ "@ + digits(
            p,
            16,
        ) + ", previously @ "@ + digits(q, 16),
        LayoutErrorView::AssemblyError(a) => "Assembly failed: "@ + assembly_error_text(a),
        LayoutErrorView::MissingSymbol(s) => "Missing symbol: "@ + s,
    }
}

/// The sentence for an error of the parser.
pub open spec fn parse_error_text(e: ParseErrorView) -> Seq<char> {
    match e {
        ParseErrorView::GrammarError(p, m) => "Parse Error: "@ + m + " at offset "@ + digits(p, 10),
        ParseErrorView::ExceedsLiteralSize(n) => "Literal "@ + padded(n as nat, 16, 4)
            + " exceeds maximum size ffff"@,
        ParseErrorView::ParseIntError(s) => "Failed to parse literal "@ + s,
        ParseErrorView::InvalidDeref(s) => "Invalid deref on "@ + s,
    }
}

/// The identity of a device in words; the numbers are hexadecimal.
pub open spec fn hardware_info_text(info: HardwareInfo) -> Seq<char> {
    "Manufacturer ID: "@ + padded(info.manufacturer as nat, 16, 4) + ", Model: "@ + padded(
        info.model as nat,
        16,
        4,
    ) + ", Version: "@ + padded(info.version as nat, 16, 2)
}

impl DcpuError {
    /// A sentence that describes the error.
    pub fn message(&self) -> (s: String)
        ensures
            s@ == decode_error_text(self.reason),
    {
        let mut s: String = String::new();
        proof {
            assert(forall|t: Seq<char>| #[trigger] (Seq::<char>::empty() + t) =~= t);
        }
        match self.reason {
            DcpuErrorKind::PushInAOp => {
                s.append("Invalid A operand (cannot put push there)");
            },
            DcpuErrorKind::PopInBOp => {
                s.append("Invalid B operand (cannot put pop there)");
            },
            DcpuErrorKind::MissingNextWord => {
                s.append("Missing next word needed by opcode");
            },
            DcpuErrorKind::ReservedOpcode(w) => {
                s.append("Reserved opcode found ");
                push_digits(&mut s, w as usize, 16);
            },
            DcpuErrorKind::EmptyIterator => {
                s.append("Someone passed in an empty iterator!");
            },
            DcpuErrorKind::EmptyInstruction => {
                s.append("0b0000000000000000 isn't a valid instruction!");
            },
        }
        s
    }
}

impl DcpuVMError {
    /// A sentence that describes the error.
    pub fn message(&self) -> (s: String)
        ensures
            s@ == vm_error_text(*self),
    {
        let mut s: String = String::new();
        proof {
            assert(forall|t: Seq<char>| #[trigger] (Seq::<char>::empty() + t) =~= t);
        }
        match self {
            DcpuVMError::PushInAOp => {
                s.append("Invalid operand A. Cannot put PUSH there.");
            },
            DcpuVMError::PopInBOp => {
                s.append("Invalid operand B. Cannot put POP there.");
            },
            DcpuVMError::EmptyInstruction => {
                s.append("0x00 isn't a valid instruction");
            },
            DcpuVMError::OutOfBoundsMemory => {
                s.append(
                    "Address out of bounds. Maybe external hardware tried to read too much RAM",
                );
            },
            DcpuVMError::OnFire => {
                s.append("The machine is on fire");
            },
            DcpuVMError::EmptyIterator => {
                s.append("Someone passed in an empty iterator!");
            },
            DcpuVMError::DisassemblyFailed(d) => {
                s.append("Disassembly error: ");
                s.append(d.message().as_str());
            },
        }
        s
    }
}

impl AssemblyError {
    /// A sentence that describes the error.
    pub fn message(&self) -> (s: String)
        ensures
            s@ == assembly_error_text(self@),
    {
        let mut s: String = String::new();
        proof {
            assert(forall|t: Seq<char>| #[trigger] (Seq::<char>::empty() + t) =~= t);
        }
        match self {
            AssemblyError::PushInAOp => {
                s.append("Invalid operand A. Cannot put PUSH there.");
            },
            AssemblyError::PopInBOp => {
                s.append("Invalid operand B. Cannot put POP there.");
            },
            AssemblyError::CannotAssembleLabels(l) => {
                s.append("Label not resolved to literal yet: ");
                s.append(l.as_str());
            },
        }
        s
    }
}

impl LayoutError {
    /// A sentence that describes the error.
    pub fn message(&self) -> (s: String)
        ensures
            s@ == layout_error_text(self@),
    {
        let mut s: String = String::new();
        proof {
            assert(forall|t: Seq<char>| #[trigger] (Seq::<char>::empty() + t) =~= t);
        }
        match self {
            LayoutError::RedefinedSymbol(l, p, q) => {
                s.append("Symbol redefined: ");
                s.append(l.as_str());
                s.append(", @ ");
                push_digits(&mut s, *p, 16);
                s.append(", previously @ ");
                push_digits(&mut s, *q, 16);
            },
            LayoutError::AssemblyError(a) => {
                s.append("Assembly failed: ");
                s.append(a.message().as_str());
            },
            LayoutError::MissingSymbol(l) => {
                s.append("Missing symbol: ");
                s.append(l.as_str());
            },
        }
        s
    }
}

impl ParseError {
    /// A sentence that describes the error.
    pub fn message(&self) -> (s: String)
        ensures
            s@ == parse_error_text(self@),
    {
        let mut s: String = String::new();
        proof {
            assert(forall|t: Seq<char>| #[trigger] (Seq::<char>::empty() + t) =~= t);
        }
        match self {
            ParseError::GrammarError(p, m) => {
                s.append("Parse Error: ");
                s.append(m.as_str());
                s.append(" at offset ");
                push_digits(&mut s, *p, 10);
            },
            ParseError::ExceedsLiteralSize(n) => {
                s.append("Literal ");
                push_padded(&mut s, *n as usize, 16, 4);
                s.append(" exceeds maximum size ffff");
            },
            ParseError::ParseIntError(l) => {
                s.append("Failed to parse literal ");
                s.append(l.as_str());
            },
            ParseError::InvalidDeref(l) => {
                s.append("Invalid deref on ");
                s.append(l.as_str());
            },
        }
        s
    }
}

impl HardwareInfo {
    /// The identity in words ([`hardware_info_text`]).
    pub fn to_text(&self) -> (s: String)
        ensures
            s@ == hardware_info_text(*self),
    {
        let mut s: String = String::new();
        proof {
            assert(forall|t: Seq<char>| #[trigger] (Seq::<char>::empty() + t) =~= t);
        }
        s.append("Manufacturer ID: ");
        push_padded(&mut s, self.manufacturer as usize, 16, 4);
        s.append(", Model: ");
        push_padded(&mut s, self.model as usize, 16, 4);
        s.append(", Version: ");
        push_padded(&mut s, self.version as usize, 16, 2);
        s
    }
}

} // verus!
