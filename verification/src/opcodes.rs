//! The abstract instruction tree: registers, operands and the 36 opcodes.

use vstd::prelude::*;

verus! {

/// One of the eight general registers. The position of a register in this
/// list (A = 0 .. J = 7) is the number used for it in encoded operands.
#[derive(Copy, Clone, Debug, PartialEq, Eq, Structural)]
pub enum Register {
    A,
    B,
    C,
    X,
    Y,
    Z,
    I,
    J,
}

impl Register {
    /// The number of the register in the register file.
    pub open spec fn spec_index(self) -> int {
        match self {
            Register::A => 0,
            Register::B => 1,
            Register::C => 2,
            Register::X => 3,
            Register::Y => 4,
            Register::Z => 5,
            Register::I => 6,
            Register::J => 7,
        }
    }

    /// The register with the given number; numbers above 7 fold onto J.
    pub open spec fn spec_from_index(n: int) -> Register {
        if n == 0 {
            Register::A
        } else if n == 1 {
            Register::B
        } else if n == 2 {
            Register::C
        } else if n == 3 {
            Register::X
        } else if n == 4 {
            Register::Y
        } else if n == 5 {
            Register::Z
        } else if n == 6 {
            Register::I
        } else {
            Register::J
        }
    }

    pub fn index(self) -> (n: usize)
        ensures
            n == self.spec_index(),
            n < 8,
    {
        match self {
            Register::A => 0,
            Register::B => 1,
            Register::C => 2,
            Register::X => 3,
            Register::Y => 4,
            Register::Z => 5,
            Register::I => 6,
            Register::J => 7,
        }
    }

    /// The register with the number `n`; numbers above 7 fold onto J.
    pub fn from_index(n: u16) -> (r: Register)
        ensures
            r == Register::spec_from_index(n as int),
            n < 8 ==> r.spec_index() == n,
    {
        if n == 0 {
            Register::A
        } else if n == 1 {
            Register::B
        } else if n == 2 {
            Register::C
        } else if n == 3 {
            Register::X
        } else if n == 4 {
            Register::Y
        } else if n == 5 {
            Register::Z
        } else if n == 6 {
            Register::I
        } else {
            Register::J
        }
    }
}

/// Every register number names exactly one register.
pub proof fn lemma_register_index_roundtrip(r: Register)
    ensures
        0 <= r.spec_index() < 8,
        Register::spec_from_index(r.spec_index()) == r,
{
}

/// An operand of an instruction. The five label forms exist only between
/// parsing and layout; the encoder and the machine never accept them.
#[derive(Debug, PartialEq)]
pub enum Operand {
    Register(Register),
    RegisterDeref(Register),
    RegisterPlusDeref(Register, u16),
    RegisterPlusLabelDeref(Register, String),
    Push,
    Pop,
    Peek,
    Pick(u16),
    Sp,
    Pc,
    Ex,
    Literal(u16),
    LiteralDeref(u16),
    Label(String),
    LabelDeref(String),
    LabelPlusDeref(String, u16),
    LabelPlusLabelDeref(String, String),
}

/// The mathematical value of an [`Operand`]: label names are character
/// sequences.
pub enum OperandView {
    Register(Register),
    RegisterDeref(Register),
    RegisterPlusDeref(Register, u16),
    RegisterPlusLabelDeref(Register, Seq<char>),
    Push,
    Pop,
    Peek,
    Pick(u16),
    Sp,
    Pc,
    Ex,
    Literal(u16),
    LiteralDeref(u16),
    Label(Seq<char>),
    LabelDeref(Seq<char>),
    LabelPlusDeref(Seq<char>, u16),
    LabelPlusLabelDeref(Seq<char>, Seq<char>),
}

impl OperandView {
    /// True for the five operand forms that mention a label.
    pub open spec fn has_label(self) -> bool {
        match self {
            OperandView::RegisterPlusLabelDeref(_, _) => true,
            OperandView::Label(_) => true,
            OperandView::LabelDeref(_) => true,
            OperandView::LabelPlusDeref(_, _) => true,
            OperandView::LabelPlusLabelDeref(_, _) => true,
            _ => false,
        }
    }
}

impl View for Operand {
    type V = OperandView;

    open spec fn view(&self) -> OperandView {
        match *self {
            Operand::Register(r) => OperandView::Register(r),
            Operand::RegisterDeref(r) => OperandView::RegisterDeref(r),
            Operand::RegisterPlusDeref(r, n) => OperandView::RegisterPlusDeref(r, n),
            Operand::RegisterPlusLabelDeref(r, s) => OperandView::RegisterPlusLabelDeref(r, s@),
            Operand::Push => OperandView::Push,
            Operand::Pop => OperandView::Pop,
            Operand::Peek => OperandView::Peek,
            Operand::Pick(n) => OperandView::Pick(n),
            Operand::Sp => OperandView::Sp,
            Operand::Pc => OperandView::Pc,
            Operand::Ex => OperandView::Ex,
            Operand::Literal(n) => OperandView::Literal(n),
            Operand::LiteralDeref(n) => OperandView::LiteralDeref(n),
            Operand::Label(s) => OperandView::Label(s@),
            Operand::LabelDeref(s) => OperandView::LabelDeref(s@),
            Operand::LabelPlusDeref(s, n) => OperandView::LabelPlusDeref(s@, n),
            Operand::LabelPlusLabelDeref(s, t) => OperandView::LabelPlusLabelDeref(s@, t@),
        }
    }
}

impl Clone for Operand {
    fn clone(&self) -> (r: Self)
        ensures
            r == *self,
    {
        match self {
            Operand::Register(r) => Operand::Register(*r),
            Operand::RegisterDeref(r) => Operand::RegisterDeref(*r),
            Operand::RegisterPlusDeref(r, n) => Operand::RegisterPlusDeref(*r, *n),
            Operand::RegisterPlusLabelDeref(r, s) => Operand::RegisterPlusLabelDeref(*r, s.clone()),
            Operand::Push => Operand::Push,
            Operand::Pop => Operand::Pop,
            Operand::Peek => Operand::Peek,
            Operand::Pick(n) => Operand::Pick(*n),
            Operand::Sp => Operand::Sp,
            Operand::Pc => Operand::Pc,
            Operand::Ex => Operand::Ex,
            Operand::Literal(n) => Operand::Literal(*n),
            Operand::LiteralDeref(n) => Operand::LiteralDeref(*n),
            Operand::Label(s) => Operand::Label(s.clone()),
            Operand::LabelDeref(s) => Operand::LabelDeref(s.clone()),
            Operand::LabelPlusDeref(s, n) => Operand::LabelPlusDeref(s.clone(), *n),
            Operand::LabelPlusLabelDeref(s, t) => Operand::LabelPlusLabelDeref(s.clone(), t.clone()),
        }
    }
}

/// The 27 opcodes that take two operands, `b` then `a`.
#[derive(Copy, Clone, Debug, PartialEq, Eq, Structural)]
pub enum BinaryOp {
    SET,
    ADD,
    SUB,
    MUL,
    MLI,
    DIV,
    DVI,
    MOD,
    MDI,
    AND,
    BOR,
    XOR,
    SHR,
    ASR,
    SHL,
    IFB,
    IFC,
    IFE,
    IFN,
    IFG,
    IFA,
    IFL,
    IFU,
    ADX,
    SBX,
    STI,
    STD,
}

impl BinaryOp {
    /// True for the eight conditional opcodes (IFB .. IFU).
    pub open spec fn spec_is_branch(self) -> bool {
        match self {
            BinaryOp::IFB
            | BinaryOp::IFC
            | BinaryOp::IFE
            | BinaryOp::IFN
            | BinaryOp::IFG
            | BinaryOp::IFA
            | BinaryOp::IFL
            | BinaryOp::IFU => true,
            _ => false,
        }
    }

    #[verifier::when_used_as_spec(spec_is_branch)]
    pub fn is_branch(self) -> (r: bool)
        ensures
            r == self.spec_is_branch(),
    {
        match self {
            BinaryOp::IFB
            | BinaryOp::IFC
            | BinaryOp::IFE
            | BinaryOp::IFN
            | BinaryOp::IFG
            | BinaryOp::IFA
            | BinaryOp::IFL
            | BinaryOp::IFU => true,
            _ => false,
        }
    }
}

/// The 9 opcodes that take one operand, `a`.
#[derive(Copy, Clone, Debug, PartialEq, Eq, Structural)]
pub enum SpecialOp {
    JSR,
    INT,
    IAG,
    IAS,
    RFI,
    IAQ,
    HWN,
    HWQ,
    HWI,
}

impl BinaryOp {
    /// The number of the opcode in the low five bits of an instruction word.
    pub open spec fn spec_code(self) -> u16 {
        match self {
            BinaryOp::SET => 0x01,
            BinaryOp::ADD => 0x02,
            BinaryOp::SUB => 0x03,
            BinaryOp::MUL => 0x04,
            BinaryOp::MLI => 0x05,
            BinaryOp::DIV => 0x06,
            BinaryOp::DVI => 0x07,
            BinaryOp::MOD => 0x08,
            BinaryOp::MDI => 0x09,
            BinaryOp::AND => 0x0a,
            BinaryOp::BOR => 0x0b,
            BinaryOp::XOR => 0x0c,
            BinaryOp::SHR => 0x0d,
            BinaryOp::ASR => 0x0e,
            BinaryOp::SHL => 0x0f,
            BinaryOp::IFB => 0x10,
            BinaryOp::IFC => 0x11,
            BinaryOp::IFE => 0x12,
            BinaryOp::IFN => 0x13,
            BinaryOp::IFG => 0x14,
            BinaryOp::IFA => 0x15,
            BinaryOp::IFL => 0x16,
            BinaryOp::IFU => 0x17,
            BinaryOp::ADX => 0x1a,
            BinaryOp::SBX => 0x1b,
            BinaryOp::STI => 0x1e,
            BinaryOp::STD => 0x1f,
        }
    }

    /// The opcode with the given number, if the number is not reserved.
    pub open spec fn spec_from_code(code: u16) -> Option<BinaryOp> {
        if code == 0x01 {
            Some(BinaryOp::SET)
        } else if code == 0x02 {
            Some(BinaryOp::ADD)
        } else if code == 0x03 {
            Some(BinaryOp::SUB)
        } else if code == 0x04 {
            Some(BinaryOp::MUL)
        } else if code == 0x05 {
            Some(BinaryOp::MLI)
        } else if code == 0x06 {
            Some(BinaryOp::DIV)
        } else if code == 0x07 {
            Some(BinaryOp::DVI)
        } else if code == 0x08 {
            Some(BinaryOp::MOD)
        } else if code == 0x09 {
            Some(BinaryOp::MDI)
        } else if code == 0x0a {
            Some(BinaryOp::AND)
        } else if code == 0x0b {
            Some(BinaryOp::BOR)
        } else if code == 0x0c {
            Some(BinaryOp::XOR)
        } else if code == 0x0d {
            Some(BinaryOp::SHR)
        } else if code == 0x0e {
            Some(BinaryOp::ASR)
        } else if code == 0x0f {
            Some(BinaryOp::SHL)
        } else if code == 0x10 {
            Some(BinaryOp::IFB)
        } else if code == 0x11 {
            Some(BinaryOp::IFC)
        } else if code == 0x12 {
            Some(BinaryOp::IFE)
        } else if code == 0x13 {
            Some(BinaryOp::IFN)
        } else if code == 0x14 {
            Some(BinaryOp::IFG)
        } else if code == 0x15 {
            Some(BinaryOp::IFA)
        } else if code == 0x16 {
            Some(BinaryOp::IFL)
        } else if code == 0x17 {
            Some(BinaryOp::IFU)
        } else if code == 0x1a {
            Some(BinaryOp::ADX)
        } else if code == 0x1b {
            Some(BinaryOp::SBX)
        } else if code == 0x1e {
            Some(BinaryOp::STI)
        } else if code == 0x1f {
            Some(BinaryOp::STD)
        } else {
            None
        }
    }

    #[verifier::when_used_as_spec(spec_code)]
    pub fn code(self) -> (c: u16)
        ensures
            c == self.spec_code(),
            0 < c < 32,
    {
        match self {
            BinaryOp::SET => 0x01,
            BinaryOp::ADD => 0x02,
            BinaryOp::SUB => 0x03,
            BinaryOp::MUL => 0x04,
            BinaryOp::MLI => 0x05,
            BinaryOp::DIV => 0x06,
            BinaryOp::DVI => 0x07,
            BinaryOp::MOD => 0x08,
            BinaryOp::MDI => 0x09,
            BinaryOp::AND => 0x0a,
            BinaryOp::BOR => 0x0b,
            BinaryOp::XOR => 0x0c,
            BinaryOp::SHR => 0x0d,
            BinaryOp::ASR => 0x0e,
            BinaryOp::SHL => 0x0f,
            BinaryOp::IFB => 0x10,
            BinaryOp::IFC => 0x11,
            BinaryOp::IFE => 0x12,
            BinaryOp::IFN => 0x13,
            BinaryOp::IFG => 0x14,
            BinaryOp::IFA => 0x15,
            BinaryOp::IFL => 0x16,
            BinaryOp::IFU => 0x17,
            BinaryOp::ADX => 0x1a,
            BinaryOp::SBX => 0x1b,
            BinaryOp::STI => 0x1e,
            BinaryOp::STD => 0x1f,
        }
    }

    #[verifier::when_used_as_spec(spec_from_code)]
    pub fn from_code(code: u16) -> (r: Option<BinaryOp>)
        ensures
            r == BinaryOp::spec_from_code(code),
    {
        if code == 0x01 {
            Some(BinaryOp::SET)
        } else if code == 0x02 {
            Some(BinaryOp::ADD)
        } else if code == 0x03 {
            Some(BinaryOp::SUB)
        } else if code == 0x04 {
            Some(BinaryOp::MUL)
        } else if code == 0x05 {
            Some(BinaryOp::MLI)
        } else if code == 0x06 {
            Some(BinaryOp::DIV)
        } else if code == 0x07 {
            Some(BinaryOp::DVI)
        } else if code == 0x08 {
            Some(BinaryOp::MOD)
        } else if code == 0x09 {
            Some(BinaryOp::MDI)
        } else if code == 0x0a {
            Some(BinaryOp::AND)
        } else if code == 0x0b {
            Some(BinaryOp::BOR)
        } else if code == 0x0c {
            Some(BinaryOp::XOR)
        } else if code == 0x0d {
            Some(BinaryOp::SHR)
        } else if code == 0x0e {
            Some(BinaryOp::ASR)
        } else if code == 0x0f {
            Some(BinaryOp::SHL)
        } else if code == 0x10 {
            Some(BinaryOp::IFB)
        } else if code == 0x11 {
            Some(BinaryOp::IFC)
        } else if code == 0x12 {
            Some(BinaryOp::IFE)
        } else if code == 0x13 {
            Some(BinaryOp::IFN)
        } else if code == 0x14 {
            Some(BinaryOp::IFG)
        } else if code == 0x15 {
            Some(BinaryOp::IFA)
        } else if code == 0x16 {
            Some(BinaryOp::IFL)
        } else if code == 0x17 {
            Some(BinaryOp::IFU)
        } else if code == 0x1a {
            Some(BinaryOp::ADX)
        } else if code == 0x1b {
            Some(BinaryOp::SBX)
        } else if code == 0x1e {
            Some(BinaryOp::STI)
        } else if code == 0x1f {
            Some(BinaryOp::STD)
        } else {
            None
        }
    }

    /// The name of the opcode as it is written in assembly text.
    pub fn mnemonic(self) -> (s: &'static str)
        ensures
            s@ == self.spec_mnemonic(),
    {
        match self {
            BinaryOp::SET => "SET",
            BinaryOp::ADD => "ADD",
            BinaryOp::SUB => "SUB",
            BinaryOp::MUL => "MUL",
            BinaryOp::MLI => "MLI",
            BinaryOp::DIV => "DIV",
            BinaryOp::DVI => "DVI",
            BinaryOp::MOD => "MOD",
            BinaryOp::MDI => "MDI",
            BinaryOp::AND => "AND",
            BinaryOp::BOR => "BOR",
            BinaryOp::XOR => "XOR",
            BinaryOp::SHR => "SHR",
            BinaryOp::ASR => "ASR",
            BinaryOp::SHL => "SHL",
            BinaryOp::IFB => "IFB",
            BinaryOp::IFC => "IFC",
            BinaryOp::IFE => "IFE",
            BinaryOp::IFN => "IFN",
            BinaryOp::IFG => "IFG",
            BinaryOp::IFA => "IFA",
            BinaryOp::IFL => "IFL",
            BinaryOp::IFU => "IFU",
            BinaryOp::ADX => "ADX",
            BinaryOp::SBX => "SBX",
            BinaryOp::STI => "STI",
            BinaryOp::STD => "STD",
        }
    }

    /// The name of the opcode as it is written in assembly text.
    pub open spec fn spec_mnemonic(self) -> Seq<char> {
        match self {
            BinaryOp::SET => "SET"@,
            BinaryOp::ADD => "ADD"@,
            BinaryOp::SUB => "SUB"@,
            BinaryOp::MUL => "MUL"@,
            BinaryOp::MLI => "MLI"@,
            BinaryOp::DIV => "DIV"@,
            BinaryOp::DVI => "DVI"@,
            BinaryOp::MOD => "MOD"@,
            BinaryOp::MDI => "MDI"@,
            BinaryOp::AND => "AND"@,
            BinaryOp::BOR => "BOR"@,
            BinaryOp::XOR => "XOR"@,
            BinaryOp::SHR => "SHR"@,
            BinaryOp::ASR => "ASR"@,
            BinaryOp::SHL => "SHL"@,
            BinaryOp::IFB => "IFB"@,
            BinaryOp::IFC => "IFC"@,
            BinaryOp::IFE => "IFE"@,
            BinaryOp::IFN => "IFN"@,
            BinaryOp::IFG => "IFG"@,
            BinaryOp::IFA => "IFA"@,
            BinaryOp::IFL => "IFL"@,
            BinaryOp::IFU => "IFU"@,
            BinaryOp::ADX => "ADX"@,
            BinaryOp::SBX => "SBX"@,
            BinaryOp::STI => "STI"@,
            BinaryOp::STD => "STD"@,
        }
    }
}

impl SpecialOp {
    /// The number of the opcode in bits 5 to 9 of a word whose low five bits are zero.
    pub open spec fn spec_code(self) -> u16 {
        match self {
            SpecialOp::JSR => 0x01,
            SpecialOp::INT => 0x08,
            SpecialOp::IAG => 0x09,
            SpecialOp::IAS => 0x0a,
            SpecialOp::RFI => 0x0b,
            SpecialOp::IAQ => 0x0c,
            SpecialOp::HWN => 0x10,
            SpecialOp::HWQ => 0x11,
            SpecialOp::HWI => 0x12,
        }
    }

    /// The opcode with the given number, if the number is not reserved.
    pub open spec fn spec_from_code(code: u16) -> Option<SpecialOp> {
        if code == 0x01 {
            Some(SpecialOp::JSR)
        } else if code == 0x08 {
            Some(SpecialOp::INT)
        } else if code == 0x09 {
            Some(SpecialOp::IAG)
        } else if code == 0x0a {
            Some(SpecialOp::IAS)
        } else if code == 0x0b {
            Some(SpecialOp::RFI)
        } else if code == 0x0c {
            Some(SpecialOp::IAQ)
        } else if code == 0x10 {
            Some(SpecialOp::HWN)
        } else if code == 0x11 {
            Some(SpecialOp::HWQ)
        } else if code == 0x12 {
            Some(SpecialOp::HWI)
        } else {
            None
        }
    }

    #[verifier::when_used_as_spec(spec_code)]
    pub fn code(self) -> (c: u16)
        ensures
            c == self.spec_code(),
            0 < c < 32,
    {
        match self {
            SpecialOp::JSR => 0x01,
            SpecialOp::INT => 0x08,
            SpecialOp::IAG => 0x09,
            SpecialOp::IAS => 0x0a,
            SpecialOp::RFI => 0x0b,
            SpecialOp::IAQ => 0x0c,
            SpecialOp::HWN => 0x10,
            SpecialOp::HWQ => 0x11,
            SpecialOp::HWI => 0x12,
        }
    }

    #[verifier::when_used_as_spec(spec_from_code)]
    pub fn from_code(code: u16) -> (r: Option<SpecialOp>)
        ensures
            r == SpecialOp::spec_from_code(code),
    {
        if code == 0x01 {
            Some(SpecialOp::JSR)
        } else if code == 0x08 {
            Some(SpecialOp::INT)
        } else if code == 0x09 {
            Some(SpecialOp::IAG)
        } else if code == 0x0a {
            Some(SpecialOp::IAS)
        } else if code == 0x0b {
            Some(SpecialOp::RFI)
        } else if code == 0x0c {
            Some(SpecialOp::IAQ)
        } else if code == 0x10 {
            Some(SpecialOp::HWN)
        } else if code == 0x11 {
            Some(SpecialOp::HWQ)
        } else if code == 0x12 {
            Some(SpecialOp::HWI)
        } else {
            None
        }
    }

    /// The name of the opcode as it is written in assembly text.
    pub fn mnemonic(self) -> (s: &'static str)
        ensures
            s@ == self.spec_mnemonic(),
    {
        match self {
            SpecialOp::JSR => "JSR",
            SpecialOp::INT => "INT",
            SpecialOp::IAG => "IAG",
            SpecialOp::IAS => "IAS",
            SpecialOp::RFI => "RFI",
            SpecialOp::IAQ => "IAQ",
            SpecialOp::HWN => "HWN",
            SpecialOp::HWQ => "HWQ",
            SpecialOp::HWI => "HWI",
        }
    }

    /// The name of the opcode as it is written in assembly text.
    pub open spec fn spec_mnemonic(self) -> Seq<char> {
        match self {
            SpecialOp::JSR => "JSR"@,
            SpecialOp::INT => "INT"@,
            SpecialOp::IAG => "IAG"@,
            SpecialOp::IAS => "IAS"@,
            SpecialOp::RFI => "RFI"@,
            SpecialOp::IAQ => "IAQ"@,
            SpecialOp::HWN => "HWN"@,
            SpecialOp::HWQ => "HWQ"@,
            SpecialOp::HWI => "HWI"@,
        }
    }
}

/// Opcode numbers and opcodes correspond one to one.
pub proof fn lemma_opcode_numbers(b: BinaryOp, s: SpecialOp, code: u16)
    ensures
        0 < b.spec_code() < 32,
        0 < s.spec_code() < 32,
        BinaryOp::spec_from_code(b.spec_code()) == Some(b),
        SpecialOp::spec_from_code(s.spec_code()) == Some(s),
        BinaryOp::spec_from_code(code) matches Some(op) ==> op.spec_code() == code,
        SpecialOp::spec_from_code(code) matches Some(op) ==> op.spec_code() == code,
{
}

/// An instruction with its operands. For the two-operand forms the first
/// field is `b` (the destination) and the second is `a` (the source).
#[derive(Debug, PartialEq)]
pub enum Opcode {
    SET(Operand, Operand),
    ADD(Operand, Operand),
    SUB(Operand, Operand),
    MUL(Operand, Operand),
    MLI(Operand, Operand),
    DIV(Operand, Operand),
    DVI(Operand, Operand),
    MOD(Operand, Operand),
    MDI(Operand, Operand),
    AND(Operand, Operand),
    BOR(Operand, Operand),
    XOR(Operand, Operand),
    SHR(Operand, Operand),
    ASR(Operand, Operand),
    SHL(Operand, Operand),
    IFB(Operand, Operand),
    IFC(Operand, Operand),
    IFE(Operand, Operand),
    IFN(Operand, Operand),
    IFG(Operand, Operand),
    IFA(Operand, Operand),
    IFL(Operand, Operand),
    IFU(Operand, Operand),
    ADX(Operand, Operand),
    SBX(Operand, Operand),
    STI(Operand, Operand),
    STD(Operand, Operand),
    JSR(Operand),
    INT(Operand),
    IAG(Operand),
    IAS(Operand),
    RFI(Operand),
    IAQ(Operand),
    HWN(Operand),
    HWQ(Operand),
    HWI(Operand),
}

/// The mathematical value of an [`Opcode`]: which operation it is, and the
/// values of its operands.
pub enum OpcodeView {
    /// operation, `b`, `a`
    Binary(BinaryOp, OperandView, OperandView),
    /// operation, `a`
    Special(SpecialOp, OperandView),
}

impl OpcodeView {
    /// The `a` operand, which every instruction has.
    pub open spec fn a(self) -> OperandView {
        match self {
            OpcodeView::Binary(_, _, a) => a,
            OpcodeView::Special(_, a) => a,
        }
    }

    /// The `b` operand of a two-operand instruction.
    pub open spec fn b(self) -> Option<OperandView> {
        match self {
            OpcodeView::Binary(_, b, _) => Some(b),
            OpcodeView::Special(_, _) => None,
        }
    }

    /// The same operation on other operands: `a` is always replaced, `b`
    /// only where a new one is given; a one-operand instruction ignores
    /// `new_b`.
    pub open spec fn with_operands(self, new_b: Option<OperandView>, a: OperandView) -> OpcodeView {
        match self {
            OpcodeView::Binary(op, b, _) => OpcodeView::Binary(
                op,
                match new_b {
                    Some(nb) => nb,
                    None => b,
                },
                a,
            ),
            OpcodeView::Special(op, _) => OpcodeView::Special(op, a),
        }
    }

    /// True if no operand mentions a label.
    pub open spec fn label_free(self) -> bool {
        match self {
            OpcodeView::Binary(_, b, a) => !b.has_label() && !a.has_label(),
            OpcodeView::Special(_, a) => !a.has_label(),
        }
    }
}

/// An instruction taken apart: its operation and references to its
/// operands.
pub enum OpcodeParts<'a> {
    /// operation, `b`, `a`
    Binary(BinaryOp, &'a Operand, &'a Operand),
    /// operation, `a`
    Special(SpecialOp, &'a Operand),
}

impl View for Opcode {
    type V = OpcodeView;

    open spec fn view(&self) -> OpcodeView {
        match *self {
            Opcode::SET(b, a) => OpcodeView::Binary(BinaryOp::SET, b@, a@),
            Opcode::ADD(b, a) => OpcodeView::Binary(BinaryOp::ADD, b@, a@),
            Opcode::SUB(b, a) => OpcodeView::Binary(BinaryOp::SUB, b@, a@),
            Opcode::MUL(b, a) => OpcodeView::Binary(BinaryOp::MUL, b@, a@),
            Opcode::MLI(b, a) => OpcodeView::Binary(BinaryOp::MLI, b@, a@),
            Opcode::DIV(b, a) => OpcodeView::Binary(BinaryOp::DIV, b@, a@),
            Opcode::DVI(b, a) => OpcodeView::Binary(BinaryOp::DVI, b@, a@),
            Opcode::MOD(b, a) => OpcodeView::Binary(BinaryOp::MOD, b@, a@),
            Opcode::MDI(b, a) => OpcodeView::Binary(BinaryOp::MDI, b@, a@),
            Opcode::AND(b, a) => OpcodeView::Binary(BinaryOp::AND, b@, a@),
            Opcode::BOR(b, a) => OpcodeView::Binary(BinaryOp::BOR, b@, a@),
            Opcode::XOR(b, a) => OpcodeView::Binary(BinaryOp::XOR, b@, a@),
            Opcode::SHR(b, a) => OpcodeView::Binary(BinaryOp::SHR, b@, a@),
            Opcode::ASR(b, a) => OpcodeView::Binary(BinaryOp::ASR, b@, a@),
            Opcode::SHL(b, a) => OpcodeView::Binary(BinaryOp::SHL, b@, a@),
            Opcode::IFB(b, a) => OpcodeView::Binary(BinaryOp::IFB, b@, a@),
            Opcode::IFC(b, a) => OpcodeView::Binary(BinaryOp::IFC, b@, a@),
            Opcode::IFE(b, a) => OpcodeView::Binary(BinaryOp::IFE, b@, a@),
            Opcode::IFN(b, a) => OpcodeView::Binary(BinaryOp::IFN, b@, a@),
            Opcode::IFG(b, a) => OpcodeView::Binary(BinaryOp::IFG, b@, a@),
            Opcode::IFA(b, a) => OpcodeView::Binary(BinaryOp::IFA, b@, a@),
            Opcode::IFL(b, a) => OpcodeView::Binary(BinaryOp::IFL, b@, a@),
            Opcode::IFU(b, a) => OpcodeView::Binary(BinaryOp::IFU, b@, a@),
            Opcode::ADX(b, a) => OpcodeView::Binary(BinaryOp::ADX, b@, a@),
            Opcode::SBX(b, a) => OpcodeView::Binary(BinaryOp::SBX, b@, a@),
            Opcode::STI(b, a) => OpcodeView::Binary(BinaryOp::STI, b@, a@),
            Opcode::STD(b, a) => OpcodeView::Binary(BinaryOp::STD, b@, a@),
            Opcode::JSR(a) => OpcodeView::Special(SpecialOp::JSR, a@),
            Opcode::INT(a) => OpcodeView::Special(SpecialOp::INT, a@),
            Opcode::IAG(a) => OpcodeView::Special(SpecialOp::IAG, a@),
            Opcode::IAS(a) => OpcodeView::Special(SpecialOp::IAS, a@),
            Opcode::RFI(a) => OpcodeView::Special(SpecialOp::RFI, a@),
            Opcode::IAQ(a) => OpcodeView::Special(SpecialOp::IAQ, a@),
            Opcode::HWN(a) => OpcodeView::Special(SpecialOp::HWN, a@),
            Opcode::HWQ(a) => OpcodeView::Special(SpecialOp::HWQ, a@),
            Opcode::HWI(a) => OpcodeView::Special(SpecialOp::HWI, a@),
        }
    }
}

impl Clone for Opcode {
    fn clone(&self) -> (r: Self)
        ensures
            r == *self,
    {
        match self {
            Opcode::SET(b, a) => Opcode::SET(b.clone(), a.clone()),
            Opcode::ADD(b, a) => Opcode::ADD(b.clone(), a.clone()),
            Opcode::SUB(b, a) => Opcode::SUB(b.clone(), a.clone()),
            Opcode::MUL(b, a) => Opcode::MUL(b.clone(), a.clone()),
            Opcode::MLI(b, a) => Opcode::MLI(b.clone(), a.clone()),
            Opcode::DIV(b, a) => Opcode::DIV(b.clone(), a.clone()),
            Opcode::DVI(b, a) => Opcode::DVI(b.clone(), a.clone()),
            Opcode::MOD(b, a) => Opcode::MOD(b.clone(), a.clone()),
            Opcode::MDI(b, a) => Opcode::MDI(b.clone(), a.clone()),
            Opcode::AND(b, a) => Opcode::AND(b.clone(), a.clone()),
            Opcode::BOR(b, a) => Opcode::BOR(b.clone(), a.clone()),
            Opcode::XOR(b, a) => Opcode::XOR(b.clone(), a.clone()),
            Opcode::SHR(b, a) => Opcode::SHR(b.clone(), a.clone()),
            Opcode::ASR(b, a) => Opcode::ASR(b.clone(), a.clone()),
            Opcode::SHL(b, a) => Opcode::SHL(b.clone(), a.clone()),
            Opcode::IFB(b, a) => Opcode::IFB(b.clone(), a.clone()),
            Opcode::IFC(b, a) => Opcode::IFC(b.clone(), a.clone()),
            Opcode::IFE(b, a) => Opcode::IFE(b.clone(), a.clone()),
            Opcode::IFN(b, a) => Opcode::IFN(b.clone(), a.clone()),
            Opcode::IFG(b, a) => Opcode::IFG(b.clone(), a.clone()),
            Opcode::IFA(b, a) => Opcode::IFA(b.clone(), a.clone()),
            Opcode::IFL(b, a) => Opcode::IFL(b.clone(), a.clone()),
            Opcode::IFU(b, a) => Opcode::IFU(b.clone(), a.clone()),
            Opcode::ADX(b, a) => Opcode::ADX(b.clone(), a.clone()),
            Opcode::SBX(b, a) => Opcode::SBX(b.clone(), a.clone()),
            Opcode::STI(b, a) => Opcode::STI(b.clone(), a.clone()),
            Opcode::STD(b, a) => Opcode::STD(b.clone(), a.clone()),
            Opcode::JSR(a) => Opcode::JSR(a.clone()),
            Opcode::INT(a) => Opcode::INT(a.clone()),
            Opcode::IAG(a) => Opcode::IAG(a.clone()),
            Opcode::IAS(a) => Opcode::IAS(a.clone()),
            Opcode::RFI(a) => Opcode::RFI(a.clone()),
            Opcode::IAQ(a) => Opcode::IAQ(a.clone()),
            Opcode::HWN(a) => Opcode::HWN(a.clone()),
            Opcode::HWQ(a) => Opcode::HWQ(a.clone()),
            Opcode::HWI(a) => Opcode::HWI(a.clone()),
        }
    }
}

impl Opcode {
    /// Builds the two-operand instruction `op b, a`.
    pub fn binary(op: BinaryOp, b: Operand, a: Operand) -> (r: Opcode)
        ensures
            r@ == OpcodeView::Binary(op, b@, a@),
    {
        match op {
            BinaryOp::SET => Opcode::SET(b, a),
            BinaryOp::ADD => Opcode::ADD(b, a),
            BinaryOp::SUB => Opcode::SUB(b, a),
            BinaryOp::MUL => Opcode::MUL(b, a),
            BinaryOp::MLI => Opcode::MLI(b, a),
            BinaryOp::DIV => Opcode::DIV(b, a),
            BinaryOp::DVI => Opcode::DVI(b, a),
            BinaryOp::MOD => Opcode::MOD(b, a),
            BinaryOp::MDI => Opcode::MDI(b, a),
            BinaryOp::AND => Opcode::AND(b, a),
            BinaryOp::BOR => Opcode::BOR(b, a),
            BinaryOp::XOR => Opcode::XOR(b, a),
            BinaryOp::SHR => Opcode::SHR(b, a),
            BinaryOp::ASR => Opcode::ASR(b, a),
            BinaryOp::SHL => Opcode::SHL(b, a),
            BinaryOp::IFB => Opcode::IFB(b, a),
            BinaryOp::IFC => Opcode::IFC(b, a),
            BinaryOp::IFE => Opcode::IFE(b, a),
            BinaryOp::IFN => Opcode::IFN(b, a),
            BinaryOp::IFG => Opcode::IFG(b, a),
            BinaryOp::IFA => Opcode::IFA(b, a),
            BinaryOp::IFL => Opcode::IFL(b, a),
            BinaryOp::IFU => Opcode::IFU(b, a),
            BinaryOp::ADX => Opcode::ADX(b, a),
            BinaryOp::SBX => Opcode::SBX(b, a),
            BinaryOp::STI => Opcode::STI(b, a),
            BinaryOp::STD => Opcode::STD(b, a),
        }
    }

    /// Builds the one-operand instruction `op a`.
    pub fn special(op: SpecialOp, a: Operand) -> (r: Opcode)
        ensures
            r@ == OpcodeView::Special(op, a@),
    {
        match op {
            SpecialOp::JSR => Opcode::JSR(a),
            SpecialOp::INT => Opcode::INT(a),
            SpecialOp::IAG => Opcode::IAG(a),
            SpecialOp::IAS => Opcode::IAS(a),
            SpecialOp::RFI => Opcode::RFI(a),
            SpecialOp::IAQ => Opcode::IAQ(a),
            SpecialOp::HWN => Opcode::HWN(a),
            SpecialOp::HWQ => Opcode::HWQ(a),
            SpecialOp::HWI => Opcode::HWI(a),
        }
    }

    /// The operation of the instruction and its operands.
    pub fn parts(&self) -> (p: OpcodeParts<'_>)
        ensures
            match p {
                OpcodeParts::Binary(op, b, a) => self@ == OpcodeView::Binary(op, b@, a@),
                OpcodeParts::Special(op, a) => self@ == OpcodeView::Special(op, a@),
            },
    {
        match self {
            Opcode::SET(b, a) => OpcodeParts::Binary(BinaryOp::SET, b, a),
            Opcode::ADD(b, a) => OpcodeParts::Binary(BinaryOp::ADD, b, a),
            Opcode::SUB(b, a) => OpcodeParts::Binary(BinaryOp::SUB, b, a),
            Opcode::MUL(b, a) => OpcodeParts::Binary(BinaryOp::MUL, b, a),
            Opcode::MLI(b, a) => OpcodeParts::Binary(BinaryOp::MLI, b, a),
            Opcode::DIV(b, a) => OpcodeParts::Binary(BinaryOp::DIV, b, a),
            Opcode::DVI(b, a) => OpcodeParts::Binary(BinaryOp::DVI, b, a),
            Opcode::MOD(b, a) => OpcodeParts::Binary(BinaryOp::MOD, b, a),
            Opcode::MDI(b, a) => OpcodeParts::Binary(BinaryOp::MDI, b, a),
            Opcode::AND(b, a) => OpcodeParts::Binary(BinaryOp::AND, b, a),
            Opcode::BOR(b, a) => OpcodeParts::Binary(BinaryOp::BOR, b, a),
            Opcode::XOR(b, a) => OpcodeParts::Binary(BinaryOp::XOR, b, a),
            Opcode::SHR(b, a) => OpcodeParts::Binary(BinaryOp::SHR, b, a),
            Opcode::ASR(b, a) => OpcodeParts::Binary(BinaryOp::ASR, b, a),
            Opcode::SHL(b, a) => OpcodeParts::Binary(BinaryOp::SHL, b, a),
            Opcode::IFB(b, a) => OpcodeParts::Binary(BinaryOp::IFB, b, a),
            Opcode::IFC(b, a) => OpcodeParts::Binary(BinaryOp::IFC, b, a),
            Opcode::IFE(b, a) => OpcodeParts::Binary(BinaryOp::IFE, b, a),
            Opcode::IFN(b, a) => OpcodeParts::Binary(BinaryOp::IFN, b, a),
            Opcode::IFG(b, a) => OpcodeParts::Binary(BinaryOp::IFG, b, a),
            Opcode::IFA(b, a) => OpcodeParts::Binary(BinaryOp::IFA, b, a),
            Opcode::IFL(b, a) => OpcodeParts::Binary(BinaryOp::IFL, b, a),
            Opcode::IFU(b, a) => OpcodeParts::Binary(BinaryOp::IFU, b, a),
            Opcode::ADX(b, a) => OpcodeParts::Binary(BinaryOp::ADX, b, a),
            Opcode::SBX(b, a) => OpcodeParts::Binary(BinaryOp::SBX, b, a),
            Opcode::STI(b, a) => OpcodeParts::Binary(BinaryOp::STI, b, a),
            Opcode::STD(b, a) => OpcodeParts::Binary(BinaryOp::STD, b, a),
            Opcode::JSR(a) => OpcodeParts::Special(SpecialOp::JSR, a),
            Opcode::INT(a) => OpcodeParts::Special(SpecialOp::INT, a),
            Opcode::IAG(a) => OpcodeParts::Special(SpecialOp::IAG, a),
            Opcode::IAS(a) => OpcodeParts::Special(SpecialOp::IAS, a),
            Opcode::RFI(a) => OpcodeParts::Special(SpecialOp::RFI, a),
            Opcode::IAQ(a) => OpcodeParts::Special(SpecialOp::IAQ, a),
            Opcode::HWN(a) => OpcodeParts::Special(SpecialOp::HWN, a),
            Opcode::HWQ(a) => OpcodeParts::Special(SpecialOp::HWQ, a),
            Opcode::HWI(a) => OpcodeParts::Special(SpecialOp::HWI, a),
        }
    }

    /// The operation of a two-operand instruction.
    pub fn binary_op(&self) -> (r: Option<BinaryOp>)
        ensures
            r == match self@ {
                OpcodeView::Binary(op, _, _) => Some(op),
                OpcodeView::Special(_, _) => None,
            },
    {
        match self {
            Opcode::SET(_, _) => Some(BinaryOp::SET),
            Opcode::ADD(_, _) => Some(BinaryOp::ADD),
            Opcode::SUB(_, _) => Some(BinaryOp::SUB),
            Opcode::MUL(_, _) => Some(BinaryOp::MUL),
            Opcode::MLI(_, _) => Some(BinaryOp::MLI),
            Opcode::DIV(_, _) => Some(BinaryOp::DIV),
            Opcode::DVI(_, _) => Some(BinaryOp::DVI),
            Opcode::MOD(_, _) => Some(BinaryOp::MOD),
            Opcode::MDI(_, _) => Some(BinaryOp::MDI),
            Opcode::AND(_, _) => Some(BinaryOp::AND),
            Opcode::BOR(_, _) => Some(BinaryOp::BOR),
            Opcode::XOR(_, _) => Some(BinaryOp::XOR),
            Opcode::SHR(_, _) => Some(BinaryOp::SHR),
            Opcode::ASR(_, _) => Some(BinaryOp::ASR),
            Opcode::SHL(_, _) => Some(BinaryOp::SHL),
            Opcode::IFB(_, _) => Some(BinaryOp::IFB),
            Opcode::IFC(_, _) => Some(BinaryOp::IFC),
            Opcode::IFE(_, _) => Some(BinaryOp::IFE),
            Opcode::IFN(_, _) => Some(BinaryOp::IFN),
            Opcode::IFG(_, _) => Some(BinaryOp::IFG),
            Opcode::IFA(_, _) => Some(BinaryOp::IFA),
            Opcode::IFL(_, _) => Some(BinaryOp::IFL),
            Opcode::IFU(_, _) => Some(BinaryOp::IFU),
            Opcode::ADX(_, _) => Some(BinaryOp::ADX),
            Opcode::SBX(_, _) => Some(BinaryOp::SBX),
            Opcode::STI(_, _) => Some(BinaryOp::STI),
            Opcode::STD(_, _) => Some(BinaryOp::STD),
            _ => None,
        }
    }

    /// The operation of a one-operand instruction.
    pub fn special_op(&self) -> (r: Option<SpecialOp>)
        ensures
            r == match self@ {
                OpcodeView::Binary(_, _, _) => None,
                OpcodeView::Special(op, _) => Some(op),
            },
    {
        match self {
            Opcode::JSR(_) => Some(SpecialOp::JSR),
            Opcode::INT(_) => Some(SpecialOp::INT),
            Opcode::IAG(_) => Some(SpecialOp::IAG),
            Opcode::IAS(_) => Some(SpecialOp::IAS),
            Opcode::RFI(_) => Some(SpecialOp::RFI),
            Opcode::IAQ(_) => Some(SpecialOp::IAQ),
            Opcode::HWN(_) => Some(SpecialOp::HWN),
            Opcode::HWQ(_) => Some(SpecialOp::HWQ),
            Opcode::HWI(_) => Some(SpecialOp::HWI),
            _ => None,
        }
    }

    /// A new instruction with the same operation: `a` replaces the `a`
    /// operand, and `new_b`, where given, the `b` operand.
    pub fn set_operands(&self, new_b: Option<Operand>, a: Operand) -> (r: Self)
        ensures
            r@ == self@.with_operands(
                match new_b {
                    Some(nb) => Some(nb@),
                    None => None,
                },
                a@,
            ),
    {
        match self {
            Opcode::SET(b, _) => Opcode::SET(
                match new_b {
                    Some(nb) => nb,
                    None => b.clone(),
                },
                a,
            ),
            Opcode::ADD(b, _) => Opcode::ADD(
                match new_b {
                    Some(nb) => nb,
                    None => b.clone(),
                },
                a,
            ),
            Opcode::SUB(b, _) => Opcode::SUB(
                match new_b {
                    Some(nb) => nb,
                    None => b.clone(),
                },
                a,
            ),
            Opcode::MUL(b, _) => Opcode::MUL(
                match new_b {
                    Some(nb) => nb,
                    None => b.clone(),
                },
                a,
            ),
            Opcode::MLI(b, _) => Opcode::MLI(
                match new_b {
                    Some(nb) => nb,
                    None => b.clone(),
                },
                a,
            ),
            Opcode::DIV(b, _) => Opcode::DIV(
                match new_b {
                    Some(nb) => nb,
                    None => b.clone(),
                },
                a,
            ),
            Opcode::DVI(b, _) => Opcode::DVI(
                match new_b {
                    Some(nb) => nb,
                    None => b.clone(),
                },
                a,
            ),
            Opcode::MOD(b, _) => Opcode::MOD(
                match new_b {
                    Some(nb) => nb,
                    None => b.clone(),
                },
                a,
            ),
            Opcode::MDI(b, _) => Opcode::MDI(
                match new_b {
                    Some(nb) => nb,
                    None => b.clone(),
                },
                a,
            ),
            Opcode::AND(b, _) => Opcode::AND(
                match new_b {
                    Some(nb) => nb,
                    None => b.clone(),
                },
                a,
            ),
            Opcode::BOR(b, _) => Opcode::BOR(
                match new_b {
                    Some(nb) => nb,
                    None => b.clone(),
                },
                a,
            ),
            Opcode::XOR(b, _) => Opcode::XOR(
                match new_b {
                    Some(nb) => nb,
                    None => b.clone(),
                },
                a,
            ),
            Opcode::SHR(b, _) => Opcode::SHR(
                match new_b {
                    Some(nb) => nb,
                    None => b.clone(),
                },
                a,
            ),
            Opcode::ASR(b, _) => Opcode::ASR(
                match new_b {
                    Some(nb) => nb,
                    None => b.clone(),
                },
                a,
            ),
            Opcode::SHL(b, _) => Opcode::SHL(
                match new_b {
                    Some(nb) => nb,
                    None => b.clone(),
                },
                a,
            ),
            Opcode::IFB(b, _) => Opcode::IFB(
                match new_b {
                    Some(nb) => nb,
                    None => b.clone(),
                },
                a,
            ),
            Opcode::IFC(b, _) => Opcode::IFC(
                match new_b {
                    Some(nb) => nb,
                    None => b.clone(),
                },
                a,
            ),
            Opcode::IFE(b, _) => Opcode::IFE(
                match new_b {
                    Some(nb) => nb,
                    None => b.clone(),
                },
                a,
            ),
            Opcode::IFN(b, _) => Opcode::IFN(
                match new_b {
                    Some(nb) => nb,
                    None => b.clone(),
                },
                a,
            ),
            Opcode::IFG(b, _) => Opcode::IFG(
                match new_b {
                    Some(nb) => nb,
                    None => b.clone(),
                },
                a,
            ),
            Opcode::IFA(b, _) => Opcode::IFA(
                match new_b {
                    Some(nb) => nb,
                    None => b.clone(),
                },
                a,
            ),
            Opcode::IFL(b, _) => Opcode::IFL(
                match new_b {
                    Some(nb) => nb,
                    None => b.clone(),
                },
                a,
            ),
            Opcode::IFU(b, _) => Opcode::IFU(
                match new_b {
                    Some(nb) => nb,
                    None => b.clone(),
                },
                a,
            ),
            Opcode::ADX(b, _) => Opcode::ADX(
                match new_b {
                    Some(nb) => nb,
                    None => b.clone(),
                },
                a,
            ),
            Opcode::SBX(b, _) => Opcode::SBX(
                match new_b {
                    Some(nb) => nb,
                    None => b.clone(),
                },
                a,
            ),
            Opcode::STI(b, _) => Opcode::STI(
                match new_b {
                    Some(nb) => nb,
                    None => b.clone(),
                },
                a,
            ),
            Opcode::STD(b, _) => Opcode::STD(
                match new_b {
                    Some(nb) => nb,
                    None => b.clone(),
                },
                a,
            ),
            Opcode::JSR(_) => Opcode::JSR(a),
            Opcode::INT(_) => Opcode::INT(a),
            Opcode::IAG(_) => Opcode::IAG(a),
            Opcode::IAS(_) => Opcode::IAS(a),
            Opcode::RFI(_) => Opcode::RFI(a),
            Opcode::IAQ(_) => Opcode::IAQ(a),
            Opcode::HWN(_) => Opcode::HWN(a),
            Opcode::HWQ(_) => Opcode::HWQ(a),
            Opcode::HWI(_) => Opcode::HWI(a),
        }
    }

    /// 2 for the two-operand instructions, 1 for the others.
    pub fn num_operands(&self) -> (n: usize)
        ensures
            n == (if self@ is Binary {
                2int
            } else {
                1int
            }),
    {
        match self {
            Opcode::SET(_, _)
            | Opcode::ADD(_, _)
            | Opcode::SUB(_, _)
            | Opcode::MUL(_, _)
            | Opcode::MLI(_, _)
            | Opcode::DIV(_, _)
            | Opcode::DVI(_, _)
            | Opcode::MOD(_, _)
            | Opcode::MDI(_, _)
            | Opcode::AND(_, _)
            | Opcode::BOR(_, _)
            | Opcode::XOR(_, _)
            | Opcode::SHR(_, _)
            | Opcode::ASR(_, _)
            | Opcode::SHL(_, _)
            | Opcode::IFB(_, _)
            | Opcode::IFC(_, _)
            | Opcode::IFE(_, _)
            | Opcode::IFN(_, _)
            | Opcode::IFG(_, _)
            | Opcode::IFA(_, _)
            | Opcode::IFL(_, _)
            | Opcode::IFU(_, _)
            | Opcode::ADX(_, _)
            | Opcode::SBX(_, _)
            | Opcode::STI(_, _)
            | Opcode::STD(_, _) => 2,
            Opcode::JSR(_)
            | Opcode::INT(_)
            | Opcode::IAG(_)
            | Opcode::IAS(_)
            | Opcode::RFI(_)
            | Opcode::IAQ(_)
            | Opcode::HWN(_)
            | Opcode::HWQ(_)
            | Opcode::HWI(_) => 1,
        }
    }

    /// References to operand `a` and, where the instruction has one, to
    /// operand `b`.
    pub fn get_operands(&self) -> (r: (&Operand, Option<&Operand>))
        ensures
            r.0@ == self@.a(),
            match r.1 {
                Some(b) => self@.b() == Some(b@),
                None => self@.b() is None,
            },
    {
        match self {
            Opcode::SET(b, a) => (a, Some(b)),
            Opcode::ADD(b, a) => (a, Some(b)),
            Opcode::SUB(b, a) => (a, Some(b)),
            Opcode::MUL(b, a) => (a, Some(b)),
            Opcode::MLI(b, a) => (a, Some(b)),
            Opcode::DIV(b, a) => (a, Some(b)),
            Opcode::DVI(b, a) => (a, Some(b)),
            Opcode::MOD(b, a) => (a, Some(b)),
            Opcode::MDI(b, a) => (a, Some(b)),
            Opcode::AND(b, a) => (a, Some(b)),
            Opcode::BOR(b, a) => (a, Some(b)),
            Opcode::XOR(b, a) => (a, Some(b)),
            Opcode::SHR(b, a) => (a, Some(b)),
            Opcode::ASR(b, a) => (a, Some(b)),
            Opcode::SHL(b, a) => (a, Some(b)),
            Opcode::IFB(b, a) => (a, Some(b)),
            Opcode::IFC(b, a) => (a, Some(b)),
            Opcode::IFE(b, a) => (a, Some(b)),
            Opcode::IFN(b, a) => (a, Some(b)),
            Opcode::IFG(b, a) => (a, Some(b)),
            Opcode::IFA(b, a) => (a, Some(b)),
            Opcode::IFL(b, a) => (a, Some(b)),
            Opcode::IFU(b, a) => (a, Some(b)),
            Opcode::ADX(b, a) => (a, Some(b)),
            Opcode::SBX(b, a) => (a, Some(b)),
            Opcode::STI(b, a) => (a, Some(b)),
            Opcode::STD(b, a) => (a, Some(b)),
            Opcode::JSR(a) => (a, None),
            Opcode::INT(a) => (a, None),
            Opcode::IAG(a) => (a, None),
            Opcode::IAS(a) => (a, None),
            Opcode::RFI(a) => (a, None),
            Opcode::IAQ(a) => (a, None),
            Opcode::HWN(a) => (a, None),
            Opcode::HWQ(a) => (a, None),
            Opcode::HWI(a) => (a, None),
        }
    }
}

} // verus!
