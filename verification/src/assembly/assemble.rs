//! The encoder: from the instruction tree to instruction words.

use crate::disassemble::{decode, decode_operand, field_a, field_b, field_op, word_at};
use crate::opcodes::{
    lemma_opcode_numbers, lemma_register_index_roundtrip, BinaryOp, Opcode, OpcodeParts,
    OpcodeView, Operand, OperandView, Register, SpecialOp,
};
use crate::result::DcpuErrorKind;
use vstd::prelude::*;

verus! {

/// Why an instruction has no encoding.
#[derive(Debug, PartialEq)]
pub enum AssemblyError {
    /// `PUSH` stands as operand `a`.
    PushInAOp,
    /// `POP` stands as operand `b`.
    PopInBOp,
    /// An operand still mentions the label of this name.
    CannotAssembleLabels(String),
}

/// The mathematical value of an [`AssemblyError`].
pub enum AssemblyErrorView {
    PushInAOp,
    PopInBOp,
    CannotAssembleLabels(Seq<char>),
}

impl View for AssemblyError {
    type V = AssemblyErrorView;

    open spec fn view(&self) -> AssemblyErrorView {
        match *self {
            AssemblyError::PushInAOp => AssemblyErrorView::PushInAOp,
            AssemblyError::PopInBOp => AssemblyErrorView::PopInBOp,
            AssemblyError::CannotAssembleLabels(s) => AssemblyErrorView::CannotAssembleLabels(s@),
        }
    }
}

impl Clone for AssemblyError {
    fn clone(&self) -> (r: Self)
        ensures
            r == *self,
    {
        match self {
            AssemblyError::PushInAOp => AssemblyError::PushInAOp,
            AssemblyError::PopInBOp => AssemblyError::PopInBOp,
            AssemblyError::CannotAssembleLabels(s) => AssemblyError::CannotAssembleLabels(
                s.clone(),
            ),
        }
    }
}

/// True for the literals that fit into the operand code itself: -1 (the
/// word 0xffff) and 0 to 30.
pub open spec fn spec_is_short_literal(n: u16) -> bool {
    n == 0xffff || n <= 30
}

/// The operand code of an inline literal: 0x20 for -1, 0x21 + n for n from
/// 0 to 30.
pub open spec fn spec_to_short_literal(n: u16) -> u16 {
    if n == 0xffff {
        0x20
    } else if n <= 0xffde {
        (n + 0x21) as u16
    } else {
        (n + 0x21 - 0x10000) as u16
    }
}

/// The code of an operand in position `a` (six bits) or `b` (five bits),
/// and the word that follows the instruction for it, if any. `PUSH` has a
/// code only as `b`, `POP` only as `a`; a literal is inline only as `a`;
/// an operand with a label has none and fails with the name of its first
/// label.
pub open spec fn operand_code(is_a: bool, op: OperandView) -> Result<
    (u16, Option<u16>),
    AssemblyErrorView,
> {
    match op {
        OperandView::Register(r) => Ok((r.spec_index() as u16, None)),
        OperandView::RegisterDeref(r) => Ok(((r.spec_index() + 0x08) as u16, None)),
        OperandView::RegisterPlusDeref(r, n) => Ok(((r.spec_index() + 0x10) as u16, Some(n))),
        OperandView::Pop => if is_a {
            Ok((0x18, None))
        } else {
            Err(AssemblyErrorView::PopInBOp)
        },
        OperandView::Push => if !is_a {
            Ok((0x18, None))
        } else {
            Err(AssemblyErrorView::PushInAOp)
        },
        OperandView::Peek => Ok((0x19, None)),
        OperandView::Pick(n) => Ok((0x1a, Some(n))),
        OperandView::Sp => Ok((0x1b, None)),
        OperandView::Pc => Ok((0x1c, None)),
        OperandView::Ex => Ok((0x1d, None)),
        OperandView::LiteralDeref(n) => Ok((0x1e, Some(n))),
        OperandView::Literal(n) => if is_a && spec_is_short_literal(n) {
            Ok((spec_to_short_literal(n), None))
        } else {
            Ok((0x1f, Some(n)))
        },
        OperandView::RegisterPlusLabelDeref(_, s) => Err(
            AssemblyErrorView::CannotAssembleLabels(s),
        ),
        OperandView::Label(s) => Err(AssemblyErrorView::CannotAssembleLabels(s)),
        OperandView::LabelDeref(s) => Err(AssemblyErrorView::CannotAssembleLabels(s)),
        OperandView::LabelPlusDeref(s, _) => Err(AssemblyErrorView::CannotAssembleLabels(s)),
        OperandView::LabelPlusLabelDeref(s, _) => Err(AssemblyErrorView::CannotAssembleLabels(s)),
    }
}

/// The bits that an operand contributes to the instruction word: its code,
/// moved to bit 10 for `a` and to bit 5 for `b`.
pub open spec fn operand_mask(is_a: bool, code: u16) -> u16 {
    if is_a {
        code << 10u16
    } else {
        code << 5u16
    }
}

/// A sequence of no word or one.
pub open spec fn optional_word(w: Option<u16>) -> Seq<u16> {
    match w {
        Some(x) => seq![x],
        None => Seq::empty(),
    }
}

/// The words of a two-operand instruction with opcode number `opcode`:
/// the instruction word, then the word of operand `a`, then that of operand
/// `b`. An error of operand `a` comes before one of operand `b`.
pub open spec fn encode_binary(opcode: u16, b: OperandView, a: OperandView) -> Result<
    Seq<u16>,
    AssemblyErrorView,
> {
    match operand_code(true, a) {
        Err(e) => Err(e),
        Ok((ca, wa)) => match operand_code(false, b) {
            Err(e) => Err(e),
            Ok((cb, wb)) => Ok(
                seq![(opcode & 0x1f) | operand_mask(true, ca) | operand_mask(false, cb)]
                    + optional_word(wa) + optional_word(wb),
            ),
        },
    }
}

/// The words of a one-operand instruction with opcode number `opcode`: the
/// instruction word, which holds the number in bits 5 to 9 and zero in the
/// low five bits, then the word of the operand.
pub open spec fn encode_special(opcode: u16, a: OperandView) -> Result<
    Seq<u16>,
    AssemblyErrorView,
> {
    match operand_code(true, a) {
        Err(e) => Err(e),
        Ok((ca, wa)) => Ok(
            seq![((opcode & 0x1f) << 5u16) | operand_mask(true, ca)] + optional_word(wa),
        ),
    }
}

/// The one to three words that stand for an instruction.
pub open spec fn encode(op: OpcodeView) -> Result<Seq<u16>, AssemblyErrorView> {
    match op {
        OpcodeView::Binary(o, b, a) => encode_binary(o.spec_code(), b, a),
        OpcodeView::Special(o, a) => encode_special(o.spec_code(), a),
    }
}

pub fn is_short_literal(n: u16) -> (r: bool)
    ensures
        r == spec_is_short_literal(n),
{
    n == 0xffff || n <= 30
}

pub fn to_short_literal(n: u16) -> (c: u16)
    ensures
        c == spec_to_short_literal(n),
{
    if n == 0xffff {
        0x20
    } else if n <= 0xffde {
        n + 0x21
    } else {
        n - 0xffdf
    }
}

/// Encodes one operand for position `a` or `b`: its bits in the
/// instruction word, and the word that follows the instruction for it.
pub fn build_operand(is_a: bool, op: &Operand) -> (r: Result<(u16, Option<u16>), AssemblyError>)
    ensures
        match r {
            Ok((mask, next)) => match operand_code(is_a, op@) {
                Ok((code, w)) => mask == operand_mask(is_a, code) && next == w,
                Err(_) => false,
            },
            Err(e) => operand_code(is_a, op@) == Err::<(u16, Option<u16>), AssemblyErrorView>(e@),
        },
{
    let shift: u16 = if is_a {
        10
    } else {
        5
    };
    match op {
        Operand::Register(reg) => Ok(((reg.index() as u16) << shift, None)),
        Operand::RegisterDeref(reg) => Ok(((reg.index() as u16 + 0x08) << shift, None)),
        Operand::RegisterPlusDeref(reg, lit) => Ok(
            ((reg.index() as u16 + 0x10) << shift, Some(*lit)),
        ),
        Operand::Pop => {
            if is_a {
                Ok((0x18u16 << shift, None))
            } else {
                Err(AssemblyError::PopInBOp)
            }
        },
        Operand::Push => {
            if !is_a {
                Ok((0x18u16 << shift, None))
            } else {
                Err(AssemblyError::PushInAOp)
            }
        },
        Operand::Peek => Ok((0x19u16 << shift, None)),
        Operand::Pick(n) => Ok((0x1au16 << shift, Some(*n))),
        Operand::Sp => Ok((0x1bu16 << shift, None)),
        Operand::Pc => Ok((0x1cu16 << shift, None)),
        Operand::Ex => Ok((0x1du16 << shift, None)),
        Operand::LiteralDeref(lit) => Ok((0x1eu16 << shift, Some(*lit))),
        Operand::Literal(lit) => {
            if is_a && is_short_literal(*lit) {
                Ok((to_short_literal(*lit) << shift, None))
            } else {
                Ok((0x1fu16 << shift, Some(*lit)))
            }
        },
        Operand::RegisterPlusLabelDeref(_, s) => Err(AssemblyError::CannotAssembleLabels(s.clone())),
        Operand::Label(s) => Err(AssemblyError::CannotAssembleLabels(s.clone())),
        Operand::LabelDeref(s) => Err(AssemblyError::CannotAssembleLabels(s.clone())),
        Operand::LabelPlusDeref(s, _) => Err(AssemblyError::CannotAssembleLabels(s.clone())),
        Operand::LabelPlusLabelDeref(s1, _) => Err(AssemblyError::CannotAssembleLabels(s1.clone())),
    }
}

/// Encodes the two-operand instruction with opcode number `opcode`.
pub fn build_op(opcode: u16, b: &Operand, a: &Operand) -> (r: Result<Vec<u16>, AssemblyError>)
    ensures
        match r {
            Ok(w) => encode_binary(opcode, b@, a@) == Ok::<Seq<u16>, AssemblyErrorView>(w@),
            Err(e) => encode_binary(opcode, b@, a@) == Err::<Seq<u16>, AssemblyErrorView>(e@),
        },
{
    let mut op: u16 = opcode & 0x1f;
    let mut ret: Vec<u16> = Vec::new();
    ret.push(0);
    match build_operand(true, a) {
        Ok((mask, next)) => {
            op = op | mask;
            match next {
                Some(lit) => {
                    ret.push(lit);
                },
                None => {},
            }
        },
        Err(err) => {
            return Err(err);
        },
    }
    match build_operand(false, b) {
        Ok((mask, next)) => {
            op = op | mask;
            match next {
                Some(lit) => {
                    ret.push(lit);
                },
                None => {},
            }
        },
        Err(err) => {
            return Err(err);
        },
    }
    ret[0] = op;
    proof {
        match (operand_code(true, a@), operand_code(false, b@)) {
            (Ok((ca, wa)), Ok((cb, wb))) => {
                assert(ret@ =~= seq![op] + optional_word(wa) + optional_word(wb));
            },
            _ => {},
        }
    }
    Ok(ret)
}

/// Encodes the one-operand instruction with opcode number `opcode`.
pub fn build_special_op(opcode: u16, a: &Operand) -> (r: Result<Vec<u16>, AssemblyError>)
    ensures
        match r {
            Ok(w) => encode_special(opcode, a@) == Ok::<Seq<u16>, AssemblyErrorView>(w@),
            Err(e) => encode_special(opcode, a@) == Err::<Seq<u16>, AssemblyErrorView>(e@),
        },
{
    let mut op: u16 = (opcode & 0x1f) << 5;
    let mut ret: Vec<u16> = Vec::new();
    ret.push(0);
    match build_operand(true, a) {
        Ok((mask, next)) => {
            op = op | mask;
            match next {
                Some(lit) => {
                    ret.push(lit);
                },
                None => {},
            }
        },
        Err(err) => {
            return Err(err);
        },
    }
    ret[0] = op;
    proof {
        match operand_code(true, a@) {
            Ok((ca, wa)) => {
                assert(ret@ =~= seq![op] + optional_word(wa));
            },
            _ => {},
        }
    }
    Ok(ret)
}

/// What can be turned into instruction words.
pub trait Assemble {
    /// The words that stand for the value, or why it has none. A type says
    /// here what `assemble` returns.
    open spec fn encoding(&self) -> Result<Seq<u16>, AssemblyErrorView> {
        arbitrary()
    }

    fn assemble(&self) -> (r: Result<Vec<u16>, AssemblyError>)
        ensures
            match r {
                Ok(w) => self.encoding() == Ok::<Seq<u16>, AssemblyErrorView>(w@),
                Err(e) => self.encoding() == Err::<Seq<u16>, AssemblyErrorView>(e@),
            },
    ;
}

impl Assemble for Opcode {
    open spec fn encoding(&self) -> Result<Seq<u16>, AssemblyErrorView> {
        encode(self@)
    }

    /// The instruction word, followed by the word of operand `a` and then
    /// that of operand `b`, where they have one.
    fn assemble(&self) -> (r: Result<Vec<u16>, AssemblyError>) {
        match self.parts() {
            OpcodeParts::Binary(op, b, a) => build_op(op.code(), b, a),
            OpcodeParts::Special(op, a) => build_special_op(op.code(), a),
        }
    }
}

/// An operand code fits its field, and decoding it, with the operand's word
/// as the next word of the stream, gives the operand back.
pub proof fn lemma_operand_roundtrip(is_a: bool, x: OperandView, next: Option<u16>)
    requires
        operand_code(is_a, x) is Ok,
        operand_code(is_a, x)->Ok_0.1 is Some ==> next == operand_code(is_a, x)->Ok_0.1,
    ensures
        operand_code(is_a, x)->Ok_0.0 < (if is_a {
            64int
        } else {
            32int
        }),
        decode_operand(is_a, operand_code(is_a, x)->Ok_0.0, next) == Ok::<
            (OperandView, bool),
            DcpuErrorKind,
        >((x, operand_code(is_a, x)->Ok_0.1 is Some)),
{
    match x {
        OperandView::Register(r) => {
            lemma_register_index_roundtrip(r);
        },
        OperandView::RegisterDeref(r) => {
            lemma_register_index_roundtrip(r);
        },
        OperandView::RegisterPlusDeref(r, _) => {
            lemma_register_index_roundtrip(r);
        },
        _ => {},
    }
}

/// The three fields of a packed instruction word can be read back.
pub proof fn lemma_pack_fields(opcode: u16, ca: u16, cb: u16)
    requires
        opcode < 32,
        ca < 64,
        cb < 32,
    ensures
        field_op(opcode | operand_mask(true, ca) | operand_mask(false, cb)) == opcode,
        field_a(opcode | operand_mask(true, ca) | operand_mask(false, cb)) == ca,
        field_b(opcode | operand_mask(true, ca) | operand_mask(false, cb)) == cb,
        field_op((opcode << 5u16) | operand_mask(true, ca)) == 0,
        field_a((opcode << 5u16) | operand_mask(true, ca)) == ca,
        field_b((opcode << 5u16) | operand_mask(true, ca)) == opcode,
        opcode & 0x1f == opcode,
{
    assert((opcode | (ca << 10u16) | (cb << 5u16)) & 0x001f == opcode) by (bit_vector)
        requires
            opcode < 32,
            ca < 64,
            cb < 32,
    ;
    assert(((opcode | (ca << 10u16) | (cb << 5u16)) & 0xfc00) >> 10 == ca) by (bit_vector)
        requires
            opcode < 32,
            ca < 64,
            cb < 32,
    ;
    assert(((opcode | (ca << 10u16) | (cb << 5u16)) & 0x03e0) >> 5 == cb) by (bit_vector)
        requires
            opcode < 32,
            ca < 64,
            cb < 32,
    ;
    assert(((opcode << 5u16) | (ca << 10u16)) & 0x001f == 0) by (bit_vector)
        requires
            opcode < 32,
            ca < 64,
    ;
    assert((((opcode << 5u16) | (ca << 10u16)) & 0xfc00) >> 10 == ca) by (bit_vector)
        requires
            opcode < 32,
            ca < 64,
    ;
    assert((((opcode << 5u16) | (ca << 10u16)) & 0x03e0) >> 5 == opcode) by (bit_vector)
        requires
            opcode < 32,
            ca < 64,
    ;
    assert(opcode & 0x1f == opcode) by (bit_vector)
        requires
            opcode < 32,
    ;
}

/// Decoding what the encoder wrote gives the instruction back.
///
/// For every instruction that has an encoding, and whatever words follow
/// it in the stream: the encoding has one to three words, and decoding the
/// stream from its first word yields the same instruction and takes
/// exactly the words of the encoding. A literal that was written inline
/// comes back as the same literal.
pub proof fn lemma_encode_decode(op: OpcodeView, rest: Seq<u16>)
    requires
        encode(op) is Ok,
    ensures
        1 <= encode(op)->Ok_0.len() <= 3,
        op.label_free(),
        decode(
            (encode(op)->Ok_0 + rest)[0],
            word_at(encode(op)->Ok_0 + rest, 1),
            word_at(encode(op)->Ok_0 + rest, 2),
        ) == Ok::<(OpcodeView, nat), DcpuErrorKind>((op, (encode(op)->Ok_0.len() - 1) as nat)),
{
    reveal(decode);
    let w = encode(op)->Ok_0;
    let s = w + rest;
    match op {
        OpcodeView::Binary(o, b, a) => {
            let (ca, wa) = operand_code(true, a)->Ok_0;
            let (cb, wb) = operand_code(false, b)->Ok_0;
            lemma_opcode_numbers(o, SpecialOp::JSR, 0);
            assert(w =~= seq![(o.spec_code() & 0x1f) | operand_mask(true, ca) | operand_mask(
                false,
                cb,
            )] + optional_word(wa) + optional_word(wb));
            let w1 = word_at(s, 1);
            let w2 = word_at(s, 2);
            lemma_operand_roundtrip(true, a, w1);
            lemma_operand_roundtrip(
                false,
                b,
                if wa is Some {
                    w2
                } else {
                    w1
                },
            );
            lemma_pack_fields(o.spec_code(), ca, cb);
        },
        OpcodeView::Special(o, a) => {
            let (ca, wa) = operand_code(true, a)->Ok_0;
            lemma_opcode_numbers(BinaryOp::SET, o, 0);
            assert(w =~= seq![((o.spec_code() & 0x1f) << 5u16) | operand_mask(true, ca)]
                + optional_word(wa));
            lemma_operand_roundtrip(true, a, word_at(s, 1));
            lemma_pack_fields(o.spec_code(), ca, 0);
        },
    }
}

} // verus!

