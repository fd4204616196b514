//! The decoder: from instruction words to the instruction tree.

use crate::mem_iterator::{WordCursor, WordStream};
use crate::opcodes::{BinaryOp, Opcode, OpcodeView, Operand, OperandView, Register, SpecialOp};
use crate::result::{DcpuError, DcpuErrorKind, DcpuResult};
use vstd::prelude::*;

verus! {

/// Bits 10 to 15 of an instruction word: the `a` operand.
pub const A_MASK: u16 = 0xfc00;

/// Bits 5 to 9 of an instruction word: the `b` operand, or the number of a
/// one-operand opcode.
pub const B_MASK: u16 = 0x03e0;

/// The low five bits of an instruction word: the opcode number.
pub const OP_MASK: u16 = 0x001f;

/// The six-bit code of operand `a` in an instruction word.
pub open spec fn field_a(inst: u16) -> u16 {
    (inst & 0xfc00) >> 10
}

/// The five-bit code of operand `b` in an instruction word.
pub open spec fn field_b(inst: u16) -> u16 {
    (inst & 0x03e0) >> 5
}

/// The five-bit opcode number of an instruction word.
pub open spec fn field_op(inst: u16) -> u16 {
    inst & 0x001f
}

/// The three fields of a word stay within their widths.
pub proof fn lemma_field_bounds(inst: u16)
    ensures
        field_a(inst) < 64,
        field_b(inst) < 32,
        field_op(inst) < 32,
{
    assert((inst & 0xfc00) >> 10 < 64) by (bit_vector);
    assert((inst & 0x03e0) >> 5 < 32) by (bit_vector);
    assert(inst & 0x001f < 32) by (bit_vector);
}

/// The value of an inline literal: operand codes 0x20 to 0x3f stand for
/// -1 to 30, and -1 is the word 0xffff.
pub open spec fn spec_from_short_literal(code: u16) -> u16 {
    if code < 0x21 {
        0xffff
    } else {
        (code - 0x21) as u16
    }
}

/// True for the operand codes that take their value or offset from the
/// word after the instruction.
pub open spec fn takes_next_word(code: u16) -> bool {
    (0x10 <= code <= 0x17) || code == 0x1a || code == 0x1e || code == 0x1f
}

/// The operand that an operand code stands for, given the next word of the
/// stream, and whether it takes that word. Code 0x18 is `POP` as operand
/// `a` and `PUSH` as operand `b`; codes from 0x20 on are inline literals.
pub open spec fn decode_operand(is_a: bool, code: u16, next: Option<u16>) -> Result<
    (OperandView, bool),
    DcpuErrorKind,
> {
    if code <= 0x07 {
        Ok((OperandView::Register(Register::spec_from_index(code as int)), false))
    } else if code <= 0x0f {
        Ok((OperandView::RegisterDeref(Register::spec_from_index(code - 0x08)), false))
    } else if code == 0x18 {
        Ok(
            (
                if is_a {
                    OperandView::Pop
                } else {
                    OperandView::Push
                },
                false,
            ),
        )
    } else if code == 0x19 {
        Ok((OperandView::Peek, false))
    } else if code == 0x1b {
        Ok((OperandView::Sp, false))
    } else if code == 0x1c {
        Ok((OperandView::Pc, false))
    } else if code == 0x1d {
        Ok((OperandView::Ex, false))
    } else if code >= 0x20 {
        Ok((OperandView::Literal(spec_from_short_literal(code)), false))
    } else {
        match next {
            None => Err(DcpuErrorKind::MissingNextWord),
            Some(w) => Ok(
                (
                    if code <= 0x17 {
                        OperandView::RegisterPlusDeref(Register::spec_from_index(code - 0x10), w)
                    } else if code == 0x1a {
                        OperandView::Pick(w)
                    } else if code == 0x1e {
                        OperandView::LiteralDeref(w)
                    } else {
                        OperandView::Literal(w)
                    },
                    true,
                ),
            ),
        }
    }
}

/// The one-operand instruction that the word `inst` stands for when its
/// bits 5 to 9 are read as the opcode number, where `next` is the next word
/// of the stream, and whether the operand takes that word.
pub open spec fn decode_special(inst: u16, next: Option<u16>) -> Result<
    (OpcodeView, bool),
    DcpuErrorKind,
> {
    match SpecialOp::spec_from_code(field_b(inst)) {
        None => Err(DcpuErrorKind::ReservedOpcode(inst)),
        Some(op) => match decode_operand(true, field_a(inst), next) {
            Err(e) => Err(e),
            Ok((a, eat)) => Ok((OpcodeView::Special(op, a), eat)),
        },
    }
}

/// The instruction that starts with the word `inst`, where `w1` and `w2`
/// are the next two words of the stream (or `None` where it ends), and the
/// number of those words that belong to the instruction. Operand `a` is
/// decoded first and takes the first of them if it takes one.
#[verifier::opaque]
pub open spec fn decode(inst: u16, w1: Option<u16>, w2: Option<u16>) -> Result<
    (OpcodeView, nat),
    DcpuErrorKind,
> {
    if field_op(inst) == 0 {
        match decode_special(inst, w1) {
            Err(e) => Err(e),
            Ok((op, eat)) => Ok(
                (
                    op,
                    if eat {
                        1nat
                    } else {
                        0nat
                    },
                ),
            ),
        }
    } else {
        match BinaryOp::spec_from_code(field_op(inst)) {
            None => Err(DcpuErrorKind::ReservedOpcode(inst)),
            Some(op) => match decode_operand(true, field_a(inst), w1) {
                Err(e) => Err(e),
                Ok((a, eat_a)) => match decode_operand(
                    false,
                    field_b(inst),
                    if eat_a {
                        w2
                    } else {
                        w1
                    },
                ) {
                    Err(e) => Err(e),
                    Ok((b, eat_b)) => Ok(
                        (
                            OpcodeView::Binary(op, b, a),
                            (if eat_a {
                                1nat
                            } else {
                                0nat
                            }) + (if eat_b {
                                1nat
                            } else {
                                0nat
                            }),
                        ),
                    ),
                },
            },
        }
    }
}

/// The number of words that decoding takes from the stream, whether it
/// succeeds or fails: the words of the operands decoded before the end or
/// the failure.
pub open spec fn words_taken(inst: u16, w1: Option<u16>, w2: Option<u16>) -> nat {
    if field_op(inst) == 0 {
        if SpecialOp::spec_from_code(field_b(inst)) is Some && takes_next_word(field_a(inst))
            && w1 is Some {
            1
        } else {
            0
        }
    } else if BinaryOp::spec_from_code(field_op(inst)) is None {
        0
    } else if takes_next_word(field_a(inst)) {
        if w1 is None {
            0
        } else if takes_next_word(field_b(inst)) && w2 is Some {
            2
        } else {
            1
        }
    } else if takes_next_word(field_b(inst)) && w1 is Some {
        1
    } else {
        0
    }
}

/// Decoding takes at most two words, and only words that the stream has;
/// where it succeeds, it takes exactly the words that it counts, and the
/// instruction has no label operand, no `PUSH` as operand `a` and no `POP`
/// as operand `b`.
pub proof fn lemma_decode_count(inst: u16, w1: Option<u16>, w2: Option<u16>)
    ensures
        words_taken(inst, w1, w2) <= 2,
        words_taken(inst, w1, w2) >= 1 ==> w1 is Some,
        words_taken(inst, w1, w2) >= 2 ==> w2 is Some,
        decode(inst, w1, w2) matches Ok((op, n)) ==> n == words_taken(inst, w1, w2)
            && op.label_free() && !(op.a() is Push) && op.b() != Some(OperandView::Pop),
{
    reveal(decode);
    lemma_field_bounds(inst);
}

/// The value of the inline literal with operand code `n`.
pub fn from_short_literal(n: u16) -> (v: u16)
    ensures
        v == spec_from_short_literal(n),
{
    if n < 0x21 {
        0xffff
    } else {
        n - 0x21
    }
}

/// Decodes one operand of `inst`: operand `a` from bits 10 to 15, or
/// operand `b` from bits 5 to 9. `next` is the next word of the stream; the
/// flag returned says whether the operand takes it.
pub fn get_operand(is_a: bool, inst: u16, next: Option<u16>) -> (r: DcpuResult<(Operand, bool)>)
    ensures
        match r {
            Ok((op, eat)) => decode_operand(
                is_a,
                if is_a {
                    field_a(inst)
                } else {
                    field_b(inst)
                },
                next,
            ) == Ok::<(OperandView, bool), DcpuErrorKind>((op@, eat)),
            Err(e) => decode_operand(
                is_a,
                if is_a {
                    field_a(inst)
                } else {
                    field_b(inst)
                },
                next,
            ) == Err::<(OperandView, bool), DcpuErrorKind>(e.reason),
        },
{
    let code: u16 = if is_a {
        (inst & A_MASK) >> 10
    } else {
        (inst & B_MASK) >> 5
    };
    proof {
        lemma_field_bounds(inst);
    }
    if code <= 0x07 {
        Ok((Operand::Register(Register::from_index(code)), false))
    } else if code <= 0x0f {
        Ok((Operand::RegisterDeref(Register::from_index(code - 0x08)), false))
    } else if code == 0x18 {
        if is_a {
            Ok((Operand::Pop, false))
        } else {
            Ok((Operand::Push, false))
        }
    } else if code == 0x19 {
        Ok((Operand::Peek, false))
    } else if code == 0x1b {
        Ok((Operand::Sp, false))
    } else if code == 0x1c {
        Ok((Operand::Pc, false))
    } else if code == 0x1d {
        Ok((Operand::Ex, false))
    } else if code >= 0x20 {
        Ok((Operand::Literal(from_short_literal(code)), false))
    } else {
        match next {
            None => Err(DcpuError { reason: DcpuErrorKind::MissingNextWord }),
            Some(w) => {
                if code <= 0x17 {
                    Ok((Operand::RegisterPlusDeref(Register::from_index(code - 0x10), w), true))
                } else if code == 0x1a {
                    Ok((Operand::Pick(w), true))
                } else if code == 0x1e {
                    Ok((Operand::LiteralDeref(w), true))
                } else {
                    Ok((Operand::Literal(w), true))
                }
            },
        }
    }
}

/// Decodes a one-operand instruction from a word whose opcode number is
/// zero: bits 5 to 9 are the number of the one-operand opcode. `next` is
/// the next word of the stream; the flag returned says whether the operand
/// takes that word.
pub fn handle_special_op(inst: u16, next: Option<u16>) -> (r: DcpuResult<(Opcode, bool)>)
    ensures
        match r {
            Ok((op, eat)) => decode_special(inst, next) == Ok::<(OpcodeView, bool), DcpuErrorKind>(
                (op@, eat),
            ),
            Err(e) => decode_special(inst, next) == Err::<(OpcodeView, bool), DcpuErrorKind>(
                e.reason,
            ),
        },
{
    match SpecialOp::from_code((inst & B_MASK) >> 5) {
        None => Err(DcpuError { reason: DcpuErrorKind::ReservedOpcode(inst) }),
        Some(op) => match get_operand(true, inst, next) {
            Err(e) => Err(e),
            Ok((a, eat)) => Ok((Opcode::special(op, a), eat)),
        },
    }
}

/// Decodes the instruction that starts with `inst`, taking the words of its
/// operands from `itr`: first the word of operand `a`, then that of operand
/// `b`. Returns the instruction and the number of words taken (0, 1 or 2).
///
/// A reserved opcode number gives `ReservedOpcode(inst)` and takes nothing;
/// a stream that ends before an operand's word gives `MissingNextWord`.
pub fn disassm_one<I: WordStream>(inst: u16, itr: &mut I) -> (r: DcpuResult<(Opcode, usize)>)
    requires
        old(itr).wf(),
    ensures
        final(itr).wf(),
        match r {
            Ok((op, n)) => decode(inst, old(itr).ahead(0), old(itr).ahead(1)) == Ok::<
                (OpcodeView, nat),
                DcpuErrorKind,
            >((op@, n as nat)),
            Err(e) => decode(inst, old(itr).ahead(0), old(itr).ahead(1)) == Err::<
                (OpcodeView, nat),
                DcpuErrorKind,
            >(e.reason),
        },
        forall|n: nat| #[trigger]
            final(itr).ahead(n) == old(itr).ahead(
                n + words_taken(inst, old(itr).ahead(0), old(itr).ahead(1)),
            ),
{
    let ghost w1 = itr.ahead(0);
    let ghost w2 = itr.ahead(1);
    proof {
        reveal(decode);
        lemma_field_bounds(inst);
    }
    let mut count: usize = 0;
    if inst & OP_MASK == 0 {
        let first: Option<u16> = itr.peek();
        match handle_special_op(inst, first) {
            Err(e) => Err(e),
            Ok((op, eat)) => {
                if eat {
                    itr.next();
                    count += 1;
                }
                Ok((op, count))
            },
        }
    } else {
        match BinaryOp::from_code(inst & OP_MASK) {
            None => Err(DcpuError { reason: DcpuErrorKind::ReservedOpcode(inst) }),
            Some(bop) => {
                let first: Option<u16> = itr.peek();
                match get_operand(true, inst, first) {
                    Err(e) => Err(e),
                    Ok((a, eat_a)) => {
                        if eat_a {
                            itr.next();
                            count += 1;
                        }
                        let second: Option<u16> = itr.peek();
                        match get_operand(false, inst, second) {
                            Err(e) => Err(e),
                            Ok((b, eat_b)) => {
                                if eat_b {
                                    itr.next();
                                    count += 1;
                                }
                                Ok((Opcode::binary(bop, b, a), count))
                            },
                        }
                    },
                }
            },
        }
    }
}

/// The word at index `i` of a stream, or `None` past its end.
pub open spec fn word_at(words: Seq<u16>, i: int) -> Option<u16> {
    if 0 <= i < words.len() {
        Some(words[i])
    } else {
        None
    }
}

/// The instructions that a word sequence holds, one after the other from
/// its first word to its last. Decoding stops at the first word that fails.
pub open spec fn decode_all(words: Seq<u16>) -> Result<Seq<OpcodeView>, DcpuErrorKind>
    decreases words.len(),
{
    if words.len() == 0 {
        Ok(Seq::empty())
    } else {
        match decode(words[0], word_at(words, 1), word_at(words, 2)) {
            Err(e) => Err(e),
            Ok((op, n)) => if 1 + n <= words.len() {
                match decode_all(words.skip(1 + n as int)) {
                    Err(e) => Err(e),
                    Ok(rest) => Ok(seq![op] + rest),
                }
            } else {
                Err(DcpuErrorKind::MissingNextWord)
            },
        }
    }
}

/// Decodes a whole buffer of instruction words, every word of it: the
/// all-zero word is a reserved opcode like any other, not an end marker.
/// An empty buffer gives `EmptyIterator`.
pub fn disassm(words: &Vec<u16>) -> (r: DcpuResult<Vec<Opcode>>)
    ensures
        match r {
            Ok(ops) => words@.len() > 0 && decode_all(words@) == Ok::<
                Seq<OpcodeView>,
                DcpuErrorKind,
            >(ops@.map_values(|o: Opcode| o@)),
            Err(e) => if words@.len() == 0 {
                e.reason == DcpuErrorKind::EmptyIterator
            } else {
                decode_all(words@) == Err::<Seq<OpcodeView>, DcpuErrorKind>(e.reason)
            },
        },
{
    if words.len() == 0 {
        return Err(DcpuError { reason: DcpuErrorKind::EmptyIterator });
    }
    let mut ret: Vec<Opcode> = Vec::new();
    let mut pos: usize = 0;
    proof {
        assert(words@.skip(0) =~= words@);
        match decode_all(words@) {
            Err(e) => {},
            Ok(rest) => {
                assert(ret@.map_values(|o: Opcode| o@) + rest =~= rest);
            },
        }
    }
    while pos < words.len()
        invariant
            pos <= words@.len(),
            decode_all(words@) == (match decode_all(words@.skip(pos as int)) {
                Err(e) => Err(e),
                Ok(rest) => Ok(ret@.map_values(|o: Opcode| o@) + rest),
            }),
        decreases words@.len() - pos,
    {
        let ghost tail = words@.skip(pos as int);
        let inst: u16 = words[pos];
        let mut itr = WordCursor::new(words, pos + 1);
        proof {
            crate::mem_iterator::lemma_word_cursor_ahead(itr, 0);
            crate::mem_iterator::lemma_word_cursor_ahead(itr, 1);
            lemma_decode_count(inst, itr.ahead(0), itr.ahead(1));
        }
        match disassm_one(inst, &mut itr) {
            Err(e) => {
                return Err(e);
            },
            Ok((op, n)) => {
                proof {
                    assert(words@.skip(pos + 1 + n) =~= tail.skip(1 + n as int));
                    let old_ops = ret@.map_values(|o: Opcode| o@);
                    assert(ret@.push(op).map_values(|o: Opcode| o@) =~= old_ops + seq![op@]);
                    match decode_all(tail.skip(1 + n as int)) {
                        Err(e) => {},
                        Ok(rest) => {
                            assert((old_ops + seq![op@]) + rest =~= old_ops + (seq![op@] + rest));
                        },
                    }
                }
                ret.push(op);
                pos = pos + 1 + n;
            },
        }
    }
    proof {
        assert(ret@.map_values(|o: Opcode| o@) + Seq::<OpcodeView>::empty() =~= ret@.map_values(
            |o: Opcode| o@,
        ));
    }
    Ok(ret)
}

} // verus!
