//! What the two-operand opcodes compute: the value stored to operand `b`,
//! the value stored to EX, and the outcome of the conditional opcodes.

use crate::opcodes::BinaryOp;
use vstd::prelude::*;

verus! {

/// The number that a word stands for when it is read as a signed 16-bit
/// value in two's complement.
pub open spec fn signed(x: u16) -> int {
    if x >= 0x8000 {
        x - 0x10000
    } else {
        x as int
    }
}

/// The word that stands for an integer: its value modulo 65536.
pub open spec fn wrap16(x: int) -> u16 {
    (x % 0x10000) as u16
}

/// The quotient of `x` by `y` rounded towards zero.
pub open spec fn trunc_div(x: int, y: int) -> int
    recommends
        y != 0,
{
    if x >= 0 {
        if y > 0 {
            x / y
        } else {
            -(x / (-y))
        }
    } else {
        if y > 0 {
            -((-x) / y)
        } else {
            (-x) / (-y)
        }
    }
}

/// The remainder of `x` by `y` that goes with [`trunc_div`]: it has the
/// sign of `x`.
pub open spec fn trunc_rem(x: int, y: int) -> int
    recommends
        y != 0,
{
    if x >= 0 {
        if y > 0 {
            x % y
        } else {
            x % (-y)
        }
    } else {
        if y > 0 {
            -((-x) % y)
        } else {
            -((-x) % (-y))
        }
    }
}

/// `b >> a` as a logical shift of a 16-bit word; 0 from 16 places on.
pub open spec fn shr_value(b: u16, a: u16) -> u16 {
    if a >= 16 {
        0
    } else {
        b >> a
    }
}

/// The bits that a logical right shift moves out of the word:
/// `((b << 16) >> a) & 0xffff`, computed on 32 bits.
pub open spec fn shr_ex(b: u16, a: u16) -> u16 {
    if a >= 32 {
        0
    } else {
        ((((b as u32) << 16u32) >> (a as u32)) & 0xffff) as u16
    }
}

/// `b << a` on a 16-bit word; 0 from 16 places on.
pub open spec fn shl_value(b: u16, a: u16) -> u16 {
    if a >= 16 {
        0
    } else {
        (((b as u32) << (a as u32)) & 0xffff) as u16
    }
}

/// The bits that a left shift moves out of the word:
/// `((b << a) >> 16) & 0xffff`, computed without loss.
pub open spec fn shl_ex(b: u16, a: u16) -> u16 {
    if a >= 32 {
        0
    } else {
        ((((b as u64) << (a as u64)) >> 16u64) & 0xffff) as u16
    }
}

/// `b >> a` as an arithmetic shift of a 16-bit word: the sign bit fills the
/// places that become free, so a negative word ends as 0xffff.
pub open spec fn asr_value(b: u16, a: u16) -> u16 {
    if b < 0x8000 {
        shr_value(b, a)
    } else if a >= 16 {
        0xffff
    } else {
        !((!b) >> a)
    }
}

/// The bits that an arithmetic right shift moves out of the word:
/// `((b << 16) >> a) & 0xffff` with the shift right done arithmetically on
/// 32 bits.
pub open spec fn asr_ex(b: u16, a: u16) -> u16 {
    if b < 0x8000 {
        shr_ex(b, a)
    } else if a >= 32 {
        0xffff
    } else {
        ((!((!((b as u32) << 16u32)) >> (a as u32))) & 0xffff) as u16
    }
}

/// What a two-operand opcode stores: the new value of operand `b` and,
/// where the opcode writes EX, the new value of EX. `b`, `a` and `ex` are
/// the values before the instruction. The conditional opcodes store
/// nothing and leave `b` as it is.
#[verifier::opaque]
pub open spec fn alu(op: BinaryOp, b: u16, a: u16, ex: u16) -> (u16, Option<u16>) {
    match op {
        BinaryOp::SET | BinaryOp::STI | BinaryOp::STD => (a, None),
        BinaryOp::ADD => (
            wrap16(b + a),
            if b + a > 0xffff {
                Some(1u16)
            } else {
                None
            },
        ),
        BinaryOp::SUB => (
            wrap16(b - a),
            if b < a {
                Some(0xffffu16)
            } else {
                None
            },
        ),
        BinaryOp::MUL => (wrap16(b * a), Some(wrap16((b * a) / 0x10000))),
        BinaryOp::MLI => (
            wrap16(signed(b) * signed(a)),
            Some(wrap16((signed(b) * signed(a)) / 0x10000)),
        ),
        BinaryOp::DIV => if a == 0 {
            (0, Some(0u16))
        } else {
            (wrap16(b as int / a as int), Some(wrap16((b * 0x10000) / (a as int))))
        },
        BinaryOp::DVI => if a == 0 {
            (0, Some(0u16))
        } else {
            (
                wrap16(trunc_div(signed(b), signed(a))),
                Some(wrap16(trunc_div(signed(b) * 0x10000, signed(a)))),
            )
        },
        BinaryOp::MOD => if a == 0 {
            (0, None)
        } else {
            (wrap16(b as int % a as int), None)
        },
        BinaryOp::MDI => if a == 0 {
            (0, None)
        } else {
            (wrap16(trunc_rem(signed(b), signed(a))), None)
        },
        BinaryOp::AND => (b & a, None),
        BinaryOp::BOR => (b | a, None),
        BinaryOp::XOR => (b ^ a, None),
        BinaryOp::SHR => (shr_value(b, a), Some(shr_ex(b, a))),
        BinaryOp::ASR => (asr_value(b, a), Some(asr_ex(b, a))),
        BinaryOp::SHL => (shl_value(b, a), Some(shl_ex(b, a))),
        BinaryOp::ADX => (
            wrap16(b + a + ex),
            Some(
                if b + a + ex > 0xffff {
                    1u16
                } else {
                    0u16
                },
            ),
        ),
        BinaryOp::SBX => (
            wrap16(b - a - ex),
            Some(
                if b - a - ex < 0 {
                    0xffffu16
                } else {
                    0u16
                },
            ),
        ),
        _ => (b, None),
    }
}

/// Whether the condition of a conditional opcode holds of `b` and `a`.
/// For the other opcodes it is `true`.
pub open spec fn branch_passes(op: BinaryOp, b: u16, a: u16) -> bool {
    match op {
        BinaryOp::IFB => b & a != 0,
        BinaryOp::IFC => b & a == 0,
        BinaryOp::IFE => b == a,
        BinaryOp::IFN => b != a,
        BinaryOp::IFG => b > a,
        BinaryOp::IFA => signed(b) > signed(a),
        BinaryOp::IFL => b < a,
        BinaryOp::IFU => signed(b) < signed(a),
        _ => true,
    }
}

/// The cycles that a two-operand opcode costs before those of its
/// operands and of skipped instructions.
pub open spec fn spec_binary_cost(op: BinaryOp) -> nat {
    match op {
        BinaryOp::SET
        | BinaryOp::AND
        | BinaryOp::BOR
        | BinaryOp::XOR
        | BinaryOp::SHR
        | BinaryOp::ASR
        | BinaryOp::SHL => 1,
        BinaryOp::DIV
        | BinaryOp::DVI
        | BinaryOp::MOD
        | BinaryOp::MDI
        | BinaryOp::ADX
        | BinaryOp::SBX => 3,
        _ => 2,
    }
}

pub fn binary_cost(op: BinaryOp) -> (c: usize)
    ensures
        c == spec_binary_cost(op),
        1 <= c <= 3,
{
    match op {
        BinaryOp::SET
        | BinaryOp::AND
        | BinaryOp::BOR
        | BinaryOp::XOR
        | BinaryOp::SHR
        | BinaryOp::ASR
        | BinaryOp::SHL => 1,
        BinaryOp::DIV
        | BinaryOp::DVI
        | BinaryOp::MOD
        | BinaryOp::MDI
        | BinaryOp::ADX
        | BinaryOp::SBX => 3,
        _ => 2,
    }
}

/// The signed value of a word.
pub fn to_signed(x: u16) -> (r: i64)
    ensures
        r == signed(x),
{
    if x >= 0x8000 {
        x as i64 - 0x10000
    } else {
        x as i64
    }
}

/// The word that stands for `x`.
fn wrap_word(x: i64) -> (r: u16)
    requires
        -0x1_0000_0000_0000 <= x <= 0x1_0000_0000_0000,
    ensures
        r == wrap16(x as int),
{
    ((x + 0x1_0000_0000_0000) % 0x10000) as u16
}

/// Division rounded towards zero.
fn signed_div(x: i64, y: i64) -> (r: i64)
    requires
        y != 0,
        -0x1_0000_0000 <= x <= 0x1_0000_0000,
        -0x1_0000 <= y <= 0x1_0000,
    ensures
        r == trunc_div(x as int, y as int),
        -0x1_0000_0000 <= r <= 0x1_0000_0000,
{
    let ux: u64 = if x >= 0 {
        x as u64
    } else {
        (-x) as u64
    };
    let uy: u64 = if y >= 0 {
        y as u64
    } else {
        (-y) as u64
    };
    let q: u64 = ux / uy;
    assert(q <= ux) by (nonlinear_arith)
        requires
            q == ux / uy,
            uy >= 1,
    ;
    if (x >= 0) == (y > 0) {
        q as i64
    } else {
        -(q as i64)
    }
}

/// The remainder of the division rounded towards zero.
fn signed_rem(x: i64, y: i64) -> (r: i64)
    requires
        y != 0,
        -0x1_0000_0000 <= x <= 0x1_0000_0000,
        -0x1_0000 <= y <= 0x1_0000,
    ensures
        r == trunc_rem(x as int, y as int),
        -0x1_0000 < r < 0x1_0000,
{
    let ux: u64 = if x >= 0 {
        x as u64
    } else {
        (-x) as u64
    };
    let uy: u64 = if y >= 0 {
        y as u64
    } else {
        (-y) as u64
    };
    let m: u64 = ux % uy;
    if x >= 0 {
        m as i64
    } else {
        -(m as i64)
    }
}

pub fn shift_right(b: u16, a: u16) -> (r: (u16, u16))
    ensures
        r.0 == shr_value(b, a),
        r.1 == shr_ex(b, a),
{
    let value: u16 = if a >= 16 {
        0
    } else {
        b >> a
    };
    let ex: u16 = if a >= 32 {
        0
    } else {
        let x: u32 = (((b as u32) << 16u32) >> (a as u32)) & 0xffff;
        assert(x <= 0xffff) by (bit_vector)
            requires
                x == (((b as u32) << 16u32) >> (a as u32)) & 0xffff,
        ;
        x as u16
    };
    (value, ex)
}

pub fn shift_left(b: u16, a: u16) -> (r: (u16, u16))
    ensures
        r.0 == shl_value(b, a),
        r.1 == shl_ex(b, a),
{
    let value: u16 = if a >= 16 {
        0
    } else {
        let x: u32 = ((b as u32) << (a as u32)) & 0xffff;
        assert(x <= 0xffff) by (bit_vector)
            requires
                x == ((b as u32) << (a as u32)) & 0xffff,
        ;
        x as u16
    };
    let ex: u16 = if a >= 32 {
        0
    } else {
        let x: u64 = (((b as u64) << (a as u64)) >> 16u64) & 0xffff;
        assert(x <= 0xffff) by (bit_vector)
            requires
                x == (((b as u64) << (a as u64)) >> 16u64) & 0xffff,
        ;
        x as u16
    };
    (value, ex)
}

pub fn shift_right_signed(b: u16, a: u16) -> (r: (u16, u16))
    ensures
        r.0 == asr_value(b, a),
        r.1 == asr_ex(b, a),
{
    if b < 0x8000 {
        shift_right(b, a)
    } else {
        let value: u16 = if a >= 16 {
            0xffff
        } else {
            !((!b) >> a)
        };
        let ex: u16 = if a >= 32 {
            0xffff
        } else {
            let x: u32 = (!((!((b as u32) << 16u32)) >> (a as u32))) & 0xffff;
            assert(x <= 0xffff) by (bit_vector)
                requires
                    x == (!((!((b as u32) << 16u32)) >> (a as u32))) & 0xffff,
            ;
            x as u16
        };
        (value, ex)
    }
}

/// Computes what the opcode `op` stores, from the values of its operands
/// and of EX before the instruction.
pub fn compute(op: BinaryOp, b: u16, a: u16, ex: u16) -> (r: (u16, Option<u16>))
    ensures
        r == alu(op, b, a, ex),
{
    proof {
        reveal(alu);
    }
    match op {
        BinaryOp::SET | BinaryOp::STI | BinaryOp::STD => (a, None),
        BinaryOp::ADD => {
            let sum: u32 = b as u32 + a as u32;
            (
                (sum % 0x10000) as u16,
                if sum > 0xffff {
                    Some(1)
                } else {
                    None
                },
            )
        },
        BinaryOp::SUB => {
            let diff: i64 = b as i64 - a as i64;
            (
                wrap_word(diff),
                if b < a {
                    Some(0xffff)
                } else {
                    None
                },
            )
        },
        BinaryOp::MUL => {
            assert(b * a <= 0xffff * 0xffff) by (nonlinear_arith)
                requires
                    b <= 0xffff,
                    a <= 0xffff,
            ;
            let p: u64 = b as u64 * a as u64;
            ((p % 0x10000) as u16, Some(((p / 0x10000) % 0x10000) as u16))
        },
        BinaryOp::MLI => {
            let sb: i64 = to_signed(b);
            let sa: i64 = to_signed(a);
            assert(-0x4000_0000 <= sb * sa <= 0x4000_0000) by (nonlinear_arith)
                requires
                    -0x8000 <= sb <= 0x7fff,
                    -0x8000 <= sa <= 0x7fff,
            ;
            let p: i64 = sb * sa;
            let hi: i64 = (p + 0x1_0000_0000) / 0x10000 - 0x10000;
            (wrap_word(p), Some(wrap_word(hi)))
        },
        BinaryOp::DIV => {
            if a == 0 {
                (0, Some(0))
            } else {
                let q: u16 = b / a;
                let wide: u64 = (b as u64 * 0x10000) / (a as u64);
                (q, Some((wide % 0x10000) as u16))
            }
        },
        BinaryOp::DVI => {
            if a == 0 {
                (0, Some(0))
            } else {
                let sb: i64 = to_signed(b);
                let sa: i64 = to_signed(a);
                let q: i64 = signed_div(sb, sa);
                let wide: i64 = signed_div(sb * 0x10000, sa);
                (wrap_word(q), Some(wrap_word(wide)))
            }
        },
        BinaryOp::MOD => {
            if a == 0 {
                (0, None)
            } else {
                (b % a, None)
            }
        },
        BinaryOp::MDI => {
            if a == 0 {
                (0, None)
            } else {
                (wrap_word(signed_rem(to_signed(b), to_signed(a))), None)
            }
        },
        BinaryOp::AND => (b & a, None),
        BinaryOp::BOR => (b | a, None),
        BinaryOp::XOR => (b ^ a, None),
        BinaryOp::SHR => {
            let (v, e) = shift_right(b, a);
            (v, Some(e))
        },
        BinaryOp::ASR => {
            let (v, e) = shift_right_signed(b, a);
            (v, Some(e))
        },
        BinaryOp::SHL => {
            let (v, e) = shift_left(b, a);
            (v, Some(e))
        },
        BinaryOp::ADX => {
            let sum: u32 = b as u32 + a as u32 + ex as u32;
            (
                (sum % 0x10000) as u16,
                Some(
                    if sum > 0xffff {
                        1
                    } else {
                        0
                    },
                ),
            )
        },
        BinaryOp::SBX => {
            let diff: i64 = b as i64 - a as i64 - ex as i64;
            (
                wrap_word(diff),
                Some(
                    if diff < 0 {
                        0xffff
                    } else {
                        0
                    },
                ),
            )
        },
        _ => (b, None),
    }
}

/// Tests the condition of a conditional opcode.
pub fn test_branch(op: BinaryOp, b: u16, a: u16) -> (r: bool)
    ensures
        r == branch_passes(op, b, a),
{
    match op {
        BinaryOp::IFB => b & a != 0,
        BinaryOp::IFC => b & a == 0,
        BinaryOp::IFE => b == a,
        BinaryOp::IFN => b != a,
        BinaryOp::IFG => b > a,
        BinaryOp::IFA => to_signed(b) > to_signed(a),
        BinaryOp::IFL => b < a,
        BinaryOp::IFU => to_signed(b) < to_signed(a),
        _ => true,
    }
}

/// The results of the arithmetic opcodes are the mathematical results
/// reduced modulo 65536, whatever the operands: sums and differences wrap
/// around, a product keeps its low 16 bits, a division by zero gives 0,
/// and a shift by 16 places or more leaves 0, or 0xffff for an arithmetic
/// shift of a negative word.
pub proof fn lemma_alu_results(b: u16, a: u16, ex: u16)
    ensures
        alu(BinaryOp::SET, b, a, ex).0 == a,
        alu(BinaryOp::ADD, b, a, ex).0 == (b + a) % 0x10000,
        alu(BinaryOp::SUB, b, a, ex).0 == (b - a) % 0x10000,
        alu(BinaryOp::MUL, b, a, ex).0 == (b * a) % 0x10000,
        alu(BinaryOp::MLI, b, a, ex).0 == (signed(b) * signed(a)) % 0x10000,
        alu(BinaryOp::ADX, b, a, ex).0 == (b + a + ex) % 0x10000,
        alu(BinaryOp::SBX, b, a, ex).0 == (b - a - ex) % 0x10000,
        a == 0 ==> alu(BinaryOp::DIV, b, a, ex).0 == 0 && alu(BinaryOp::DVI, b, a, ex).0 == 0
            && alu(BinaryOp::MOD, b, a, ex).0 == 0 && alu(BinaryOp::MDI, b, a, ex).0 == 0,
        a != 0 ==> alu(BinaryOp::DIV, b, a, ex).0 == b as int / a as int && alu(
            BinaryOp::MOD,
            b,
            a,
            ex,
        ).0 == b as int % a as int,
        a >= 16 ==> alu(BinaryOp::SHL, b, a, ex).0 == 0 && alu(BinaryOp::SHR, b, a, ex).0 == 0,
        a >= 16 ==> alu(BinaryOp::ASR, b, a, ex).0 == (if b >= 0x8000 {
            0xffffu16
        } else {
            0u16
        }),
        alu(BinaryOp::STI, b, a, ex).0 == a,
        alu(BinaryOp::STD, b, a, ex).0 == a,
{
    reveal(alu);
    if a != 0 {
        assert((b as int) / (a as int) <= b) by (nonlinear_arith)
            requires
                b >= 0,
                a >= 1,
        ;
        assert(0 <= (b as int) / (a as int)) by (nonlinear_arith)
            requires
                b >= 0,
                a >= 1,
        ;
        assert(0 <= (b as int) % (a as int) < a) by (nonlinear_arith)
            requires
                b >= 0,
                a >= 1,
        ;
    }
}

} // verus!
