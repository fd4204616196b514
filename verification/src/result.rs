//! Errors of the instruction decoder.

use vstd::prelude::*;

verus! {

/// Why a word stream could not be decoded.
#[derive(Copy, Clone, Debug, PartialEq, Eq, Structural)]
pub enum DcpuErrorKind {
    /// `PUSH` stands where only a source operand may stand.
    PushInAOp,
    /// `POP` stands where only a destination operand may stand.
    PopInBOp,
    /// The stream ended where an operand needed one more word.
    MissingNextWord,
    /// The word's opcode number is reserved; the payload is the whole word.
    ReservedOpcode(u16),
    /// There was no word to decode at all.
    EmptyIterator,
    /// The all-zero word was met.
    EmptyInstruction,
}

/// An error of the decoder.
#[derive(Copy, Clone, Debug, PartialEq, Eq, Structural)]
pub struct DcpuError {
    pub reason: DcpuErrorKind,
}

pub type DcpuResult<T> = Result<T, DcpuError>;

} // verus!
