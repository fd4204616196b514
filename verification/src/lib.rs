//! A DCPU-16 toolchain: instruction codec, assembler front end and
//! cycle-counting virtual machine.

pub mod arithmetic;
pub mod assembly;
pub mod disassemble;
pub mod hardware;
pub mod mem_iterator;
pub mod opcodes;
pub mod parser;
pub mod result;
pub mod text;
pub mod virtual_machine;

pub use crate::assembly::assemble::{Assemble, AssemblyError, AssemblyErrorView};
pub use crate::assembly::layout::{
    assemble_program, Block, BlockView, Layout, LayoutError, LayoutErrorView, LayoutProgress,
    LayoutView,
};
pub use crate::disassemble::{disassm, disassm_one};
pub use crate::mem_iterator::{MemIterator, WordCursor, WordStream};
pub use crate::opcodes::{
    BinaryOp, Opcode, OpcodeParts, OpcodeView, Operand, OperandView, Register, SpecialOp,
};
pub use crate::parser::{parse, ParseError, ParseErrorView, Statement, StatementView};
pub use crate::result::{DcpuError, DcpuErrorKind, DcpuResult};
pub use crate::hardware::{Clock, Hardware, HardwareInfo};
pub use crate::virtual_machine::{
    DcpuVMError, Executed, ExposedView, VMExposed, VirtualMachine, VmView, WriteTarget,
};
