//! The virtual machine: registers, memory, the interrupt queue and the
//! step that fetches, decodes and executes one instruction.

use crate::arithmetic::{
    alu, binary_cost, branch_passes, compute, spec_binary_cost, test_branch, wrap16,
};
use crate::disassemble::{decode, disassm_one, lemma_decode_count};
use crate::hardware::device::{device_may, Hardware, HardwareInfo};
use crate::mem_iterator::{lemma_mem_iterator_ahead, MemIterator, WordStream};
use crate::opcodes::{
    BinaryOp, Opcode, OpcodeParts, OpcodeView, Operand, OperandView, Register, SpecialOp,
};
use crate::result::{DcpuError, DcpuErrorKind};
use vstd::prelude::*;

verus! {

/// Why the machine could not do what was asked.
#[derive(Copy, Clone, Debug, PartialEq, Eq, Structural)]
pub enum DcpuVMError {
    /// `PUSH` stands as a source operand.
    PushInAOp,
    /// `POP` stands as a destination operand.
    PopInBOp,
    /// The all-zero word was to be executed.
    EmptyInstruction,
    /// A device asked for memory beyond the end of RAM.
    OutOfBoundsMemory,
    /// The interrupt queue overflowed earlier; only a reset helps.
    OnFire,
    /// There was no word to decode.
    EmptyIterator,
    /// The instruction at PC, or one that was to be skipped, could not be
    /// decoded.
    DisassemblyFailed(DcpuError),
}

/// The number of words of memory.
pub const RAM_SIZE: usize = 0x10000;

/// The number of interrupt messages that may wait; one more sets the
/// machine on fire.
pub const MAX_QUEUED_INTERRUPTS: usize = 256;

/// The clock rate of a new machine, in cycles per second.
pub const DEFAULT_CLOCK_RATE: usize = 100000;

/// The mathematical value of a [`VMExposed`].
pub struct ExposedView {
    /// The eight general registers, by register number.
    pub registers: Seq<u16>,
    /// The 65536 words of memory.
    pub ram: Seq<u16>,
    /// The interrupt messages that wait, the oldest first.
    pub interrupts: Seq<u16>,
    /// The cycles spent since the last reset.
    pub cycles: nat,
    pub clock_rate: nat,
    pub on_fire: bool,
}

impl ExposedView {
    /// Eight registers, 65536 words, at most 257 waiting messages, and on
    /// fire if there are more than 256.
    pub open spec fn wf(self) -> bool {
        &&& self.registers.len() == 8
        &&& self.ram.len() == 0x10000
        &&& self.interrupts.len() <= 257
        &&& self.interrupts.len() > 256 ==> self.on_fire
    }

    pub open spec fn reg(self, r: Register) -> u16 {
        self.registers[r.spec_index()]
    }

    pub open spec fn set_reg(self, r: Register, v: u16) -> ExposedView {
        ExposedView { registers: self.registers.update(r.spec_index(), v), ..self }
    }

    pub open spec fn set_ram(self, addr: int, v: u16) -> ExposedView {
        ExposedView { ram: self.ram.update(addr, v), ..self }
    }

    /// Appends a message to the queue. The message that makes the queue
    /// longer than 256 sets the machine on fire; a machine on fire takes no
    /// message.
    pub open spec fn enqueue(self, msg: u16) -> ExposedView {
        if self.on_fire {
            self
        } else {
            ExposedView {
                interrupts: self.interrupts.push(msg),
                on_fire: self.interrupts.len() + 1 > 256,
                ..self
            }
        }
    }

    /// Memory after writing `data[0..size]` from address `pos` on, going
    /// on at address 0 after the last word.
    pub open spec fn write_words(self, pos: int, data: Seq<u16>, size: nat) -> Seq<u16>
        decreases size,
    {
        if size == 0 {
            self.ram
        } else {
            self.write_words(pos, data, (size - 1) as nat).update(
                (pos + size - 1) % 0x10000,
                data[size - 1],
            )
        }
    }
}

/// The part of the machine that devices can reach: the general registers,
/// memory, the interrupt queue, and the cycle count and clock rate to read.
#[derive(Debug)]
pub struct VMExposed {
    registers: Vec<u16>,
    ram: Vec<u16>,
    interrupts: Vec<u16>,
    cycles: usize,
    clock_rate: usize,
    on_fire: bool,
}

impl View for VMExposed {
    type V = ExposedView;

    closed spec fn view(&self) -> ExposedView {
        ExposedView {
            registers: self.registers@,
            ram: self.ram@,
            interrupts: self.interrupts@,
            cycles: self.cycles as nat,
            clock_rate: self.clock_rate as nat,
            on_fire: self.on_fire,
        }
    }
}

impl VMExposed {
    /// Queues an interrupt message for the machine.
    pub fn interrupt(&mut self, msg: u16)
        requires
            old(self)@.wf(),
        ensures
            final(self)@ == old(self)@.enqueue(msg),
            final(self)@.wf(),
            device_may(old(self)@, final(self)@),
    {
        if !self.on_fire {
            self.interrupts.push(msg);
            if self.interrupts.len() > MAX_QUEUED_INTERRUPTS {
                self.on_fire = true;
            }
            proof {
                assert(self.interrupts@.subrange(0, old(self).interrupts@.len() as int) =~= old(self).interrupts@);
            }
        } else {
            proof {
                assert(self.interrupts@.subrange(0, old(self).interrupts@.len() as int) =~= old(self).interrupts@);
            }
        }
    }

    pub fn get_cycles(&self) -> (c: usize)
        ensures
            c == self@.cycles,
    {
        self.cycles
    }

    pub fn get_clock_rate(&self) -> (c: usize)
        ensures
            c == self@.clock_rate,
    {
        self.clock_rate
    }

    /// The value of a register, and the two cycles that reading it costs.
    pub fn read_register(&self, reg: Register) -> (r: (u16, usize))
        requires
            self@.wf(),
        ensures
            r.0 == self@.reg(reg),
            r.1 == 2,
    {
        (self.registers[reg.index()], 2)
    }

    /// Sets a register; returns the two cycles that it costs.
    pub fn write_register(&mut self, reg: Register, data: u16) -> (c: usize)
        requires
            old(self)@.wf(),
        ensures
            final(self)@ == old(self)@.set_reg(reg, data),
            final(self)@.wf(),
            device_may(old(self)@, final(self)@),
            c == 2,
    {
        self.registers[reg.index()] = data;
        proof {
            assert(self.interrupts@.subrange(0, self.interrupts@.len() as int)
                =~= self.interrupts@);
        }
        2
    }

    /// The `size` words of memory from address `pos` on, and the cycles
    /// that reading them costs, three a word. Fails with
    /// `OutOfBoundsMemory` if the words do not all lie in memory.
    pub fn read_ram(&self, pos: usize, size: usize) -> (r: Result<(&[u16], usize), DcpuVMError>)
        requires
            self@.wf(),
        ensures
            match r {
                Ok((words, c)) => pos + size <= 0x10000 && words@ == self@.ram.subrange(
                    pos as int,
                    pos + size,
                ) && c == 3 * size,
                Err(e) => pos + size > 0x10000 && e == DcpuVMError::OutOfBoundsMemory,
            },
    {
        if pos > RAM_SIZE || size > RAM_SIZE - pos {
            return Err(DcpuVMError::OutOfBoundsMemory);
        }
        let all: &[u16] = self.ram.as_slice();
        let words: &[u16] = &all[pos..pos + size];
        Ok((words, size * 3))
    }

    /// Writes `data[0..size]` to memory from address `pos` modulo 65536
    /// on; after the last word of memory comes the first. Returns the
    /// cycles that it costs, three a word.
    pub fn write_ram(&mut self, pos: usize, data: &[u16], size: usize) -> (c: usize)
        requires
            old(self)@.wf(),
            size <= data@.len(),
            3 * size <= usize::MAX,
        ensures
            final(self)@ == (ExposedView {
                ram: old(self)@.write_words(pos as int, data@, size as nat),
                ..old(self)@
            }),
            final(self)@.wf(),
            device_may(old(self)@, final(self)@),
            c == 3 * size,
    {
        let mut i: usize = 0;
        let mut p: usize = pos % RAM_SIZE;
        while i < size
            invariant
                i <= size <= data@.len(),
                3 * size <= usize::MAX,
                p == (pos + i) % 0x10000,
                self.ram@.len() == 0x10000,
                self.ram@ == old(self)@.write_words(pos as int, data@, i as nat),
                self.registers == old(self).registers,
                self.interrupts == old(self).interrupts,
                self.cycles == old(self).cycles,
                self.clock_rate == old(self).clock_rate,
                self.on_fire == old(self).on_fire,
            decreases size - i,
        {
            self.ram[p] = data[i];
            p = if p == RAM_SIZE - 1 {
                0
            } else {
                p + 1
            };
            i = i + 1;
        }
        proof {
            assert(self.interrupts@.subrange(0, self.interrupts@.len() as int)
                =~= self.interrupts@);
        }
        i * 3
    }
}

/// Where an instruction stores its result.
#[derive(Copy, Clone, Debug, PartialEq, Eq, Structural)]
pub enum WriteTarget {
    Register(Register),
    /// The word of memory at this address.
    Ram(u16),
    Pc,
    Sp,
    Ex,
    /// The scratch word that takes what is stored to a literal.
    DeadZone,
}

/// The most instructions that one failed condition skips. A chain of
/// conditional instructions is skipped as a whole; the limit ends a chain
/// that fills all of memory.
pub const SKIP_LIMIT: usize = 0x10000;

/// The room that a step needs in the cycle counter: more cycles than any
/// instruction costs with all that it skips. What a device reports comes
/// on top and has to fit as well.
pub const MAX_STEP_CYCLES: usize = 0x2_0000;

/// The most cycles that a `HWI` instruction costs before those that the
/// device reports.
pub const HWI_CYCLES: usize = 6;

/// The mathematical value of a [`VirtualMachine`].
pub struct VmView {
    pub exposed: ExposedView,
    pub pc: u16,
    pub sp: u16,
    pub ia: u16,
    pub ex: u16,
    /// The scratch word that takes what is stored to a literal operand.
    pub dead_zone: u16,
    /// True from the delivery of an interrupt until `RFI`.
    pub in_interrupt: bool,
    /// True while interrupts are only queued, not delivered.
    pub iaq: bool,
    /// The identities of the attached devices, in the order of attachment.
    pub hardware: Seq<HardwareInfo>,
}

/// What executing one instruction comes to, before the cycles are counted,
/// PC is moved on and an interrupt is delivered.
pub struct Executed {
    /// The machine after the instruction's reads and writes. PC is the
    /// address of the instruction, or where the instruction wrote PC, the
    /// value written.
    pub state: VmView,
    /// The cycles of the instruction, of its operands and of what it
    /// skipped.
    pub cost: nat,
    /// True if the instruction wrote PC.
    pub jumped: bool,
    /// The words by which PC moves on if the instruction did not write it:
    /// those of the instruction and those of the instructions skipped.
    pub advance: nat,
    /// The index of the device that `HWI` calls, if it calls one.
    pub device: Option<int>,
}

/// The instruction that starts at address `addr` modulo 65536 of `ram`;
/// after the last word of memory comes the first.
pub open spec fn decode_at(ram: Seq<u16>, addr: int) -> Result<(OpcodeView, nat), DcpuErrorKind> {
    decode(
        ram[addr % 0x10000],
        Some(ram[(addr + 1) % 0x10000]),
        Some(ram[(addr + 2) % 0x10000]),
    )
}

/// What a failed condition skips, starting with the instruction at
/// address `start`: that instruction and, as long as the instruction just
/// skipped is itself conditional, the one after it, `fuel` instructions at
/// most. The result is the number of instructions and the number of words
/// skipped; an instruction that cannot be decoded is an error.
pub open spec fn skip_chain(ram: Seq<u16>, start: int, fuel: nat) -> Result<
    (nat, nat),
    DcpuErrorKind,
>
    decreases fuel,
{
    if fuel == 0 {
        Ok((0, 0))
    } else {
        match decode_at(ram, start) {
            Err(e) => Err(e),
            Ok((op, n)) => if is_conditional(op) {
                match skip_chain(ram, start + 1 + n, (fuel - 1) as nat) {
                    Err(e) => Err(e),
                    Ok((k, w)) => Ok((k + 1, w + 1 + n)),
                }
            } else {
                Ok((1, 1 + n))
            },
        }
    }
}

/// True for the eight conditional instructions.
pub open spec fn is_conditional(op: OpcodeView) -> bool {
    match op {
        OpcodeView::Binary(o, _, _) => o.spec_is_branch(),
        OpcodeView::Special(_, _) => false,
    }
}

impl VmView {
    /// The reachable part is well formed, and at most 65535 devices are
    /// attached.
    pub open spec fn wf(self) -> bool {
        self.exposed.wf() && self.hardware.len() <= 0xffff
    }

    pub open spec fn reg(self, r: Register) -> u16 {
        self.exposed.reg(r)
    }

    pub open spec fn mem(self, addr: u16) -> u16 {
        self.exposed.ram[addr as int]
    }

    pub open spec fn set_reg(self, r: Register, v: u16) -> VmView {
        VmView { exposed: self.exposed.set_reg(r, v), ..self }
    }

    pub open spec fn set_mem(self, addr: u16, v: u16) -> VmView {
        VmView { exposed: self.exposed.set_ram(addr as int, v), ..self }
    }

    /// `SP` goes down by one, modulo 65536, and `v` is stored at the new
    /// `SP`.
    pub open spec fn push(self, v: u16) -> VmView {
        let sp = wrap16(self.sp - 1);
        VmView { sp, ..self }.set_mem(sp, v)
    }

    /// The word at `SP` is read, and `SP` goes up by one, modulo 65536.
    pub open spec fn pop(self) -> (VmView, u16) {
        (VmView { sp: wrap16(self.sp + 1), ..self }, self.mem(self.sp))
    }

    /// True for the operands that can be read: all but `PUSH` and the
    /// label forms.
    pub open spec fn readable(a: OperandView) -> bool {
        !a.has_label() && !(a is Push)
    }

    /// True for the operands that can be written: all but `POP` and the
    /// label forms.
    pub open spec fn writable(b: OperandView) -> bool {
        !b.has_label() && !(b is Pop)
    }

    /// The value of a source operand, and the machine after reading it:
    /// only `POP` changes the machine.
    pub open spec fn read(self, a: OperandView) -> (VmView, u16) {
        match a {
            OperandView::Register(r) => (self, self.reg(r)),
            OperandView::RegisterDeref(r) => (self, self.mem(self.reg(r))),
            OperandView::RegisterPlusDeref(r, n) => (self, self.mem(wrap16(self.reg(r) + n))),
            OperandView::Pop => self.pop(),
            OperandView::Peek => (self, self.mem(self.sp)),
            OperandView::Pick(n) => (self, self.mem(wrap16(self.sp + n))),
            OperandView::Sp => (self, self.sp),
            OperandView::Pc => (self, self.pc),
            OperandView::Ex => (self, self.ex),
            OperandView::Literal(n) => (self, n),
            OperandView::LiteralDeref(n) => (self, self.mem(n)),
            _ => (self, 0),
        }
    }

    /// The place that a destination operand names, and the machine after
    /// finding it: only `PUSH` changes the machine. A literal names the
    /// dead zone.
    pub open spec fn target(self, b: OperandView) -> (VmView, WriteTarget) {
        match b {
            OperandView::Register(r) => (self, WriteTarget::Register(r)),
            OperandView::RegisterDeref(r) => (self, WriteTarget::Ram(self.reg(r))),
            OperandView::RegisterPlusDeref(r, n) => (
                self,
                WriteTarget::Ram(wrap16(self.reg(r) + n)),
            ),
            OperandView::Push => {
                let sp = wrap16(self.sp - 1);
                (VmView { sp, ..self }, WriteTarget::Ram(sp))
            },
            OperandView::Peek => (self, WriteTarget::Ram(self.sp)),
            OperandView::Pick(n) => (self, WriteTarget::Ram(wrap16(self.sp + n))),
            OperandView::Sp => (self, WriteTarget::Sp),
            OperandView::Pc => (self, WriteTarget::Pc),
            OperandView::Ex => (self, WriteTarget::Ex),
            OperandView::LiteralDeref(n) => (self, WriteTarget::Ram(n)),
            _ => (self, WriteTarget::DeadZone),
        }
    }

    /// The word at a place.
    pub open spec fn load(self, t: WriteTarget) -> u16 {
        match t {
            WriteTarget::Register(r) => self.reg(r),
            WriteTarget::Ram(addr) => self.mem(addr),
            WriteTarget::Pc => self.pc,
            WriteTarget::Sp => self.sp,
            WriteTarget::Ex => self.ex,
            WriteTarget::DeadZone => self.dead_zone,
        }
    }

    /// The machine after storing a word at a place.
    pub open spec fn store(self, t: WriteTarget, v: u16) -> VmView {
        match t {
            WriteTarget::Register(r) => self.set_reg(r, v),
            WriteTarget::Ram(addr) => self.set_mem(addr, v),
            WriteTarget::Pc => VmView { pc: v, ..self },
            WriteTarget::Sp => VmView { sp: v, ..self },
            WriteTarget::Ex => VmView { ex: v, ..self },
            WriteTarget::DeadZone => VmView { dead_zone: v, ..self },
        }
    }

    /// The machine with one more message in the interrupt queue.
    pub open spec fn enqueue(self, msg: u16) -> VmView {
        VmView { exposed: self.exposed.enqueue(msg), ..self }
    }

    /// What the two-operand instruction `op b, a` of `1 + n` words does.
    /// Operand `a` is read first, then the place of operand `b` is found.
    /// A conditional instruction stores nothing; if its condition fails,
    /// it skips. Any other stores the result to `b`, then EX where the
    /// opcode writes it, and `STI` and `STD` then move I and J.
    #[verifier::opaque]
    pub open spec fn exec_binary(self, op: BinaryOp, b: OperandView, a: OperandView, n: nat)
        -> Result<Executed, DcpuVMError> {
        let (s1, av) = self.read(a);
        let (s2, t) = s1.target(b);
        let bv = s2.load(t);
        if op.spec_is_branch() {
            if branch_passes(op, bv, av) {
                Ok(
                    Executed {
                        state: s2,
                        cost: spec_binary_cost(op) + n,
                        jumped: false,
                        advance: 1 + n,
                        device: None,
                    },
                )
            } else {
                match skip_chain(self.exposed.ram, self.pc + 1 + n, 0x10000) {
                    Err(e) => Err(DcpuVMError::DisassemblyFailed(DcpuError { reason: e })),
                    Ok((k, w)) => Ok(
                        Executed {
                            state: s2,
                            cost: spec_binary_cost(op) + n + k,
                            jumped: false,
                            advance: 1 + n + w,
                            device: None,
                        },
                    ),
                }
            }
        } else {
            let (nv, nex) = alu(op, bv, av, s2.ex);
            let s3 = s2.store(t, nv);
            let s4 = match nex {
                Some(e) => VmView { ex: e, ..s3 },
                None => s3,
            };
            let s5 = match op {
                BinaryOp::STI => s4.set_reg(Register::I, wrap16(s4.reg(Register::I) + 1)).set_reg(
                    Register::J,
                    wrap16(s4.reg(Register::J) + 1),
                ),
                BinaryOp::STD => s4.set_reg(Register::I, wrap16(s4.reg(Register::I) - 1)).set_reg(
                    Register::J,
                    wrap16(s4.reg(Register::J) - 1),
                ),
                _ => s4,
            };
            Ok(
                Executed {
                    state: s5,
                    cost: spec_binary_cost(op) + n,
                    jumped: t == WriteTarget::Pc,
                    advance: 1 + n,
                    device: None,
                },
            )
        }
    }

    /// The registers after `HWQ` for the device with identity `info`.
    pub open spec fn load_identity(self, info: HardwareInfo) -> VmView {
        self.set_reg(Register::A, wrap16(info.model as int)).set_reg(
            Register::B,
            wrap16(info.model as int / 0x10000),
        ).set_reg(Register::C, info.version).set_reg(
            Register::X,
            wrap16(info.manufacturer as int),
        ).set_reg(Register::Y, wrap16(info.manufacturer as int / 0x10000))
    }

    /// What the one-operand instruction `op a` of `1 + n` words does.
    /// `IAG` and `HWN` write to their operand and fail on `POP`, `RFI`
    /// ignores its operand, the others read it.
    #[verifier::opaque]
    pub open spec fn exec_special(self, op: SpecialOp, a: OperandView, n: nat) -> Result<
        Executed,
        DcpuVMError,
    > {
        match op {
            SpecialOp::JSR => {
                let (s1, av) = self.read(a);
                let s2 = s1.push(wrap16(self.pc + 1 + n));
                Ok(
                    Executed {
                        state: VmView { pc: av, ..s2 },
                        cost: 3 + n,
                        jumped: true,
                        advance: 1 + n,
                        device: None,
                    },
                )
            },
            SpecialOp::INT => {
                let (s1, av) = self.read(a);
                Ok(
                    Executed {
                        state: s1.enqueue(av),
                        cost: 4 + n,
                        jumped: false,
                        advance: 1 + n,
                        device: None,
                    },
                )
            },
            SpecialOp::IAG => if a is Pop {
                Err(DcpuVMError::PopInBOp)
            } else {
                let (s1, t) = self.target(a);
                Ok(
                    Executed {
                        state: s1.store(t, self.ia),
                        cost: 1 + n,
                        jumped: t == WriteTarget::Pc,
                        advance: 1 + n,
                        device: None,
                    },
                )
            },
            SpecialOp::IAS => {
                let (s1, av) = self.read(a);
                Ok(
                    Executed {
                        state: VmView { ia: av, ..s1 },
                        cost: 1 + n,
                        jumped: false,
                        advance: 1 + n,
                        device: None,
                    },
                )
            },
            SpecialOp::RFI => {
                let (s1, va) = VmView { iaq: false, ..self }.pop();
                let (s2, vpc) = s1.set_reg(Register::A, va).pop();
                Ok(
                    Executed {
                        state: VmView { pc: vpc, in_interrupt: false, ..s2 },
                        cost: 3,
                        jumped: true,
                        advance: 1 + n,
                        device: None,
                    },
                )
            },
            SpecialOp::IAQ => {
                let (s1, av) = self.read(a);
                Ok(
                    Executed {
                        state: VmView { iaq: av != 0, ..s1 },
                        cost: 2 + n,
                        jumped: false,
                        advance: 1 + n,
                        device: None,
                    },
                )
            },
            SpecialOp::HWN => if a is Pop {
                Err(DcpuVMError::PopInBOp)
            } else {
                let (s1, t) = self.target(a);
                Ok(
                    Executed {
                        state: s1.store(t, self.hardware.len() as u16),
                        cost: 2 + n,
                        jumped: t == WriteTarget::Pc,
                        advance: 1 + n,
                        device: None,
                    },
                )
            },
            SpecialOp::HWQ => {
                let (s1, av) = self.read(a);
                Ok(
                    Executed {
                        state: if av < self.hardware.len() {
                            s1.load_identity(self.hardware[av as int])
                        } else {
                            s1
                        },
                        cost: 4 + n,
                        jumped: false,
                        advance: 1 + n,
                        device: None,
                    },
                )
            },
            SpecialOp::HWI => {
                let (s1, av) = self.read(a);
                Ok(
                    Executed {
                        state: s1,
                        cost: 4 + n,
                        jumped: false,
                        advance: 1 + n,
                        device: if av < self.hardware.len() {
                            Some(av as int)
                        } else {
                            None
                        },
                    },
                )
            },
        }
    }

    /// What the instruction at PC does, or why the machine cannot execute
    /// it: the machine is on fire, the instruction cannot be decoded, it
    /// writes to `POP`, or an instruction that it skips cannot be decoded.
    pub open spec fn execute(self) -> Result<Executed, DcpuVMError> {
        if self.exposed.on_fire {
            Err(DcpuVMError::OnFire)
        } else {
            match decode_at(self.exposed.ram, self.pc as int) {
                Err(e) => Err(DcpuVMError::DisassemblyFailed(DcpuError { reason: e })),
                Ok((op, n)) => match op {
                    OpcodeView::Binary(o, b, a) => self.exec_binary(o, b, a, n),
                    OpcodeView::Special(o, a) => self.exec_special(o, a, n),
                },
            }
        }
    }

    /// True if an interrupt is delivered now: the machine is not in a
    /// handler, a message waits, IA is set and queueing is off.
    pub open spec fn delivers(self) -> bool {
        !self.in_interrupt && self.exposed.interrupts.len() > 0 && self.ia != 0 && !self.iaq
    }

    /// The machine after the oldest message has left the queue and its
    /// handler has been entered: PC and then A are pushed, PC is IA, A is
    /// the message.
    pub open spec fn inject(self) -> VmView {
        let msg = self.exposed.interrupts[0];
        let s1 = VmView {
            exposed: ExposedView { interrupts: self.exposed.interrupts.remove(0), ..self.exposed },
            ..self
        };
        let s2 = s1.push(self.pc).push(self.reg(Register::A));
        VmView { pc: self.ia, in_interrupt: true, ..s2 }.set_reg(Register::A, msg)
    }

    /// The machine after at most one interrupt has been delivered.
    pub open spec fn deliver(self) -> VmView {
        if self.delivers() {
            self.inject()
        } else {
            self
        }
    }

    /// The end of a step, from the machine `self` as the instruction (and
    /// the device that it called, which reported `reported` cycles) left
    /// it: the cycles are counted, PC moves on unless the instruction
    /// wrote it, and at most one interrupt is delivered.
    pub open spec fn finish(self, e: Executed, reported: nat) -> VmView {
        VmView {
            pc: if e.jumped {
                self.pc
            } else {
                wrap16(self.pc + e.advance)
            },
            exposed: ExposedView {
                cycles: self.exposed.cycles + e.cost + reported,
                ..self.exposed
            },
            ..self
        }.deliver()
    }
}

/// The machine after a reset that keeps `clock_rate` and the devices
/// `hardware`: every register and every word of memory is zero, the queue
/// is empty, and the machine is neither on fire nor in a handler.
pub open spec fn cleared(clock_rate: nat, hardware: Seq<HardwareInfo>) -> VmView {
    VmView {
        exposed: ExposedView {
            registers: Seq::new(8, |i: int| 0u16),
            ram: Seq::new(0x10000, |i: int| 0u16),
            interrupts: Seq::empty(),
            cycles: 0,
            clock_rate,
            on_fire: false,
        },
        pc: 0,
        sp: 0,
        ia: 0,
        ex: 0,
        dead_zone: 0,
        in_interrupt: false,
        iaq: false,
        hardware,
    }
}

/// Memory after the words of `program` have been written from address
/// `org` on.
pub open spec fn loaded(ram: Seq<u16>, program: Seq<u16>, org: int) -> Seq<u16> {
    Seq::new(
        ram.len(),
        |i: int|
            if org <= i < org + program.len() {
                program[i - org]
            } else {
                ram[i]
            },
    )
}

/// What an executed instruction leaves for the end of the step.
struct Effect {
    cost: usize,
    jumped: bool,
    advance: usize,
    reported: usize,
}

impl Effect {
    spec fn matches(self, ex: Executed) -> bool {
        self.cost == ex.cost && self.jumped == ex.jumped && self.advance == ex.advance
    }
}

/// A DCPU-16 with its attached devices.
pub struct VirtualMachine {
    exposed: VMExposed,
    pc: u16,
    sp: u16,
    ia: u16,
    ex: u16,
    dead_zone: u16,
    hardware: Vec<Box<dyn Hardware>>,
    hw_info: Vec<HardwareInfo>,
    in_interrupt: bool,
    iaq: bool,
}

impl View for VirtualMachine {
    type V = VmView;

    closed spec fn view(&self) -> VmView {
        VmView {
            exposed: self.exposed@,
            pc: self.pc,
            sp: self.sp,
            ia: self.ia,
            ex: self.ex,
            dead_zone: self.dead_zone,
            in_interrupt: self.in_interrupt,
            iaq: self.iaq,
            hardware: self.hw_info@,
        }
    }
}

/// A vector of `n` zero words.
fn zeroed(n: usize) -> (v: Vec<u16>)
    ensures
        v@ == Seq::new(n as nat, |i: int| 0u16),
{
    let mut v: Vec<u16> = Vec::new();
    let mut i: usize = 0;
    while i < n
        invariant
            i <= n,
            v@ == Seq::new(i as nat, |j: int| 0u16),
        decreases n - i,
    {
        v.push(0);
        i = i + 1;
        assert(v@ =~= Seq::new(i as nat, |j: int| 0u16));
    }
    v
}

fn rollover_inc(i: u16) -> (r: u16)
    ensures
        r == wrap16(i + 1),
{
    if i == 0xffff {
        0
    } else {
        i + 1
    }
}

fn rollover_dec(i: u16) -> (r: u16)
    ensures
        r == wrap16(i - 1),
{
    if i == 0 {
        0xffff
    } else {
        i - 1
    }
}

/// The sum of two words modulo 65536.
fn wrapping_sum(x: u16, y: u16) -> (r: u16)
    ensures
        r == wrap16(x + y),
{
    ((x as u32 + y as u32) % 0x10000) as u16
}

impl VirtualMachine {
    /// The machine's own invariant: its value is well formed
    /// ([`VmView::wf`]), and it holds one identity for each device.
    pub closed spec fn wf(&self) -> bool {
        self@.wf() && self.hardware@.len() == self.hw_info@.len()
    }

    /// A well-formed machine has a well-formed value.
    pub proof fn lemma_wf(&self)
        requires
            self.wf(),
        ensures
            self@.wf(),
    {
    }

    /// A machine with every register and every word of memory zero, no
    /// device, and a clock rate of 100 kHz.
    pub fn new() -> (vm: Self)
        ensures
            vm@ == cleared(100000, Seq::empty()),
            vm.wf(),
    {
        let vm = VirtualMachine {
            exposed: VMExposed {
                registers: zeroed(8),
                ram: zeroed(RAM_SIZE),
                interrupts: Vec::new(),
                cycles: 0,
                clock_rate: DEFAULT_CLOCK_RATE,
                on_fire: false,
            },
            pc: 0,
            sp: 0,
            ia: 0,
            ex: 0,
            dead_zone: 0,
            hardware: Vec::new(),
            hw_info: Vec::new(),
            iaq: false,
            in_interrupt: false,
        };
        vm
    }

    fn push_stack(&mut self, data: u16)
        requires
            old(self).wf(),
        ensures
            final(self)@ == old(self)@.push(data),
            final(self).wf(),
    {
        self.sp = rollover_dec(self.sp);
        self.exposed.ram[self.sp as usize] = data;
    }

    fn pop_stack(&mut self) -> (ret: u16)
        requires
            old(self).wf(),
        ensures
            (final(self)@, ret) == old(self)@.pop(),
            final(self).wf(),
    {
        let ret: u16 = self.exposed.ram[self.sp as usize];
        self.sp = rollover_inc(self.sp);
        ret
    }

    /// Reads a source operand. `POP` moves SP; `PUSH` cannot be read.
    fn resolve_memory_read(&mut self, op: &Operand) -> (r: Result<u16, DcpuVMError>)
        requires
            old(self).wf(),
            !op@.has_label(),
        ensures
            final(self).wf(),
            match r {
                Ok(v) => VmView::readable(op@) && (final(self)@, v) == old(self)@.read(op@),
                Err(e) => op@ is Push && e == DcpuVMError::PushInAOp && final(self)@ == old(self)@,
            },
    {
        match op {
            Operand::Register(reg) => Ok(self.exposed.registers[reg.index()]),
            Operand::RegisterDeref(reg) => {
                let addr: u16 = self.exposed.registers[reg.index()];
                Ok(self.exposed.ram[addr as usize])
            },
            Operand::RegisterPlusDeref(reg, plus) => {
                let addr: u16 = wrapping_sum(self.exposed.registers[reg.index()], *plus);
                Ok(self.exposed.ram[addr as usize])
            },
            Operand::Peek => Ok(self.exposed.ram[self.sp as usize]),
            Operand::Pick(n) => {
                let addr: u16 = wrapping_sum(self.sp, *n);
                Ok(self.exposed.ram[addr as usize])
            },
            Operand::Pc => Ok(self.pc),
            Operand::Sp => Ok(self.sp),
            Operand::Ex => Ok(self.ex),
            Operand::LiteralDeref(n) => Ok(self.exposed.ram[*n as usize]),
            Operand::Literal(n) => Ok(*n),
            Operand::Pop => {
                let n: u16 = self.pop_stack();
                Ok(n)
            },
            Operand::Push => Err(DcpuVMError::PushInAOp),
            _ => Ok(0),
        }
    }

    /// Finds the place that a destination operand names. `PUSH` moves SP;
    /// `POP` names no place.
    fn resolve_memory_write(&mut self, op: &Operand) -> (r: Result<WriteTarget, DcpuVMError>)
        requires
            old(self).wf(),
            !op@.has_label(),
        ensures
            final(self).wf(),
            match r {
                Ok(t) => VmView::writable(op@) && (final(self)@, t) == old(self)@.target(op@),
                Err(e) => op@ is Pop && e == DcpuVMError::PopInBOp && final(self)@ == old(self)@,
            },
    {
        match op {
            Operand::Register(reg) => Ok(WriteTarget::Register(*reg)),
            Operand::RegisterDeref(reg) => Ok(
                WriteTarget::Ram(self.exposed.registers[reg.index()]),
            ),
            Operand::RegisterPlusDeref(reg, plus) => Ok(
                WriteTarget::Ram(wrapping_sum(self.exposed.registers[reg.index()], *plus)),
            ),
            Operand::Peek => Ok(WriteTarget::Ram(self.sp)),
            Operand::Pick(n) => Ok(WriteTarget::Ram(wrapping_sum(self.sp, *n))),
            Operand::Pc => Ok(WriteTarget::Pc),
            Operand::Sp => Ok(WriteTarget::Sp),
            Operand::Ex => Ok(WriteTarget::Ex),
            Operand::LiteralDeref(n) => Ok(WriteTarget::Ram(*n)),
            Operand::Literal(_) => Ok(WriteTarget::DeadZone),
            Operand::Pop => Err(DcpuVMError::PopInBOp),
            Operand::Push => {
                self.sp = rollover_dec(self.sp);
                Ok(WriteTarget::Ram(self.sp))
            },
            _ => Ok(WriteTarget::DeadZone),
        }
    }

    /// The word at a place.
    fn load(&self, t: WriteTarget) -> (v: u16)
        requires
            self.wf(),
        ensures
            v == self@.load(t),
    {
        match t {
            WriteTarget::Register(r) => self.exposed.registers[r.index()],
            WriteTarget::Ram(addr) => self.exposed.ram[addr as usize],
            WriteTarget::Pc => self.pc,
            WriteTarget::Sp => self.sp,
            WriteTarget::Ex => self.ex,
            WriteTarget::DeadZone => self.dead_zone,
        }
    }

    /// Stores a word at a place.
    fn store(&mut self, t: WriteTarget, v: u16)
        requires
            old(self).wf(),
        ensures
            final(self)@ == old(self)@.store(t, v),
            final(self).wf(),
    {
        match t {
            WriteTarget::Register(r) => {
                self.exposed.registers[r.index()] = v;
            },
            WriteTarget::Ram(addr) => {
                self.exposed.ram[addr as usize] = v;
            },
            WriteTarget::Pc => {
                self.pc = v;
            },
            WriteTarget::Sp => {
                self.sp = v;
            },
            WriteTarget::Ex => {
                self.ex = v;
            },
            WriteTarget::DeadZone => {
                self.dead_zone = v;
            },
        }
    }

    fn set_register(&mut self, r: Register, v: u16)
        requires
            old(self).wf(),
        ensures
            final(self)@ == old(self)@.set_reg(r, v),
            final(self).wf(),
    {
        self.exposed.registers[r.index()] = v;
    }

    /// Decodes the instruction at address `addr` modulo 65536.
    fn decode_from(&self, addr: usize) -> (r: Result<(Opcode, usize), DcpuVMError>)
        requires
            self.wf(),
        ensures
            match r {
                Ok((op, n)) => decode_at(self@.exposed.ram, addr as int) == Ok::<
                    (OpcodeView, nat),
                    DcpuErrorKind,
                >((op@, n as nat)) && n <= 2 && op@.label_free() && !(op@.a() is Push)
                    && op@.b() != Some(OperandView::Pop),
                Err(e) => decode_at(self@.exposed.ram, addr as int) matches Err(k)
                    && e == DcpuVMError::DisassemblyFailed(DcpuError { reason: k }),
            },
    {
        let mut itr = MemIterator::new(&self.exposed.ram, addr, RAM_SIZE - 1);
        let ghost ram = self@.exposed.ram;
        let ghost first = itr;
        proof {
            lemma_mem_iterator_ahead(first, 0);
        }
        let inst: u16 = match itr.next() {
            Some(i) => i,
            None => {
                return Err(
                    DcpuVMError::DisassemblyFailed(
                        DcpuError { reason: DcpuErrorKind::EmptyIterator },
                    ),
                );
            },
        };
        proof {
            let m = 0x10000int;
            lemma_mem_iterator_ahead(itr, 0);
            lemma_mem_iterator_ahead(itr, 1);
            vstd::arithmetic::div_mod::lemma_add_mod_noop(addr as int, 1, m);
            vstd::arithmetic::div_mod::lemma_add_mod_noop(addr as int + 1, 1, m);
            vstd::arithmetic::div_mod::lemma_small_mod(1, m as nat);
            vstd::arithmetic::div_mod::lemma_mod_twice(addr as int + 1, m);
            assert(itr.position() == (addr as int + 1) % m);
            assert(itr.ahead(0) == Some(ram[(addr as int + 1) % m]));
            assert(itr.ahead(1) == Some(ram[(addr as int + 2) % m]));
            lemma_decode_count(inst, itr.ahead(0), itr.ahead(1));
        }
        match disassm_one(inst, &mut itr) {
            Ok((op, n)) => Ok((op, n)),
            Err(e) => Err(DcpuVMError::DisassemblyFailed(e)),
        }
    }

    /// Decodes the instruction at PC.
    fn get_instruction(&self) -> (r: Result<(Opcode, usize), DcpuVMError>)
        requires
            self.wf(),
        ensures
            match r {
                Ok((op, n)) => decode_at(self@.exposed.ram, self@.pc as int) == Ok::<
                    (OpcodeView, nat),
                    DcpuErrorKind,
                >((op@, n as nat)) && n <= 2 && op@.label_free() && !(op@.a() is Push)
                    && op@.b() != Some(OperandView::Pop),
                Err(e) => decode_at(self@.exposed.ram, self@.pc as int) matches Err(k)
                    && e == DcpuVMError::DisassemblyFailed(DcpuError { reason: k }),
            },
    {
        self.decode_from(self.pc as usize)
    }

    /// Finds what a failed condition skips, from the instruction `off`
    /// words after PC on: the number of instructions and of words.
    fn skip(&self, off: usize) -> (r: Result<(usize, usize), DcpuVMError>)
        requires
            self.wf(),
            off <= 3,
        ensures
            match r {
                Ok((k, w)) => skip_chain(self@.exposed.ram, self@.pc + off, 0x10000) == Ok::<
                    (nat, nat),
                    DcpuErrorKind,
                >((k as nat, w as nat)) && k <= 0x10000 && w <= 0x30000,
                Err(e) => skip_chain(self@.exposed.ram, self@.pc + off, 0x10000) matches Err(k)
                    && e == DcpuVMError::DisassemblyFailed(DcpuError { reason: k }),
            },
    {
        let mut skipped: usize = 0;
        let mut count: usize = 0;
        let start: usize = self.pc as usize + off;
        let ghost ram = self@.exposed.ram;
        while skipped < SKIP_LIMIT
            invariant
                self.wf(),
                ram == self@.exposed.ram,
                start == self@.pc + off,
                off <= 3,
                skipped <= 0x10000,
                count <= 3 * skipped,
                skip_chain(ram, start as int, 0x10000) == (match skip_chain(
                    ram,
                    start + count,
                    (0x10000 - skipped) as nat,
                ) {
                    Err(e) => Err(e),
                    Ok((k, w)) => Ok(((skipped + k) as nat, (count + w) as nat)),
                }),
            decreases 0x10000 - skipped,
        {
            match self.decode_from(start + count) {
                Err(e) => {
                    return Err(e);
                },
                Ok((op, n)) => {
                    let branch: bool = match op.parts() {
                        OpcodeParts::Binary(o, _, _) => o.is_branch(),
                        OpcodeParts::Special(_, _) => false,
                    };
                    count = count + n + 1;
                    skipped = skipped + 1;
                    if !branch {
                        return Ok((skipped, count));
                    }
                },
            }
        }
        Ok((skipped, count))
    }

    /// Delivers the oldest waiting interrupt if one is due
    /// ([`VmView::deliver`]). A step ends with this; a host may call it
    /// between steps as well.
    pub fn handle_interrupts(&mut self)
        requires
            old(self).wf(),
        ensures
            final(self)@ == old(self)@.deliver(),
            final(self).wf(),
    {
        if self.in_interrupt || self.ia == 0 || self.iaq || self.exposed.interrupts.len() == 0 {
            return ;
        }
        let msg: u16 = self.exposed.interrupts.remove(0);
        let a: u16 = self.exposed.registers[Register::A.index()];
        let pc: u16 = self.pc;
        self.push_stack(pc);
        self.push_stack(a);
        self.pc = self.ia;
        self.in_interrupt = true;
        self.set_register(Register::A, msg);
    }

    /// Ends a step: counts the cycles, moves PC on by `advance` words
    /// unless the instruction wrote it, and delivers at most one interrupt.
    fn finish_step(&mut self, cost: usize, jumped: bool, advance: usize)
        requires
            old(self).wf(),
            old(self)@.exposed.cycles + cost <= usize::MAX,
            advance <= 0x40000,
        ensures
            final(self).wf(),
            final(self)@.hardware == old(self)@.hardware,
            final(self)@.exposed.cycles == old(self)@.exposed.cycles + cost,
            forall|e: Executed, reported: nat|
                e.jumped == jumped && e.advance == advance && e.cost + reported == cost ==> final(self)@ == #[trigger] old(self)@.finish(e, reported),
    {
        self.exposed.cycles = self.exposed.cycles + cost;
        if !jumped {
            self.pc = ((self.pc as usize + advance) % RAM_SIZE) as u16;
        }
        self.handle_interrupts();
    }

    /// Executes the two-operand instruction `kind b, a`, which has
    /// `count` words after its first.
    fn execute_binary(&mut self, kind: BinaryOp, b: &Operand, a: &Operand, count: usize) -> (r:
        Result<Effect, DcpuVMError>)
        requires
            old(self).wf(),
            count <= 2,
            VmView::readable(a@),
            VmView::writable(b@),
        ensures
            final(self).wf(),
            final(self)@.hardware == old(self)@.hardware,
            final(self)@.exposed.cycles == old(self)@.exposed.cycles,
            r matches Ok(d) ==> 1 <= d.cost <= 0x10010 && d.advance <= 0x30010,
            match r {
                Err(e) => old(self)@.exec_binary(kind, b@, a@, count as nat) == Err::<
                    Executed,
                    DcpuVMError,
                >(e) && final(self)@ == old(self)@,
                Ok(d) => old(self)@.exec_binary(kind, b@, a@, count as nat) matches Ok(ex)
                    && final(self)@ == ex.state && d.matches(ex) && d.reported == 0
                    && ex.device is None,
            },
    {
        let ghost pre = self@;
        proof {
            reveal(VmView::exec_binary);
        }
        let start_sp: u16 = self.sp;
        let mut cost: usize = count + binary_cost(kind);
        let mut jumped: bool = false;
        let mut advance: usize = 1 + count;
        let av: u16 = match self.resolve_memory_read(a) {
            Ok(v) => v,
            Err(e) => {
                return Err(e);
            },
        };
        let t: WriteTarget = match self.resolve_memory_write(b) {
            Ok(t) => t,
            Err(e) => {
                self.sp = start_sp;
                return Err(e);
            },
        };
        let bv: u16 = self.load(t);
        proof {
            lemma_operands_keep(pre, a@, b@);
            lemma_operands_keep(pre.read(a@).0, a@, b@);
        }
        if kind.is_branch() {
            if !test_branch(kind, bv, av) {
                match self.skip(count + 1) {
                    Err(e) => {
                        self.sp = start_sp;
                        return Err(e);
                    },
                    Ok((k, w)) => {
                        cost = cost + k;
                        advance = advance + w;
                    },
                }
            }
        } else {
            let (nv, nex) = compute(kind, bv, av, self.ex);
            self.store(t, nv);
            match nex {
                Some(e) => {
                    self.ex = e;
                },
                None => {},
            }
            match kind {
                BinaryOp::STI => {
                    let i: u16 = self.exposed.registers[Register::I.index()];
                    self.set_register(Register::I, rollover_inc(i));
                    let j: u16 = self.exposed.registers[Register::J.index()];
                    self.set_register(Register::J, rollover_inc(j));
                },
                BinaryOp::STD => {
                    let i: u16 = self.exposed.registers[Register::I.index()];
                    self.set_register(Register::I, rollover_dec(i));
                    let j: u16 = self.exposed.registers[Register::J.index()];
                    self.set_register(Register::J, rollover_dec(j));
                },
                _ => {},
            }
            jumped = match t {
                WriteTarget::Pc => true,
                _ => false,
            };
        }
        Ok(Effect { cost, jumped, advance, reported: 0 })
    }

    /// Loads the identity of the device with index `index`, if there is
    /// one, into A, B, C, X and Y.
    fn query_hardware(&mut self, index: u16)
        requires
            old(self).wf(),
        ensures
            final(self).wf(),
            final(self)@ == (if index < old(self)@.hardware.len() {
                old(self)@.load_identity(old(self)@.hardware[index as int])
            } else {
                old(self)@
            }),
    {
        if (index as usize) < self.hw_info.len() {
            let info: HardwareInfo = self.hw_info[index as usize];
            self.set_register(Register::A, (info.model % 0x10000) as u16);
            self.set_register(Register::B, (info.model / 0x10000) as u16);
            self.set_register(Register::C, info.version);
            self.set_register(Register::X, (info.manufacturer % 0x10000) as u16);
            self.set_register(Register::Y, (info.manufacturer / 0x10000) as u16);
        }
    }

    /// Lets the device with index `index`, if there is one, react to a
    /// hardware interrupt; returns the cycles that it reports.
    fn interrupt_hardware(&mut self, index: u16) -> (reported: usize)
        requires
            old(self).wf(),
            old(self)@.exposed.cycles + MAX_STEP_CYCLES <= usize::MAX,
        ensures
            final(self).wf(),
            final(self)@ == (VmView { exposed: final(self)@.exposed, ..old(self)@ }),
            device_may(old(self)@.exposed, final(self)@.exposed),
            old(self)@.exposed.cycles + HWI_CYCLES + reported <= usize::MAX,
            index >= old(self)@.hardware.len() ==> reported == 0 && final(self)@ == old(self)@,
    {
        if (index as usize) < self.hardware.len() {
            let ghost before = self.hardware@;
            let reported: usize = self.hardware[index as usize].hardware_interrupt(
                &mut self.exposed,
            );
            proof {
                vstd::seq::axiom_seq_update_len(before, index as int, self.hardware@[index as int]);
            }
            reported
        } else {
            proof {
                assert(self@.exposed.interrupts.subrange(
                    0,
                    self@.exposed.interrupts.len() as int,
                ) =~= self@.exposed.interrupts);
            }
            0
        }
    }

    /// Executes the one-operand instruction `kind a`, which has `count`
    /// words after its first.
    fn execute_special(&mut self, kind: SpecialOp, a: &Operand, count: usize) -> (r: Result<
        Effect,
        DcpuVMError,
    >)
        requires
            old(self).wf(),
            old(self)@.exposed.cycles + MAX_STEP_CYCLES <= usize::MAX,
            count <= 2,
            VmView::readable(a@),
        ensures
            final(self).wf(),
            final(self)@.hardware == old(self)@.hardware,
            final(self)@.exposed.cycles == old(self)@.exposed.cycles,
            r matches Ok(d) ==> 1 <= d.cost <= 6 && d.advance <= 3 && old(self)@.exposed.cycles
                + d.cost + d.reported <= usize::MAX,
            match r {
                Err(e) => old(self)@.exec_special(kind, a@, count as nat) == Err::<
                    Executed,
                    DcpuVMError,
                >(e) && final(self)@ == old(self)@,
                Ok(d) => old(self)@.exec_special(kind, a@, count as nat) matches Ok(ex)
                    && d.matches(ex) && final(self)@ == (VmView {
                    exposed: final(self)@.exposed,
                    ..ex.state
                }) && device_may(ex.state.exposed, final(self)@.exposed) && (ex.device is None
                    ==> d.reported == 0 && final(self)@ == ex.state),
            },
    {
        proof {
            reveal(VmView::exec_special);
        }
        let mut cost: usize = count;
        let mut jumped: bool = false;
        let mut reported: usize = 0;
        match kind {
            SpecialOp::JSR => {
                let ret: u16 = ((self.pc as usize + count + 1) % RAM_SIZE) as u16;
                let av: u16 = match self.resolve_memory_read(a) {
                    Ok(v) => v,
                    Err(e) => {
                        return Err(e);
                    },
                };
                self.push_stack(ret);
                self.pc = av;
                cost = cost + 3;
                jumped = true;
            },
            SpecialOp::INT => {
                let av: u16 = match self.resolve_memory_read(a) {
                    Ok(v) => v,
                    Err(e) => {
                        return Err(e);
                    },
                };
                self.exposed.interrupt(av);
                cost = cost + 4;
            },
            SpecialOp::IAG => {
                let ia: u16 = self.ia;
                let t: WriteTarget = match self.resolve_memory_write(a) {
                    Ok(t) => t,
                    Err(e) => {
                        return Err(e);
                    },
                };
                self.store(t, ia);
                cost = cost + 1;
                jumped = match t {
                    WriteTarget::Pc => true,
                    _ => false,
                };
            },
            SpecialOp::IAS => {
                let av: u16 = match self.resolve_memory_read(a) {
                    Ok(v) => v,
                    Err(e) => {
                        return Err(e);
                    },
                };
                self.ia = av;
                cost = cost + 1;
            },
            SpecialOp::RFI => {
                self.iaq = false;
                let va: u16 = self.pop_stack();
                self.set_register(Register::A, va);
                let vpc: u16 = self.pop_stack();
                self.pc = vpc;
                self.in_interrupt = false;
                cost = 3;
                jumped = true;
            },
            SpecialOp::IAQ => {
                let av: u16 = match self.resolve_memory_read(a) {
                    Ok(v) => v,
                    Err(e) => {
                        return Err(e);
                    },
                };
                self.iaq = av != 0;
                cost = cost + 2;
            },
            SpecialOp::HWN => {
                let hw_count: u16 = self.hw_info.len() as u16;
                let t: WriteTarget = match self.resolve_memory_write(a) {
                    Ok(t) => t,
                    Err(e) => {
                        return Err(e);
                    },
                };
                self.store(t, hw_count);
                cost = cost + 2;
                jumped = match t {
                    WriteTarget::Pc => true,
                    _ => false,
                };
            },
            SpecialOp::HWQ => {
                let av: u16 = match self.resolve_memory_read(a) {
                    Ok(v) => v,
                    Err(e) => {
                        return Err(e);
                    },
                };
                self.query_hardware(av);
                cost = cost + 4;
            },
            SpecialOp::HWI => {
                let av: u16 = match self.resolve_memory_read(a) {
                    Ok(v) => v,
                    Err(e) => {
                        return Err(e);
                    },
                };
                reported = self.interrupt_hardware(av);
                cost = cost + 4;
            },
        }
        proof {
            assert(self@.exposed.interrupts.subrange(0, self@.exposed.interrupts.len() as int)
                =~= self@.exposed.interrupts);
        }
        Ok(Effect { cost, jumped, advance: 1 + count, reported })
    }

    /// Executes the instruction at PC.
    ///
    /// On success the result is the number of cycles that the step cost,
    /// and the machine is as [`VmView::execute`] and [`VmView::finish`]
    /// say; where the instruction is a `HWI` that reaches a device, the
    /// device acts in between, within what [`device_may`] allows, and the
    /// cycles that it reports are added. On failure the machine is
    /// unchanged. A step costs at least one cycle and never lowers the
    /// count; it needs room for `MAX_STEP_CYCLES` in the counter.
    pub fn step(&mut self) -> (r: Result<usize, DcpuVMError>)
        requires
            old(self).wf(),
            old(self)@.exposed.cycles + MAX_STEP_CYCLES <= usize::MAX,
        ensures
            final(self).wf(),
            final(self)@.hardware == old(self)@.hardware,
            final(self)@.exposed.cycles >= old(self)@.exposed.cycles,
            r is Ok ==> final(self)@.exposed.cycles >= old(self)@.exposed.cycles + 1,
            match r {
                Err(e) => old(self)@.execute() == Err::<Executed, DcpuVMError>(e) && final(self)@ == old(self)@,
                Ok(c) => old(self)@.execute() matches Ok(ex) && c >= ex.cost && c
                    == final(self)@.exposed.cycles - old(self)@.exposed.cycles && (match ex.device {
                    None => final(self)@ == ex.state.finish(ex, 0) && c == ex.cost && c
                        <= MAX_STEP_CYCLES,
                    Some(i) => exists|mid: ExposedView| #[trigger]
                        device_may(ex.state.exposed, mid) && final(self)@ == (VmView {
                            exposed: mid,
                            ..ex.state
                        }).finish(ex, (c - ex.cost) as nat),
                }),
            },
    {
        if self.exposed.on_fire {
            return Err(DcpuVMError::OnFire);
        }
        let (op, count) = match self.get_instruction() {
            Ok(x) => x,
            Err(e) => {
                return Err(e);
            },
        };
        let ghost pre = self@;
        let done: Effect = match op.parts() {
            OpcodeParts::Binary(kind, b, a) => match self.execute_binary(kind, b, a, count) {
                Ok(d) => d,
                Err(e) => {
                    return Err(e);
                },
            },
            OpcodeParts::Special(kind, a) => match self.execute_special(kind, a, count) {
                Ok(d) => d,
                Err(e) => {
                    return Err(e);
                },
            },
        };
        let ghost ex = pre.execute()->Ok_0;
        let ghost mid = self@.exposed;
        self.finish_step(done.cost + done.reported, done.jumped, done.advance);
        proof {
            assert(self@ == (VmView { exposed: mid, ..ex.state }).finish(ex, done.reported as nat));
        }
        Ok(done.cost + done.reported)
    }

    /// The machine with PC set to `pc`.
    pub fn set_pc(self, pc: u16) -> (vm: Self)
        ensures
            vm@ == (VmView { pc, ..self@ }),
            self.wf() ==> vm.wf(),
    {
        let mut vm = self;
        vm.pc = pc;
        vm
    }

    /// The machine with SP set to `sp`.
    pub fn set_sp(self, sp: u16) -> (vm: Self)
        ensures
            vm@ == (VmView { sp, ..self@ }),
            self.wf() ==> vm.wf(),
    {
        let mut vm = self;
        vm.sp = sp;
        vm
    }

    /// The machine with IA, the address of the interrupt handler, set to
    /// `ia`.
    pub fn set_ia(self, ia: u16) -> (vm: Self)
        ensures
            vm@ == (VmView { ia, ..self@ }),
            self.wf() ==> vm.wf(),
    {
        let mut vm = self;
        vm.ia = ia;
        vm
    }

    /// The machine reset, with `program` in memory from address `org` on.
    pub fn load_program(self, program: &Vec<u16>, org: usize) -> (vm: Self)
        requires
            self.wf(),
            org + program@.len() <= 0x10000,
        ensures
            vm.wf(),
            vm@ == (VmView {
                exposed: ExposedView {
                    ram: loaded(Seq::new(0x10000, |i: int| 0u16), program@, org as int),
                    ..cleared(self@.exposed.clock_rate, self@.hardware).exposed
                },
                ..cleared(self@.exposed.clock_rate, self@.hardware)
            }),
    {
        let mut vm = self;
        vm.reset();
        let ghost zero = vm.exposed.ram@;
        let mut i: usize = 0;
        while i < program.len()
            invariant
                i <= program@.len(),
                org + program@.len() <= 0x10000,
                zero.len() == 0x10000,
                vm.wf(),
                vm.exposed.ram@ == loaded(zero, program@.subrange(0, i as int), org as int),
                vm@ == (VmView {
                    exposed: ExposedView {
                        ram: vm.exposed.ram@,
                        ..cleared(self@.exposed.clock_rate, self@.hardware).exposed
                    },
                    ..cleared(self@.exposed.clock_rate, self@.hardware)
                }),
            decreases program@.len() - i,
        {
            vm.exposed.ram[org + i] = program[i];
            i = i + 1;
            assert(vm.exposed.ram@ =~= loaded(zero, program@.subrange(0, i as int), org as int));
        }
        assert(program@.subrange(0, i as int) =~= program@);
        vm
    }

    /// The machine with one more device, unless it has 65535 already: the
    /// devices that it had stay in their order, and the new one comes
    /// last. Nothing else changes.
    pub fn attach_hardware(self, hardware: Box<dyn Hardware>) -> (vm: Self)
        requires
            self.wf(),
        ensures
            vm.wf(),
            vm@.exposed == self@.exposed,
            self@.hardware.len() >= 0xffff ==> vm@.hardware == self@.hardware,
            self@.hardware.len() < 0xffff ==> vm@.hardware.len() == self@.hardware.len() + 1
                && vm@.hardware.subrange(0, self@.hardware.len() as int) == self@.hardware
                && vm@.hardware.last() == hardware.info_spec(),
            vm@ == (VmView {
                hardware: if self@.hardware.len() == 0xffff {
                    self@.hardware
                } else {
                    self@.hardware.push(hardware.info_spec())
                },
                ..self@
            }),
    {
        let mut vm = self;
        if vm.hw_info.len() < 0xffff {
            let info: HardwareInfo = *hardware.info();
            proof {
                vstd::seq::axiom_seq_push_len(vm.hardware@, hardware);
            }
            vm.hardware.push(hardware);
            vm.hw_info.push(info);
            proof {
                assert(vm.hw_info@.subrange(0, self.hw_info@.len() as int) =~= self.hw_info@);
            }
        }
        vm
    }

    /// Memory, to read and to write. The machine needs it to keep its
    /// 65536 words.
    pub fn get_ram(&mut self) -> (ram: &mut Vec<u16>)
        ensures
            ram@ == old(self)@.exposed.ram,
            final(self)@ == (VmView {
                exposed: ExposedView { ram: final(ram)@, ..old(self)@.exposed },
                ..old(self)@
            }),
            old(self).wf() && final(ram)@.len() == 0x10000 ==> final(self).wf(),
    {
        &mut self.exposed.ram
    }

    /// The eight general registers, by register number, to read and to
    /// write.
    pub fn get_registers(&mut self) -> (registers: &mut [u16])
        ensures
            registers@ == old(self)@.exposed.registers,
            final(self)@ == (VmView {
                exposed: ExposedView { registers: final(registers)@, ..old(self)@.exposed },
                ..old(self)@
            }),
            old(self).wf() && final(registers)@.len() == 8 ==> final(self).wf(),
    {
        self.exposed.registers.as_mut_slice()
    }

    pub fn get_pc(&mut self) -> (pc: &mut u16)
        ensures
            *pc == old(self)@.pc,
            final(self)@ == (VmView { pc: *final(pc), ..old(self)@ }),
            old(self).wf() ==> final(self).wf(),
    {
        &mut self.pc
    }

    pub fn get_ex(&mut self) -> (ex: &mut u16)
        ensures
            *ex == old(self)@.ex,
            final(self)@ == (VmView { ex: *final(ex), ..old(self)@ }),
            old(self).wf() ==> final(self).wf(),
    {
        &mut self.ex
    }

    pub fn get_sp(&mut self) -> (sp: &mut u16)
        ensures
            *sp == old(self)@.sp,
            final(self)@ == (VmView { sp: *final(sp), ..old(self)@ }),
            old(self).wf() ==> final(self).wf(),
    {
        &mut self.sp
    }

    /// IA, the address of the interrupt handler; 0 means none.
    pub fn get_ia(&self) -> (ia: u16)
        ensures
            ia == self@.ia,
    {
        self.ia
    }

    pub fn get_clock_rate(&self) -> (c: usize)
        ensures
            c == self@.exposed.clock_rate,
    {
        self.exposed.clock_rate
    }

    /// The machine with its clock rate set to `cr` cycles per second.
    pub fn clock_rate(self, cr: usize) -> (vm: Self)
        ensures
            vm@ == (VmView {
                exposed: ExposedView { clock_rate: cr as nat, ..self@.exposed },
                ..self@
            }),
            self.wf() ==> vm.wf(),
    {
        let mut vm = self;
        vm.exposed.clock_rate = cr;
        vm
    }

    /// The cycles spent since the last reset.
    pub fn get_cycles(&self) -> (c: usize)
        ensures
            c == self@.exposed.cycles,
    {
        self.exposed.cycles
    }

    /// True once the interrupt queue has overflowed, until the next reset.
    pub fn is_on_fire(&self) -> (b: bool)
        ensures
            b == self@.exposed.on_fire,
    {
        self.exposed.on_fire
    }

    /// Lets every device act once, in the order of attachment. Only what
    /// devices can reach may change, and only as [`device_may`] allows; a
    /// machine without devices stays as it is.
    pub fn update_hardware(&mut self)
        requires
            old(self).wf(),
        ensures
            final(self).wf(),
            final(self)@ == (VmView { exposed: final(self)@.exposed, ..old(self)@ }),
            device_may(old(self)@.exposed, final(self)@.exposed),
            old(self)@.hardware.len() == 0 ==> final(self)@ == old(self)@,
    {
        let mut i: usize = 0;
        proof {
            assert(self@.exposed.interrupts.subrange(0, self@.exposed.interrupts.len() as int)
                =~= self@.exposed.interrupts);
        }
        while i < self.hardware.len()
            invariant
                self.wf(),
                self@ == (VmView { exposed: self@.exposed, ..old(self)@ }),
                device_may(old(self)@.exposed, self@.exposed),
                i <= self.hardware@.len(),
                self.hardware@.len() == self@.hardware.len(),
                i == 0 ==> self@ == old(self)@,
            decreases self.hardware@.len() - i,
        {
            let ghost before = self.hardware@;
            let ghost mid = self@.exposed;
            self.hardware[i].update(&mut self.exposed);
            proof {
                vstd::seq::axiom_seq_update_len(before, i as int, self.hardware@[i as int]);
                crate::hardware::device::lemma_device_may_transitive(
                    old(self)@.exposed,
                    mid,
                    self@.exposed,
                );
            }
            i = i + 1;
        }
    }

    /// Queues an interrupt message. The message that makes the queue
    /// longer than 256 sets the machine on fire; a machine on fire takes
    /// none.
    pub fn interrupt(&mut self, msg: u16)
        requires
            old(self).wf(),
        ensures
            final(self)@ == old(self)@.enqueue(msg),
            final(self).wf(),
    {
        self.exposed.interrupt(msg);
    }

    /// Back to the state of a new machine, but for the devices and the
    /// clock rate, which stay.
    pub fn reset(&mut self)
        ensures
            final(self)@ == cleared(old(self)@.exposed.clock_rate, old(self)@.hardware),
            old(self).wf() ==> final(self).wf(),
    {
        self.pc = 0;
        self.sp = 0;
        self.ia = 0;
        self.ex = 0;
        self.dead_zone = 0;
        self.exposed.registers = zeroed(8);
        self.exposed.ram = zeroed(RAM_SIZE);
        self.exposed.cycles = 0;
        self.exposed.interrupts.clear();
        self.exposed.on_fire = false;
        self.in_interrupt = false;
        self.iaq = false;
    }
}

/// Reading a source operand and finding the place of a destination operand
/// change nothing but SP.
pub proof fn lemma_operands_keep(s: VmView, a: OperandView, b: OperandView)
    ensures
        s.read(a).0 == (VmView { sp: s.read(a).0.sp, ..s }),
        s.target(b).0 == (VmView { sp: s.target(b).0.sp, ..s }),
{
}

/// In every state of the machine, every register and every word of
/// memory holds a value from 0 to 65535, and so do PC, SP, EX and IA.
pub proof fn lemma_words_in_range(s: VmView)
    ensures
        forall|i: int|
            0 <= i < s.exposed.registers.len() ==> 0 <= #[trigger] s.exposed.registers[i] <= 65535,
        forall|i: int| 0 <= i < s.exposed.ram.len() ==> 0 <= #[trigger] s.exposed.ram[i] <= 65535,
        0 <= s.pc <= 65535,
        0 <= s.sp <= 65535,
        0 <= s.ex <= 65535,
        0 <= s.ia <= 65535,
{
}

/// A two-operand instruction leaves the cycle count, the clock rate and
/// the devices to the end of the step.
proof fn lemma_binary_keeps_count(s: VmView, op: BinaryOp, b: OperandView, a: OperandView, n: nat)
    requires
        s.exec_binary(op, b, a, n) is Ok,
    ensures
        s.exec_binary(op, b, a, n)->Ok_0.state.exposed.cycles == s.exposed.cycles,
        s.exec_binary(op, b, a, n)->Ok_0.cost >= 1,
{
    reveal(VmView::exec_binary);
    lemma_operands_keep(s, a, b);
    lemma_operands_keep(s.read(a).0, a, b);
}

/// A one-operand instruction leaves the cycle count to the end of the
/// step.
proof fn lemma_special_keeps_count(s: VmView, op: SpecialOp, a: OperandView, n: nat)
    requires
        s.exec_special(op, a, n) is Ok,
    ensures
        s.exec_special(op, a, n)->Ok_0.state.exposed.cycles == s.exposed.cycles,
        s.exec_special(op, a, n)->Ok_0.cost >= 1,
{
    reveal(VmView::exec_special);
    lemma_operands_keep(s, a, a);
}

/// A step never lowers the cycle count, whatever the instruction does,
/// whatever a device reports and whether or not an interrupt is delivered:
/// it adds the cost of the instruction, which is at least one cycle, and
/// the cycles of the device.
pub proof fn lemma_step_counts_up(s: VmView, mid: ExposedView, reported: nat)
    requires
        s.wf(),
        s.execute() is Ok,
        device_may(s.execute()->Ok_0.state.exposed, mid),
    ensures
        s.execute()->Ok_0.cost >= 1,
        s.execute()->Ok_0.state.exposed.cycles == s.exposed.cycles,
        (VmView { exposed: mid, ..s.execute()->Ok_0.state }).finish(
            s.execute()->Ok_0,
            reported,
        ).exposed.cycles == s.exposed.cycles + s.execute()->Ok_0.cost + reported,
{
    match decode_at(s.exposed.ram, s.pc as int) {
        Ok((OpcodeView::Binary(o, b, a), n)) => {
            lemma_binary_keeps_count(s, o, b, a, n);
        },
        Ok((OpcodeView::Special(o, a), n)) => {
            lemma_special_keeps_count(s, o, a, n);
        },
        Err(_) => {},
    }
}

impl VmView {
    /// The machine after the messages `msgs` have been queued one after
    /// the other.
    pub open spec fn enqueue_all(self, msgs: Seq<u16>) -> VmView
        decreases msgs.len(),
    {
        if msgs.len() == 0 {
            self
        } else {
            self.enqueue_all(msgs.drop_last()).enqueue(msgs.last())
        }
    }

    /// The machine after `k` interrupts have been delivered one after the
    /// other.
    pub open spec fn deliveries(self, k: nat) -> VmView
        decreases k,
    {
        if k == 0 {
            self
        } else {
            self.deliveries((k - 1) as nat).inject()
        }
    }
}

/// Messages that are queued while the machine is not on fire, and that
/// fit into the queue, wait behind those that waited before, in the order
/// in which they came.
pub proof fn lemma_enqueue_all(s: VmView, msgs: Seq<u16>)
    requires
        !s.exposed.on_fire,
        s.exposed.interrupts.len() + msgs.len() <= 256,
    ensures
        s.enqueue_all(msgs) == (VmView {
            exposed: ExposedView {
                interrupts: s.exposed.interrupts + msgs,
                ..s.exposed
            },
            ..s
        }),
    decreases msgs.len(),
{
    if msgs.len() == 0 {
        assert(s.exposed.interrupts + msgs =~= s.exposed.interrupts);
    } else {
        lemma_enqueue_all(s, msgs.drop_last());
        assert((s.exposed.interrupts + msgs.drop_last()).push(msgs.last())
            =~= s.exposed.interrupts + msgs);
    }
}

/// Interrupts are delivered first in, first out: if the messages `msgs`
/// are queued on a machine whose queue is empty, then the handler that is
/// entered by the delivery number `k`, counting from 0, finds the message
/// `msgs[k]` in register A, and the messages after it still wait in their
/// order.
pub proof fn lemma_interrupt_fifo(s: VmView, msgs: Seq<u16>, k: nat)
    requires
        s.exposed.wf(),
        !s.exposed.on_fire,
        s.exposed.interrupts.len() == 0,
        msgs.len() <= 256,
        k < msgs.len(),
    ensures
        s.enqueue_all(msgs).deliveries(k).exposed.interrupts == msgs.skip(k as int),
        s.enqueue_all(msgs).deliveries(k + 1).reg(Register::A) == msgs[k as int],
        s.enqueue_all(msgs).deliveries(k + 1).exposed.interrupts == msgs.skip(k as int + 1),
    decreases k,
{
    lemma_enqueue_all(s, msgs);
    let start = s.enqueue_all(msgs);
    assert(s.exposed.interrupts + msgs =~= msgs);
    if k == 0 {
        assert(msgs.skip(0) =~= msgs);
    } else {
        lemma_interrupt_fifo(s, msgs, (k - 1) as nat);
    }
    let before = start.deliveries(k);
    lemma_deliveries_keep_registers(start, k);
    assert(before.exposed.interrupts == msgs.skip(k as int));
    assert(before.exposed.interrupts.remove(0) =~= msgs.skip(k as int + 1));
    assert(start.deliveries(k + 1) == before.inject());
}

/// Deliveries leave the register file with its eight registers.
proof fn lemma_deliveries_keep_registers(s: VmView, k: nat)
    requires
        s.exposed.registers.len() == 8,
    ensures
        s.deliveries(k).exposed.registers.len() == 8,
    decreases k,
{
    if k > 0 {
        lemma_deliveries_keep_registers(s, (k - 1) as nat);
    }
}

/// A delivery takes the oldest message and no other: the handler is
/// entered with that message in register A, the messages behind it wait
/// on in their order, and PC and the old A lie on the stack, A on top.
pub proof fn lemma_delivery_takes_oldest(s: VmView)
    requires
        s.exposed.wf(),
        s.delivers(),
    ensures
        s.deliver().reg(Register::A) == s.exposed.interrupts[0],
        s.deliver().exposed.interrupts == s.exposed.interrupts.skip(1),
        s.deliver().pc == s.ia,
        s.deliver().in_interrupt,
        s.deliver().sp == wrap16(s.sp - 2),
        s.deliver().mem(s.deliver().sp) == s.reg(Register::A),
        s.deliver().mem(wrap16(s.deliver().sp + 1)) == s.pc,
{
    assert(s.exposed.interrupts.remove(0) =~= s.exposed.interrupts.skip(1));
}

/// `RFI` ends a handler: A and then PC are taken from the stack, SP is
/// two words up, queueing is off, the machine is no longer in a handler,
/// and PC stays where the stack put it.
pub proof fn lemma_rfi_returns(h: VmView, a: OperandView, n: nat)
    requires
        h.exposed.wf(),
    ensures
        h.exec_special(SpecialOp::RFI, a, n) is Ok,
        h.exec_special(SpecialOp::RFI, a, n)->Ok_0.jumped,
        h.exec_special(SpecialOp::RFI, a, n)->Ok_0.state.reg(Register::A) == h.mem(h.sp),
        h.exec_special(SpecialOp::RFI, a, n)->Ok_0.state.pc == h.mem(wrap16(h.sp + 1)),
        h.exec_special(SpecialOp::RFI, a, n)->Ok_0.state.sp == wrap16(h.sp + 2),
        !h.exec_special(SpecialOp::RFI, a, n)->Ok_0.state.iaq,
        !h.exec_special(SpecialOp::RFI, a, n)->Ok_0.state.in_interrupt,
{
    reveal(VmView::exec_special);
}

/// A handler that leaves the stack as it found it returns to where the
/// machine was: `RFI` right after a delivery gives A, PC and SP the
/// values that they had before the delivery.
pub proof fn lemma_rfi_undoes_delivery(s: VmView, a: OperandView, n: nat)
    requires
        s.exposed.wf(),
        s.delivers(),
    ensures
        s.deliver().exec_special(SpecialOp::RFI, a, n) is Ok,
        s.deliver().exec_special(SpecialOp::RFI, a, n)->Ok_0.state.reg(Register::A) == s.reg(
            Register::A,
        ),
        s.deliver().exec_special(SpecialOp::RFI, a, n)->Ok_0.state.pc == s.pc,
        s.deliver().exec_special(SpecialOp::RFI, a, n)->Ok_0.state.sp == s.sp,
        !s.deliver().exec_special(SpecialOp::RFI, a, n)->Ok_0.state.in_interrupt,
{
    lemma_delivery_takes_oldest(s);
    lemma_rfi_returns(s.deliver(), a, n);
}

/// An arithmetic instruction never fails: every two-operand instruction
/// that is no condition executes, whatever its operands hold, and costs
/// its base cycles and one for each word after its first.
pub proof fn lemma_arithmetic_executes(
    s: VmView,
    op: BinaryOp,
    b: OperandView,
    a: OperandView,
    n: nat,
)
    requires
        !op.spec_is_branch(),
    ensures
        s.exec_binary(op, b, a, n) is Ok,
        s.exec_binary(op, b, a, n)->Ok_0.cost == spec_binary_cost(op) + n,
        s.exec_binary(op, b, a, n)->Ok_0.device is None,
{
    reveal(VmView::exec_binary);
}

/// What an arithmetic instruction stores to a register is the result
/// reduced modulo 65536: with a register other than I and J as operand
/// `b`, the register holds afterwards what [`alu`] gives for the values
/// of `b` and `a`, unless it is the one that `STI` and `STD` count.
pub proof fn lemma_arithmetic_stores(
    s: VmView,
    op: BinaryOp,
    r: Register,
    a: OperandView,
    n: nat,
)
    requires
        s.exposed.wf(),
        !op.spec_is_branch(),
        r != Register::I,
        r != Register::J,
    ensures
        s.exec_binary(op, OperandView::Register(r), a, n) is Ok,
        s.exec_binary(op, OperandView::Register(r), a, n)->Ok_0.state.reg(r) == alu(
            op,
            s.read(a).0.reg(r),
            s.read(a).1,
            s.ex,
        ).0,
        op == BinaryOp::STI ==> s.exec_binary(op, OperandView::Register(r), a, n)->Ok_0.state.reg(
            Register::I,
        ) == wrap16(s.reg(Register::I) + 1) && s.exec_binary(
            op,
            OperandView::Register(r),
            a,
            n,
        )->Ok_0.state.reg(Register::J) == wrap16(s.reg(Register::J) + 1),
        op == BinaryOp::STD ==> s.exec_binary(op, OperandView::Register(r), a, n)->Ok_0.state.reg(
            Register::I,
        ) == wrap16(s.reg(Register::I) - 1) && s.exec_binary(
            op,
            OperandView::Register(r),
            a,
            n,
        )->Ok_0.state.reg(Register::J) == wrap16(s.reg(Register::J) - 1),
{
    reveal(VmView::exec_binary);
    lemma_operands_keep(s, a, OperandView::Register(r));
}

/// Nothing is delivered while the machine is in a handler, while no
/// message waits, while IA is 0 and while queueing is on.
pub proof fn lemma_no_delivery(s: VmView)
    requires
        s.in_interrupt || s.exposed.interrupts.len() == 0 || s.ia == 0 || s.iaq,
    ensures
        s.deliver() == s,
{
}

/// A software interrupt on a machine that is ready for it is delivered at
/// the end of the same step: `INT a` on a machine with a handler, outside
/// a handler, with queueing off and no message waiting enters the handler
/// with the value of `a` in register A; the address of the instruction
/// after the `INT` and the old A lie on the stack, and no message waits.
pub proof fn lemma_software_interrupt(s: VmView, a: OperandView, n: nat)
    requires
        s.exposed.wf(),
        !s.exposed.on_fire,
        s.exposed.interrupts.len() == 0,
        s.ia != 0,
        !s.iaq,
        !s.in_interrupt,
    ensures
        s.exec_special(SpecialOp::INT, a, n) is Ok,
        ({
            let e = s.exec_special(SpecialOp::INT, a, n)->Ok_0;
            let after = e.state.finish(e, 0);
            &&& e.cost == 4 + n
            &&& after.pc == s.ia
            &&& after.in_interrupt
            &&& after.reg(Register::A) == s.read(a).1
            &&& after.exposed.interrupts.len() == 0
            &&& after.sp == wrap16(s.read(a).0.sp - 2)
            &&& after.mem(after.sp) == s.read(a).0.reg(Register::A)
            &&& after.mem(wrap16(after.sp + 1)) == wrap16(s.pc + 1 + n)
        }),
{
    reveal(VmView::exec_special);
    lemma_operands_keep(s, a, a);
    let e = s.exec_special(SpecialOp::INT, a, n)->Ok_0;
    let queued = e.state;
    assert(queued.exposed.interrupts =~= seq![s.read(a).1]);
    let moved = VmView {
        pc: wrap16(queued.pc + e.advance),
        exposed: ExposedView {
            cycles: queued.exposed.cycles + e.cost + 0,
            ..queued.exposed
        },
        ..queued
    };
    assert(moved.delivers());
    lemma_delivery_takes_oldest(moved);
    assert(moved.exposed.interrupts.skip(1) =~= Seq::<u16>::empty());
}

} // verus!
