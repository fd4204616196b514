use dcpu16::{
    Assemble, Clock, DcpuError, DcpuErrorKind, DcpuVMError, Hardware, HardwareInfo, Opcode,
    Operand, Register, VMExposed, VirtualMachine,
};

const A: usize = 0;
const B: usize = 1;
const C: usize = 2;
const X: usize = 3;
const Y: usize = 4;
const I: usize = 6;
const J: usize = 7;

fn reg(r: Register) -> Operand {
    Operand::Register(r)
}

fn lit(n: u16) -> Operand {
    Operand::Literal(n)
}

fn program(ops: &[Opcode]) -> Vec<u16> {
    let mut words = vec![];
    for op in ops {
        words.extend(op.assemble().unwrap());
    }
    words
}

fn machine(ops: &[Opcode]) -> VirtualMachine {
    VirtualMachine::new().load_program(&program(ops), 0)
}

fn run(vm: &mut VirtualMachine, steps: usize) -> usize {
    let mut cycles = 0;
    for _ in 0..steps {
        cycles += vm.step().unwrap();
    }
    cycles
}

/// Runs `op b, a` with the given values in A (as b) and B (as a), and EX
/// set before; returns b and EX afterwards.
fn alu(op: fn(Operand, Operand) -> Opcode, b: u16, a: u16, ex: u16) -> (u16, u16) {
    let mut vm = machine(&[op(reg(Register::A), reg(Register::B))]);
    vm.get_registers()[A] = b;
    vm.get_registers()[B] = a;
    *vm.get_ex() = ex;
    vm.step().unwrap();
    (vm.get_registers()[A], *vm.get_ex())
}

#[test]
fn new_machine_is_zeroed() {
    let mut vm = VirtualMachine::new();
    assert_eq!(*vm.get_pc(), 0);
    assert_eq!(*vm.get_sp(), 0);
    assert_eq!(*vm.get_ex(), 0);
    assert_eq!(vm.get_ia(), 0);
    assert_eq!(vm.get_cycles(), 0);
    assert_eq!(vm.get_clock_rate(), 100000);
    assert_eq!(vm.get_registers(), &[0u16; 8]);
    assert_eq!(vm.get_ram().len(), 0x10000);
    assert!(vm.get_ram().iter().all(|w| *w == 0));
    assert!(!vm.is_on_fire());
}

#[test]
fn builders() {
    let mut vm = VirtualMachine::new()
        .set_pc(0x10)
        .set_sp(0x20)
        .set_ia(0x30)
        .clock_rate(5);
    assert_eq!(*vm.get_pc(), 0x10);
    assert_eq!(*vm.get_sp(), 0x20);
    assert_eq!(vm.get_ia(), 0x30);
    assert_eq!(vm.get_clock_rate(), 5);
    let mut vm = vm.load_program(&vec![1, 2, 3], 0xfffd);
    // loading resets all but the clock rate
    assert_eq!(*vm.get_pc(), 0);
    assert_eq!(*vm.get_sp(), 0);
    assert_eq!(vm.get_ia(), 0);
    assert_eq!(vm.get_clock_rate(), 5);
    assert_eq!(&vm.get_ram()[0xfffd..], &[1, 2, 3]);
    assert_eq!(vm.get_ram()[0], 0);
}

#[test]
fn set_and_cycles() {
    let mut vm = machine(&[
        Opcode::SET(reg(Register::A), lit(1)),
        Opcode::SET(reg(Register::B), lit(0x1234)),
        Opcode::SET(Operand::LiteralDeref(0x1000), lit(0x20)),
        Opcode::SET(reg(Register::C), Operand::LiteralDeref(0x1000)),
    ]);
    assert_eq!(vm.step(), Ok(1));
    assert_eq!(*vm.get_pc(), 1);
    assert_eq!(vm.step(), Ok(2));
    assert_eq!(*vm.get_pc(), 3);
    assert_eq!(vm.step(), Ok(3));
    assert_eq!(*vm.get_pc(), 6);
    assert_eq!(vm.step(), Ok(2));
    assert_eq!(vm.get_registers()[A], 1);
    assert_eq!(vm.get_registers()[B], 0x1234);
    assert_eq!(vm.get_registers()[C], 0x20);
    assert_eq!(vm.get_ram()[0x1000], 0x20);
    assert_eq!(vm.get_cycles(), 8);
}

#[test]
fn add_and_sub() {
    assert_eq!(alu(Opcode::ADD, 1, 2, 7), (3, 7));
    assert_eq!(alu(Opcode::ADD, 0xffff, 2, 7), (1, 1));
    assert_eq!(alu(Opcode::SUB, 5, 2, 7), (3, 7));
    assert_eq!(alu(Opcode::SUB, 2, 5, 7), (0xfffd, 0xffff));
    assert_eq!(alu(Opcode::ADX, 0xffff, 0, 1), (0, 1));
    assert_eq!(alu(Opcode::ADX, 1, 2, 3), (6, 0));
    assert_eq!(alu(Opcode::SBX, 5, 2, 1), (2, 0));
    assert_eq!(alu(Opcode::SBX, 2, 2, 1), (0xffff, 0xffff));
}

#[test]
fn mul_and_div() {
    assert_eq!(alu(Opcode::MUL, 0x1234, 0x100, 0), (0x3400, 0x0012));
    assert_eq!(alu(Opcode::MUL, 0xffff, 0xffff, 0), (0x0001, 0xfffe));
    // -2 * 3 = -6
    assert_eq!(alu(Opcode::MLI, 0xfffe, 3, 0), (0xfffa, 0xffff));
    assert_eq!(alu(Opcode::MLI, 0x8000, 0x8000, 0), (0, 0x4000));
    assert_eq!(alu(Opcode::DIV, 7, 2, 9), (3, 0x8000));
    assert_eq!(alu(Opcode::DIV, 7, 0, 9), (0, 0));
    assert_eq!(alu(Opcode::DIV, 0xffff, 1, 9), (0xffff, 0));
    // -7 / 2 = -3, rounded towards zero; EX = ((-7 << 16) / 2) & 0xffff
    assert_eq!(alu(Opcode::DVI, 0xfff9, 2, 9), (0xfffd, 0x8000));
    assert_eq!(alu(Opcode::DVI, 0xfff9, 0, 9), (0, 0));
    assert_eq!(alu(Opcode::DVI, 0x8000, 0xffff, 9), (0x8000, 0));
    assert_eq!(alu(Opcode::MOD, 7, 3, 9), (1, 9));
    assert_eq!(alu(Opcode::MOD, 7, 0, 9), (0, 9));
    // -7 mod 16 = -7
    assert_eq!(alu(Opcode::MDI, 0xfff9, 16, 9), (0xfff9, 9));
    assert_eq!(alu(Opcode::MDI, 7, 0xfffd, 9), (1, 9));
    assert_eq!(alu(Opcode::MDI, 0x8000, 0xffff, 9), (0, 9));
    assert_eq!(alu(Opcode::MDI, 7, 0, 9), (0, 9));
}

#[test]
fn bits_and_shifts() {
    assert_eq!(alu(Opcode::AND, 0xff0f, 0x0ff0, 9), (0x0f00, 9));
    assert_eq!(alu(Opcode::BOR, 0xf000, 0x000f, 9), (0xf00f, 9));
    assert_eq!(alu(Opcode::XOR, 0xff00, 0x0ff0, 9), (0xf0f0, 9));
    assert_eq!(alu(Opcode::SHR, 0x8421, 4, 9), (0x0842, 0x1000));
    assert_eq!(alu(Opcode::SHR, 0x8421, 16, 9), (0, 0x8421));
    assert_eq!(alu(Opcode::SHR, 0x8421, 20, 9), (0, 0x0842));
    assert_eq!(alu(Opcode::SHR, 0x8421, 32, 9), (0, 0));
    assert_eq!(alu(Opcode::SHR, 0x8421, 0xffff, 9), (0, 0));
    assert_eq!(alu(Opcode::ASR, 0x8421, 4, 9), (0xf842, 0x1000));
    assert_eq!(alu(Opcode::ASR, 0x7421, 4, 9), (0x0742, 0x1000));
    assert_eq!(alu(Opcode::ASR, 0x8421, 16, 9), (0xffff, 0x8421));
    assert_eq!(alu(Opcode::ASR, 0x8421, 40, 9), (0xffff, 0xffff));
    assert_eq!(alu(Opcode::ASR, 0x7421, 40, 9), (0, 0));
    assert_eq!(alu(Opcode::SHL, 0x8421, 4, 9), (0x4210, 0x0008));
    assert_eq!(alu(Opcode::SHL, 0x8421, 16, 9), (0, 0x8421));
    assert_eq!(alu(Opcode::SHL, 0x8421, 20, 9), (0, 0x4210));
    assert_eq!(alu(Opcode::SHL, 0x8421, 32, 9), (0, 0));
    assert_eq!(alu(Opcode::SHL, 1, 0, 9), (1, 0));
}

#[test]
fn sti_and_std() {
    let mut vm = machine(&[
        Opcode::STI(reg(Register::A), lit(5)),
        Opcode::STD(reg(Register::B), reg(Register::A)),
        Opcode::STD(reg(Register::I), lit(9)),
        Opcode::STD(reg(Register::C), lit(0)),
        Opcode::STD(reg(Register::C), lit(0)),
    ]);
    vm.get_registers()[J] = 0xffff;
    assert_eq!(vm.step(), Ok(2));
    assert_eq!(vm.get_registers()[A], 5);
    assert_eq!(vm.get_registers()[I], 1);
    assert_eq!(vm.get_registers()[J], 0);
    vm.step().unwrap();
    assert_eq!(vm.get_registers()[B], 5);
    assert_eq!(vm.get_registers()[I], 0);
    assert_eq!(vm.get_registers()[J], 0xffff);
    // the store comes before the decrement
    vm.step().unwrap();
    assert_eq!(vm.get_registers()[I], 8);
    run(&mut vm, 2);
    assert_eq!(vm.get_registers()[I], 6);
    assert_eq!(vm.get_registers()[J], 0xfffc);
}

fn branch(op: fn(Operand, Operand) -> Opcode, b: u16, a: u16) -> bool {
    let mut vm = machine(&[
        op(reg(Register::A), reg(Register::B)),
        Opcode::SET(reg(Register::C), lit(1)),
    ]);
    vm.get_registers()[A] = b;
    vm.get_registers()[B] = a;
    let cycles = vm.step().unwrap();
    let passed = *vm.get_pc() == 1;
    assert_eq!(*vm.get_pc(), if passed { 1 } else { 2 });
    assert_eq!(cycles, if passed { 2 } else { 3 });
    passed
}

#[test]
fn branch_conditions() {
    assert!(branch(Opcode::IFB, 0x0f, 0x08));
    assert!(!branch(Opcode::IFB, 0x0f, 0x10));
    assert!(branch(Opcode::IFC, 0x0f, 0x10));
    assert!(!branch(Opcode::IFC, 0x0f, 0x08));
    assert!(branch(Opcode::IFE, 3, 3));
    assert!(!branch(Opcode::IFE, 3, 4));
    assert!(branch(Opcode::IFN, 3, 4));
    assert!(!branch(Opcode::IFN, 3, 3));
    assert!(branch(Opcode::IFG, 0xffff, 1));
    assert!(!branch(Opcode::IFG, 1, 1));
    assert!(branch(Opcode::IFA, 1, 0xffff));
    assert!(!branch(Opcode::IFA, 0xffff, 1));
    assert!(branch(Opcode::IFL, 1, 0xffff));
    assert!(!branch(Opcode::IFL, 1, 1));
    assert!(branch(Opcode::IFU, 0xffff, 1));
    assert!(!branch(Opcode::IFU, 1, 0xffff));
}

#[test]
fn branch_skip_chain() {
    // IFE A, 1 fails with A = 0: the next instruction is skipped, and it
    // is no conditional, so the skip ends there.
    let mut vm = machine(&[
        Opcode::IFE(reg(Register::A), lit(1)),
        Opcode::SET(reg(Register::A), lit(2)),
        Opcode::IFE(reg(Register::B), lit(1)),
        Opcode::SET(reg(Register::B), lit(2)),
        Opcode::SET(reg(Register::C), lit(3)),
    ]);
    assert_eq!(vm.step(), Ok(2 + 1));
    assert_eq!(*vm.get_pc(), 2);
    assert_eq!(vm.get_registers(), &[0u16; 8]);
    // the second condition fails too and skips its own target
    assert_eq!(vm.step(), Ok(2 + 1));
    assert_eq!(*vm.get_pc(), 4);
    assert_eq!(vm.step(), Ok(1));
    assert_eq!(vm.get_registers()[C], 3);
    assert_eq!(vm.get_registers()[A], 0);
    assert_eq!(vm.get_registers()[B], 0);

    // A skipped conditional takes the instruction after it along.
    let mut vm = machine(&[
        Opcode::IFE(reg(Register::A), lit(1)),
        Opcode::IFE(reg(Register::B), lit(0x1000)),
        Opcode::IFN(reg(Register::B), lit(1)),
        Opcode::SET(reg(Register::B), lit(0x2000)),
        Opcode::SET(reg(Register::C), lit(3)),
    ]);
    assert_eq!(vm.step(), Ok(2 + 3));
    assert_eq!(*vm.get_pc(), 6);
    assert_eq!(vm.get_cycles(), 5);
    assert_eq!(vm.get_registers(), &[0u16; 8]);
    assert_eq!(vm.step(), Ok(1));
    assert_eq!(vm.get_registers()[C], 3);
}

#[test]
fn skip_stops_at_what_cannot_be_decoded() {
    // IFE A, 1 fails and is followed by a reserved word
    let mut vm = VirtualMachine::new().load_program(&vec![0x8812, 0x0018], 0);
    assert_eq!(
        vm.step(),
        Err(DcpuVMError::DisassemblyFailed(DcpuError {
            reason: DcpuErrorKind::ReservedOpcode(0x0018)
        }))
    );
    assert_eq!(*vm.get_pc(), 0);
    assert_eq!(vm.get_cycles(), 0);
}

#[test]
fn stack_discipline() {
    let mut vm = machine(&[
        Opcode::SET(Operand::Push, lit(0x1111)),
        Opcode::SET(Operand::Push, lit(0x2222)),
        Opcode::SET(reg(Register::A), Operand::Pop),
        Opcode::SET(reg(Register::B), Operand::Pop),
    ]);
    let start = *vm.get_sp();
    vm.step().unwrap();
    assert_eq!(*vm.get_sp(), 0xffff);
    assert_eq!(vm.get_ram()[0xffff], 0x1111);
    vm.step().unwrap();
    assert_eq!(*vm.get_sp(), 0xfffe);
    assert_eq!(vm.get_ram()[0xfffe], 0x2222);
    run(&mut vm, 2);
    assert_eq!(vm.get_registers()[A], 0x2222);
    assert_eq!(vm.get_registers()[B], 0x1111);
    assert_eq!(*vm.get_sp(), start);
}

#[test]
fn peek_and_pick() {
    let mut vm = machine(&[
        Opcode::SET(Operand::Push, lit(0x1111)),
        Opcode::SET(Operand::Push, lit(0x2222)),
        Opcode::SET(reg(Register::A), Operand::Peek),
        Opcode::SET(reg(Register::B), Operand::Pick(1)),
        Opcode::SET(Operand::Pick(2), lit(0x3333)),
        Opcode::SET(Operand::Peek, lit(0x4444)),
    ]);
    run(&mut vm, 6);
    assert_eq!(vm.get_registers()[A], 0x2222);
    assert_eq!(vm.get_registers()[B], 0x1111);
    assert_eq!(*vm.get_sp(), 0xfffe);
    // 0xfffe + 2 wraps to address 0, where the first instruction was
    assert_eq!(vm.get_ram()[0], 0x3333);
    assert_eq!(vm.get_ram()[0xfffe], 0x4444);
}

#[test]
fn register_plus_offset_wraps() {
    let mut vm = machine(&[
        Opcode::SET(Operand::RegisterPlusDeref(Register::A, 0x11), lit(0x77)),
        Opcode::SET(reg(Register::B), Operand::RegisterDeref(Register::C)),
    ]);
    vm.get_registers()[A] = 0xfff0;
    vm.get_registers()[C] = 1;
    run(&mut vm, 2);
    assert_eq!(vm.get_ram()[1], 0x77);
    assert_eq!(vm.get_registers()[B], 0x77);
}

#[test]
fn writing_to_a_literal_changes_nothing() {
    let mut vm = machine(&[
        Opcode::SET(lit(0x1000), lit(5)),
        Opcode::ADD(lit(0x1000), lit(5)),
        Opcode::SET(reg(Register::A), lit(1)),
    ]);
    let before = vm.get_ram().clone();
    assert_eq!(vm.step(), Ok(2));
    assert_eq!(vm.step(), Ok(3));
    assert_eq!(vm.get_ram(), &before);
    assert_eq!(vm.get_registers(), &[0u16; 8]);
    assert_eq!(*vm.get_ex(), 0);
    assert_eq!(*vm.get_pc(), 4);
}

#[test]
fn writing_pc_jumps() {
    let mut vm = machine(&[Opcode::SET(Operand::Pc, lit(0x20))]);
    assert_eq!(vm.step(), Ok(2));
    assert_eq!(*vm.get_pc(), 0x20);
    // PC is read as the address of the instruction
    let mut vm = machine(&[
        Opcode::SET(reg(Register::A), lit(0)),
        Opcode::SET(reg(Register::A), Operand::Pc),
        Opcode::ADD(Operand::Pc, lit(3)),
    ]);
    run(&mut vm, 3);
    assert_eq!(vm.get_registers()[A], 1);
    assert_eq!(*vm.get_pc(), 5);
}

#[test]
fn jsr_pushes_the_return_address() {
    let mut vm = machine(&[
        Opcode::SET(reg(Register::A), lit(1)),
        Opcode::JSR(lit(0x1000)),
    ]);
    run(&mut vm, 1);
    assert_eq!(vm.step(), Ok(4));
    assert_eq!(*vm.get_pc(), 0x1000);
    assert_eq!(*vm.get_sp(), 0xffff);
    assert_eq!(vm.get_ram()[0xffff], 3);
}

#[test]
fn interrupt_handler() {
    let mut vm = machine(&[
        Opcode::INT(lit(0x42)),
        Opcode::SET(reg(Register::X), lit(9)),
    ])
    .set_ia(0x100);
    let handler = program(&[
        Opcode::SET(reg(Register::Y), reg(Register::A)),
        Opcode::RFI(lit(0)),
    ]);
    vm.get_ram()[0x100..0x100 + handler.len()].copy_from_slice(&handler);
    vm.get_registers()[A] = 0x7777;
    // INT queues the message; at the end of the step it is delivered
    assert_eq!(vm.step(), Ok(5));
    assert_eq!(*vm.get_pc(), 0x100);
    assert_eq!(vm.get_registers()[A], 0x42);
    assert_eq!(*vm.get_sp(), 0xfffe);
    assert_eq!(vm.get_ram()[0xffff], 2);
    assert_eq!(vm.get_ram()[0xfffe], 0x7777);
    vm.step().unwrap();
    assert_eq!(vm.get_registers()[Y], 0x42);
    // RFI restores A and PC
    assert_eq!(vm.step(), Ok(3));
    assert_eq!(vm.get_registers()[A], 0x7777);
    assert_eq!(*vm.get_pc(), 2);
    assert_eq!(*vm.get_sp(), 0);
    assert_eq!(vm.get_registers()[X], 0);
    vm.step().unwrap();
    assert_eq!(vm.get_registers()[X], 9);
}

#[test]
fn interrupts_are_delivered_in_order() {
    let handler = program(&[
        Opcode::SET(Operand::RegisterDeref(Register::I), reg(Register::A)),
        Opcode::ADD(reg(Register::I), lit(1)),
        Opcode::RFI(lit(0)),
    ]);
    let mut vm = machine(&[
        Opcode::IAS(lit(0x100)),
        Opcode::SET(reg(Register::B), lit(1)),
        Opcode::SET(reg(Register::B), lit(2)),
        Opcode::SET(reg(Register::B), lit(3)),
        Opcode::SET(reg(Register::B), lit(4)),
    ]);
    vm.get_ram()[0x100..0x100 + handler.len()].copy_from_slice(&handler);
    vm.get_registers()[I] = 0x2000;
    // queued before any step, while IA is still 0
    vm.interrupt(11);
    vm.interrupt(22);
    vm.interrupt(33);
    let mut seen = vec![];
    for _ in 0..14 {
        vm.step().unwrap();
        if *vm.get_pc() == 0x100 {
            seen.push(vm.get_registers()[A]);
        }
    }
    assert_eq!(seen, vec![11, 22, 33]);
    assert_eq!(&vm.get_ram()[0x2000..0x2004], &[11, 22, 33, 0]);
    assert_eq!(vm.get_registers()[B], 4);
}

#[test]
fn queueing_holds_interrupts_back() {
    let mut vm = machine(&[
        Opcode::IAQ(lit(1)),
        Opcode::INT(lit(5)),
        Opcode::SET(reg(Register::B), lit(1)),
        Opcode::IAQ(lit(0)),
        Opcode::SET(reg(Register::B), lit(2)),
    ])
    .set_ia(0x200);
    assert_eq!(vm.step(), Ok(2));
    assert_eq!(vm.step(), Ok(4));
    vm.step().unwrap();
    assert_eq!(*vm.get_pc(), 3);
    // queueing ends: the interrupt is delivered at the end of this step
    vm.step().unwrap();
    assert_eq!(*vm.get_pc(), 0x200);
    assert_eq!(vm.get_registers()[A], 5);
    assert_eq!(vm.get_ram()[0xffff], 4);
}

#[test]
fn no_handler_no_delivery() {
    let mut vm = machine(&[
        Opcode::INT(lit(5)),
        Opcode::IAG(reg(Register::C)),
        Opcode::IAS(lit(0x300)),
    ]);
    run(&mut vm, 2);
    assert_eq!(*vm.get_pc(), 2);
    assert_eq!(vm.get_registers()[C], 0);
    assert_eq!(vm.step(), Ok(2));
    assert_eq!(*vm.get_pc(), 0x300);
    assert_eq!(vm.get_registers()[A], 5);
    assert_eq!(vm.get_ia(), 0x300);
}

#[test]
fn queue_overflow_sets_the_machine_on_fire() {
    let mut vm = machine(&[Opcode::SET(reg(Register::A), lit(1))]);
    for n in 0..256 {
        vm.interrupt(n);
    }
    assert!(!vm.is_on_fire());
    assert_eq!(vm.step(), Ok(1));
    vm.interrupt(256);
    assert!(vm.is_on_fire());
    assert_eq!(vm.step(), Err(DcpuVMError::OnFire));
    assert_eq!(vm.step(), Err(DcpuVMError::OnFire));
    assert_eq!(*vm.get_pc(), 1);
    assert_eq!(vm.get_cycles(), 1);
    // only a reset helps
    vm.reset();
    assert!(!vm.is_on_fire());
    assert_eq!(
        vm.step(),
        Err(DcpuVMError::DisassemblyFailed(DcpuError {
            reason: DcpuErrorKind::ReservedOpcode(0)
        }))
    );
}

#[test]
fn writing_to_pop_fails() {
    let mut vm = machine(&[Opcode::IAG(Operand::Pop)]);
    assert_eq!(vm.step(), Err(DcpuVMError::PopInBOp));
    assert_eq!(*vm.get_pc(), 0);
    assert_eq!(*vm.get_sp(), 0);
    let mut vm = machine(&[Opcode::HWN(Operand::Pop)]);
    assert_eq!(vm.step(), Err(DcpuVMError::PopInBOp));
    assert_eq!(
        DcpuVMError::PopInBOp.message(),
        "Invalid operand B. Cannot put POP there."
    );
}

#[test]
fn reserved_word_is_an_error() {
    let mut vm = VirtualMachine::new();
    assert_eq!(
        vm.step(),
        Err(DcpuVMError::DisassemblyFailed(DcpuError {
            reason: DcpuErrorKind::ReservedOpcode(0)
        }))
    );
    assert_eq!(vm.get_cycles(), 0);
}

#[test]
fn pc_wraps_at_the_end_of_memory() {
    let words = program(&[Opcode::SET(reg(Register::A), lit(0x4321))]);
    let mut vm = VirtualMachine::new()
        .load_program(&vec![words[0]], 0xffff)
        .set_pc(0xffff);
    // the second word of the instruction is at address 0
    vm.get_ram()[0] = words[1];
    assert_eq!(vm.step(), Ok(2));
    assert_eq!(vm.get_registers()[A], 0x4321);
    assert_eq!(*vm.get_pc(), 1);
}

#[test]
fn reset_keeps_devices_and_clock_rate() {
    let mut vm = machine(&[
        Opcode::SET(reg(Register::A), lit(1)),
        Opcode::HWN(reg(Register::B)),
    ])
    .clock_rate(777)
    .attach_hardware(Box::new(Clock::new()));
    vm.step().unwrap();
    vm.interrupt(3);
    vm.reset();
    assert_eq!(vm.get_cycles(), 0);
    assert_eq!(*vm.get_pc(), 0);
    assert_eq!(vm.get_registers(), &[0u16; 8]);
    assert_eq!(vm.get_clock_rate(), 777);
    assert!(vm.get_ram().iter().all(|w| *w == 0));
    let words = program(&[Opcode::HWN(reg(Register::B))]);
    vm.get_ram()[..words.len()].copy_from_slice(&words);
    assert_eq!(vm.step(), Ok(2));
    assert_eq!(vm.get_registers()[B], 1);
}

struct Probe {
    info: HardwareInfo,
    seen: u16,
}

impl Hardware for Probe {
    fn info(&self) -> &HardwareInfo {
        &self.info
    }

    fn hardware_interrupt(&mut self, vm: &mut VMExposed) -> usize {
        let (a, _) = vm.read_register(Register::A);
        self.seen = a;
        vm.write_register(Register::Z, a.wrapping_add(1));
        vm.write_ram(0xffff, &[0xaaaa, 0xbbbb], 2);
        vm.interrupt(0x99);
        17
    }

    fn update(&mut self, vm: &mut VMExposed) {
        vm.write_register(Register::J, self.seen);
    }
}

#[test]
fn hardware_instructions() {
    let mut vm = machine(&[
        Opcode::HWN(reg(Register::I)),
        Opcode::HWQ(lit(1)),
        Opcode::HWQ(lit(2)),
        Opcode::SET(reg(Register::A), lit(0x1234)),
        Opcode::HWI(lit(1)),
        Opcode::HWI(lit(7)),
    ])
    .attach_hardware(Box::new(Clock::new()))
    .attach_hardware(Box::new(Probe {
        info: HardwareInfo {
            manufacturer: 0x1c6c8b36,
            model: 0x30cf7406,
            version: 0x1802,
        },
        seen: 0,
    }));
    assert_eq!(vm.step(), Ok(2));
    assert_eq!(vm.get_registers()[I], 2);
    assert_eq!(vm.step(), Ok(4));
    assert_eq!(
        &vm.get_registers()[..5],
        &[0x7406, 0x30cf, 0x1802, 0x8b36, 0x1c6c]
    );
    // no such device: nothing happens
    assert_eq!(vm.step(), Ok(4));
    assert_eq!(vm.get_registers()[A], 0x7406);
    vm.step().unwrap();
    assert_eq!(vm.step(), Ok(4 + 17));
    assert_eq!(vm.get_registers()[5], 0x1235);
    assert_eq!(vm.get_ram()[0xffff], 0xaaaa);
    assert_eq!(vm.get_ram()[0], 0xbbbb);
    let cycles = vm.get_cycles();
    assert_eq!(vm.step(), Ok(4));
    assert_eq!(vm.get_cycles(), cycles + 4);
    vm.update_hardware();
    assert_eq!(vm.get_registers()[J], 0x1234);
}

#[test]
fn exposed_memory_is_bounds_checked() {
    struct Reader {
        info: HardwareInfo,
    }
    impl Hardware for Reader {
        fn info(&self) -> &HardwareInfo {
            &self.info
        }
        fn hardware_interrupt(&mut self, vm: &mut VMExposed) -> usize {
            assert_eq!(vm.read_ram(0xffff, 2).err(), Some(DcpuVMError::OutOfBoundsMemory));
            assert_eq!(vm.read_ram(0x10001, 0).err(), Some(DcpuVMError::OutOfBoundsMemory));
            assert_eq!(
                vm.read_ram(usize::MAX, 2).err(),
                Some(DcpuVMError::OutOfBoundsMemory)
            );
            let (words, cost) = vm.read_ram(0xfffe, 2).unwrap();
            assert_eq!(words, &[0, 0]);
            assert_eq!(cost, 6);
            let (words, cost) = vm.read_ram(0, 3).unwrap();
            assert_eq!(words.len(), 3);
            assert_eq!(cost, 9);
            assert_eq!(vm.write_ram(0x20, &[1, 2, 3], 2), 6);
            assert_eq!(vm.read_ram(0x20, 3).unwrap().0, &[1, 2, 0]);
            assert_eq!(vm.write_ram(0x20, &[9], 0), 0);
            assert_eq!(vm.read_register(Register::A), (0, 2));
            assert_eq!(vm.write_register(Register::A, 5), 2);
            assert_eq!(vm.read_register(Register::A), (5, 2));
            assert_eq!(vm.get_clock_rate(), 100000);
            vm.get_cycles()
        }
        fn update(&mut self, _vm: &mut VMExposed) {}
    }
    let mut vm = machine(&[Opcode::HWI(lit(0))]).attach_hardware(Box::new(Reader {
        info: HardwareInfo {
            manufacturer: 1,
            model: 2,
            version: 3,
        },
    }));
    assert_eq!(vm.step(), Ok(4));
    assert_eq!(vm.get_registers()[A], 5);
}

#[test]
fn clock_counts_ticks() {
    let clock = Clock::new();
    assert_eq!(
        clock.info(),
        &HardwareInfo {
            manufacturer: 0x904b3115,
            model: 0x12d0b402,
            version: 1
        }
    );
    let mut vm = machine(&[
        Opcode::SET(reg(Register::A), lit(0)),
        Opcode::SET(reg(Register::B), lit(60)),
        Opcode::HWI(lit(0)),
        Opcode::SET(reg(Register::A), lit(1)),
        Opcode::HWI(lit(0)),
        Opcode::SET(Operand::Pc, lit(3)),
    ])
    .clock_rate(10)
    .attach_hardware(Box::new(clock));
    run(&mut vm, 2);
    // sub-opcode 0: divisor 60, one tick a second, that is 10 cycles
    let start = vm.get_cycles();
    assert_eq!(vm.step(), Ok(4 + 4));
    run(&mut vm, 1);
    for _ in 0..30 {
        let now = vm.get_cycles();
        assert_eq!(vm.step(), Ok(4 + 4));
        assert_eq!(vm.get_registers()[C] as usize, (now - start) * 60 / 60 / 10);
        run(&mut vm, 1);
    }
    assert_eq!(vm.get_registers()[C], 27);
}

#[test]
fn clock_raises_interrupts() {
    let mut vm = machine(&[
        Opcode::SET(reg(Register::A), lit(0)),
        Opcode::SET(reg(Register::B), lit(1)),
        Opcode::HWI(lit(0)),
        Opcode::SET(reg(Register::A), lit(2)),
        Opcode::SET(reg(Register::B), lit(0x55)),
        Opcode::HWI(lit(0)),
        Opcode::SET(reg(Register::A), lit(3)),
        Opcode::HWI(lit(0)),
        Opcode::SET(Operand::Pc, lit(8)),
    ])
    .clock_rate(600)
    .set_ia(0x400)
    .attach_hardware(Box::new(Clock::new()));
    // the clock is off: nothing happens
    vm.update_hardware();
    assert_eq!(vm.step(), Ok(1));
    run(&mut vm, 2);
    // on, but without a message
    vm.update_hardware();
    run(&mut vm, 3);
    // an unknown sub-opcode costs nothing
    run(&mut vm, 1);
    assert_eq!(vm.step(), Ok(4));
    // a tick is 600 * 1 / 60 = 10 cycles, and more than that have passed
    assert!(vm.get_cycles() > 10);
    vm.update_hardware();
    vm.step().unwrap();
    assert_eq!(*vm.get_pc(), 0x400);
    assert_eq!(vm.get_registers()[A], 0x55);
    // the next tick is not due yet
    let waiting = program(&[Opcode::SET(reg(Register::A), lit(1)), Opcode::RFI(lit(0))]);
    vm.get_ram()[0x400..0x400 + waiting.len()].copy_from_slice(&waiting);
    vm.update_hardware();
    run(&mut vm, 2);
    assert_eq!(*vm.get_pc(), 8);
}

#[test]
fn cycles_never_decrease() {
    let mut vm = machine(&[
        Opcode::SET(reg(Register::A), lit(0xfff0)),
        Opcode::ADD(reg(Register::A), lit(1)),
        Opcode::IFN(reg(Register::A), lit(0)),
        Opcode::SET(Operand::Pc, lit(2)),
        Opcode::INT(lit(1)),
        Opcode::HWI(lit(0)),
        Opcode::SET(Operand::Pc, lit(2)),
    ])
    .attach_hardware(Box::new(Clock::new()));
    let mut last = vm.get_cycles();
    for _ in 0..200 {
        let pc_before = *vm.get_pc();
        let spent = vm.step().unwrap();
        vm.update_hardware();
        assert!(spent >= 1);
        assert_eq!(vm.get_cycles(), last + spent);
        assert!(vm.get_cycles() >= last);
        assert_ne!(*vm.get_pc(), pc_before);
        last = vm.get_cycles();
    }
    // every value the machine holds is a 16-bit word
    assert!(vm.get_registers().iter().all(|w| (*w as u32) <= 65535));
    assert!((*vm.get_pc() as u32) <= 65535);
}

#[test]
fn too_many_software_interrupts() {
    // without a handler the messages pile up
    let mut vm = machine(&[
        Opcode::INT(reg(Register::A)),
        Opcode::ADD(reg(Register::A), lit(1)),
        Opcode::SET(Operand::Pc, lit(0)),
    ]);
    for _ in 0..256 {
        run(&mut vm, 3);
    }
    assert!(!vm.is_on_fire());
    assert_eq!(vm.step(), Ok(4));
    assert!(vm.is_on_fire());
    assert_eq!(vm.step(), Err(DcpuVMError::OnFire));
    assert_eq!(vm.get_registers()[A], 256);
}

#[test]
fn pop_is_read_before_push_is_written() {
    let mut vm = machine(&[
        Opcode::SET(Operand::Push, lit(0x1234)),
        Opcode::SET(Operand::Push, Operand::Pop),
        Opcode::ADD(Operand::Peek, Operand::Pop),
    ]);
    run(&mut vm, 2);
    assert_eq!(*vm.get_sp(), 0xffff);
    assert_eq!(vm.get_ram()[0xffff], 0x1234);
    // a is popped first, then b is the word at the new SP, address 0
    let first_word = vm.get_ram()[0];
    run(&mut vm, 1);
    assert_eq!(*vm.get_sp(), 0);
    assert_eq!(vm.get_ram()[0], first_word.wrapping_add(0x1234));
}

#[test]
fn update_without_devices_changes_nothing() {
    let mut vm = machine(&[Opcode::SET(reg(Register::A), lit(0x1234))]).set_ia(7);
    vm.step().unwrap();
    vm.interrupt(3);
    let ram = vm.get_ram().clone();
    let registers = vm.get_registers().to_vec();
    let (pc, sp, ex, cycles) = (*vm.get_pc(), *vm.get_sp(), *vm.get_ex(), vm.get_cycles());
    vm.update_hardware();
    assert_eq!(vm.get_ram(), &ram);
    assert_eq!(vm.get_registers(), &registers[..]);
    assert_eq!(
        (*vm.get_pc(), *vm.get_sp(), *vm.get_ex(), vm.get_cycles()),
        (pc, sp, ex, cycles)
    );
    assert_eq!(vm.get_ia(), 7);
    assert!(!vm.is_on_fire());
}

#[test]
fn attached_devices_are_counted_in_order() {
    let count = program(&[Opcode::HWN(reg(Register::I)), Opcode::HWQ(reg(Register::Z))]);
    let probe = |model: u32| {
        Box::new(Probe {
            info: HardwareInfo {
                manufacturer: 1,
                model,
                version: 2,
            },
            seen: 0,
        })
    };
    let mut vm = VirtualMachine::new().load_program(&count, 0);
    vm.step().unwrap();
    assert_eq!(vm.get_registers()[I], 0);
    let mut vm = vm
        .attach_hardware(probe(10))
        .attach_hardware(Box::new(Clock::new()))
        .attach_hardware(probe(30))
        .set_pc(0);
    vm.step().unwrap();
    assert_eq!(vm.get_registers()[I], 3);
    for (index, model) in [(0u16, 10u16), (1, 0xb402), (2, 30)] {
        vm.get_registers()[5] = index;
        *vm.get_pc() = 1;
        vm.step().unwrap();
        assert_eq!(vm.get_registers()[A], model);
    }
    // attaching changes nothing else
    assert_eq!(vm.get_ram()[..2], count[..]);
    assert_eq!(*vm.get_sp(), 0);
}

#[test]
fn delivery_between_steps() {
    let mut vm = machine(&[Opcode::SET(reg(Register::B), lit(1))]).set_ia(0x80);
    vm.get_registers()[A] = 0x1111;
    vm.interrupt(0x21);
    vm.interrupt(0x22);
    // the oldest message is delivered, the other waits
    vm.handle_interrupts();
    assert_eq!(*vm.get_pc(), 0x80);
    assert_eq!(vm.get_registers()[A], 0x21);
    assert_eq!(*vm.get_sp(), 0xfffe);
    assert_eq!(vm.get_ram()[0xffff], 0);
    assert_eq!(vm.get_ram()[0xfffe], 0x1111);
    // in a handler nothing is delivered
    vm.handle_interrupts();
    assert_eq!(vm.get_registers()[A], 0x21);
    assert_eq!(*vm.get_sp(), 0xfffe);
    // RFI gives A, PC and SP back, and the next message is due
    let rfi = program(&[Opcode::RFI(lit(0))]);
    vm.get_ram()[0x80] = rfi[0];
    assert_eq!(vm.step(), Ok(3));
    assert_eq!(*vm.get_pc(), 0x80);
    assert_eq!(vm.get_registers()[A], 0x22);
    assert_eq!(vm.get_ram()[0xfffe], 0x1111);
    assert_eq!(vm.get_ram()[0xffff], 0);
    vm.step().unwrap();
    assert_eq!(*vm.get_pc(), 0);
    assert_eq!(vm.get_registers()[A], 0x1111);
    assert_eq!(*vm.get_sp(), 0);
}
