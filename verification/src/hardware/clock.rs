//! The generic clock: a device that counts ticks and can raise an
//! interrupt on every tick.

use crate::hardware::device::{Hardware, HardwareInfo};
use crate::opcodes::Register;
use crate::virtual_machine::{ExposedView, VMExposed};
use vstd::prelude::*;

verus! {

/// The clock. Its tick lasts `divisor / 60` seconds; a divisor of 0 turns
/// it off.
#[derive(Debug)]
pub struct Clock {
    hw_info: HardwareInfo,
    clock_rate: u16,
    last_cycles: usize,
    interrupt: u16,
    last_interrupt: usize,
}

/// The mathematical value of a [`Clock`].
pub struct ClockView {
    /// The tick divisor set by sub-opcode 0.
    pub divisor: u16,
    /// The machine's cycle count when the divisor was last set.
    pub last_cycles: nat,
    /// The interrupt message set by sub-opcode 2; 0 means none.
    pub message: u16,
    /// The machine's cycle count when the clock last raised an interrupt.
    pub last_interrupt: nat,
}

/// The identity of the clock.
pub open spec fn clock_info() -> HardwareInfo {
    HardwareInfo { manufacturer: 0x904b3115, model: 0x12d0b402, version: 0x0001 }
}

/// The cycles from `since` to `now`; 0 if the count has been reset in
/// between.
pub open spec fn elapsed(now: nat, since: nat) -> nat {
    if now >= since {
        (now - since) as nat
    } else {
        0
    }
}

/// The ticks that fit into `cycles` cycles: `cycles * 60 / divisor /
/// clock_rate`, at most 65535. No cycles are no ticks; with a divisor or a
/// clock rate of 0, any cycles are 65535 ticks.
pub open spec fn ticks(cycles: nat, divisor: u16, clock_rate: nat) -> u16 {
    if cycles == 0 {
        0
    } else if divisor == 0 || clock_rate == 0 {
        0xffff
    } else if (cycles * 60 / (divisor as nat)) / clock_rate > 0xffff {
        0xffff
    } else {
        ((cycles * 60 / (divisor as nat)) / clock_rate) as u16
    }
}

/// True if more than one tick's worth of cycles has passed: a tick is
/// `clock_rate * divisor / 60` cycles.
pub open spec fn tick_due(cycles: nat, divisor: u16, clock_rate: nat) -> bool {
    cycles * 60 > clock_rate * divisor
}

impl ClockView {
    /// The clock after a hardware interrupt, where `vm` is the machine
    /// before it: sub-opcode 0 in A sets the divisor from B and marks the
    /// cycle count, sub-opcode 2 sets the message from B.
    pub open spec fn after_interrupt(self, vm: ExposedView) -> ClockView {
        if vm.reg(Register::A) == 0 {
            ClockView { divisor: vm.reg(Register::B), last_cycles: vm.cycles, ..self }
        } else if vm.reg(Register::A) == 2 {
            ClockView { message: vm.reg(Register::B), ..self }
        } else {
            self
        }
    }

    /// The machine after a hardware interrupt: sub-opcode 1 in A stores
    /// the ticks since the divisor was set to C.
    pub open spec fn machine_after_interrupt(self, vm: ExposedView) -> ExposedView {
        if vm.reg(Register::A) == 1 {
            vm.set_reg(
                Register::C,
                ticks(elapsed(vm.cycles, self.last_cycles), self.divisor, vm.clock_rate),
            )
        } else {
            vm
        }
    }

    /// The cycles that a hardware interrupt costs: 2 a register read or
    /// written, nothing for an unknown sub-opcode.
    pub open spec fn interrupt_cost(vm: ExposedView) -> nat {
        if vm.reg(Register::A) <= 2 {
            4
        } else {
            0
        }
    }

    /// True if the clock raises its interrupt when the host updates it: it
    /// is on, has a message, and a tick has passed since the last one.
    pub open spec fn fires(self, vm: ExposedView) -> bool {
        self.divisor != 0 && self.message != 0 && tick_due(
            elapsed(vm.cycles, self.last_interrupt),
            self.divisor,
            vm.clock_rate,
        )
    }
}

impl View for Clock {
    type V = ClockView;

    closed spec fn view(&self) -> ClockView {
        ClockView {
            divisor: self.clock_rate,
            last_cycles: self.last_cycles as nat,
            message: self.interrupt,
            last_interrupt: self.last_interrupt as nat,
        }
    }
}

impl Clock {
    /// A clock that is off and has no interrupt message.
    pub fn new() -> (c: Clock)
        ensures
            c@ == (ClockView { divisor: 0, last_cycles: 0, message: 0, last_interrupt: 0 }),
            c.info_spec() == clock_info(),
    {
        Clock {
            hw_info: HardwareInfo { manufacturer: 0x904b3115, model: 0x12d0b402, version: 0x0001 },
            clock_rate: 0,
            last_cycles: 0,
            interrupt: 0,
            last_interrupt: 0,
        }
    }
}

/// The cycles from `since` to `now`.
fn cycles_between(now: usize, since: usize) -> (r: usize)
    ensures
        r == elapsed(now as nat, since as nat),
{
    if now >= since {
        now - since
    } else {
        0
    }
}

/// Counts the ticks in `cycles` cycles.
fn count_ticks(cycles: usize, divisor: u16, clock_rate: usize) -> (r: u16)
    ensures
        r == ticks(cycles as nat, divisor, clock_rate as nat),
{
    if cycles == 0 {
        0
    } else if divisor == 0 || clock_rate == 0 {
        0xffff
    } else {
        let n: u128 = (cycles as u128 * 60 / (divisor as u128)) / (clock_rate as u128);
        if n > 0xffff {
            0xffff
        } else {
            n as u16
        }
    }
}

/// Tests whether a tick has passed in `cycles` cycles.
fn is_tick_due(cycles: usize, divisor: u16, clock_rate: usize) -> (r: bool)
    ensures
        r == tick_due(cycles as nat, divisor, clock_rate as nat),
{
    assert(clock_rate * divisor <= usize::MAX * 0xffff) by (nonlinear_arith)
        requires
            clock_rate <= usize::MAX,
            divisor <= 0xffff,
    ;
    cycles as u128 * 60 > clock_rate as u128 * (divisor as u128)
}

impl Hardware for Clock {
    closed spec fn info_spec(&self) -> HardwareInfo {
        self.hw_info
    }

    fn info(&self) -> (r: &HardwareInfo) {
        &self.hw_info
    }

    /// Sub-opcode 0 in A sets the tick divisor from B and marks the cycle
    /// count; 1 stores the ticks since then to C; 2 sets the interrupt
    /// message from B. Any other value does nothing and costs nothing.
    fn hardware_interrupt(&mut self, vm: &mut VMExposed) -> (cycles: usize)
        ensures
            final(self)@ == old(self)@.after_interrupt(old(vm)@),
            final(vm)@ == old(self)@.machine_after_interrupt(old(vm)@),
            cycles == ClockView::interrupt_cost(old(vm)@),
            final(self).info_spec() == old(self).info_spec(),
    {
        proof {
            assert(vm@.interrupts.subrange(0, vm@.interrupts.len() as int) =~= vm@.interrupts);
        }
        let (a, c) = vm.read_register(Register::A);
        let mut cycles: usize = c;
        if a == 0 {
            let (cr, c) = vm.read_register(Register::B);
            self.clock_rate = cr;
            self.last_cycles = vm.get_cycles();
            cycles = cycles + c;
        } else if a == 1 {
            let n: u16 = count_ticks(
                cycles_between(vm.get_cycles(), self.last_cycles),
                self.clock_rate,
                vm.get_clock_rate(),
            );
            let c: usize = vm.write_register(Register::C, n);
            cycles = cycles + c;
        } else if a == 2 {
            let (i, c) = vm.read_register(Register::B);
            self.interrupt = i;
            cycles = cycles + c;
        } else {
            return 0;
        }
        cycles
    }

    /// Raises the interrupt if a tick has passed since the last one.
    fn update(&mut self, vm: &mut VMExposed)
        ensures
            final(vm)@ == (if old(self)@.fires(old(vm)@) {
                old(vm)@.enqueue(old(self)@.message)
            } else {
                old(vm)@
            }),
            final(self)@ == (if old(self)@.fires(old(vm)@) {
                ClockView { last_interrupt: old(vm)@.cycles, ..old(self)@ }
            } else {
                old(self)@
            }),
            final(self).info_spec() == old(self).info_spec(),
    {
        proof {
            assert(vm@.interrupts.subrange(0, vm@.interrupts.len() as int) =~= vm@.interrupts);
        }
        if self.clock_rate != 0 {
            if self.interrupt != 0 {
                if is_tick_due(
                    cycles_between(vm.get_cycles(), self.last_interrupt),
                    self.clock_rate,
                    vm.get_clock_rate(),
                ) {
                    self.last_interrupt = vm.get_cycles();
                    vm.interrupt(self.interrupt);
                }
            }
        }
    }
}

} // verus!
