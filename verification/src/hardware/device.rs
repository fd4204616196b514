//! The contract between the machine and the devices attached to it.

use crate::virtual_machine::{ExposedView, VMExposed, HWI_CYCLES, MAX_STEP_CYCLES};
use vstd::prelude::*;

verus! {

/// The identity that a device reports to the `HWQ` instruction.
#[derive(Copy, Clone, Debug, PartialEq, Eq, Structural)]
pub struct HardwareInfo {
    pub manufacturer: u32,
    pub model: u32,
    pub version: u16,
}

/// What a device may do to the part of the machine that it can reach:
/// it may write registers and memory and append interrupt messages. The
/// cycle count and the clock rate stay as they are, no message leaves the
/// queue, and a machine on fire stays on fire.
pub open spec fn device_may(pre: ExposedView, post: ExposedView) -> bool {
    &&& post.wf()
    &&& post.cycles == pre.cycles
    &&& post.clock_rate == pre.clock_rate
    &&& pre.on_fire ==> post.on_fire
    &&& pre.interrupts.len() <= post.interrupts.len()
    &&& post.interrupts.subrange(0, pre.interrupts.len() as int) == pre.interrupts
}

/// A device on the hardware bus.
pub trait Hardware {
    /// The identity of the device. The machine asks for it once, when the
    /// device is attached. A device says here what `info` returns; for a
    /// device that does not, nothing is known of it.
    open spec fn info_spec(&self) -> HardwareInfo {
        arbitrary()
    }

    fn info(&self) -> (r: &HardwareInfo)
        ensures
            *r == self.info_spec(),
    ;

    /// Reacts to a `HWI` instruction aimed at this device and returns the
    /// cycles that the reaction took. The machine adds them to its cycle
    /// count, so they have to fit into the counter together with the
    /// cycles of the instruction; the machine calls with room for
    /// `MAX_STEP_CYCLES` in the counter.
    fn hardware_interrupt(&mut self, vm: &mut VMExposed) -> (cycles: usize)
        requires
            old(vm)@.wf(),
            old(vm)@.cycles + MAX_STEP_CYCLES <= usize::MAX,
        ensures
            device_may(old(vm)@, final(vm)@),
            old(vm)@.cycles + HWI_CYCLES + cycles <= usize::MAX,
    ;

    /// Called by the host between steps.
    fn update(&mut self, vm: &mut VMExposed)
        requires
            old(vm)@.wf(),
        ensures
            device_may(old(vm)@, final(vm)@),
    ;
}

/// What devices may do, they may do one after the other.
pub proof fn lemma_device_may_transitive(a: ExposedView, b: ExposedView, c: ExposedView)
    requires
        device_may(a, b),
        device_may(b, c),
    ensures
        device_may(a, c),
{
    assert(c.interrupts.subrange(0, a.interrupts.len() as int) =~= b.interrupts.subrange(
        0,
        a.interrupts.len() as int,
    ));
}

} // verus!
