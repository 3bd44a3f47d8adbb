//! The interrupt flag of one CPU, and the guard that keeps interrupts off for a while.
use vstd::prelude::*;

verus! {

/// Whether the local CPU takes interrupts.
#[derive(Clone, Copy, PartialEq, Eq, Debug, Structural)]
pub struct LocalIrq {
    pub enabled: bool,
}

/// Remembers what the interrupt flag was when interrupts were turned off.
#[derive(PartialEq, Eq, Debug, Structural)]
pub struct DisabledLocalIrqGuard {
    pub was_enabled: bool,
}

impl LocalIrq {
    /// Whether interrupts are on.
    pub fn is_local_enabled(&self) -> (r: bool)
        ensures
            r == self.enabled,
    {
        self.enabled
    }

    /// Turns interrupts off until the guard is given back.
    pub fn disable_local(&mut self) -> (guard: DisabledLocalIrqGuard)
        ensures
            !final(self).enabled,
            guard.was_enabled == old(self).enabled,
    {
        let was_enabled = self.enabled;
        self.enabled = false;
        DisabledLocalIrqGuard { was_enabled }
    }

    /// Gives a guard back: interrupts go on again if they were on when it was made.
    pub fn restore(&mut self, guard: DisabledLocalIrqGuard)
        ensures
            final(self).enabled == (old(self).enabled || guard.was_enabled),
    {
        if guard.was_enabled {
            self.enabled = true;
        }
    }
}

} // verus!
