//! Turning preemption off and on: what one CPU remembers of it, and the guard that locks hold.
use vstd::prelude::*;

use crate::trap::{DisabledLocalIrqGuard, LocalIrq};

verus! {

/// A CPU and a place in the source.
#[derive(Clone, Copy, Debug)]
pub struct Location {
    pub cpu: u32,
    pub file: &'static str,
    pub line: u32,
}

/// What a CPU remembers of preemption.
#[derive(Clone, Copy, Debug)]
pub struct PreemptInfo {
    /// The number of locks and irq-disabled contexts held by the CPU.
    pub num: usize,
    /// Where the CPU began to switch tasks, while it does.
    pub in_preemption: Option<Location>,
}

impl PreemptInfo {
    /// Whether the CPU can switch tasks: it holds no lock and is not switching already.
    pub open spec fn preemptible(self) -> bool {
        self.in_preemption is None && self.num == 0
    }

    /// What a CPU remembers at first: nothing.
    pub fn new() -> (r: Self)
        ensures
            r == (PreemptInfo { num: 0, in_preemption: None }),
    {
        PreemptInfo { num: 0, in_preemption: None }
    }

    /// The number of locks and irq-disabled contexts held by the CPU.
    pub fn num(&self) -> (r: usize)
        ensures
            r == self.num,
    {
        self.num
    }

    /// Whether the CPU is switching tasks.
    pub fn in_preemption(&self) -> (r: bool)
        ensures
            r == (self.in_preemption is Some),
    {
        self.in_preemption.is_some()
    }

    /// Whether the CPU can switch tasks.
    pub fn is_preemptible(&self) -> (r: bool)
        ensures
            r == self.preemptible(),
    {
        !self.in_preemption() && !self.in_atomic()
    }

    /// Whether the CPU is in atomic context, which means it holds some locks or is in IRQ context.
    pub fn in_atomic(&self) -> (r: bool)
        ensures
            r == (self.num != 0),
    {
        self.num() != 0
    }
}

/// A guard to disable preemption. The first one that a CPU holds keeps its interrupts off.
pub struct DisablePreemptGuard {
    pub local: Option<DisabledLocalIrqGuard>,
}

/// What a CPU remembers, its interrupt flag and the guard, after a guard was made.
pub open spec fn guarded(info: PreemptInfo, irq: LocalIrq) -> (
    PreemptInfo,
    LocalIrq,
    DisablePreemptGuard,
) {
    (
        PreemptInfo { num: (info.num + 1) as usize, ..info },
        LocalIrq { enabled: irq.enabled && info.num != 0 },
        DisablePreemptGuard {
            local: if info.num == 0 {
                Some(DisabledLocalIrqGuard { was_enabled: irq.enabled })
            } else {
                None
            },
        },
    )
}

/// What a CPU remembers and its interrupt flag, after a guard was given back.
pub open spec fn unguarded(info: PreemptInfo, irq: LocalIrq, guard: DisablePreemptGuard) -> (
    PreemptInfo,
    LocalIrq,
) {
    (
        PreemptInfo { num: (info.num - 1) as usize, ..info },
        LocalIrq {
            enabled: irq.enabled || (guard.local matches Some(local) && local.was_enabled),
        },
    )
}

impl DisablePreemptGuard {
    /// Makes the CPU not preemptible until the guard is released.
    pub fn new(info: &mut PreemptInfo, irq: &mut LocalIrq) -> (guard: Self)
        requires
            old(info).num < usize::MAX,
        ensures
            (*final(info), *final(irq), guard) == guarded(*old(info), *old(irq)),
    {
        let num = info.num;
        info.num = num + 1;
        let local = if num == 0 {
            Some(irq.disable_local())
        } else {
            None
        };
        DisablePreemptGuard { local }
    }

    /// Gives the guard back.
    pub fn release(self, info: &mut PreemptInfo, irq: &mut LocalIrq)
        requires
            old(info).num > 0,
        ensures
            (*final(info), *final(irq)) == unguarded(*old(info), *old(irq), self),
    {
        info.num = info.num - 1;
        if let Some(local) = self.local {
            irq.restore(local);
        }
    }
}

/// Whether the CPU is in atomic context, which means it holds some locks with irq disabled or is in
/// irq context.
pub fn in_atomic(info: &PreemptInfo) -> (r: bool)
    ensures
        r == (info.num != 0),
{
    info.in_atomic()
}

/// Whether the CPU is preemptible, which means it is neither in atomic context, nor in IRQ context
/// and the preemption is enabled.
/// If it is not preemptible, the CPU cannot call `schedule()`.
pub fn is_preemptible(info: &PreemptInfo) -> (r: bool)
    ensures
        r == info.preemptible(),
{
    info.is_preemptible()
}

/// Whether the CPU is switching tasks.
pub fn is_in_preemption(info: &PreemptInfo) -> (r: bool)
    ensures
        r == (info.in_preemption is Some),
{
    info.in_preemption()
}

/// Begins to switch tasks: turns interrupts off and remembers the caller.
pub fn deactivate_preemption(info: &mut PreemptInfo, irq: &mut LocalIrq, caller: Location)
    requires
        old(info).preemptible(),
    ensures
        *final(info) == (PreemptInfo { in_preemption: Some(caller), ..*old(info) }),
        !final(irq).enabled,
{
    panic_if_not_preemptible(info);
    irq.enabled = false;
    info.in_preemption = Some(caller);
}

/// Ends the switch: forgets the caller and turns interrupts on.
pub fn activate_preemption(info: &mut PreemptInfo, irq: &mut LocalIrq)
    requires
        !old(irq).enabled,
        old(info).num == 0,
    ensures
        *final(info) == (PreemptInfo { in_preemption: None, ..*old(info) }),
        final(irq).enabled,
        final(info).preemptible(),
{
    info.in_preemption = None;
    irq.enabled = true;
    panic_if_not_preemptible(info);
}

/// What there is to say of a CPU that should have been preemptible.
#[derive(Clone, Copy, Debug)]
pub struct NotPreemptible {
    pub cpu: u32,
    pub num: usize,
    pub in_preemption: Option<Location>,
}

/// Passes on a CPU that is not in atomic context, and can be called on no other.
pub fn panic_if_in_atomic(info: &PreemptInfo)
    requires
        info.num == 0,
{
}

/// Passes on a CPU that is preemptible, and can be called on no other.
pub fn panic_if_not_preemptible(info: &PreemptInfo)
    requires
        info.preemptible(),
{
}

/// Tells what to panic with if the CPU is in atomic context.
pub fn found_in_atomic(info: &PreemptInfo, cpu: u32) -> (r: Option<NotPreemptible>)
    ensures
        r == (if info.num == 0 {
            None
        } else {
            Some(NotPreemptible { cpu, num: info.num, in_preemption: info.in_preemption })
        }),
{
    if !in_atomic(info) {
        return None;
    }
    Some(NotPreemptible { cpu, num: info.num(), in_preemption: info.in_preemption })
}

/// Tells what to panic with if the CPU is not preemptible.
pub fn found_not_preemptible(info: &PreemptInfo, cpu: u32) -> (r: Option<NotPreemptible>)
    ensures
        r == (if info.preemptible() {
            None
        } else {
            Some(NotPreemptible { cpu, num: info.num, in_preemption: info.in_preemption })
        }),
{
    if is_preemptible(info) {
        return None;
    }
    Some(NotPreemptible { cpu, num: info.num(), in_preemption: info.in_preemption })
}

/// Releasing a guard undoes making it.
pub proof fn law_release_undoes_guard(info: PreemptInfo, irq: LocalIrq)
    requires
        info.num < usize::MAX,
    ensures
        ({
            let (info2, irq2, guard) = guarded(info, irq);
            unguarded(info2, irq2, guard) == (info, irq)
        }),
{
}

/// A CPU that holds a guard is not preemptible, and takes no interrupts if it took none whenever it
/// held one before.
pub proof fn law_guard_disables(info: PreemptInfo, irq: LocalIrq)
    requires
        info.num < usize::MAX,
        info.num != 0 ==> !irq.enabled,
    ensures
        ({
            let (info2, irq2, _) = guarded(info, irq);
            &&& !info2.preemptible()
            &&& !irq2.enabled
        }),
{
}

/// A guard counts one more, and giving it back one less; neither ends or begins a switch of tasks.
/// Only the first guard turns interrupts off, and only it remembers whether they were on.
pub proof fn law_guards_are_counted(info: PreemptInfo, irq: LocalIrq, guard: DisablePreemptGuard)
    requires
        info.num < usize::MAX,
    ensures
        ({
            let (info2, irq2, made) = guarded(info, irq);
            &&& info2.num == info.num + 1
            &&& info2.in_preemption == info.in_preemption
            &&& info.num == 0 ==> !irq2.enabled && (made.local matches Some(local)
                && local.was_enabled == irq.enabled)
            &&& info.num > 0 ==> irq2 == irq && made.local is None
        }),
        info.num > 0 ==> ({
            let (info2, irq2) = unguarded(info, irq, guard);
            &&& info2.num == info.num - 1
            &&& info2.in_preemption == info.in_preemption
            &&& guard.local is None ==> irq2 == irq
            &&& guard.local matches Some(local) ==> irq2.enabled == (irq.enabled || local.was_enabled)
        }),
{
}

/// A CPU can switch tasks exactly if it holds no guard and is not switching already.
pub proof fn law_preemptible_is_free(info: PreemptInfo)
    ensures
        info.preemptible() <==> info.num == 0 && info.in_preemption is None,
{
}

} // verus!
