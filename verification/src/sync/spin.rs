//! A spin lock.
use vstd::prelude::*;

use crate::sync::shared::{attempted, given_back, LockView};
use crate::trap::{DisabledLocalIrqGuard, LocalIrq};

verus! {

/// A spin lock.
pub struct SpinLock<T> {
    pub lock: bool,
    pub val: T,
}

impl<T> View for SpinLock<T> {
    type V = LockView<T>;

    open spec fn view(&self) -> LockView<T> {
        LockView { held: self.lock, val: self.val }
    }
}

/// What a guard has to give back besides the lock.
pub enum InnerGuard {
    /// The interrupts that were turned off.
    IrqGuard(DisabledLocalIrqGuard),
    /// Nothing.
    Plain,
}

/// The guard of a spin lock, which may have turned the local IRQs off.
pub struct SpinLockGuard<'a, T> {
    pub lock: &'a mut SpinLock<T>,
    pub inner_guard: InnerGuard,
}

/// The interrupt flag after a guard was given back.
pub open spec fn irq_after(irq: LocalIrq, inner_guard: InnerGuard) -> LocalIrq {
    LocalIrq {
        enabled: irq.enabled || (inner_guard matches InnerGuard::IrqGuard(guard)
            && guard.was_enabled),
    }
}

impl<T> SpinLock<T> {
    /// Creates a new spin lock.
    pub fn new(val: T) -> (r: Self)
        ensures
            r == (SpinLock { lock: false, val }),
    {
        SpinLock { lock: false, val }
    }

    /// The value, without taking the lock: nobody else can hold it.
    pub fn get_mut(&mut self) -> (r: &mut T)
        ensures
            *r == old(self).val,
            final(self).val == *final(r),
            final(self).lock == old(self).lock,
    {
        &mut self.val
    }

    /// Whether the lock is held.
    pub fn is_locked(&self) -> (r: bool)
        ensures
            r == self.lock,
    {
        self.lock
    }

    /// Acquires the spin lock with disabling the local IRQs. This is the most secure
    /// locking way.
    ///
    /// The lock must have been given back.
    /// After acquiring the spin lock, all interrupts are disabled.
    pub fn lock_irq_disabled(&mut self, irq: &mut LocalIrq) -> (g: SpinLockGuard<'_, T>)
        requires
            !old(self).lock,
        ensures
            *g.lock == (SpinLock { lock: true, val: old(self).val }),
            *final(g.lock) == *final(self),
            g.inner_guard == InnerGuard::IrqGuard(
                DisabledLocalIrqGuard { was_enabled: old(irq).enabled },
            ),
            !final(irq).enabled,
    {
        let guard = irq.disable_local();
        self.acquire_lock();
        SpinLockGuard { lock: self, inner_guard: InnerGuard::IrqGuard(guard) }
    }

    /// Tries acquiring the spin lock immediately with disabling the local IRQs. They stay as they
    /// are if the lock is held.
    pub fn try_lock_irq_disabled(&mut self, irq: &mut LocalIrq) -> (r: Option<SpinLockGuard<'_, T>>)
        ensures
            r is Some <==> !old(self).lock,
            match r {
                Some(g) => {
                    &&& *g.lock == (SpinLock { lock: true, val: old(self).val })
                    &&& *final(g.lock) == *final(self)
                    &&& g.inner_guard == InnerGuard::IrqGuard(
                        DisabledLocalIrqGuard { was_enabled: old(irq).enabled },
                    )
                    &&& !final(irq).enabled
                },
                None => *final(self) == *old(self) && *final(irq) == *old(irq),
            },
    {
        let irq_guard = irq.disable_local();
        if self.try_acquire_lock() {
            return Some(
                SpinLockGuard { lock: self, inner_guard: InnerGuard::IrqGuard(irq_guard) },
            );
        }
        irq.restore(irq_guard);
        None
    }

    /// Acquires the spin lock without disabling local IRQs.
    ///
    /// The lock must have been given back.
    /// Prefer using this method over the `lock_irq_disabled` method
    /// when IRQ handlers are allowed to get executed while
    /// holding this lock. For example, if a lock is never used
    /// in the interrupt context, then it is ok to use this method
    /// in the process context.
    pub fn lock(&mut self) -> (g: SpinLockGuard<'_, T>)
        requires
            !old(self).lock,
        ensures
            *g.lock == (SpinLock { lock: true, val: old(self).val }),
            *final(g.lock) == *final(self),
            g.inner_guard == InnerGuard::Plain,
    {
        self.acquire_lock();
        SpinLockGuard { lock: self, inner_guard: InnerGuard::Plain }
    }

    /// Tries acquiring the spin lock immediately without disabling the local IRQs.
    pub fn try_lock(&mut self) -> (r: Option<SpinLockGuard<'_, T>>)
        ensures
            r is Some <==> !old(self).lock,
            match r {
                Some(g) => {
                    &&& *g.lock == (SpinLock { lock: true, val: old(self).val })
                    &&& *final(g.lock) == *final(self)
                    &&& g.inner_guard == InnerGuard::Plain
                },
                None => *final(self) == *old(self),
            },
    {
        if self.try_acquire_lock() {
            return Some(SpinLockGuard { lock: self, inner_guard: InnerGuard::Plain });
        }
        None
    }

    /// Takes the lock, which is free.
    fn acquire_lock(&mut self)
        requires
            !old(self).lock,
        ensures
            *final(self) == (SpinLock { lock: true, val: old(self).val }),
    {
        let _ = self.try_acquire_lock();
    }

    /// Takes the lock if it is free, and tells whether it was.
    pub fn try_acquire_lock(&mut self) -> (r: bool)
        ensures
            (final(self)@, r) == attempted(old(self)@),
    {
        if self.lock {
            return false;
        }
        self.lock = true;
        true
    }

    /// Gives the lock back.
    pub fn release_lock(&mut self)
        ensures
            final(self)@ == given_back(old(self)@),
    {
        self.lock = false;
    }
}

impl<'a, T> SpinLockGuard<'a, T> {
    /// The value that the lock protects.
    pub fn deref(&self) -> (r: &T)
        ensures
            *r == old(self.lock).val,
    {
        &self.lock.val
    }

    /// The value that the lock protects, open to change.
    pub fn deref_mut(&mut self) -> (r: &mut T)
        ensures
            *r == (*old(self).lock).val,
            *final(self).lock == (SpinLock { lock: (*old(self).lock).lock, val: *final(r) }),
            *final(final(self).lock) == *final(old(self).lock),
            final(self).inner_guard == old(self).inner_guard,
    {
        &mut self.lock.val
    }

    /// Gives the lock back, and then lets interrupts in again if the guard kept them off.
    pub fn release(self, irq: &mut LocalIrq)
        ensures
            *final(self.lock) == (SpinLock { lock: false, val: old(self.lock).val }),
            *final(irq) == irq_after(*old(irq), self.inner_guard),
    {
        self.lock.release_lock();
        if let InnerGuard::IrqGuard(guard) = self.inner_guard {
            irq.restore(guard);
        }
    }
}

/// Giving a lock back leaves the interrupts as they were before it was taken, whether it was taken
/// with the interrupts turned off or not.
pub proof fn law_release_restores_irq(irq: LocalIrq)
    ensures
        irq_after(
            LocalIrq { enabled: false },
            InnerGuard::IrqGuard(DisabledLocalIrqGuard { was_enabled: irq.enabled }),
        ) == irq,
        irq_after(irq, InnerGuard::Plain) == irq,
{
}

/// Giving a guard back turns interrupts on exactly if the guard turned them off, and never turns
/// them off.
pub proof fn law_release_never_turns_irq_off(irq: LocalIrq, guard: DisabledLocalIrqGuard)
    ensures
        irq_after(irq, InnerGuard::IrqGuard(guard)).enabled == (irq.enabled || guard.was_enabled),
        irq_after(irq, InnerGuard::Plain) == irq,
{
}

} // verus!
