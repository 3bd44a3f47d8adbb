//! A mutex that lets another task run when it is given back.
use vstd::prelude::*;

use crate::sync::shared::{attempted, given_back, LockView};
use crate::task::preempt::Location;
use crate::task::processor::{can_schedule, schedule, scheduled, Clock, ContextSwitch, Cpu};
use crate::task::scheduler::{global_wf, GlobalScheduler, Scheduler};
use crate::task::table::TaskTable;

verus! {

/// A mutex.
pub struct Mutex<T> {
    pub val: T,
    pub lock: bool,
}

impl<T> View for Mutex<T> {
    type V = LockView<T>;

    open spec fn view(&self) -> LockView<T> {
        LockView { held: self.lock, val: self.val }
    }
}

/// The guard of a mutex.
pub struct MutexGuard<'a, T> {
    pub mutex: &'a mut Mutex<T>,
}

impl<T> Mutex<T> {
    /// Creates a new mutex.
    pub fn new(val: T) -> (r: Self)
        ensures
            r == (Mutex { val, lock: false }),
    {
        Mutex { val, lock: false }
    }

    /// The value, without taking the mutex: nobody else can hold it.
    pub fn get_mut(&mut self) -> (r: &mut T)
        ensures
            *r == old(self).val,
            final(self).val == *final(r),
            final(self).lock == old(self).lock,
    {
        &mut self.val
    }

    /// Acquires the mutex, which must have been given back.
    pub fn lock(&mut self) -> (g: MutexGuard<'_, T>)
        requires
            !old(self).lock,
        ensures
            *g.mutex == (Mutex { val: old(self).val, lock: true }),
            *final(g.mutex) == *final(self),
    {
        let _ = self.acquire_lock();
        MutexGuard::new(self)
    }

    /// Tries to acquire the mutex immediately.
    pub fn try_lock(&mut self) -> (r: Option<MutexGuard<'_, T>>)
        ensures
            r is Some <==> !old(self).lock,
            match r {
                Some(g) => {
                    &&& *g.mutex == (Mutex { val: old(self).val, lock: true })
                    &&& *final(g.mutex) == *final(self)
                },
                None => *final(self) == *old(self),
            },
    {
        if self.acquire_lock() {
            Some(MutexGuard::new(self))
        } else {
            None
        }
    }

    /// Releases the mutex and lets another task run if it should.
    pub fn unlock<S: Scheduler>(
        &mut self,
        global: &mut GlobalScheduler<S>,
        tasks: &mut TaskTable,
        cpu: &mut Cpu,
        clock: &Clock,
        caller: Location,
    ) -> (r: Option<ContextSwitch>)
        requires
            can_schedule::<S>(old(global)@, old(tasks)@, *old(cpu), *clock, caller),
        ensures
            *final(self) == (Mutex { val: old(self).val, lock: false }),
            (final(global)@, final(tasks)@, *final(cpu), r) == scheduled::<S>(
                old(global)@,
                old(tasks)@,
                *old(cpu),
                *clock,
                caller,
            ),
            global_wf::<S>(final(global)@, final(tasks)@),
    {
        self.release_lock();
        schedule(global, tasks, cpu, clock, caller)
    }

    /// Takes the mutex if it is free, and tells whether it was.
    pub fn acquire_lock(&mut self) -> (r: bool)
        ensures
            (final(self)@, r) == attempted(old(self)@),
    {
        if self.lock {
            return false;
        }
        self.lock = true;
        true
    }

    /// Gives the mutex back.
    pub fn release_lock(&mut self)
        ensures
            final(self)@ == given_back(old(self)@),
    {
        self.lock = false;
    }
}

impl<'a, T> MutexGuard<'a, T> {
    /// The guard of a mutex that was just taken.
    fn new(mutex: &'a mut Mutex<T>) -> (g: MutexGuard<'a, T>)
        ensures
            *g.mutex == *old(mutex),
            *final(g.mutex) == *final(mutex),
    {
        MutexGuard { mutex }
    }

    /// The value that the mutex protects.
    pub fn deref(&self) -> (r: &T)
        ensures
            *r == old(self.mutex).val,
    {
        &self.mutex.val
    }

    /// The value that the mutex protects, open to change.
    pub fn deref_mut(&mut self) -> (r: &mut T)
        ensures
            *r == (*old(self).mutex).val,
            *final(self).mutex == (Mutex { val: *final(r), lock: (*old(self).mutex).lock }),
            *final(final(self).mutex) == *final(old(self).mutex),
    {
        &mut self.mutex.val
    }

    /// Gives the mutex back and lets another task run if it should.
    pub fn release<S: Scheduler>(
        self,
        global: &mut GlobalScheduler<S>,
        tasks: &mut TaskTable,
        cpu: &mut Cpu,
        clock: &Clock,
        caller: Location,
    ) -> (r: Option<ContextSwitch>)
        requires
            can_schedule::<S>(old(global)@, old(tasks)@, *old(cpu), *clock, caller),
        ensures
            *final(self.mutex) == (Mutex { val: old(self.mutex).val, lock: false }),
            (final(global)@, final(tasks)@, *final(cpu), r) == scheduled::<S>(
                old(global)@,
                old(tasks)@,
                *old(cpu),
                *clock,
                caller,
            ),
            global_wf::<S>(final(global)@, final(tasks)@),
    {
        self.mutex.unlock(global, tasks, cpu, clock, caller)
    }
}

} // verus!
