//! A lock that several users try to take at the same time, each in indivisible steps.
use vstd::prelude::*;

verus! {

/// The mathematical value of a lock: whether it is held, and what it protects.
pub struct LockView<T> {
    pub held: bool,
    pub val: T,
}

/// The lock after an attempt to take it, and whether that took it: it does if the lock was free.
pub open spec fn attempted<T>(lock: LockView<T>) -> (LockView<T>, bool) {
    (LockView { held: true, ..lock }, !lock.held)
}

/// The lock after it was given back.
pub open spec fn given_back<T>(lock: LockView<T>) -> LockView<T> {
    LockView { held: false, ..lock }
}

/// What a user of a lock does to it in one step.
pub enum LockStep<T> {
    /// Tries to take the lock. One that waits for the lock does so over and over.
    Attempt,
    /// Changes what the lock protects.
    Write(T),
    /// Gives the lock back.
    Release,
}

/// A lock that is shared, and which of its users holds it.
pub struct SharedLock<T> {
    pub lock: LockView<T>,
    pub holder: Option<nat>,
}

/// The shared lock after a step of one user. Only the holder has a guard, without which there is
/// nothing to write to and nothing to give back.
pub open spec fn stepped<T>(shared: SharedLock<T>, user: nat, step: LockStep<T>) -> SharedLock<T> {
    match step {
        LockStep::Attempt => {
            let (lock, taken) = attempted(shared.lock);
            SharedLock {
                lock,
                holder: if taken {
                    Some(user)
                } else {
                    shared.holder
                },
            }
        },
        LockStep::Write(val) => if shared.holder == Some(user) {
            SharedLock { lock: LockView { val, ..shared.lock }, ..shared }
        } else {
            shared
        },
        LockStep::Release => if shared.holder == Some(user) {
            SharedLock { lock: given_back(shared.lock), holder: None }
        } else {
            shared
        },
    }
}

/// The shared lock after steps of its users, in the order in which they came to pass.
pub open spec fn after<T>(shared: SharedLock<T>, steps: Seq<(nat, LockStep<T>)>) -> SharedLock<T>
    decreases steps.len(),
{
    if steps.len() == 0 {
        shared
    } else {
        let (user, step) = steps.last();
        stepped(after(shared, steps.drop_last()), user, step)
    }
}

/// Whether a lock is held exactly if one of its users holds it.
pub open spec fn shared_wf<T>(shared: SharedLock<T>) -> bool {
    shared.lock.held <==> shared.holder is Some
}

/// A lock that nobody holds at first is held exactly while one of its users holds it, whatever they
/// do.
pub proof fn law_held_by_one<T>(val: T, steps: Seq<(nat, LockStep<T>)>)
    ensures
        shared_wf(after(SharedLock { lock: LockView { held: false, val }, holder: None }, steps)),
    decreases steps.len(),
{
    if steps.len() > 0 {
        law_held_by_one(val, steps.drop_last());
    }
}

/// Until the holder gives the lock back nobody else gets it, and nobody else changes what it
/// protects: every attempt fails, whatever the others do and in whatever order.
pub proof fn law_holder_is_alone<T>(
    shared: SharedLock<T>,
    user: nat,
    steps: Seq<(nat, LockStep<T>)>,
)
    requires
        shared_wf(shared),
        shared.holder == Some(user),
        forall|i: int| 0 <= i < steps.len() ==> (#[trigger] steps[i]).0 != user,
    ensures
        after(shared, steps) == shared,
        !attempted(after(shared, steps).lock).1,
    decreases steps.len(),
{
    if steps.len() > 0 {
        let before = steps.drop_last();
        assert forall|i: int| 0 <= i < before.len() implies (#[trigger] before[i]).0 != user by {
            assert(before[i] == steps[i]);
        }
        law_holder_is_alone(shared, user, before);
        assert(steps[steps.len() - 1].0 != user);
    }
}

/// A user comes to hold the lock only by an attempt that found it free: one that waits does not
/// return before.
pub proof fn law_held_once_taken<T>(
    shared: SharedLock<T>,
    user: nat,
    steps: Seq<(nat, LockStep<T>)>,
)
    requires
        shared.holder != Some(user),
        after(shared, steps).holder == Some(user),
    ensures
        exists|i: int|
            0 <= i < steps.len() && #[trigger] steps[i].0 == user && steps[i].1 is Attempt && !after(
                shared,
                steps.take(i),
            ).lock.held,
    decreases steps.len(),
{
    if steps.len() > 0 {
        let before = steps.drop_last();
        let last = steps.len() - 1;
        if after(shared, before).holder == Some(user) {
            law_held_once_taken(shared, user, before);
            let i = choose|i: int|
                0 <= i < before.len() && #[trigger] before[i].0 == user && before[i].1 is Attempt
                    && !after(shared, before.take(i)).lock.held;
            assert(steps[i] == before[i]);
            assert(steps.take(i) =~= before.take(i));
        } else {
            assert(steps.take(last) =~= before);
            assert(steps[last].0 == user);
        }
    }
}

/// Whoever tries to take the lock next after it was given back gets it, and finds what the holder
/// before left, or what the lock was made with if there was none.
pub proof fn law_next_finds_what_was_left<T>(shared: SharedLock<T>, user: nat, next: nat)
    requires
        shared_wf(shared),
        shared.holder == Some(user) || shared.holder is None,
    ensures
        ({
            let free = stepped(shared, user, LockStep::Release);
            let taken = stepped(free, next, LockStep::Attempt);
            &&& taken.holder == Some(next)
            &&& taken.lock.held
            &&& taken.lock.val == shared.lock.val
        }),
{
}

/// An attempt takes the lock exactly if it was free. The lock is held after it in any case, and
/// what it protects is untouched. A lock that was given back is free.
pub proof fn law_attempt_takes_free_lock<T>(lock: LockView<T>)
    ensures
        attempted(lock).1 <==> !lock.held,
        attempted(lock).0.held,
        attempted(lock).0.val == lock.val,
        !given_back(lock).held,
        given_back(lock).val == lock.val,
        attempted(given_back(lock)).1,
        !attempted(attempted(lock).0).1,
{
}

} // verus!
