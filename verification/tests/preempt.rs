use asterinas::idle::{IdleAction, IdleEvent, IdleLoop, IdlePhase, IdleState, IdleStep};
use asterinas::sync::backoff::{MutexBackoff, MutexStep, SpinBackoff, SpinStep};
use asterinas::sync::spin::SpinLock;
use asterinas::sync::spin_mutex::Mutex;
use asterinas::task::preempt::{
    activate_preemption, deactivate_preemption, found_in_atomic, found_not_preemptible, in_atomic,
    is_in_preemption, is_preemptible, panic_if_in_atomic, panic_if_not_preemptible,
    DisablePreemptGuard, Location, PreemptInfo,
};
use asterinas::trap::LocalIrq;

fn here(line: u32) -> Location {
    Location { cpu: 2, file: "here.rs", line }
}

#[test]
fn guards_nest() {
    let mut irq = LocalIrq { enabled: true };
    let mut info = PreemptInfo::new();
    let a = DisablePreemptGuard::new(&mut info, &mut irq);
    let b = DisablePreemptGuard::new(&mut info, &mut irq);
    assert_eq!(info.num(), 2);
    assert!(in_atomic(&info));
    assert!(!irq.enabled);
    b.release(&mut info, &mut irq);
    assert!(!irq.enabled);
    assert!(!is_preemptible(&info));
    a.release(&mut info, &mut irq);
    assert!(irq.enabled);
    assert!(is_preemptible(&info));
    assert_eq!(info.num(), 0);
}

#[test]
fn guard_leaves_interrupts_off_that_were_off() {
    let mut irq = LocalIrq { enabled: false };
    let mut info = PreemptInfo::new();
    let a = DisablePreemptGuard::new(&mut info, &mut irq);
    a.release(&mut info, &mut irq);
    assert!(!irq.enabled);
}

#[test]
fn switch_is_begun_and_ended() {
    let mut irq = LocalIrq { enabled: true };
    let mut info = PreemptInfo::new();
    deactivate_preemption(&mut info, &mut irq, here(7));
    assert!(is_in_preemption(&info));
    assert!(!is_preemptible(&info));
    assert!(!irq.enabled);
    assert_eq!(info.in_preemption.unwrap().line, 7);
    activate_preemption(&mut info, &mut irq);
    assert!(!is_in_preemption(&info));
    assert!(is_preemptible(&info));
    assert!(irq.enabled);
}

#[test]
fn what_to_panic_with() {
    let mut irq = LocalIrq { enabled: true };
    let mut info = PreemptInfo::new();
    assert!(found_in_atomic(&info, 2).is_none());
    assert!(found_not_preemptible(&info, 2).is_none());
    panic_if_in_atomic(&info);
    panic_if_not_preemptible(&info);
    deactivate_preemption(&mut info, &mut irq, here(9));
    assert!(found_in_atomic(&info, 2).is_none());
    panic_if_in_atomic(&info);
    let e = found_not_preemptible(&info, 2).unwrap();
    assert_eq!((e.cpu, e.num, e.in_preemption.unwrap().line), (2, 0, 9));
    let _guard = DisablePreemptGuard::new(&mut info, &mut irq);
    let e = found_in_atomic(&info, 3).unwrap();
    assert_eq!((e.cpu, e.num), (3, 1));
    let e = found_not_preemptible(&info, 4).unwrap();
    assert_eq!((e.cpu, e.num), (4, 1));
}

#[test]
fn spin_lock_is_held_by_one() {
    let mut lock = SpinLock::new(5u32);
    assert!(!lock.is_locked());
    assert!(lock.try_acquire_lock());
    assert!(lock.is_locked());
    assert!(!lock.try_acquire_lock());
    assert!(lock.try_lock().is_none());
    lock.release_lock();
    assert!(!lock.is_locked());
    *lock.get_mut() = 6;
    let mut irq = LocalIrq { enabled: true };
    let mut g = lock.lock();
    assert_eq!(*g.deref(), 6);
    *g.deref_mut() = 8;
    g.release(&mut irq);
    assert!(irq.enabled);
    assert!(!lock.is_locked());
    assert_eq!(lock.val, 8);
}

#[test]
fn spin_lock_keeps_interrupts_off() {
    let mut irq = LocalIrq { enabled: true };
    let mut lock = SpinLock::new(());
    let g = lock.lock_irq_disabled(&mut irq);
    assert!(!irq.enabled);
    g.release(&mut irq);
    assert!(irq.enabled);
    let g = lock.try_lock_irq_disabled(&mut irq);
    assert!(!irq.enabled);
    g.unwrap().release(&mut irq);
    assert!(irq.enabled);
}

#[test]
fn failed_attempt_leaves_interrupts_alone() {
    let mut irq = LocalIrq { enabled: true };
    let mut lock = SpinLock::new(1u8);
    assert!(lock.try_acquire_lock());
    assert!(lock.try_lock_irq_disabled(&mut irq).is_none());
    assert!(irq.enabled);
    assert!(lock.is_locked());
}

#[test]
fn mutex_is_held_by_one() {
    let mut mutex = Mutex::new(1u32);
    *mutex.get_mut() = 2;
    {
        let mut g = mutex.lock();
        assert_eq!(*g.deref(), 2);
        *g.deref_mut() = 3;
    }
    assert!(mutex.try_lock().is_none());
    assert!(!mutex.acquire_lock());
    mutex.release_lock();
    assert_eq!(*mutex.try_lock().unwrap().deref(), 3);
    assert!(mutex.lock);
}

#[test]
fn waits_for_a_spin_lock_double() {
    let mut b = SpinBackoff::new();
    for n in 0..17 {
        assert_eq!(b.fail(), SpinStep { spins: 1 << n, report: false });
    }
    assert_eq!(b.fail().spins, 65536);
}

#[test]
fn stuck_cpu_says_so_every_so_often() {
    let mut b = SpinBackoff::new();
    let mut reports = Vec::new();
    for n in 0..10100 {
        if b.fail().report {
            reports.push(n);
        }
    }
    assert_eq!(reports, vec![16 + 4999, 16 + 9999]);
}

#[test]
fn mutex_yields_after_eleven_attempts() {
    let mut b = MutexBackoff::new();
    for n in 0..10 {
        assert_eq!(b.fail(), MutexStep { spins: 1 << n, yields: false });
    }
    assert_eq!(b.fail(), MutexStep { spins: 1024, yields: true });
    assert_eq!(b.fail(), MutexStep { spins: 1, yields: false });
}

#[test]
fn idle_cpu_waits_longer_and_balances() {
    let mut s = IdleState::new();
    for n in 0..17 {
        assert_eq!(s.offered(false), IdleAction::SpinAndBalance(1 << n));
    }
    assert_eq!(s.offered(false), IdleAction::SpinAndBalance(65536));
    assert_eq!(s.offered(true), IdleAction::Yield);
    assert_eq!(s.offered(false), IdleAction::SpinAndBalance(1));
}

#[test]
fn busy_cpu_balances_too() {
    let mut s = IdleState::new();
    for _ in 0..61 {
        assert_eq!(s.offered(true), IdleAction::Yield);
    }
    assert_eq!(s.offered(true), IdleAction::SpinAndBalance(1));
    assert_eq!(s.offered(true), IdleAction::Yield);
}

#[test]
fn waiting_ends_when_the_lock_is_taken() {
    let mut b = SpinBackoff::new();
    assert_eq!(b.after_attempt(false), Some(SpinStep { spins: 1, report: false }));
    assert_eq!(b.after_attempt(false), Some(SpinStep { spins: 2, report: false }));
    assert_eq!(b.after_attempt(true), None);
    let mut b = MutexBackoff::new();
    for n in 0..10 {
        assert_eq!(b.after_attempt(false), Some(MutexStep { spins: 1 << n, yields: false }));
    }
    assert_eq!(b.after_attempt(false), Some(MutexStep { spins: 1024, yields: true }));
    assert_eq!(b.after_attempt(true), None);
}

#[test]
fn next_holder_finds_what_was_left() {
    let mut lock = SpinLock::new(1u32);
    assert!(lock.try_acquire_lock());
    for _ in 0..3 {
        assert!(!lock.try_acquire_lock());
    }
    assert_eq!(lock.val, 1);
    *lock.get_mut() = 2;
    lock.release_lock();
    let g = lock.try_lock().unwrap();
    assert_eq!(*g.deref(), 2);
}

#[test]
fn idling_ends_at_the_first_no() {
    let mut idle = IdleLoop::new();
    assert_eq!(idle.step(IdleEvent::Condition(true)), IdleStep::Offer);
    assert_eq!(idle.step(IdleEvent::Offered(true)), IdleStep::Ask);
    assert_eq!(idle.step(IdleEvent::Condition(true)), IdleStep::Offer);
    assert_eq!(idle.step(IdleEvent::Offered(false)), IdleStep::Spin(1));
    assert_eq!(idle.step(IdleEvent::Spun), IdleStep::Ask);
    assert_eq!(idle.step(IdleEvent::Condition(true)), IdleStep::Balance);
    assert_eq!(idle.step(IdleEvent::Balanced), IdleStep::Ask);
    assert_eq!(idle.step(IdleEvent::Condition(true)), IdleStep::Offer);
    assert_eq!(idle.step(IdleEvent::Offered(false)), IdleStep::Spin(2));
    assert_eq!(idle.step(IdleEvent::Spun), IdleStep::Ask);
    assert_eq!(idle.step(IdleEvent::Condition(false)), IdleStep::Stop);
    assert_eq!(idle.phase, IdlePhase::Stopped);
    let mut idle = IdleLoop::new();
    assert_eq!(idle.step(IdleEvent::Condition(false)), IdleStep::Stop);
}
