use asterinas::cpu::CpuSet;
use asterinas::error::{Errno, Error};
use asterinas::task::options::TaskOptions;
use asterinas::task::priority::Priority;
use asterinas::task::stack::{KernelPageTable, KernelStack, LinearMapping, VmSegment, ABSENT};
use asterinas::task::table::TaskTable;
use asterinas::task::task::{
    CalleeRegs, NeedResched, ReadPriority, Task, TaskContext, TaskStatus, WakeUp,
};

const LINEAR: LinearMapping = LinearMapping { base: 0x8000_0000 };

fn stack() -> KernelStack {
    KernelStack {
        segment: VmSegment { start_paddr: 0x10000, nframes: 17 },
        old_guard_page_flag: None,
    }
}

fn task(priority: u16) -> Task {
    let options = TaskOptions::new(11, 2).data(22).priority(Priority::new(priority));
    options.build(Ok(stack()), 0x4000, &LINEAR).unwrap()
}

#[test]
fn new_task_is_runnable_at_its_entry() {
    let t = TaskOptions::new(11, 4)
        .func(12)
        .data(22)
        .user_space(Some(33))
        .cpu_affinity(CpuSet::single(4, 1))
        .build(Ok(stack()), 0x4000, &LINEAR)
        .unwrap();
    assert!(t.status().is_runnable());
    assert_eq!(t.func, 12);
    assert_eq!(t.data(), 22);
    assert_eq!(t.user_space(), Some(33));
    assert_eq!(t.priority(), Priority::normal());
    assert!(!t.is_real_time());
    assert_eq!(t.cpu_affinity.iter(), vec![1]);
    assert!(!t.is_linked());
    assert!(!t.need_resched());
    let ctx = t.context();
    assert_eq!(ctx.rip, 0x4000);
    assert_eq!(ctx.regs.rsp, 0x8000_0000 + 0x10000 + 17 * 4096);
    assert_eq!(ctx.regs.rbx, 0);
}

#[test]
fn task_without_a_stack_is_not_built() {
    let e = Error::with_message(Errno::ENOMEM, "no frames");
    let options = TaskOptions::new(11, 4).data(22);
    match options.build(Err(e), 0x4000, &LINEAR) {
        Ok(_) => panic!("built"),
        Err(e) => assert_eq!((e.error(), e.msg), (Errno::ENOMEM, Some("no frames"))),
    }
}

#[test]
fn empty_context_is_zero() {
    assert_eq!(TaskContext::empty(), TaskContext { regs: CalleeRegs::zeros(), rip: 0 });
    assert_eq!(CalleeRegs::zeros().r15, 0);
}

#[test]
fn statuses() {
    assert!(TaskStatus::Runnable.is_runnable());
    assert!(!TaskStatus::Running(0).is_runnable());
    assert!(TaskStatus::Ready(3).is_ready(3));
    assert!(!TaskStatus::Ready(3).is_ready(2));
    assert!(TaskStatus::Sleeping.is_sleeping());
    assert!(!TaskStatus::ReadyToSleep(0).is_sleeping());
    assert!(TaskStatus::Exited.is_exited());
}

#[test]
fn wake_up_before_the_task_slept() {
    let mut t = task(120);
    t.task_status = TaskStatus::Running(1);
    t.sleep();
    assert_eq!(t.status(), TaskStatus::ReadyToSleep(1));
    assert!(!t.wakeup(77));
    assert_eq!(t.status(), TaskStatus::Running(1));
    assert_eq!(t.woken_up_timestamp(), Some(77));
    t.clear_woken_up_timestamp();
    assert_eq!(t.woken_up_timestamp(), None);
}

#[test]
fn sleeping_task_is_woken_once() {
    let mut t = task(120);
    t.task_status = TaskStatus::Sleeping;
    assert!(t.wakeup(5));
    assert!(t.status().is_runnable());
    assert!(!t.wakeup(6));
    assert_eq!(t.woken_up_timestamp(), Some(5));
}

#[test]
fn status_is_handed_to_a_function() {
    let mut t = task(120);
    let old = t.transition(|s| {
        let old = *s;
        *s = TaskStatus::Exited;
        old
    });
    assert_eq!(old, TaskStatus::Runnable);
    assert!(t.status().is_exited());
    t.set_need_resched(true);
    assert!(t.need_resched());
}

#[test]
fn table_gives_tasks_numbers() {
    let mut tasks = TaskTable::new();
    assert_eq!(tasks.insert(task(120)), 0);
    assert_eq!(tasks.insert(task(50)), 1);
    assert!(tasks.get(1).is_real_time());
    tasks.get_mut(0).exit_code = 9;
    assert_eq!(tasks.get(0).exit_code, 9);
}

#[test]
fn guard_page_is_taken_out_and_put_back() {
    let segment = VmSegment { start_paddr: 0x10000, nframes: 17 };
    let guard = 0x8000_0000 + 0x10000;
    let mut pt = KernelPageTable { entries: Default::default() };
    pt.entries.insert(guard, 3);
    pt.entries.insert(guard + 4096, 5);
    let stack = KernelStack::new_with_guard_page(Ok(segment), &mut pt, &LINEAR);
    let stack = match stack {
        Ok(stack) => stack,
        Err(_) => panic!("no stack"),
    };
    assert!(stack.has_guard_page());
    assert_eq!(stack.end_paddr(), 0x10000 + 17 * 4096);
    assert_eq!(pt.entries[&guard], ABSENT);
    stack.release(&mut pt, &LINEAR);
    assert_eq!(pt.entries[&guard], 3);
    assert_eq!(pt.entries[&(guard + 4096)], 5);
}

#[test]
fn stack_without_guard_page() {
    let segment = VmSegment { start_paddr: 0x10000, nframes: 16 };
    let stack = match KernelStack::new(Ok(segment)) {
        Ok(stack) => stack,
        Err(_) => panic!("no stack"),
    };
    assert!(!stack.has_guard_page());
    let mut pt = KernelPageTable { entries: Default::default() };
    stack.release(&mut pt, &LINEAR);
    assert!(pt.entries.is_empty());
    assert!(KernelStack::new(Err(Error::new(Errno::ENOMEM))).is_err());
    assert_eq!(pt.protect(0x1000, 1), None);
}

#[test]
fn frames_of_a_stack() {
    assert_eq!(KernelStack::frames(65536, false), 16);
    assert_eq!(KernelStack::frames(65536, true), 17);
}
