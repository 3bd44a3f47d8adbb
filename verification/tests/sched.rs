use asterinas::cpu::CpuSet;
use asterinas::error::{Errno, Error};
use asterinas::sched::completely_fair_scheduler::{CompletelyFairScheduler, TaskReport};
use asterinas::sched::run_queue::RunQueue;
use asterinas::sync::spin_mutex::Mutex;
use asterinas::task::lifecycle::kernel_task_entry;
use asterinas::task::options::TaskOptions;
use asterinas::task::preempt::{activate_preemption, Location};
use asterinas::task::priority::Priority;
use asterinas::task::processor::{
    current_task, schedule, scheduler_tick, with_current, yield_now, yield_to, Clock, Cpu,
    Processor,
};
use asterinas::task::scheduler::{
    add_task, clear_task, set_scheduler, trigger_load_balancing, GlobalScheduler, SchedEnv,
    Scheduler,
};
use asterinas::task::stack::{KernelStack, LinearMapping, VmSegment};
use asterinas::task::table::TaskTable;
use asterinas::task::task::{NeedResched, Task, TaskId, TaskStatus};
use asterinas::trap::LocalIrq;

const LINEAR: LinearMapping = LinearMapping { base: 0x8000_0000 };
const HERE: Location = Location { cpu: 0, file: "here.rs", line: 1 };

fn stack() -> KernelStack {
    KernelStack {
        segment: VmSegment { start_paddr: 0x10000, nframes: 17 },
        old_guard_page_flag: None,
    }
}

fn task_on(priority: u16, set: CpuSet) -> Task {
    let options =
        TaskOptions::new(11, 2).data(22).priority(Priority::new(priority)).cpu_affinity(set);
    options.build(Ok(stack()), 0x4000, &LINEAR).unwrap()
}

fn task(priority: u16) -> Task {
    task_on(priority, CpuSet::new_full(2))
}

fn table(priorities: &[u16]) -> TaskTable {
    let mut tasks = TaskTable::new();
    for p in priorities {
        tasks.insert(task(*p));
    }
    tasks
}

fn env(cpu: u32, tsc: u64, current: Option<TaskId>) -> SchedEnv {
    SchedEnv { cpu, irq_enabled: false, guards: 0, tsc, tick: 0, current }
}

fn cfs() -> CompletelyFairScheduler {
    CompletelyFairScheduler::new(2, (1, 1))
}

fn vruntime(tasks: &mut TaskTable, sched: &CompletelyFairScheduler, t: TaskId) -> u64 {
    sched.traverse(tasks, &env(0, 0, Some(t))).unwrap().cur_task.vruntime_ns
}

#[test]
fn queue_hands_tasks_out_in_order() {
    let mut tasks = table(&[120, 120, 120]);
    let mut rq = RunQueue::new(0);
    rq.push(&mut tasks, 2, 100);
    rq.push(&mut tasks, 0, 200);
    rq.push(&mut tasks, 1, 200);
    assert_eq!((rq.cpu(), rq.load(), rq.num()), (0, 3072, 3));
    assert_eq!(rq.normal_tasks(), &vec![2, 0, 1]);
    assert_eq!(tasks.get(2).status(), TaskStatus::Ready(0));
    assert!(tasks.get(2).is_linked());
    assert_eq!(rq.pop(&mut tasks, 0, 300), Some(2));
    assert_eq!(tasks.get(2).status(), TaskStatus::Runnable);
    assert!(!tasks.get(2).is_linked());
    assert_eq!(rq.pop(&mut tasks, 0, 300), Some(0));
    assert_eq!(rq.pop(&mut tasks, 0, 300), Some(1));
    assert_eq!(rq.pop(&mut tasks, 0, 300), None);
    assert_eq!((rq.load(), rq.num()), (0, 0));
}

#[test]
fn real_time_tasks_come_first() {
    let mut tasks = table(&[120, 50, 10]);
    let mut rq = RunQueue::new(0);
    rq.push(&mut tasks, 0, 100);
    rq.push(&mut tasks, 1, 100);
    rq.push(&mut tasks, 2, 100);
    assert_eq!((rq.load(), rq.num()), (1024, 1));
    assert_eq!(rq.pop(&mut tasks, 0, 300), Some(1));
    assert_eq!(rq.pop(&mut tasks, 0, 300), Some(2));
    assert_eq!(rq.pop(&mut tasks, 0, 300), Some(0));
}

#[test]
fn pop_gives_back_what_was_pushed() {
    let mut tasks = table(&[110]);
    let mut rq = RunQueue::new(1);
    rq.push(&mut tasks, 0, 100);
    assert_eq!(rq.load(), 9548);
    assert_eq!(rq.pop(&mut tasks, 1, 200), Some(0));
}

#[test]
fn task_that_is_not_ready_is_dropped() {
    let mut tasks = table(&[120, 120]);
    let mut rq = RunQueue::new(0);
    rq.push(&mut tasks, 0, 100);
    rq.push(&mut tasks, 1, 100);
    tasks.get_mut(0).task_status = TaskStatus::Sleeping;
    assert_eq!(rq.pop(&mut tasks, 0, 200), Some(1));
    assert!(!tasks.get(0).is_linked());
    assert_eq!(tasks.get(0).status(), TaskStatus::Sleeping);
    assert_eq!((rq.load(), rq.num()), (0, 0));
}

#[test]
fn task_that_may_not_run_there_waits_on() {
    let mut tasks = TaskTable::new();
    tasks.insert(task_on(120, CpuSet::single(2, 0)));
    tasks.insert(task(120));
    let mut rq = RunQueue::new(0);
    rq.push(&mut tasks, 0, 100);
    rq.push(&mut tasks, 1, 100);
    assert_eq!(rq.pop(&mut tasks, 1, 200), Some(1));
    assert_eq!(rq.pop(&mut tasks, 1, 200), None);
    assert_eq!(rq.normal_tasks(), &vec![0]);
    assert_eq!(rq.pop(&mut tasks, 0, 200), Some(0));
}

#[test]
fn task_that_ran_waits_behind() {
    let mut tasks = table(&[120, 120]);
    let mut sched = cfs();
    sched.enqueue(&mut tasks, &env(0, 0, None), 0);
    sched.enqueue(&mut tasks, &env(0, 10, None), 1);
    assert_eq!(sched.pick_next_task(&mut tasks, &env(0, 100, None)), Some(0));
    sched.tick_cur_task(&mut tasks, &env(0, 600, Some(0)));
    assert_eq!(vruntime(&mut tasks, &sched, 0), 500);
    sched.enqueue(&mut tasks, &env(0, 600, None), 0);
    assert_eq!(sched.pick_next_task(&mut tasks, &env(0, 700, None)), Some(1));
    assert_eq!(sched.pick_next_task(&mut tasks, &env(0, 700, None)), Some(0));
}

#[test]
fn task_goes_where_it_may_run() {
    let mut tasks = TaskTable::new();
    tasks.insert(task_on(120, CpuSet::single(2, 1)));
    let mut sched = cfs();
    sched.enqueue(&mut tasks, &env(0, 0, None), 0);
    assert_eq!(tasks.get(0).status(), TaskStatus::Ready(1));
    assert_eq!(sched.pick_next_task(&mut tasks, &env(0, 5, None)), None);
    assert_eq!(sched.pick_next_task(&mut tasks, &env(1, 5, None)), Some(0));
}

#[test]
fn tick_asks_for_another_task_when_the_share_is_used() {
    let mut tasks = table(&[120, 120]);
    let mut sched = cfs();
    sched.enqueue(&mut tasks, &env(0, 0, None), 0);
    sched.enqueue(&mut tasks, &env(0, 0, None), 1);
    assert_eq!(sched.pick_next_task(&mut tasks, &env(0, 0, None)), Some(0));
    // The period is 6 ms, and the task has half of the load.
    sched.tick_cur_task(&mut tasks, &env(0, 3_000_000, Some(0)));
    assert!(!tasks.get(0).need_resched());
    sched.tick_cur_task(&mut tasks, &env(0, 3_000_001, Some(0)));
    assert!(tasks.get(0).need_resched());
}

#[test]
fn scheduler_answers_whether_to_make_way() {
    let mut tasks = table(&[120, 120]);
    let mut sched = cfs();
    assert!(sched.should_preempt_cur_task(&mut tasks, &env(0, 5, Some(0))));
    sched.prepare_to_yield_to(&mut tasks, &env(0, 5, None), 0);
    assert!(!sched.should_preempt_cur_task(&mut tasks, &env(0, 6, Some(0))));
    assert!(sched.should_preempt_cur_task(&mut tasks, &env(0, 7_000_000, Some(0))));
    sched.prepare_to_yield_cur_task(&mut tasks, &env(0, 8_000_000, Some(0)));
    assert!(tasks.get(0).need_resched());
    sched.clear(&mut tasks, &env(0, 8_000_000, Some(0)), 0);
    assert!(sched.should_preempt_cur_task(&mut tasks, &env(0, 9_000_000, Some(0))));
}

#[test]
fn load_is_balanced() {
    let mut tasks = table(&[120, 120, 120]);
    let mut sched = cfs();
    for t in 0..3 {
        sched.enqueue(&mut tasks, &env(0, t, None), t as usize);
    }
    sched.load_balance(&mut tasks, &env(1, 50, None));
    assert_eq!(tasks.get(0).status(), TaskStatus::Ready(1));
    assert_eq!(tasks.get(1).status(), TaskStatus::Ready(1));
    assert_eq!(tasks.get(2).status(), TaskStatus::Ready(0));
    // Nothing to do for the busiest CPU itself.
    sched.load_balance(&mut tasks, &env(1, 60, None));
    assert_eq!(tasks.get(0).status(), TaskStatus::Ready(1));
    assert_eq!(sched.pick_next_task(&mut tasks, &env(0, 70, None)), Some(2));
    assert_eq!(sched.pick_next_task(&mut tasks, &env(0, 70, None)), None);
}

#[test]
fn bound_tasks_are_not_moved() {
    let mut tasks = TaskTable::new();
    for _ in 0..3 {
        tasks.insert(task_on(120, CpuSet::single(2, 0)));
    }
    let mut sched = cfs();
    for t in 0..3 {
        sched.enqueue(&mut tasks, &env(0, t, None), t as usize);
    }
    sched.load_balance(&mut tasks, &env(1, 50, None));
    for t in 0..3 {
        assert_eq!(tasks.get(t).status(), TaskStatus::Ready(0));
    }
}

#[test]
fn single_task_is_not_moved() {
    let mut tasks = table(&[120]);
    let mut sched = cfs();
    sched.enqueue(&mut tasks, &env(0, 0, None), 0);
    sched.load_balance(&mut tasks, &env(1, 50, None));
    assert_eq!(tasks.get(0).status(), TaskStatus::Ready(0));
}

#[test]
fn report_shows_the_queue() {
    let mut tasks = table(&[120, 125, 115]);
    let mut sched = CompletelyFairScheduler::new(2, (5, 12));
    for t in 0..3 {
        sched.enqueue(&mut tasks, &env(0, t, None), t as usize);
    }
    assert_eq!(sched.pick_next_task(&mut tasks, &env(0, 10, None)), Some(0));
    sched.tick_cur_task(&mut tasks, &env(0, 2410, Some(0)));
    assert!(sched.traverse(&tasks, &env(0, 0, None)).is_none());
    let mut e = env(0, 0, Some(0));
    e.tick = 33;
    let report = sched.traverse(&tasks, &e).unwrap();
    assert_eq!((report.cpu, report.cur_tick), (0, 33));
    assert_eq!(report.cur_task, TaskReport { task: 0, weight: 1024, vruntime_ns: 1000 });
    assert_eq!((report.load, report.num), (1024 + 335 + 3121, 2));
    assert_eq!(report.period_ns, 6_000_000);
    assert_eq!(
        report.ready,
        vec![
            TaskReport { task: 1, weight: 335, vruntime_ns: 0 },
            TaskReport { task: 2, weight: 3121, vruntime_ns: 0 },
        ]
    );
}

fn cpu() -> Cpu {
    Cpu::new(0, LocalIrq { enabled: true })
}

fn global() -> GlobalScheduler<CompletelyFairScheduler> {
    let mut g = GlobalScheduler::new();
    set_scheduler(&mut g, cfs());
    g
}

fn at(tsc: u64) -> Clock {
    Clock { tsc, tick: 0 }
}

#[test]
fn first_scheduler_stays() {
    let mut g = global();
    let mut tasks = table(&[120]);
    let mut c = cpu();
    add_task(&mut g, &mut tasks, &mut c, &at(5), 0);
    set_scheduler(&mut g, cfs());
    assert_eq!(g.pick_next_task(&mut tasks, &env(0, 6, None)), Some(0));
}

#[test]
fn without_a_scheduler_nothing_runs() {
    let mut g: GlobalScheduler<CompletelyFairScheduler> = GlobalScheduler::new();
    let mut tasks = table(&[120]);
    let mut c = cpu();
    assert_eq!(g.pick_next_task(&mut tasks, &env(0, 6, None)), None);
    assert!(schedule(&mut g, &mut tasks, &mut c, &at(5), HERE).is_none());
    assert!(c.irq.enabled);
    trigger_load_balancing(&mut g, &mut tasks, &mut c, &at(5));
}

#[test]
fn idle_cpu_switches_to_a_waiting_task() {
    let mut g = global();
    let mut tasks = table(&[120, 120]);
    let mut c = cpu();
    add_task(&mut g, &mut tasks, &mut c, &at(5), 1);
    assert!(c.irq.enabled);
    assert_eq!(c.preempt.num(), 0);
    let s = schedule(&mut g, &mut tasks, &mut c, &at(9), HERE).unwrap();
    assert_eq!((s.from, s.to, s.next_ctx.rip), (None, 1, 0x4000));
    assert_eq!(current_task(&c), Some(1));
    assert!(!c.irq.enabled);
    assert!(c.preempt.in_preemption());
    assert_eq!(kernel_task_entry(&mut c, &tasks), (1, 11));
    assert!(c.irq.enabled);
    assert!(c.preempt.is_preemptible());
}

#[test]
fn current_task_runs_on_within_its_share() {
    let mut g = global();
    let mut tasks = table(&[120, 120]);
    let mut c = cpu();
    add_task(&mut g, &mut tasks, &mut c, &at(0), 0);
    add_task(&mut g, &mut tasks, &mut c, &at(0), 1);
    schedule(&mut g, &mut tasks, &mut c, &at(0), HERE).unwrap();
    activate_preemption(&mut c.preempt, &mut c.irq);
    assert!(schedule(&mut g, &mut tasks, &mut c, &at(100), HERE).is_none());
    assert!(c.preempt.is_preemptible());
    assert_eq!(current_task(&c), Some(0));
    let s = schedule(&mut g, &mut tasks, &mut c, &at(4_000_000), HERE).unwrap();
    assert_eq!((s.from, s.to), (Some(0), 1));
    assert_eq!(tasks.get(0).status(), TaskStatus::Ready(0));
}

#[test]
fn yielding_task_waits_again() {
    let mut g = global();
    let mut tasks = table(&[120, 120]);
    let mut c = cpu();
    add_task(&mut g, &mut tasks, &mut c, &at(0), 0);
    add_task(&mut g, &mut tasks, &mut c, &at(0), 1);
    schedule(&mut g, &mut tasks, &mut c, &at(0), HERE).unwrap();
    activate_preemption(&mut c.preempt, &mut c.irq);
    let s = yield_now(&mut g, &mut tasks, &mut c, &at(50), HERE).unwrap();
    assert_eq!((s.from, s.to), (Some(0), 1));
    assert!(tasks.get(0).is_linked());
    assert!(!tasks.get(0).need_resched());
}

#[test]
fn yielding_without_others_goes_on() {
    let mut g = global();
    let mut tasks = table(&[120]);
    let mut c = cpu();
    add_task(&mut g, &mut tasks, &mut c, &at(0), 0);
    schedule(&mut g, &mut tasks, &mut c, &at(0), HERE).unwrap();
    activate_preemption(&mut c.preempt, &mut c.irq);
    assert!(yield_now(&mut g, &mut tasks, &mut c, &at(50), HERE).is_none());
    assert_eq!(current_task(&c), Some(0));
    assert!(tasks.get(0).need_resched());
}

#[test]
fn cpu_is_given_to_a_task() {
    let mut g = global();
    let mut tasks = table(&[120, 120]);
    let mut c = cpu();
    let s = yield_to(&mut g, &mut tasks, &mut c, &at(5), HERE, 1);
    assert_eq!((s.from, s.to), (None, 1));
    activate_preemption(&mut c.preempt, &mut c.irq);
    let s = Task::run(0, &mut g, &mut tasks, &mut c, &at(9), HERE);
    assert_eq!((s.from, s.to), (Some(1), 0));
    assert_eq!(tasks.get(1).status(), TaskStatus::Ready(0));
}

#[test]
fn spawned_task_runs_at_once() {
    let mut g = global();
    let mut tasks = table(&[120]);
    let mut c = cpu();
    c.processor.set_current_task(0);
    let options = TaskOptions::new(41, 2).data(42);
    let spawned = options
        .spawn(None, Ok(stack()), 0x5000, &LINEAR, &mut g, &mut tasks, &mut c, &at(5), HERE)
        .unwrap_or_else(|_| panic!("not spawned"));
    let s = spawned.switch;
    assert_eq!((spawned.task, s.from, s.to, s.next_ctx.rip), (1, Some(0), 1, 0x5000));
    assert!(spawned.replaced.is_none());
    assert_eq!(kernel_task_entry(&mut c, &tasks), (1, 41));
    assert!(tasks.get(0).is_linked());
}

#[test]
fn task_that_exits_is_forgotten() {
    let mut g = global();
    let mut tasks = table(&[120, 120]);
    let mut c = cpu();
    add_task(&mut g, &mut tasks, &mut c, &at(0), 0);
    add_task(&mut g, &mut tasks, &mut c, &at(0), 1);
    schedule(&mut g, &mut tasks, &mut c, &at(0), HERE).unwrap();
    activate_preemption(&mut c.preempt, &mut c.irq);
    let s = Task::exit(0, &mut g, &mut tasks, &mut c, &at(50), HERE).unwrap();
    assert_eq!((s.from, s.to), (Some(0), 1));
    assert!(tasks.get(0).status().is_exited());
    assert!(!tasks.get(0).is_linked());
    activate_preemption(&mut c.preempt, &mut c.irq);
    assert!(Task::exit(1, &mut g, &mut tasks, &mut c, &at(60), HERE).is_none());
    assert_eq!(current_task(&c), Some(1));
}

#[test]
fn timer_tick_reaches_the_scheduler() {
    let mut g = global();
    let mut tasks = table(&[120, 120]);
    let mut c = cpu();
    scheduler_tick(&mut g, &mut tasks, &mut c, &at(0));
    add_task(&mut g, &mut tasks, &mut c, &at(0), 0);
    add_task(&mut g, &mut tasks, &mut c, &at(0), 1);
    schedule(&mut g, &mut tasks, &mut c, &at(0), HERE).unwrap();
    activate_preemption(&mut c.preempt, &mut c.irq);
    scheduler_tick(&mut g, &mut tasks, &mut c, &at(3_000_001));
    assert!(c.irq.enabled);
    assert!(tasks.get(0).need_resched());
    clear_task(&mut g, &mut tasks, &mut c, &at(3_000_001), 0);
    assert!(c.irq.enabled);
}

#[test]
fn another_cpu_takes_its_share() {
    let mut g = global();
    let mut tasks = table(&[120, 120]);
    let mut c = cpu();
    add_task(&mut g, &mut tasks, &mut c, &at(0), 0);
    add_task(&mut g, &mut tasks, &mut c, &at(0), 1);
    let mut other = Cpu::new(1, LocalIrq { enabled: true });
    trigger_load_balancing(&mut g, &mut tasks, &mut other, &at(9));
    assert_eq!(tasks.get(0).status(), TaskStatus::Ready(1));
    assert_eq!(tasks.get(1).status(), TaskStatus::Ready(0));
    assert!(other.irq.enabled);
}

#[test]
fn current_task_is_handed_to_a_function() {
    let mut c = cpu();
    assert!(with_current(&c, |t| t + 1).is_none());
    c.processor.set_current_task(4);
    assert_eq!(with_current(&c, |t| t + 1), Some(5));
    assert_eq!(Processor::default().current(), None);
}

#[test]
fn giving_a_mutex_back_lets_others_run() {
    let mut g = global();
    let mut tasks = table(&[120]);
    let mut c = cpu();
    add_task(&mut g, &mut tasks, &mut c, &at(0), 0);
    let mut mutex = Mutex::new(5);
    let guard = mutex.lock();
    let s = guard.release(&mut g, &mut tasks, &mut c, &at(5), HERE).unwrap();
    assert_eq!(s.to, 0);
    assert!(!mutex.lock);
    assert_eq!(mutex.val, 5);
}

#[test]
fn balancing_leaves_other_cpus_alone() {
    let mut tasks = TaskTable::new();
    for _ in 0..4 {
        tasks.insert(task_on(120, CpuSet::new_full(3)));
    }
    let mut sched = CompletelyFairScheduler::new(3, (1, 1));
    for t in 0..3 {
        sched.enqueue(&mut tasks, &env(0, t, None), t as usize);
    }
    sched.enqueue(&mut tasks, &env(2, 9, None), 3);
    sched.load_balance(&mut tasks, &env(1, 50, None));
    assert_eq!(tasks.get(3).status(), TaskStatus::Ready(2));
    assert_eq!(tasks.get(2).status(), TaskStatus::Ready(0));
    assert_eq!(sched.pick_next_task(&mut tasks, &env(2, 60, None)), Some(3));
}

#[test]
fn running_task_waits_in_no_queue() {
    let mut g = global();
    let mut tasks = table(&[120, 120]);
    let mut c = cpu();
    add_task(&mut g, &mut tasks, &mut c, &at(0), 0);
    add_task(&mut g, &mut tasks, &mut c, &at(0), 1);
    for turn in 0..4u64 {
        let s = yield_now(&mut g, &mut tasks, &mut c, &at(10 * turn), HERE).unwrap();
        assert!(!tasks.get(s.to).is_linked());
        assert_ne!(s.from, Some(s.to));
        if let Some(from) = s.from {
            assert!(tasks.get(from).is_linked());
        }
        activate_preemption(&mut c.preempt, &mut c.irq);
    }
}

#[test]
fn real_time_tasks_are_moved_first() {
    let mut tasks = table(&[120, 120, 50]);
    let mut sched = cfs();
    for t in 0..3 {
        sched.enqueue(&mut tasks, &env(0, t, None), t as usize);
    }
    sched.load_balance(&mut tasks, &env(1, 50, None));
    assert_eq!(sched.pick_next_task(&mut tasks, &env(1, 60, None)), Some(2));
    assert_eq!(sched.pick_next_task(&mut tasks, &env(1, 60, None)), Some(0));
    assert_eq!(sched.pick_next_task(&mut tasks, &env(0, 60, None)), Some(1));
}

#[test]
fn scheduler_says_whether_it_can_be_asked() {
    let mut tasks = table(&[120, 120]);
    let mut sched = cfs();
    assert!(!sched.can_be_asked(&tasks, &env(0, 5, None)));
    assert!(!sched.can_be_asked(&tasks, &env(2, 5, Some(0))));
    assert!(!sched.can_be_asked(&tasks, &env(0, 5, Some(2))));
    assert!(sched.can_be_asked(&tasks, &env(0, 5, Some(0))));
    sched.prepare_to_yield_to(&mut tasks, &env(0, 5, None), 0);
    assert!(!sched.can_be_asked(&tasks, &env(0, 5, Some(0))));
    assert!(sched.can_be_asked(&tasks, &env(0, 6, Some(0))));
    sched.enqueue(&mut tasks, &env(0, 5, None), 1);
    assert!(!sched.can_be_asked(&tasks, &env(0, 6, Some(1))));
}

#[test]
fn task_without_a_run_time_is_marked_when_it_yields() {
    let mut tasks = table(&[50, 120]);
    let mut sched = cfs();
    sched.prepare_to_yield_cur_task(&mut tasks, &env(0, 5, Some(0)));
    assert!(tasks.get(0).need_resched());
    sched.tick_cur_task(&mut tasks, &env(0, 5, Some(1)));
    assert!(!tasks.get(1).need_resched());
    sched.prepare_to_yield_cur_task(&mut tasks, &env(0, 5, Some(1)));
    assert!(tasks.get(1).need_resched());
}

#[test]
fn scheduler_says_whether_it_can_report() {
    let mut tasks = table(&[120, 120]);
    let mut sched = cfs();
    assert!(sched.can_be_traversed(&tasks, &env(0, 5, None)));
    assert!(!sched.can_be_traversed(&tasks, &env(2, 5, None)));
    assert!(!sched.can_be_traversed(&tasks, &env(0, 5, Some(0))));
    assert!(!sched.can_be_traversed(&tasks, &env(0, 5, Some(7))));
    sched.prepare_to_yield_to(&mut tasks, &env(0, 5, None), 0);
    sched.enqueue(&mut tasks, &env(0, 5, None), 1);
    assert!(sched.can_be_traversed(&tasks, &env(0, 5, Some(0))));
    let mut odd = CompletelyFairScheduler::new(2, (1, 0));
    odd.prepare_to_yield_to(&mut tasks, &env(0, 5, None), 0);
    assert!(!odd.can_be_traversed(&tasks, &env(0, 5, Some(0))));
}

#[test]
fn scheduler_says_whether_it_can_balance() {
    let mut tasks = table(&[120, 120, 50]);
    let mut sched = cfs();
    assert!(sched.can_be_balanced(&tasks, &env(1, 5, None)));
    assert!(!sched.can_be_balanced(&tasks, &env(2, 5, None)));
    for t in 0..3 {
        sched.enqueue(&mut tasks, &env(0, 5, None), t);
    }
    assert!(sched.can_be_balanced(&tasks, &env(1, 5, None)));
    tasks.get_mut(2).task_status = TaskStatus::Sleeping;
    assert!(!sched.can_be_balanced(&tasks, &env(1, 5, None)));
    assert!(sched.can_be_balanced(&tasks, &env(0, 5, None)));
}

#[test]
fn spawned_task_takes_the_place_of_one_that_exited() {
    let mut g = global();
    let mut tasks = table(&[120, 121]);
    let mut c = cpu();
    tasks.get_mut(1).task_status = TaskStatus::Exited;
    c.processor.set_current_task(0);
    let options = TaskOptions::new(41, 2).data(42);
    let spawned = options
        .spawn(Some(1), Ok(stack()), 0x5000, &LINEAR, &mut g, &mut tasks, &mut c, &at(5), HERE)
        .unwrap_or_else(|_| panic!("not spawned"));
    assert_eq!((spawned.task, spawned.switch.from, spawned.switch.to), (1, Some(0), 1));
    let exited = spawned.replaced.unwrap();
    assert_eq!(exited.status(), TaskStatus::Exited);
    assert_eq!(exited.priority.val, 121);
    assert_eq!(tasks.tasks.len(), 2);
    assert_eq!(tasks.get(1).func, 41);
    assert_eq!(kernel_task_entry(&mut c, &tasks), (1, 41));
    let failed = TaskOptions::new(41, 2).data(42).spawn(
        None,
        Err(Error::new(Errno::ENOMEM)),
        0,
        &LINEAR,
        &mut g,
        &mut tasks,
        &mut c,
        &at(6),
        HERE,
    );
    assert_eq!(failed.err().unwrap().error(), Errno::ENOMEM);
    assert_eq!(tasks.tasks.len(), 2);
}
