//! What a scheduler has to offer, and the scheduler that the kernel runs with.
use vstd::prelude::*;

use crate::task::preempt::DisablePreemptGuard;
use crate::task::processor::{Clock, Cpu};
use crate::task::table::{table_wf, TaskTable};
use crate::task::task::{TaskId, TaskStatus, TaskView};

verus! {

/// What a scheduler operation finds on the CPU that it runs on.
#[derive(Clone, Copy, Debug)]
pub struct SchedEnv {
    /// The number of the CPU.
    pub cpu: u32,
    /// Whether the CPU takes interrupts.
    pub irq_enabled: bool,
    /// The number of guards that keep preemption off on the CPU.
    pub guards: usize,
    /// The clock, in cycles.
    pub tsc: u64,
    /// The timer, in ticks.
    pub tick: u64,
    /// The task that the CPU runs, if any.
    pub current: Option<TaskId>,
}

/// A scheduler for tasks.
///
/// Operations on the scheduler should be performed with interrupts disabled, which the callers of
/// the global scheduler see to.
///
/// For each operation, a specification function says what it does to the scheduler and to the
/// tasks, in terms of their views, and another one says when it may be called.
pub trait Scheduler: View + Sized {
    /// Whether a scheduler and a table of tasks belong together and are valid.
    spec fn wf(sched: Self::V, tasks: Seq<TaskView>) -> bool;

    /// Whether a task can be added to the scheduler.
    spec fn can_enqueue(sched: Self::V, tasks: Seq<TaskView>, env: SchedEnv, task: TaskId) -> bool;

    /// The scheduler and the tasks after a task was added.
    spec fn enqueued(sched: Self::V, tasks: Seq<TaskView>, env: SchedEnv, task: TaskId) -> (
        Self::V,
        Seq<TaskView>,
    );

    /// Adds the task to the scheduler when it enters a runnable state.
    fn enqueue(&mut self, tasks: &mut TaskTable, env: &SchedEnv, task: TaskId)
        requires
            Self::wf(old(self)@, old(tasks)@),
            Self::can_enqueue(old(self)@, old(tasks)@, *env, task),
        ensures
            (final(self)@, final(tasks)@) == Self::enqueued(old(self)@, old(tasks)@, *env, task),
            Self::wf(final(self)@, final(tasks)@),
    ;

    /// Whether the CPU can ask for a task to run.
    spec fn can_pick(sched: Self::V, env: SchedEnv) -> bool;

    /// The scheduler, the tasks and the task to run next, after one was asked for.
    spec fn picked(sched: Self::V, tasks: Seq<TaskView>, env: SchedEnv) -> (
        Self::V,
        Seq<TaskView>,
        Option<TaskId>,
    );

    /// Picks the most appropriate task eligible to run next from the scheduler.
    fn pick_next_task(&mut self, tasks: &mut TaskTable, env: &SchedEnv) -> (r: Option<TaskId>)
        requires
            Self::wf(old(self)@, old(tasks)@),
            Self::can_pick(old(self)@, *env),
        ensures
            (final(self)@, final(tasks)@, r) == Self::picked(old(self)@, old(tasks)@, *env),
            Self::wf(final(self)@, final(tasks)@),
            r matches Some(t) ==> t < final(tasks)@.len() && !final(tasks)@[t as int].linked,
    ;

    /// The tasks after what the scheduler keeps with one of them was removed.
    spec fn cleared(tasks: Seq<TaskView>, env: SchedEnv, task: TaskId) -> Seq<TaskView>;

    /// Removes what the scheduler keeps with the task when the task is no longer alive.
    fn clear(&mut self, tasks: &mut TaskTable, env: &SchedEnv, task: TaskId)
        requires
            Self::wf(old(self)@, old(tasks)@),
            task < old(tasks)@.len(),
            !old(tasks)@[task as int].linked,
        ensures
            final(self)@ == old(self)@,
            final(tasks)@ == Self::cleared(old(tasks)@, *env, task),
            Self::wf(final(self)@, final(tasks)@),
    ;

    /// Whether the scheduler can be asked about the running task.
    spec fn can_ask(sched: Self::V, tasks: Seq<TaskView>, env: SchedEnv) -> bool;

    /// The tasks after the scheduler was asked whether the running task should make way, and the
    /// answer.
    spec fn asked(sched: Self::V, tasks: Seq<TaskView>, env: SchedEnv) -> (Seq<TaskView>, bool);

    /// Tells whether the current task should be preempted by tasks in the queue. There must be a
    /// current task.
    fn should_preempt_cur_task(&mut self, tasks: &mut TaskTable, env: &SchedEnv) -> (r: bool)
        requires
            Self::wf(old(self)@, old(tasks)@),
            env.current is Some,
            Self::can_ask(old(self)@, old(tasks)@, *env),
        ensures
            final(self)@ == old(self)@,
            (final(tasks)@, r) == Self::asked(old(self)@, old(tasks)@, *env),
            Self::wf(final(self)@, final(tasks)@),
    ;

    /// Whether a tick of the timer can be handled.
    spec fn can_tick(sched: Self::V, tasks: Seq<TaskView>, env: SchedEnv) -> bool;

    /// The scheduler and the tasks after a tick of the timer.
    spec fn ticked(sched: Self::V, tasks: Seq<TaskView>, env: SchedEnv) -> (
        Self::V,
        Seq<TaskView>,
    );

    /// Handles a tick from the timer. Modifies the state of the current task of the CPU according
    /// to the time. There must be a current task.
    fn tick_cur_task(&mut self, tasks: &mut TaskTable, env: &SchedEnv)
        requires
            Self::wf(old(self)@, old(tasks)@),
            env.current is Some,
            Self::can_tick(old(self)@, old(tasks)@, *env),
        ensures
            (final(self)@, final(tasks)@) == Self::ticked(old(self)@, old(tasks)@, *env),
            Self::wf(final(self)@, final(tasks)@),
    ;

    /// Whether the running task can yield.
    spec fn can_yield(sched: Self::V, tasks: Seq<TaskView>, env: SchedEnv) -> bool;

    /// The tasks after the running task asked to yield.
    spec fn yielding(sched: Self::V, tasks: Seq<TaskView>, env: SchedEnv) -> Seq<TaskView>;

    /// Modifies the state of the current task before it yields: sets its `need_resched` flag. There
    /// must be a current task.
    fn prepare_to_yield_cur_task(&mut self, tasks: &mut TaskTable, env: &SchedEnv)
        requires
            Self::wf(old(self)@, old(tasks)@),
            env.current is Some,
            Self::can_yield(old(self)@, old(tasks)@, *env),
        ensures
            final(self)@ == old(self)@,
            final(tasks)@ == Self::yielding(old(self)@, old(tasks)@, *env),
            env.current->Some_0 < final(tasks)@.len(),
            final(tasks)@[env.current->Some_0 as int].need_resched,
            Self::wf(final(self)@, final(tasks)@),
    ;

    /// Whether the CPU can be given to a task of one's choice.
    spec fn can_yield_to(tasks: Seq<TaskView>, task: TaskId) -> bool;

    /// The tasks after one of them was prepared to be given the CPU.
    spec fn yielding_to(tasks: Seq<TaskView>, env: SchedEnv, task: TaskId) -> Seq<TaskView>;

    /// Prepares a task that the CPU will be given to.
    fn prepare_to_yield_to(&mut self, tasks: &mut TaskTable, env: &SchedEnv, task: TaskId)
        requires
            Self::wf(old(self)@, old(tasks)@),
            Self::can_yield_to(old(tasks)@, task),
        ensures
            final(self)@ == old(self)@,
            final(tasks)@ == Self::yielding_to(old(tasks)@, *env, task),
            Self::wf(final(self)@, final(tasks)@),
    ;

    /// Whether the CPU can ask for its share of the waiting tasks.
    spec fn can_balance(sched: Self::V, tasks: Seq<TaskView>, env: SchedEnv) -> bool;

    /// The scheduler and the tasks after waiting tasks were moved to the CPU.
    spec fn balanced(sched: Self::V, tasks: Seq<TaskView>, env: SchedEnv) -> (
        Self::V,
        Seq<TaskView>,
    );

    /// Moves waiting tasks to the CPU from where more of them wait.
    fn load_balance(&mut self, tasks: &mut TaskTable, env: &SchedEnv)
        requires
            Self::wf(old(self)@, old(tasks)@),
            Self::can_balance(old(self)@, old(tasks)@, *env),
        ensures
            (final(self)@, final(tasks)@) == Self::balanced(old(self)@, old(tasks)@, *env),
            Self::wf(final(self)@, final(tasks)@),
    ;

    /// What the scheduler reports on a CPU.
    type Report;

    /// Whether the scheduler can report on a CPU.
    spec fn can_traverse(sched: Self::V, tasks: Seq<TaskView>, env: SchedEnv) -> bool;

    /// Whether that is the report on a CPU: there is none if the CPU runs no task.
    spec fn traversed(
        sched: Self::V,
        tasks: Seq<TaskView>,
        env: SchedEnv,
        report: Option<Self::Report>,
    ) -> bool;

    /// Reports on the running task of a CPU and those that wait for the CPU.
    fn traverse(&self, tasks: &TaskTable, env: &SchedEnv) -> (r: Option<Self::Report>)
        requires
            Self::wf(self@, tasks@),
            Self::can_traverse(self@, tasks@, *env),
        ensures
            Self::traversed(self@, tasks@, *env, r),
    ;

    /// A task that yields is marked to be rescheduled, and nothing else of its status changes.
    proof fn yield_marks(sched: Self::V, tasks: Seq<TaskView>, env: SchedEnv)
        requires
            Self::wf(sched, tasks),
            env.current is Some,
            Self::can_yield(sched, tasks, env),
        ensures
            ({
                let c = env.current->Some_0;
                let tasks2 = Self::yielding(sched, tasks, env);
                &&& c < tasks.len()
                &&& tasks2.len() == tasks.len()
                &&& tasks2[c as int].need_resched
                &&& tasks2[c as int].status == tasks[c as int].status
            }),
    ;

    /// A scheduler only goes with a valid table of tasks.
    proof fn wf_table(sched: Self::V, tasks: Seq<TaskView>)
        requires
            Self::wf(sched, tasks),
        ensures
            table_wf(tasks),
    ;

    /// Asking whether the running task should make way changes no status, and does not keep a task
    /// from being added.
    proof fn ask_keeps(
        sched: Self::V,
        tasks: Seq<TaskView>,
        env: SchedEnv,
        later: SchedEnv,
        task: TaskId,
    )
        requires
            Self::wf(sched, tasks),
            Self::can_ask(sched, tasks, env),
            task < tasks.len(),
        ensures
            ({
                let tasks2 = Self::asked(sched, tasks, env).0;
                &&& Self::wf(sched, tasks2)
                &&& tasks2.len() == tasks.len()
                &&& tasks2[task as int].status == tasks[task as int].status
                &&& tasks2[task as int].linked == tasks[task as int].linked
                &&& Self::can_enqueue(sched, tasks, later, task) ==> Self::can_enqueue(
                    sched,
                    tasks2,
                    later,
                    task,
                )
            }),
    ;

    /// Nor does picking the next task, for a task that is in no queue.
    proof fn pick_keeps(
        sched: Self::V,
        tasks: Seq<TaskView>,
        env: SchedEnv,
        later: SchedEnv,
        task: TaskId,
    )
        requires
            Self::wf(sched, tasks),
            Self::can_pick(sched, env),
            task < tasks.len(),
            !tasks[task as int].linked,
        ensures
            ({
                let (sched2, tasks2, r) = Self::picked(sched, tasks, env);
                &&& tasks2.len() == tasks.len()
                &&& tasks2[task as int].status == tasks[task as int].status
                &&& Self::can_enqueue(sched, tasks, later, task) ==> Self::can_enqueue(
                    sched2,
                    tasks2,
                    later,
                    task,
                )
            }),
    ;

    /// The task that is picked is one of the table.
    proof fn pick_gives_task(sched: Self::V, tasks: Seq<TaskView>, env: SchedEnv)
        requires
            Self::wf(sched, tasks),
            Self::can_pick(sched, env),
        ensures
            Self::picked(sched, tasks, env).1.len() == tasks.len(),
            Self::picked(sched, tasks, env).2 matches Some(t) ==> t < tasks.len(),
    ;

    /// Removing what is kept with a task that is in no queue leaves its status alone.
    proof fn clear_keeps(sched: Self::V, tasks: Seq<TaskView>, env: SchedEnv, task: TaskId)
        requires
            Self::wf(sched, tasks),
            task < tasks.len(),
            !tasks[task as int].linked,
        ensures
            Self::wf(sched, Self::cleared(tasks, env, task)),
            Self::cleared(tasks, env, task).len() == tasks.len(),
            Self::cleared(tasks, env, task)[task as int].status == tasks[task as int].status,
            Self::cleared(tasks, env, task)[task as int].linked == tasks[task as int].linked,
    ;

    /// A task that is in no queue can change its status.
    proof fn transition_keeps_wf(
        sched: Self::V,
        tasks: Seq<TaskView>,
        task: TaskId,
        status: TaskStatus,
    )
        requires
            Self::wf(sched, tasks),
            task < tasks.len(),
            !tasks[task as int].linked,
        ensures
            Self::wf(sched, with_status(tasks, task, status)),
    ;

    /// A new task can be put in the table.
    proof fn insert_keeps_wf(sched: Self::V, tasks: Seq<TaskView>, task: TaskView)
        requires
            Self::wf(sched, tasks),
            tasks.len() < u32::MAX,
            task.priority.wf(),
            task.entity is None,
            !task.linked,
        ensures
            Self::wf(sched, tasks.push(task)),
    ;

    /// A new task can be put in the place of one that exited and waits in no queue.
    proof fn replace_keeps_wf(sched: Self::V, tasks: Seq<TaskView>, t: TaskId, task: TaskView)
        requires
            Self::wf(sched, tasks),
            t < tasks.len(),
            tasks[t as int].status == TaskStatus::Exited,
            !tasks[t as int].linked,
            task.priority.wf(),
            task.entity is None,
            !task.linked,
        ensures
            Self::wf(sched, tasks.update(t as int, task)),
    ;
}

/// The tasks after one of them changed its status.
pub open spec fn with_status(tasks: Seq<TaskView>, task: TaskId, status: TaskStatus) -> Seq<
    TaskView,
> {
    tasks.update(task as int, TaskView { status, ..tasks[task as int] })
}

/// The scheduler that the kernel runs with, once there is one.
pub struct GlobalScheduler<S: Scheduler> {
    pub scheduler: Option<S>,
}

impl<S: Scheduler> View for GlobalScheduler<S> {
    type V = Option<S::V>;

    open spec fn view(&self) -> Option<S::V> {
        match self.scheduler {
            Some(s) => Some(s@),
            None => None,
        }
    }
}

/// Whether a scheduler, if there is one, and a table of tasks belong together and are valid.
pub open spec fn global_wf<S: Scheduler>(global: Option<S::V>, tasks: Seq<TaskView>) -> bool {
    global matches Some(s) ==> S::wf(s, tasks)
}

/// The scheduler, the tasks and the task to run next: none without a scheduler.
pub open spec fn chosen<S: Scheduler>(
    global: Option<S::V>,
    tasks: Seq<TaskView>,
    env: SchedEnv,
) -> (Option<S::V>, Seq<TaskView>, Option<TaskId>) {
    match global {
        Some(s) => {
            let (s2, tasks2, r) = S::picked(s, tasks, env);
            (Some(s2), tasks2, r)
        },
        None => (None, tasks, None),
    }
}

impl<S: Scheduler> GlobalScheduler<S> {
    /// No scheduler yet.
    pub fn new() -> (r: Self)
        ensures
            r@ is None,
    {
        GlobalScheduler { scheduler: None }
    }

    /// Picks the next task to run from the scheduler, if there is one.
    pub fn pick_next_task(&mut self, tasks: &mut TaskTable, env: &SchedEnv) -> (r: Option<TaskId>)
        requires
            global_wf::<S>(old(self)@, old(tasks)@),
            old(self)@ matches Some(s) ==> S::can_pick(s, *env),
        ensures
            (final(self)@, final(tasks)@, r) == chosen::<S>(old(self)@, old(tasks)@, *env),
            global_wf::<S>(final(self)@, final(tasks)@),
            r matches Some(t) ==> t < final(tasks)@.len() && !final(tasks)@[t as int].linked,
    {
        match &mut self.scheduler {
            Some(s) => s.pick_next_task(tasks, env),
            None => None,
        }
    }

    /// Enqueues a task into the scheduler.
    pub fn enqueue(&mut self, tasks: &mut TaskTable, env: &SchedEnv, task: TaskId)
        requires
            old(self)@ is Some,
            S::wf(old(self)@->Some_0, old(tasks)@),
            S::can_enqueue(old(self)@->Some_0, old(tasks)@, *env, task),
        ensures
            final(self)@ is Some,
            (final(self)@->Some_0, final(tasks)@) == S::enqueued(
                old(self)@->Some_0,
                old(tasks)@,
                *env,
                task,
            ),
            S::wf(final(self)@->Some_0, final(tasks)@),
    {
        match &mut self.scheduler {
            Some(s) => s.enqueue(tasks, env, task),
            None => {},
        }
    }

    /// Removes the task and its related information from the scheduler.
    pub fn clear(&mut self, tasks: &mut TaskTable, env: &SchedEnv, task: TaskId)
        requires
            old(self)@ is Some,
            S::wf(old(self)@->Some_0, old(tasks)@),
            task < old(tasks)@.len(),
            !old(tasks)@[task as int].linked,
        ensures
            final(self)@ == old(self)@,
            final(tasks)@ == S::cleared(old(tasks)@, *env, task),
            S::wf(final(self)@->Some_0, final(tasks)@),
    {
        match &mut self.scheduler {
            Some(s) => s.clear(tasks, env, task),
            None => {},
        }
    }

    /// Tells whether the current task should be preempted by tasks in the queue.
    pub fn should_preempt_cur_task(&mut self, tasks: &mut TaskTable, env: &SchedEnv) -> (r: bool)
        requires
            old(self)@ is Some,
            S::wf(old(self)@->Some_0, old(tasks)@),
            env.current is Some,
            S::can_ask(old(self)@->Some_0, old(tasks)@, *env),
        ensures
            final(self)@ == old(self)@,
            (final(tasks)@, r) == S::asked(old(self)@->Some_0, old(tasks)@, *env),
            S::wf(final(self)@->Some_0, final(tasks)@),
    {
        match &mut self.scheduler {
            Some(s) => s.should_preempt_cur_task(tasks, env),
            None => false,
        }
    }

    /// Handles a tick from the timer.
    pub fn tick_cur_task(&mut self, tasks: &mut TaskTable, env: &SchedEnv)
        requires
            old(self)@ is Some,
            S::wf(old(self)@->Some_0, old(tasks)@),
            env.current is Some,
            S::can_tick(old(self)@->Some_0, old(tasks)@, *env),
        ensures
            final(self)@ is Some,
            (final(self)@->Some_0, final(tasks)@) == S::ticked(
                old(self)@->Some_0,
                old(tasks)@,
                *env,
            ),
            S::wf(final(self)@->Some_0, final(tasks)@),
    {
        match &mut self.scheduler {
            Some(s) => s.tick_cur_task(tasks, env),
            None => {},
        }
    }

    /// Modifies the state of the current task before it yields.
    pub fn prepare_to_yield_cur_task(&mut self, tasks: &mut TaskTable, env: &SchedEnv)
        requires
            old(self)@ is Some,
            S::wf(old(self)@->Some_0, old(tasks)@),
            env.current is Some,
            S::can_yield(old(self)@->Some_0, old(tasks)@, *env),
        ensures
            final(self)@ == old(self)@,
            final(tasks)@ == S::yielding(old(self)@->Some_0, old(tasks)@, *env),
            env.current->Some_0 < final(tasks)@.len(),
            final(tasks)@[env.current->Some_0 as int].need_resched,
            S::wf(final(self)@->Some_0, final(tasks)@),
    {
        match &mut self.scheduler {
            Some(s) => s.prepare_to_yield_cur_task(tasks, env),
            None => {},
        }
    }

    /// Prepares a task that the CPU will be given to.
    pub fn prepare_to_yield_to(&mut self, tasks: &mut TaskTable, env: &SchedEnv, task: TaskId)
        requires
            old(self)@ is Some,
            S::wf(old(self)@->Some_0, old(tasks)@),
            S::can_yield_to(old(tasks)@, task),
        ensures
            final(self)@ == old(self)@,
            final(tasks)@ == S::yielding_to(old(tasks)@, *env, task),
            S::wf(final(self)@->Some_0, final(tasks)@),
    {
        match &mut self.scheduler {
            Some(s) => s.prepare_to_yield_to(tasks, env, task),
            None => {},
        }
    }
}

/// Sets the global task scheduler. The first one that is set stays.
///
/// This must be called before a task is spawned.
pub fn set_scheduler<S: Scheduler>(global: &mut GlobalScheduler<S>, scheduler: S)
    ensures
        final(global)@ == (if old(global)@ is Some {
            old(global)@
        } else {
            Some(scheduler@)
        }),
{
    if global.scheduler.is_none() {
        global.scheduler = Some(scheduler);
    }
}

/// Picks the next task to run from the scheduler.
/// The scheduler will pick the most appropriate task eligible to run next if any.
pub fn pick_next_task<S: Scheduler>(
    global: &mut GlobalScheduler<S>,
    tasks: &mut TaskTable,
    cpu: &Cpu,
    clock: &Clock,
) -> (r: Option<TaskId>)
    requires
        cpu.preempt.in_preemption is Some,
        global_wf::<S>(old(global)@, old(tasks)@),
        old(global)@ matches Some(s) ==> S::can_pick(s, cpu.env(*clock)),
    ensures
        (final(global)@, final(tasks)@, r) == chosen::<S>(
            old(global)@,
            old(tasks)@,
            cpu.env(*clock),
        ),
        global_wf::<S>(final(global)@, final(tasks)@),
        r matches Some(t) ==> t < final(tasks)@.len() && !final(tasks)@[t as int].linked,
{
    let env = cpu.sched_env(clock);
    global.pick_next_task(tasks, &env)
}

/// Enqueues a task into the scheduler, with a guard that keeps preemption off.
pub fn add_task<S: Scheduler>(
    global: &mut GlobalScheduler<S>,
    tasks: &mut TaskTable,
    cpu: &mut Cpu,
    clock: &Clock,
    task: TaskId,
)
    requires
        old(cpu).preempt.num < usize::MAX,
        task < old(tasks)@.len(),
        old(tasks)@[task as int].status == TaskStatus::Runnable,
        old(global)@ is Some,
        S::wf(old(global)@->Some_0, old(tasks)@),
        S::can_enqueue(old(global)@->Some_0, old(tasks)@, old(cpu).quiet_env(*clock), task),
    ensures
        *final(cpu) == *old(cpu),
        final(global)@ is Some,
        (final(global)@->Some_0, final(tasks)@) == S::enqueued(
            old(global)@->Some_0,
            old(tasks)@,
            old(cpu).quiet_env(*clock),
            task,
        ),
        S::wf(final(global)@->Some_0, final(tasks)@),
{
    let guard = DisablePreemptGuard::new(&mut cpu.preempt, &mut cpu.irq);
    let env = cpu.sched_env(clock);
    global.enqueue(tasks, &env, task);
    guard.release(&mut cpu.preempt, &mut cpu.irq);
}

/// Removes all the information of the task from the scheduler, with a guard that keeps preemption
/// off.
pub fn clear_task<S: Scheduler>(
    global: &mut GlobalScheduler<S>,
    tasks: &mut TaskTable,
    cpu: &mut Cpu,
    clock: &Clock,
    task: TaskId,
)
    requires
        old(cpu).preempt.num < usize::MAX,
        old(global)@ is Some,
        S::wf(old(global)@->Some_0, old(tasks)@),
        task < old(tasks)@.len(),
        !old(tasks)@[task as int].linked,
    ensures
        *final(cpu) == *old(cpu),
        final(global)@ == old(global)@,
        final(tasks)@ == S::cleared(old(tasks)@, old(cpu).quiet_env(*clock), task),
        S::wf(final(global)@->Some_0, final(tasks)@),
{
    let guard = DisablePreemptGuard::new(&mut cpu.preempt, &mut cpu.irq);
    let env = cpu.sched_env(clock);
    global.clear(tasks, &env, task);
    guard.release(&mut cpu.preempt, &mut cpu.irq);
}

/// Lets the scheduler, if there is one, move waiting tasks to this CPU, with a guard that keeps
/// preemption off.
pub fn trigger_load_balancing<S: Scheduler>(
    global: &mut GlobalScheduler<S>,
    tasks: &mut TaskTable,
    cpu: &mut Cpu,
    clock: &Clock,
)
    requires
        old(cpu).preempt.num < usize::MAX,
        global_wf::<S>(old(global)@, old(tasks)@),
        old(global)@ matches Some(s) ==> S::can_balance(
            s,
            old(tasks)@,
            old(cpu).quiet_env(*clock),
        ),
    ensures
        *final(cpu) == *old(cpu),
        match old(global)@ {
            Some(s) => {
                &&& final(global)@ is Some
                &&& (final(global)@->Some_0, final(tasks)@) == S::balanced(
                    s,
                    old(tasks)@,
                    old(cpu).quiet_env(*clock),
                )
            },
            None => final(global)@ is None && final(tasks)@ == old(tasks)@,
        },
        global_wf::<S>(final(global)@, final(tasks)@),
{
    if let Some(sched) = &mut global.scheduler {
        let guard = DisablePreemptGuard::new(&mut cpu.preempt, &mut cpu.irq);
        let env = cpu.sched_env(clock);
        sched.load_balance(tasks, &env);
        guard.release(&mut cpu.preempt, &mut cpu.irq);
    }
}

} // verus!
