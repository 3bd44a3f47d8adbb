//! A CPU and the task that it runs, and how it goes from one task to the next.
use vstd::prelude::*;

use crate::task::preempt::{
    activate_preemption, deactivate_preemption, in_atomic, panic_if_in_atomic, Location,
    PreemptInfo,
};
use crate::task::scheduler::{
    add_task, chosen, global_wf, pick_next_task, GlobalScheduler, SchedEnv, Scheduler,
};
use crate::task::table::TaskTable;
use crate::task::task::{
    empty_context, NeedResched, TaskContext, TaskId, TaskStatus, TaskView,
};
use crate::trap::LocalIrq;

verus! {

/// The task that a CPU runs, and the context that it idles in.
#[derive(Clone, Copy, Debug)]
pub struct Processor {
    pub current: Option<TaskId>,
    pub idle_task_ctx: TaskContext,
}

impl Processor {
    /// A processor that runs no task.
    pub fn new() -> (r: Self)
        ensures
            r == (Processor { current: None, idle_task_ctx: empty_context() }),
    {
        Processor { current: None, idle_task_ctx: TaskContext::empty() }
    }

    /// The task that the CPU runs, if any.
    pub fn current(&self) -> (r: Option<TaskId>)
        ensures
            r == self.current,
    {
        self.current
    }

    /// Sets the task that the CPU runs.
    pub fn set_current_task(&mut self, task: TaskId)
        ensures
            *final(self) == (Processor { current: Some(task), ..*old(self) }),
    {
        self.current = Some(task);
    }
}

impl Default for Processor {
    fn default() -> (r: Self)
        ensures
            r == (Processor { current: None, idle_task_ctx: empty_context() }),
    {
        Processor::new()
    }
}

/// What the clocks of a CPU show.
#[derive(Clone, Copy, Debug)]
pub struct Clock {
    /// The clock, in cycles.
    pub tsc: u64,
    /// The timer, in ticks.
    pub tick: u64,
}

/// What a CPU has of its own.
#[derive(Clone, Copy, Debug)]
pub struct Cpu {
    pub id: u32,
    pub irq: LocalIrq,
    pub preempt: PreemptInfo,
    pub processor: Processor,
}

impl Cpu {
    /// What a scheduler operation finds on this CPU.
    pub open spec fn env(self, clock: Clock) -> SchedEnv {
        SchedEnv {
            cpu: self.id,
            irq_enabled: self.irq.enabled,
            guards: self.preempt.num,
            tsc: clock.tsc,
            tick: clock.tick,
            current: self.processor.current,
        }
    }

    /// What it finds while one more guard keeps preemption off.
    pub open spec fn quiet_env(self, clock: Clock) -> SchedEnv {
        SchedEnv {
            irq_enabled: self.irq.enabled && self.preempt.num != 0,
            guards: (self.preempt.num + 1) as usize,
            ..self.env(clock)
        }
    }

    /// What it finds while interrupts are off.
    pub open spec fn masked_env(self, clock: Clock) -> SchedEnv {
        SchedEnv { irq_enabled: false, ..self.env(clock) }
    }

    /// The CPU after it began to switch tasks.
    pub open spec fn deactivated(self, caller: Location) -> Cpu {
        Cpu {
            irq: LocalIrq { enabled: false },
            preempt: PreemptInfo { in_preemption: Some(caller), ..self.preempt },
            ..self
        }
    }

    /// The CPU after it ended the switch.
    pub open spec fn activated(self) -> Cpu {
        Cpu {
            irq: LocalIrq { enabled: true },
            preempt: PreemptInfo { in_preemption: None, ..self.preempt },
            ..self
        }
    }

    /// The CPU with another current task.
    pub open spec fn running(self, task: TaskId) -> Cpu {
        Cpu { processor: Processor { current: Some(task), ..self.processor }, ..self }
    }

    /// A CPU that just started: it runs no task and holds no lock.
    pub fn new(id: u32, irq: LocalIrq) -> (r: Self)
        ensures
            r.id == id,
            r.irq == irq,
            r.preempt == (PreemptInfo { num: 0, in_preemption: None }),
            r.processor == (Processor { current: None, idle_task_ctx: empty_context() }),
    {
        Cpu { id, irq, preempt: PreemptInfo::new(), processor: Processor::new() }
    }

    /// What a scheduler operation finds on this CPU.
    pub fn sched_env(&self, clock: &Clock) -> (r: SchedEnv)
        ensures
            r == self.env(*clock),
    {
        SchedEnv {
            cpu: self.id,
            irq_enabled: self.irq.is_local_enabled(),
            guards: self.preempt.num(),
            tsc: clock.tsc,
            tick: clock.tick,
            current: self.processor.current(),
        }
    }
}

/// The task that the CPU runs, if any.
pub fn current_task(cpu: &Cpu) -> (r: Option<TaskId>)
    ensures
        r == cpu.processor.current,
{
    cpu.processor.current()
}

/// Hands the task that the CPU runs, if any, to a function.
pub fn with_current<T, F: FnOnce(TaskId) -> T>(cpu: &Cpu, f: F) -> (r: Option<T>)
    requires
        cpu.processor.current matches Some(c) ==> call_requires(f, (c,)),
    ensures
        match cpu.processor.current {
            Some(c) => r matches Some(t) && call_ensures(f, (c,), t),
            None => r is None,
        },
{
    match cpu.processor.current() {
        Some(c) => Some(f(c)),
        None => None,
    }
}

/// The switch of contexts that is left to do once it is decided which task runs next: save the
/// registers in the context of the task that ran, or in that of the idle CPU, and load the others.
#[derive(Clone, Copy, Debug)]
pub struct ContextSwitch {
    /// The task that ran.
    pub from: Option<TaskId>,
    /// The task that will run.
    pub to: TaskId,
    /// The registers to load.
    pub next_ctx: TaskContext,
}

/// Whether the current task should make way, and the tasks after the scheduler was asked.
pub open spec fn makes_way<S: Scheduler>(
    global: Option<S::V>,
    tasks: Seq<TaskView>,
    cpu: Cpu,
    clock: Clock,
) -> (Seq<TaskView>, bool) {
    if cpu.preempt.num != 0 {
        (tasks, false)
    } else {
        match cpu.processor.current {
            None => (tasks, true),
            Some(c) => if tasks[c as int].status != TaskStatus::Runnable
                || tasks[c as int].need_resched {
                (tasks, true)
            } else {
                S::asked(global->Some_0, tasks, cpu.env(clock))
            },
        }
    }
}

/// Whether it can be found out if the current task should make way: a task that could run on needs
/// a scheduler to ask.
pub open spec fn can_make_way<S: Scheduler>(
    global: Option<S::V>,
    tasks: Seq<TaskView>,
    cpu: Cpu,
    clock: Clock,
) -> bool {
    cpu.processor.current matches Some(c) ==> {
        &&& c < tasks.len()
        &&& cpu.preempt.num == 0 && tasks[c as int].status == TaskStatus::Runnable
            && !tasks[c as int].need_resched ==> {
            &&& global is Some
            &&& S::can_ask(global->Some_0, tasks, cpu.env(clock))
        }
    }
}

/// The scheduler and the tasks after a CPU was given to another task: the one that ran waits again
/// if it is runnable.
pub open spec fn switched<S: Scheduler>(
    global: Option<S::V>,
    tasks: Seq<TaskView>,
    cpu: Cpu,
    clock: Clock,
    next: TaskId,
) -> (Option<S::V>, Seq<TaskView>) {
    match cpu.processor.current {
        Some(c) if tasks[c as int].status == TaskStatus::Runnable => {
            let (s2, tasks2) = S::enqueued(
                global->Some_0,
                tasks,
                cpu.running(next).quiet_env(clock),
                c,
            );
            (Some(s2), tasks2)
        },
        _ => (global, tasks),
    }
}

/// Whether a CPU can be given to another task.
pub open spec fn can_switch<S: Scheduler>(
    global: Option<S::V>,
    tasks: Seq<TaskView>,
    cpu: Cpu,
    clock: Clock,
    next: TaskId,
) -> bool {
    &&& next < tasks.len()
    &&& cpu.processor.current matches Some(c) ==> {
        &&& c < tasks.len()
        &&& tasks[c as int].status == TaskStatus::Runnable ==> {
            &&& global is Some
            &&& S::can_enqueue(
                global->Some_0,
                tasks,
                cpu.running(next).quiet_env(clock),
                c,
            )
        }
    }
}

/// The scheduler, the tasks and the CPU after the scheduler was given the chance to run another
/// task, and the switch that is left to do: none if the current task runs on.
pub open spec fn scheduled<S: Scheduler>(
    global: Option<S::V>,
    tasks: Seq<TaskView>,
    cpu: Cpu,
    clock: Clock,
    caller: Location,
) -> (Option<S::V>, Seq<TaskView>, Cpu, Option<ContextSwitch>) {
    let off = cpu.deactivated(caller);
    let (tasks1, way) = makes_way::<S>(global, tasks, off, clock);
    if !way {
        (global, tasks1, off.activated(), None)
    } else {
        let (global2, tasks2, next) = chosen::<S>(global, tasks1, off.env(clock));
        match next {
            None => (global2, tasks2, off.activated(), None),
            Some(t) => {
                let (global3, tasks3) = switched::<S>(global2, tasks2, off, clock, t);
                (
                    global3,
                    tasks3,
                    off.running(t),
                    Some(
                        ContextSwitch {
                            from: cpu.processor.current,
                            to: t,
                            next_ctx: tasks2[t as int].ctx,
                        },
                    ),
                )
            },
        }
    }
}

/// Whether the CPU can call `schedule`.
pub open spec fn can_schedule<S: Scheduler>(
    global: Option<S::V>,
    tasks: Seq<TaskView>,
    cpu: Cpu,
    clock: Clock,
    caller: Location,
) -> bool {
    let off = cpu.deactivated(caller);
    let (tasks1, way) = makes_way::<S>(global, tasks, off, clock);
    let (global2, tasks2, next) = chosen::<S>(global, tasks1, off.env(clock));
    &&& cpu.preempt.preemptible()
    &&& global_wf::<S>(global, tasks)
    &&& can_make_way::<S>(global, tasks, off, clock)
    &&& way ==> (global matches Some(s) ==> S::can_pick(s, off.env(clock)))
    &&& way && next is Some ==> can_switch::<S>(global2, tasks2, off, clock, next->Some_0)
}

/// Yields execution so that another task may be scheduled.
/// This will not change the task's status into runnable.
///
/// Where a switch is returned, preemption stays off until it was done.
pub fn yield_now<S: Scheduler>(
    global: &mut GlobalScheduler<S>,
    tasks: &mut TaskTable,
    cpu: &mut Cpu,
    clock: &Clock,
    caller: Location,
) -> (r: Option<ContextSwitch>)
    requires
        global_wf::<S>(old(global)@, old(tasks)@),
        old(cpu).processor.current is Some ==> old(global)@ is Some && S::can_yield(
            old(global)@->Some_0,
            old(tasks)@,
            old(cpu).masked_env(*clock),
        ),
        can_schedule::<S>(
            old(global)@,
            yielded::<S>(old(global)@, old(tasks)@, *old(cpu), *clock),
            *old(cpu),
            *clock,
            caller,
        ),
    ensures
        (final(global)@, final(tasks)@, *final(cpu), r) == scheduled::<S>(
            old(global)@,
            yielded::<S>(old(global)@, old(tasks)@, *old(cpu), *clock),
            *old(cpu),
            *clock,
            caller,
        ),
        global_wf::<S>(final(global)@, final(tasks)@),
{
    if current_task(cpu).is_some() {
        let guard = cpu.irq.disable_local();
        let env = cpu.sched_env(clock);
        global.prepare_to_yield_cur_task(tasks, &env);
        cpu.irq.restore(guard);
    }
    schedule(global, tasks, cpu, clock, caller)
}

/// The tasks after the current task, if there is one, asked to yield.
pub open spec fn yielded<S: Scheduler>(
    global: Option<S::V>,
    tasks: Seq<TaskView>,
    cpu: Cpu,
    clock: Clock,
) -> Seq<TaskView> {
    if cpu.processor.current is Some {
        S::yielding(global->Some_0, tasks, cpu.masked_env(clock))
    } else {
        tasks
    }
}

/// Gives the CPU to a task. Preemption stays off until the switch that is returned was done.
pub fn yield_to<S: Scheduler>(
    global: &mut GlobalScheduler<S>,
    tasks: &mut TaskTable,
    cpu: &mut Cpu,
    clock: &Clock,
    caller: Location,
    task: TaskId,
) -> (r: ContextSwitch)
    requires
        old(cpu).preempt.preemptible(),
        global_wf::<S>(old(global)@, old(tasks)@),
        can_switch::<S>(
            old(global)@,
            old(tasks)@,
            old(cpu).deactivated(caller),
            *clock,
            task,
        ),
    ensures
        *final(cpu) == old(cpu).deactivated(caller).running(task),
        (final(global)@, final(tasks)@) == switched::<S>(
            old(global)@,
            old(tasks)@,
            old(cpu).deactivated(caller),
            *clock,
            task,
        ),
        r == (ContextSwitch {
            from: old(cpu).processor.current,
            to: task,
            next_ctx: old(tasks)@[task as int].ctx,
        }),
        global_wf::<S>(final(global)@, final(tasks)@),
{
    deactivate_preemption(&mut cpu.preempt, &mut cpu.irq, caller);
    switch_to(global, tasks, cpu, clock, task)
}

/// Switches to the next task selected by the global scheduler if it should.
///
/// Where a switch is returned, preemption stays off until it was done.
pub fn schedule<S: Scheduler>(
    global: &mut GlobalScheduler<S>,
    tasks: &mut TaskTable,
    cpu: &mut Cpu,
    clock: &Clock,
    caller: Location,
) -> (r: Option<ContextSwitch>)
    requires
        can_schedule::<S>(old(global)@, old(tasks)@, *old(cpu), *clock, caller),
    ensures
        (final(global)@, final(tasks)@, *final(cpu), r) == scheduled::<S>(
            old(global)@,
            old(tasks)@,
            *old(cpu),
            *clock,
            caller,
        ),
        global_wf::<S>(final(global)@, final(tasks)@),
{
    deactivate_preemption(&mut cpu.preempt, &mut cpu.irq, caller);
    if should_preempt_cur_task(global, tasks, cpu, clock) {
        match pick_next_task(global, tasks, cpu, clock) {
            None => {},
            Some(next_task) => {
                return Some(switch_to(global, tasks, cpu, clock, next_task));
            },
        }
    }
    activate_preemption(&mut cpu.preempt, &mut cpu.irq);
    None
}

/// Whether the current task should make way.
fn should_preempt_cur_task<S: Scheduler>(
    global: &mut GlobalScheduler<S>,
    tasks: &mut TaskTable,
    cpu: &Cpu,
    clock: &Clock,
) -> (r: bool)
    requires
        global_wf::<S>(old(global)@, old(tasks)@),
        can_make_way::<S>(old(global)@, old(tasks)@, *cpu, *clock),
    ensures
        final(global)@ == old(global)@,
        (final(tasks)@, r) == makes_way::<S>(old(global)@, old(tasks)@, *cpu, *clock),
        global_wf::<S>(final(global)@, final(tasks)@),
{
    if in_atomic(&cpu.preempt) {
        return false;
    }
    match current_task(cpu) {
        None => true,
        Some(c) => {
            let cur_task = tasks.get(c);
            if !cur_task.status().is_runnable() || cur_task.need_resched() {
                true
            } else {
                let env = cpu.sched_env(clock);
                global.should_preempt_cur_task(tasks, &env)
            }
        },
    }
}

/// Makes the given task the current one and gives back the switch of contexts that is left to do.
/// - If current task is none, then the context of the idle CPU will be saved.
/// - If current task status is exit, then it will not be added to the scheduler.
fn switch_to<S: Scheduler>(
    global: &mut GlobalScheduler<S>,
    tasks: &mut TaskTable,
    cpu: &mut Cpu,
    clock: &Clock,
    next_task: TaskId,
) -> (r: ContextSwitch)
    requires
        old(cpu).preempt.num == 0,
        global_wf::<S>(old(global)@, old(tasks)@),
        can_switch::<S>(old(global)@, old(tasks)@, *old(cpu), *clock, next_task),
    ensures
        *final(cpu) == old(cpu).running(next_task),
        (final(global)@, final(tasks)@) == switched::<S>(
            old(global)@,
            old(tasks)@,
            *old(cpu),
            *clock,
            next_task,
        ),
        r == (ContextSwitch {
            from: old(cpu).processor.current,
            to: next_task,
            next_ctx: old(tasks)@[next_task as int].ctx,
        }),
        global_wf::<S>(final(global)@, final(tasks)@),
{
    panic_if_in_atomic(&cpu.preempt);
    let next_ctx = tasks.get(next_task).context();
    let from = cpu.processor.current();
    cpu.processor.set_current_task(next_task);
    if let Some(cur_task) = from {
        if tasks.get(cur_task).status().is_runnable() {
            add_task(global, tasks, cpu, clock, cur_task);
        }
    }
    ContextSwitch { from, to: next_task, next_ctx }
}

/// Called by the timer handler at every tick.
pub fn scheduler_tick<S: Scheduler>(
    global: &mut GlobalScheduler<S>,
    tasks: &mut TaskTable,
    cpu: &mut Cpu,
    clock: &Clock,
)
    requires
        global_wf::<S>(old(global)@, old(tasks)@),
        old(cpu).processor.current is Some ==> old(global)@ is Some && S::can_tick(
            old(global)@->Some_0,
            old(tasks)@,
            old(cpu).masked_env(*clock),
        ),
    ensures
        *final(cpu) == *old(cpu),
        old(cpu).processor.current is None ==> final(global)@ == old(global)@ && final(tasks)@
            == old(tasks)@,
        old(cpu).processor.current is Some ==> final(global)@ is Some && (
            final(global)@->Some_0,
            final(tasks)@,
        ) == S::ticked(old(global)@->Some_0, old(tasks)@, old(cpu).masked_env(*clock)),
        global_wf::<S>(final(global)@, final(tasks)@),
{
    if current_task(cpu).is_some() {
        let guard = cpu.irq.disable_local();
        let env = cpu.sched_env(clock);
        global.tick_cur_task(tasks, &env);
        cpu.irq.restore(guard);
    }
}

// Laws.

/// A task that yields always makes way for the next one, if the scheduler has one: the scheduler is
/// not asked whether it should, and the tasks stay as they are until the next one is picked.
pub proof fn law_yield_makes_way<S: Scheduler>(
    sched: S::V,
    tasks: Seq<TaskView>,
    cpu: Cpu,
    clock: Clock,
    caller: Location,
)
    requires
        cpu.preempt.preemptible(),
        cpu.processor.current is Some,
        S::wf(sched, tasks),
        S::can_yield(sched, tasks, cpu.masked_env(clock)),
    ensures
        ({
            let tasks1 = yielded::<S>(Some(sched), tasks, cpu, clock);
            makes_way::<S>(Some(sched), tasks1, cpu.deactivated(caller), clock) == (tasks1, true)
        }),
{
    S::yield_marks(sched, tasks, cpu.masked_env(clock));
}

/// The scheduler is never disturbed by an interrupt: on a CPU that keeps interrupts off while it
/// holds guards, they are off whenever a task is added, forgotten or moved, which happens with a
/// guard, while a task is picked or asked about, and while one ticks or yields.
pub proof fn law_scheduler_is_undisturbed(cpu: Cpu, clock: Clock, caller: Location)
    requires
        cpu.preempt.num < usize::MAX,
        cpu.preempt.num != 0 ==> !cpu.irq.enabled,
    ensures
        !cpu.quiet_env(clock).irq_enabled,
        cpu.quiet_env(clock).guards == cpu.preempt.num + 1,
        !cpu.deactivated(caller).env(clock).irq_enabled,
        !cpu.masked_env(clock).irq_enabled,
{
}

/// A CPU that holds a guard never takes its task off. One that holds none keeps its task only if it
/// has one that is runnable and not marked to be rescheduled, and the scheduler says that it may
/// run on; in all other cases the task makes way, and the scheduler is not even asked.
pub proof fn law_task_is_kept_only_if_it_may_run_on<S: Scheduler>(
    sched: S::V,
    tasks: Seq<TaskView>,
    cpu: Cpu,
    clock: Clock,
)
    ensures
        ({
            let (tasks2, way) = makes_way::<S>(Some(sched), tasks, cpu, clock);
            let env = SchedEnv {
                cpu: cpu.id,
                irq_enabled: cpu.irq.enabled,
                guards: cpu.preempt.num,
                tsc: clock.tsc,
                tick: clock.tick,
                current: cpu.processor.current,
            };
            let could_run_on = cpu.processor.current matches Some(c) && tasks[c as int].status
                == TaskStatus::Runnable && !tasks[c as int].need_resched;
            &&& cpu.preempt.num > 0 ==> !way && tasks2 == tasks
            &&& cpu.preempt.num == 0 && !could_run_on ==> way && tasks2 == tasks
            &&& cpu.preempt.num == 0 && could_run_on ==> (tasks2, way) == S::asked(sched, tasks, env)
        }),
{
}

/// `schedule` gives the CPU to the task that the scheduler picks, once the current task makes way
/// and there is one to pick. The switch saves the context of the task that ran and loads that of
/// the task that will run. The task that ran is handed to the scheduler again exactly if it is
/// runnable.
pub proof fn law_schedule_runs_what_is_picked<S: Scheduler>(
    sched: S::V,
    tasks: Seq<TaskView>,
    cpu: Cpu,
    clock: Clock,
    caller: Location,
)
    requires
        cpu.preempt.preemptible(),
    ensures
        ({
            let (global2, tasks2, cpu2, switch) = scheduled::<S>(
                Some(sched),
                tasks,
                cpu,
                clock,
                caller,
            );
            let env = SchedEnv {
                cpu: cpu.id,
                irq_enabled: false,
                guards: 0,
                tsc: clock.tsc,
                tick: clock.tick,
                current: cpu.processor.current,
            };
            let (tasks1, way) = makes_way::<S>(Some(sched), tasks, cpu.deactivated(caller), clock);
            let (sched1, left, next) = S::picked(sched, tasks1, env);
            &&& cpu2.id == cpu.id
            &&& cpu2.preempt.num == 0
            &&& cpu2.processor.idle_task_ctx == cpu.processor.idle_task_ctx
            &&& switch is Some <==> way && next is Some
            &&& !way ==> global2 == Some(sched) && tasks2 == tasks1
            &&& way && next is None ==> global2 == Some(sched1) && tasks2 == left
            &&& switch matches Some(s) ==> {
                let again = S::enqueued(
                    sched1,
                    left,
                    SchedEnv { guards: 1, current: Some(s.to), ..env },
                    s.from->Some_0,
                );
                &&& Some(s.to) == next
                &&& s.from == cpu.processor.current
                &&& s.next_ctx == left[s.to as int].ctx
                &&& cpu2.processor.current == Some(s.to)
                &&& if s.from matches Some(c) && left[c as int].status == TaskStatus::Runnable {
                    global2 == Some(again.0) && tasks2 == again.1
                } else {
                    global2 == Some(sched1) && tasks2 == left
                }
            }
        }),
{
}

/// Before there is a scheduler nothing is ever switched to.
pub proof fn law_no_scheduler_no_switch<S: Scheduler>(
    tasks: Seq<TaskView>,
    cpu: Cpu,
    clock: Clock,
    caller: Location,
)
    requires
        cpu.processor.current is None,
    ensures
        ({
            let (global2, tasks2, cpu2, switch) = scheduled::<S>(None, tasks, cpu, clock, caller);
            global2 is None && tasks2 == tasks && switch is None && cpu2.processor == cpu.processor
        }),
{
}

/// Giving a CPU to a task changes its current task and nothing else of it. Beginning a switch turns
/// interrupts off and remembers the caller, and ending it turns them on and forgets the caller.
pub proof fn law_switch_changes_cpu(cpu: Cpu, caller: Location, task: TaskId)
    ensures
        cpu.running(task).processor.current == Some(task),
        cpu.running(task).processor.idle_task_ctx == cpu.processor.idle_task_ctx,
        cpu.running(task).id == cpu.id,
        cpu.running(task).irq == cpu.irq,
        cpu.running(task).preempt == cpu.preempt,
        !cpu.deactivated(caller).irq.enabled,
        cpu.deactivated(caller).preempt.in_preemption == Some(caller),
        cpu.deactivated(caller).preempt.num == cpu.preempt.num,
        cpu.deactivated(caller).processor == cpu.processor,
        cpu.deactivated(caller).id == cpu.id,
        cpu.activated().irq.enabled,
        cpu.activated().preempt.in_preemption is None,
        cpu.activated().preempt.num == cpu.preempt.num,
        cpu.activated().processor == cpu.processor,
        cpu.activated().id == cpu.id,
{
}

/// Whatever keeps a CPU quiet, a scheduler operation finds the number of the CPU, its current task
/// and its clocks.
pub proof fn law_env_is_of_cpu(cpu: Cpu, clock: Clock)
    ensures
        forall|env: SchedEnv|
            #![trigger env.cpu]
            env == cpu.env(clock) || env == cpu.quiet_env(clock) || env == cpu.masked_env(clock)
                ==> env.cpu == cpu.id && env.current == cpu.processor.current && env.tsc == clock.tsc
                && env.tick == clock.tick,
        cpu.env(clock).irq_enabled == cpu.irq.enabled,
        cpu.env(clock).guards == cpu.preempt.num,
        cpu.masked_env(clock).guards == cpu.preempt.num,
{
}

} // verus!
