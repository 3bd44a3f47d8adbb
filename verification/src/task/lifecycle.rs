//! How a task begins and ends.
use vstd::prelude::*;

use crate::error::Error;
use crate::task::options::TaskOptions;
use crate::task::preempt::{activate_preemption, Location};
use crate::task::processor::{
    can_schedule, can_switch, current_task, makes_way, schedule, scheduled, switched, yield_to,
    Clock, ContextSwitch, Cpu,
};
use crate::task::scheduler::{
    chosen, clear_task, global_wf, with_status, GlobalScheduler, Scheduler,
};
use crate::task::stack::{KernelStack, LinearMapping};
use crate::task::table::TaskTable;
use crate::task::task::{Handle, Task, TaskId, TaskStatus, TaskView};

verus! {

/// The tasks after one of them exited: its status says so, and nothing is kept with it.
pub open spec fn exited<S: Scheduler>(
    tasks: Seq<TaskView>,
    cpu: Cpu,
    clock: Clock,
    task: TaskId,
) -> Seq<TaskView> {
    S::cleared(with_status(tasks, task, TaskStatus::Exited), cpu.quiet_env(clock), task)
}

impl Task {
    /// Runs a task that is runnable, in place of the current one.
    pub fn run<S: Scheduler>(
        task: TaskId,
        global: &mut GlobalScheduler<S>,
        tasks: &mut TaskTable,
        cpu: &mut Cpu,
        clock: &Clock,
        caller: Location,
    ) -> (r: ContextSwitch)
        requires
            task < old(tasks)@.len(),
            old(tasks)@[task as int].status == TaskStatus::Runnable,
            old(cpu).preempt.preemptible(),
            global_wf::<S>(old(global)@, old(tasks)@),
            can_switch::<S>(
                old(global)@,
                old(tasks)@,
                old(cpu).deactivated(caller),
                *clock,
                task,
            ),
        ensures
            *final(cpu) == old(cpu).deactivated(caller).running(task),
            (final(global)@, final(tasks)@) == switched::<S>(
                old(global)@,
                old(tasks)@,
                old(cpu).deactivated(caller),
                *clock,
                task,
            ),
            r == (ContextSwitch {
                from: old(cpu).processor.current,
                to: task,
                next_ctx: old(tasks)@[task as int].ctx,
            }),
            global_wf::<S>(final(global)@, final(tasks)@),
    {
        yield_to(global, tasks, cpu, clock, caller, task)
    }

    /// Ends a task: it is marked as exited, the scheduler forgets it, and another one is run if
    /// there is one. The current task has to yield for as long as none is.
    pub fn exit<S: Scheduler>(
        task: TaskId,
        global: &mut GlobalScheduler<S>,
        tasks: &mut TaskTable,
        cpu: &mut Cpu,
        clock: &Clock,
        caller: Location,
    ) -> (r: Option<ContextSwitch>)
        requires
            old(global)@ is Some,
            S::wf(old(global)@->Some_0, old(tasks)@),
            task < old(tasks)@.len(),
            !old(tasks)@[task as int].linked,
            can_schedule::<S>(
                old(global)@,
                exited::<S>(old(tasks)@, *old(cpu), *clock, task),
                *old(cpu),
                *clock,
                caller,
            ),
        ensures
            (final(global)@, final(tasks)@, *final(cpu), r) == scheduled::<S>(
                old(global)@,
                exited::<S>(old(tasks)@, *old(cpu), *clock, task),
                *old(cpu),
                *clock,
                caller,
            ),
            global_wf::<S>(final(global)@, final(tasks)@),
    {
        proof {
            S::transition_keeps_wf(global@->Some_0, tasks@, task, TaskStatus::Exited);
        }
        let ghost tasks0 = tasks@;
        tasks.get_mut(task).task_status = TaskStatus::Exited;
        assert(tasks@ =~= with_status(tasks0, task, TaskStatus::Exited));
        clear_task(global, tasks, cpu, clock, task);
        schedule(global, tasks, cpu, clock, caller)
    }
}

/// Whether a new task can be put in the table: in a place of its own, or in that of a task that
/// exited and waits in no queue.
pub open spec fn can_place(tasks: Seq<TaskView>, place: Option<TaskId>) -> bool {
    match place {
        None => tasks.len() < u32::MAX,
        Some(t) => {
            &&& t < tasks.len()
            &&& tasks[t as int].status == TaskStatus::Exited
            &&& !tasks[t as int].linked
        },
    }
}

/// The tasks after a new one was put in the table, and its number.
pub open spec fn placed(tasks: Seq<TaskView>, place: Option<TaskId>, task: TaskView) -> (
    Seq<TaskView>,
    TaskId,
) {
    match place {
        None => (tasks.push(task), tasks.len() as usize),
        Some(t) => (tasks.update(t as int, task), t),
    }
}

/// A task that was spawned.
pub struct Spawned {
    /// Its number.
    pub task: TaskId,
    /// The task whose place it took.
    pub replaced: Option<Task>,
    /// The switch to it that is left to do.
    pub switch: ContextSwitch,
}

impl TaskOptions {
    /// Builds a new task and runs it immediately, on a stack that was allocated for it. Fails as
    /// the allocation did.
    ///
    /// Each task is associated with a per-task data and an optional user space.
    /// If having a user space, then the task can switch to the user space to
    /// execute user code. Multiple tasks can share a single user space.
    ///
    /// The task takes the place of one that exited and runs on no CPU any more, if such a place is
    /// given; that one is given back, with its stack.
    pub fn spawn<S: Scheduler>(
        self,
        place: Option<TaskId>,
        kstack: Result<KernelStack, Error>,
        entry: usize,
        linear: &LinearMapping,
        global: &mut GlobalScheduler<S>,
        tasks: &mut TaskTable,
        cpu: &mut Cpu,
        clock: &Clock,
        caller: Location,
    ) -> (r: Result<Spawned, Error>)
        requires
            self.func is Some,
            self.data is Some,
            self.priority.wf(),
            old(global)@ is Some,
            S::wf(old(global)@->Some_0, old(tasks)@),
            can_place(old(tasks)@, place),
            place matches Some(t) ==> old(cpu).processor.current != Some(t),
            kstack matches Ok(k) ==> {
                let (tasks2, t) = placed(old(tasks)@, place, self.task(k, entry, *linear));
                &&& k.segment.wf()
                &&& linear.base + k.segment.end() <= usize::MAX
                &&& old(cpu).preempt.preemptible()
                &&& can_switch::<S>(
                    old(global)@,
                    tasks2,
                    old(cpu).deactivated(caller),
                    *clock,
                    t,
                )
            },
        ensures
            match kstack {
                Ok(k) => {
                    let task = self.task(k, entry, *linear);
                    let (tasks2, t) = placed(old(tasks)@, place, task);
                    &&& r matches Ok(spawned)
                    &&& spawned.task == t
                    &&& match place {
                        None => spawned.replaced is None,
                        Some(p) => spawned.replaced matches Some(exited) && exited@ == old(
                            tasks,
                        )@[p as int],
                    }
                    &&& spawned.switch == (ContextSwitch {
                        from: old(cpu).processor.current,
                        to: t,
                        next_ctx: task.ctx,
                    })
                    &&& *final(cpu) == old(cpu).deactivated(caller).running(t)
                    &&& (final(global)@, final(tasks)@) == switched::<S>(
                        old(global)@,
                        tasks2,
                        old(cpu).deactivated(caller),
                        *clock,
                        t,
                    )
                },
                Err(e) => {
                    &&& r matches Err(e2)
                    &&& e2 == e
                    &&& *final(cpu) == *old(cpu)
                    &&& final(global)@ == old(global)@
                    &&& final(tasks)@ == old(tasks)@
                },
            },
            global_wf::<S>(final(global)@, final(tasks)@),
    {
        let task = match self.build(kstack, entry, linear) {
            Ok(task) => task,
            Err(e) => {
                return Err(e);
            },
        };
        proof {
            S::wf_table(global@->Some_0, tasks@);
            match place {
                None => S::insert_keeps_wf(global@->Some_0, tasks@, task@),
                Some(t) => S::replace_keeps_wf(global@->Some_0, tasks@, t, task@),
            }
        }
        let (t, replaced) = match place {
            None => (tasks.insert(task), None),
            Some(t) => (t, Some(tasks.replace(t, task))),
        };
        let switch = Task::run(t, global, tasks, cpu, clock, caller);
        Ok(Spawned { task: t, replaced, switch })
    }
}

/// All tasks begin here, with the switch to them not ended yet. Gives back the current task and the
/// function that it has to run before it exits.
pub fn kernel_task_entry(cpu: &mut Cpu, tasks: &TaskTable) -> (r: (TaskId, Handle))
    requires
        !old(cpu).irq.enabled,
        old(cpu).preempt.num == 0,
        old(cpu).processor.current matches Some(c) && c < tasks@.len(),
    ensures
        *final(cpu) == old(cpu).activated(),
        Some(r.0) == old(cpu).processor.current,
        r.1 == tasks@[r.0 as int].func,
{
    activate_preemption(&mut cpu.preempt, &mut cpu.irq);
    let task = current_task(cpu).unwrap();
    (task, tasks.get(task).func)
}

// Laws.

/// A CPU that is preemptible can always call `schedule` if the scheduler answers it, and if its
/// current task, where there is one, waits in no queue and can be put in one while it is runnable.
pub proof fn law_can_schedule<S: Scheduler>(
    sched: S::V,
    tasks: Seq<TaskView>,
    cpu: Cpu,
    clock: Clock,
    caller: Location,
)
    requires
        cpu.preempt.preemptible(),
        S::wf(sched, tasks),
        S::can_pick(sched, cpu.deactivated(caller).env(clock)),
        cpu.processor.current matches Some(c) ==> {
            &&& c < tasks.len()
            &&& !tasks[c as int].linked
            &&& tasks[c as int].status == TaskStatus::Runnable ==> {
                &&& S::can_ask(sched, tasks, cpu.deactivated(caller).env(clock))
                &&& forall|next: TaskId|
                    S::can_enqueue(
                        sched,
                        tasks,
                        (#[trigger] cpu.deactivated(caller).running(next)).quiet_env(clock),
                        c,
                    )
            }
        },
    ensures
        can_schedule::<S>(Some(sched), tasks, cpu, clock, caller),
{
    let off = cpu.deactivated(caller);
    let env = off.env(clock);
    let (tasks1, way) = makes_way::<S>(Some(sched), tasks, off, clock);
    let (global2, tasks2, next) = chosen::<S>(Some(sched), tasks1, env);
    if let Some(c) = cpu.processor.current {
        if tasks[c as int].status == TaskStatus::Runnable {
            S::ask_keeps(sched, tasks, env, env, c);
        }
    }
    if way && next is Some {
        let later = off.running(next->Some_0).quiet_env(clock);
        S::pick_gives_task(sched, tasks1, env);
        if let Some(c) = cpu.processor.current {
            if tasks[c as int].status == TaskStatus::Runnable {
                S::ask_keeps(sched, tasks, env, later, c);
            }
            S::pick_keeps(sched, tasks1, env, later, c);
        }
    }
}

/// A current task that is in no queue can always exit, if the scheduler answers the CPU.
pub proof fn law_can_exit<S: Scheduler>(
    sched: S::V,
    tasks: Seq<TaskView>,
    cpu: Cpu,
    clock: Clock,
    caller: Location,
    task: TaskId,
)
    requires
        cpu.preempt.preemptible(),
        cpu.processor.current == Some(task),
        task < tasks.len(),
        !tasks[task as int].linked,
        S::wf(sched, tasks),
        S::can_pick(sched, cpu.deactivated(caller).env(clock)),
    ensures
        can_schedule::<S>(Some(sched), exited::<S>(tasks, cpu, clock, task), cpu, clock, caller),
{
    S::transition_keeps_wf(sched, tasks, task, TaskStatus::Exited);
    S::clear_keeps(
        sched,
        with_status(tasks, task, TaskStatus::Exited),
        cpu.quiet_env(clock),
        task,
    );
    law_can_schedule::<S>(sched, exited::<S>(tasks, cpu, clock, task), cpu, clock, caller);
}

/// A task that exited is never added to the scheduler: where it made way for another task, the
/// scheduler only gave that one away.
pub proof fn law_exited_not_added<S: Scheduler>(
    sched: S::V,
    tasks: Seq<TaskView>,
    cpu: Cpu,
    clock: Clock,
    caller: Location,
    task: TaskId,
)
    requires
        can_schedule::<S>(Some(sched), tasks, cpu, clock, caller),
        cpu.processor.current == Some(task),
        tasks[task as int].status == TaskStatus::Exited,
        !tasks[task as int].linked,
    ensures
        ({
            let (global2, tasks2, _, _) = scheduled::<S>(Some(sched), tasks, cpu, clock, caller);
            let picked = S::picked(sched, tasks, cpu.deactivated(caller).env(clock));
            global2 == Some(picked.0) && tasks2 == picked.1
        }),
{
    let env = cpu.deactivated(caller).env(clock);
    S::pick_keeps(sched, tasks, env, env, task);
}

/// Preemption stays off after `schedule` exactly where a switch is left to do. Where none is, the
/// CPU goes on with its current task, preemptible and with interrupts on.
pub proof fn law_schedule_ends<S: Scheduler>(
    global: Option<S::V>,
    tasks: Seq<TaskView>,
    cpu: Cpu,
    clock: Clock,
    caller: Location,
)
    requires
        cpu.preempt.preemptible(),
    ensures
        ({
            let (_, _, cpu2, switch) = scheduled::<S>(global, tasks, cpu, clock, caller);
            match switch {
                Some(s) => {
                    &&& cpu2.preempt.in_preemption == Some(caller)
                    &&& !cpu2.irq.enabled
                    &&& cpu2.processor.current == Some(s.to)
                    &&& cpu2.activated().preempt.preemptible()
                },
                None => {
                    &&& cpu2.preempt.preemptible()
                    &&& cpu2.irq.enabled
                    &&& cpu2.processor.current == cpu.processor.current
                },
            }
        }),
{
}

/// A new task is put in a place of its own, behind all others, or in the place that it is given,
/// and no other task changes.
pub proof fn law_new_task_has_own_place(
    tasks: Seq<TaskView>,
    place: Option<TaskId>,
    task: TaskView,
    u: int,
)
    requires
        can_place(tasks, place),
        0 <= u < tasks.len(),
    ensures
        ({
            let (tasks2, t) = placed(tasks, place, task);
            &&& t < tasks2.len()
            &&& tasks2[t as int] == task
            &&& u != t ==> tasks2[u] == tasks[u]
            &&& place is None ==> t == tasks.len() && tasks2.len() == tasks.len() + 1
            &&& place matches Some(p) ==> t == p && tasks2.len() == tasks.len() && tasks[p as int].status
                == TaskStatus::Exited
        }),
{
}

} // verus!
