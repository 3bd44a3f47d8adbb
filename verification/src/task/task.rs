//! The task itself: its status, its context, and the table of all tasks.
use vstd::prelude::*;

use crate::cpu::CpuSet;
use crate::sched::entity::{run_time, SchedEntityMap};
use crate::sched::vruntime::VRuntime;
use crate::task::priority::Priority;
use crate::task::stack::KernelStack;

verus! {

/// The number of a task, its place in the task table.
pub type TaskId = usize;

/// Stands for an object of the embedding kernel (a function, the data of a task, a user space)
/// that this crate only passes on.
pub type Handle = u64;

/// The registers that a function must leave as it found them.
#[derive(Clone, Copy, PartialEq, Eq, Debug, Structural)]
pub struct CalleeRegs {
    pub rsp: u64,
    pub rbx: u64,
    pub rbp: u64,
    pub r12: u64,
    pub r13: u64,
    pub r14: u64,
    pub r15: u64,
}

impl CalleeRegs {
    /// Registers that are all zero.
    pub fn zeros() -> (r: CalleeRegs)
        ensures
            r == (CalleeRegs { rsp: 0, rbx: 0, rbp: 0, r12: 0, r13: 0, r14: 0, r15: 0 }),
    {
        CalleeRegs { rsp: 0, rbx: 0, rbp: 0, r12: 0, r13: 0, r14: 0, r15: 0 }
    }
}

/// What is saved of a task that is not running.
#[derive(Clone, Copy, PartialEq, Eq, Debug, Structural)]
pub struct TaskContext {
    pub regs: CalleeRegs,
    pub rip: usize,
}

/// The context of a task that never ran.
pub open spec fn empty_context() -> TaskContext {
    TaskContext {
        regs: CalleeRegs { rsp: 0, rbx: 0, rbp: 0, r12: 0, r13: 0, r14: 0, r15: 0 },
        rip: 0,
    }
}

impl TaskContext {
    /// A context that is all zero.
    pub fn empty() -> (r: TaskContext)
        ensures
            r == empty_context(),
    {
        TaskContext { regs: CalleeRegs::zeros(), rip: 0 }
    }
}

/// The status of a task.
#[derive(Clone, Copy, PartialEq, Eq, PartialOrd, Ord, Debug, Structural)]
pub enum TaskStatus {
    /// The task is runnable.
    Runnable,
    /// The task waits in the run queue of a CPU.
    Ready(u32),
    /// The task runs on a CPU.
    Running(u32),
    /// The task is sleeping.
    Sleeping,
    /// The task still runs on a CPU, and is about to sleep.
    ReadyToSleep(u32),
    /// The task has exited.
    Exited,
}

impl TaskStatus {
    /// Whether the task is runnable.
    pub fn is_runnable(&self) -> (r: bool)
        ensures
            r == (*self == TaskStatus::Runnable),
    {
        *self == TaskStatus::Runnable
    }

    /// Whether the task waits in the run queue of this CPU.
    pub fn is_ready(&self, cpu: u32) -> (r: bool)
        ensures
            r == (*self == TaskStatus::Ready(cpu)),
    {
        *self == TaskStatus::Ready(cpu)
    }

    /// Whether the task is sleeping.
    pub fn is_sleeping(&self) -> (r: bool)
        ensures
            r == (*self == TaskStatus::Sleeping),
    {
        *self == TaskStatus::Sleeping
    }

    /// Whether the task has exited.
    pub fn is_exited(&self) -> (r: bool)
        ensures
            r == (*self == TaskStatus::Exited),
    {
        *self == TaskStatus::Exited
    }
}

/// A task that executes a function to the end.
pub struct Task {
    pub func: Handle,
    pub data: Handle,
    pub user_space: Option<Handle>,
    pub task_status: TaskStatus,
    pub ctx: TaskContext,
    /// When the task was last woken up, in ticks.
    pub woken_up_timestamp: Option<u64>,
    pub exit_code: usize,
    pub kstack: KernelStack,
    pub need_resched: bool,
    pub priority: Priority,
    /// The CPUs that the task may run on.
    pub cpu_affinity: CpuSet,
    pub sched_entity: SchedEntityMap,
    /// Whether the task is in a run queue.
    pub linked: bool,
}

/// The mathematical value of a task.
pub struct TaskView {
    pub func: Handle,
    pub data: Handle,
    pub user_space: Option<Handle>,
    pub status: TaskStatus,
    pub ctx: TaskContext,
    pub woken_up_timestamp: Option<u64>,
    pub exit_code: usize,
    pub kstack: KernelStack,
    pub need_resched: bool,
    pub priority: Priority,
    pub affinity: Seq<bool>,
    pub entity: Option<VRuntime>,
    pub linked: bool,
}

impl View for Task {
    type V = TaskView;

    open spec fn view(&self) -> TaskView {
        TaskView {
            func: self.func,
            data: self.data,
            user_space: self.user_space,
            status: self.task_status,
            ctx: self.ctx,
            woken_up_timestamp: self.woken_up_timestamp,
            exit_code: self.exit_code,
            kstack: self.kstack,
            need_resched: self.need_resched,
            priority: self.priority,
            affinity: self.cpu_affinity@,
            entity: run_time(self.sched_entity),
            linked: self.linked,
        }
    }
}

/// To read the priority of a task.
pub trait ReadPriority {
    /// The priority that `priority` gives.
    spec fn priority_of(&self) -> Priority;

    fn priority(&self) -> (r: Priority)
        ensures
            r == self.priority_of(),
    ;

    fn is_real_time(&self) -> (r: bool)
        ensures
            r == self.priority_of().real_time(),
    ;
}

impl ReadPriority for Task {
    open spec fn priority_of(&self) -> Priority {
        self.priority
    }

    fn priority(&self) -> (r: Priority) {
        self.priority
    }

    fn is_real_time(&self) -> (r: bool) {
        self.priority.is_real_time()
    }
}

/// To put a task to sleep and wake it up.
pub trait WakeUp: Sized {
    /// The status of the task.
    spec fn status_of(&self) -> TaskStatus;

    /// When the task was woken up, until that is forgotten.
    spec fn stamp_of(&self) -> Option<u64>;

    /// Marks a running task as about to sleep.
    fn sleep(&mut self)
        requires
            old(self).status_of() is Running,
        ensures
            final(self).status_of() == TaskStatus::ReadyToSleep(old(self).status_of()->Running_0),
            final(self).stamp_of() == old(self).stamp_of(),
    ;

    /// Wakes the task up. Tells whether it now has to be put in a run queue.
    fn wakeup(&mut self, current_tick: u64) -> (r: bool)
        ensures
            (final(self).status_of(), final(self).stamp_of(), r) == woken(
                old(self).status_of(),
                old(self).stamp_of(),
                current_tick,
            ),
    ;

    /// When the task was woken up, until that is forgotten.
    fn woken_up_timestamp(&self) -> (r: Option<u64>)
        ensures
            r == self.stamp_of(),
    ;

    /// Forgets when the task was woken up.
    fn clear_woken_up_timestamp(&mut self)
        ensures
            final(self).status_of() == old(self).status_of(),
            final(self).stamp_of() is None,
    ;
}

/// The status and wake-up time of a task after a wake-up at tick `now`, and whether it now has to
/// be put in a run queue: a sleeping task becomes runnable, and one that was about to sleep stays
/// on its CPU.
pub open spec fn woken(status: TaskStatus, stamp: Option<u64>, now: u64) -> (
    TaskStatus,
    Option<u64>,
    bool,
) {
    match status {
        TaskStatus::Sleeping => (TaskStatus::Runnable, Some(now), true),
        TaskStatus::ReadyToSleep(cpu) => (TaskStatus::Running(cpu), Some(now), false),
        _ => (status, stamp, false),
    }
}

impl WakeUp for Task {
    open spec fn status_of(&self) -> TaskStatus {
        self.task_status
    }

    open spec fn stamp_of(&self) -> Option<u64> {
        self.woken_up_timestamp
    }

    fn sleep(&mut self)
        ensures
            final(self)@ == (TaskView { status: final(self).task_status, ..old(self)@ }),
    {
        match self.task_status {
            TaskStatus::Running(cpu) => {
                self.task_status = TaskStatus::ReadyToSleep(cpu);
            },
            _ => {},
        }
    }

    fn wakeup(&mut self, current_tick: u64) -> (r: bool)
        ensures
            final(self)@ == (TaskView {
                status: final(self).task_status,
                woken_up_timestamp: final(self).woken_up_timestamp,
                ..old(self)@
            }),
    {
        match self.task_status {
            TaskStatus::Sleeping => {
                self.task_status = TaskStatus::Runnable;
                self.woken_up_timestamp = Some(current_tick);
                true
            },
            TaskStatus::ReadyToSleep(cpu) => {
                self.task_status = TaskStatus::Running(cpu);
                self.woken_up_timestamp = Some(current_tick);
                false
            },
            _ => false,
        }
    }

    fn woken_up_timestamp(&self) -> (r: Option<u64>) {
        self.woken_up_timestamp
    }

    fn clear_woken_up_timestamp(&mut self)
        ensures
            final(self)@ == (TaskView { woken_up_timestamp: None, ..old(self)@ }),
    {
        self.woken_up_timestamp = None;
    }
}

/// A task that is woken up before it got to sleep runs on as if it had not been told to: the
/// status is what it was, and nothing has to be queued.
pub proof fn law_wakeup_undoes_sleep(cpu: u32, stamp: Option<u64>, now: u64)
    ensures
        woken(TaskStatus::ReadyToSleep(cpu), stamp, now).0 == TaskStatus::Running(cpu),
        !woken(TaskStatus::ReadyToSleep(cpu), stamp, now).2,
{
}

/// A second wake-up changes nothing and queues nothing: no task is queued twice for one sleep.
pub proof fn law_wakeup_once(status: TaskStatus, stamp: Option<u64>, now: u64, later: u64)
    ensures
        ({
            let first = woken(status, stamp, now);
            woken(first.0, first.1, later) == (first.0, first.1, false)
        }),
{
}

/// To get or set the `need_resched` flag of a task.
pub trait NeedResched: Sized {
    /// The flag.
    spec fn resched(&self) -> bool;

    fn need_resched(&self) -> (r: bool)
        ensures
            r == self.resched(),
    ;

    fn set_need_resched(&mut self, need_resched: bool)
        ensures
            final(self).resched() == need_resched,
    ;
}

impl NeedResched for Task {
    open spec fn resched(&self) -> bool {
        self.need_resched
    }

    fn need_resched(&self) -> (r: bool) {
        self.need_resched
    }

    fn set_need_resched(&mut self, need_resched: bool)
        ensures
            final(self)@ == (TaskView { need_resched, ..old(self)@ }),
    {
        self.need_resched = need_resched;
    }
}

impl Task {
    /// The saved context of the task.
    pub fn context(&self) -> (r: TaskContext)
        ensures
            r == self.ctx,
    {
        self.ctx
    }

    /// Whether the task is in a run queue.
    pub fn is_linked(&self) -> (r: bool)
        ensures
            r == self.linked,
    {
        self.linked
    }

    /// Returns the task status.
    pub fn status(&self) -> (r: TaskStatus)
        ensures
            r == self.task_status,
    {
        self.task_status
    }

    /// Hands the status to a function that may change it.
    pub fn transition<T, F: FnOnce(&mut TaskStatus) -> T>(&mut self, f: F) -> (r: T)
        requires
            forall|s: &mut TaskStatus| *s == old(self).task_status ==> call_requires(f, (s,)),
        ensures
            exists|s: &mut TaskStatus|
                *s == old(self).task_status && call_ensures(f, (s,), r) && final(self)@ == (
                TaskView { status: *final(s), ..old(self)@ }),
    {
        f(&mut self.task_status)
    }

    /// Returns the task data.
    pub fn data(&self) -> (r: Handle)
        ensures
            r == self.data,
    {
        self.data
    }

    /// Returns the user space, if there is one.
    pub fn user_space(&self) -> (r: Option<Handle>)
        ensures
            r == self.user_space,
    {
        self.user_space
    }
}

/// A wake-up has a task queued exactly if it was asleep, and leaves a task alone that neither
/// sleeps nor is about to. The time of the wake-up is remembered exactly where it had an effect,
/// and no task sleeps afterwards.
pub proof fn law_wakeup_wakes(status: TaskStatus, stamp: Option<u64>, now: u64)
    ensures
        ({
            let (status2, stamp2, queue) = woken(status, stamp, now);
            let about = status is Sleeping || status is ReadyToSleep;
            &&& queue <==> status is Sleeping
            &&& status is Sleeping ==> status2 == TaskStatus::Runnable
            &&& status is ReadyToSleep ==> status2 is Running
            &&& !about ==> status2 == status && stamp2 == stamp
            &&& about ==> stamp2 == Some(now)
            &&& !(status2 is Sleeping || status2 is ReadyToSleep)
        }),
{
}

} // verus!
