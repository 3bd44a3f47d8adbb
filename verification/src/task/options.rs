//! Options to create a new task.
use vstd::prelude::*;

use crate::config::PAGE_SIZE;
use crate::cpu::CpuSet;
use crate::error::Error;
use crate::sched::entity::SchedEntityMap;
use crate::task::priority::Priority;
use crate::task::stack::{KernelStack, LinearMapping};
use crate::task::task::{empty_context, CalleeRegs, Handle, Task, TaskContext, TaskStatus, TaskView};

verus! {

/// Options to create or spawn a new task.
pub struct TaskOptions {
    pub func: Option<Handle>,
    pub data: Option<Handle>,
    pub user_space: Option<Handle>,
    pub priority: Priority,
    pub cpu_affinity: CpuSet,
}

/// The context in which a new task begins: at the entry point `entry`, with the stack pointer at
/// the kernel's address of the end of its stack.
pub open spec fn first_context(kstack: KernelStack, entry: usize, linear: LinearMapping) -> TaskContext {
    TaskContext {
        regs: CalleeRegs {
            rsp: (linear.base + kstack.segment.end()) as u64,
            ..empty_context().regs
        },
        rip: entry,
    }
}

impl TaskOptions {
    /// The task that these options describe, on a given stack: runnable, never run, in no run
    /// queue.
    pub open spec fn task(
        &self,
        kstack: KernelStack,
        entry: usize,
        linear: LinearMapping,
    ) -> TaskView {
        TaskView {
            func: self.func->Some_0,
            data: self.data->Some_0,
            user_space: self.user_space,
            status: TaskStatus::Runnable,
            ctx: first_context(kstack, entry, linear),
            woken_up_timestamp: None,
            exit_code: 0,
            kstack,
            need_resched: false,
            priority: self.priority,
            affinity: self.cpu_affinity@,
            entity: None,
            linked: false,
        }
    }

    /// Creates a set of options for a task that runs `func`: with normal priority, on any of the
    /// `num_cpus` CPUs.
    pub fn new(func: Handle, num_cpus: u32) -> (r: Self)
        requires
            num_cpus * 8 <= usize::MAX,
        ensures
            r.func == Some(func),
            r.data is None,
            r.user_space is None,
            r.priority.wf(),
            r.priority.val == crate::task::priority::NICE_0_PRIORITY,
            r.cpu_affinity@ == Seq::new(num_cpus as nat, |c: int| true),
    {
        let cpu_affinity = CpuSet::new_full(num_cpus);
        TaskOptions {
            func: Some(func),
            data: None,
            user_space: None,
            priority: Priority::normal(),
            cpu_affinity,
        }
    }

    /// Sets the function that the task runs.
    pub fn func(self, func: Handle) -> (r: Self)
        ensures
            r == (TaskOptions { func: Some(func), ..self }),
    {
        TaskOptions { func: Some(func), ..self }
    }

    /// Sets the data of the task.
    pub fn data(self, data: Handle) -> (r: Self)
        ensures
            r == (TaskOptions { data: Some(data), ..self }),
    {
        TaskOptions { data: Some(data), ..self }
    }

    /// Sets the user space associated with the task.
    pub fn user_space(self, user_space: Option<Handle>) -> (r: Self)
        ensures
            r == (TaskOptions { user_space, ..self }),
    {
        TaskOptions { user_space, ..self }
    }

    /// Sets the priority of the task.
    pub fn priority(self, priority: Priority) -> (r: Self)
        ensures
            r == (TaskOptions { priority, ..self }),
    {
        TaskOptions { priority, ..self }
    }

    /// Sets the CPUs that the task may run on.
    pub fn cpu_affinity(self, cpu_affinity: CpuSet) -> (r: Self)
        ensures
            r == (TaskOptions { cpu_affinity, ..self }),
    {
        TaskOptions { cpu_affinity, ..self }
    }

    /// Builds a new task but does not run it. Fails as the allocation of its stack did.
    pub fn build(
        self,
        kstack: Result<KernelStack, Error>,
        entry: usize,
        linear: &LinearMapping,
    ) -> (r: Result<Task, Error>)
        requires
            self.func is Some,
            self.data is Some,
            kstack matches Ok(k) ==> k.segment.wf() && linear.base + k.segment.end() <= usize::MAX,
        ensures
            match kstack {
                Ok(k) => r matches Ok(task) && task@ == self.task(k, entry, *linear),
                Err(e) => r matches Err(e2) && e2 == e,
            },
    {
        let kstack = match kstack {
            Ok(kstack) => kstack,
            Err(e) => {
                return Err(e);
            },
        };
        let mut ctx = TaskContext::empty();
        ctx.rip = entry;
        ctx.regs.rsp = linear.paddr_to_vaddr(kstack.end_paddr()) as u64;
        Ok(
            Task {
                func: self.func.unwrap(),
                data: self.data.unwrap(),
                user_space: self.user_space,
                task_status: TaskStatus::Runnable,
                ctx,
                woken_up_timestamp: None,
                exit_code: 0,
                kstack,
                need_resched: false,
                priority: self.priority,
                cpu_affinity: self.cpu_affinity,
                sched_entity: SchedEntityMap::new(),
                linked: false,
            },
        )
    }
}

/// A new task begins at the entry point with the stack pointer at the end of its stack, where the
/// kernel sees it, and with all other registers zero.
pub proof fn law_task_begins_at_entry(kstack: KernelStack, entry: usize, linear: LinearMapping)
    requires
        kstack.segment.wf(),
        linear.base + kstack.segment.end() <= usize::MAX,
    ensures
        ({
            let ctx = first_context(kstack, entry, linear);
            &&& ctx.rip == entry
            &&& ctx.regs.rsp == linear.base + kstack.segment.start_paddr + kstack.segment.nframes
                * PAGE_SIZE
            &&& ctx.regs.rbx == 0 && ctx.regs.rbp == 0 && ctx.regs.r12 == 0
            &&& ctx.regs.r13 == 0 && ctx.regs.r14 == 0 && ctx.regs.r15 == 0
        }),
{
}

/// A new task is runnable, in no queue, unmarked and without a run time, with what the options say.
pub proof fn law_task_is_new(
    o: TaskOptions,
    kstack: KernelStack,
    entry: usize,
    linear: LinearMapping,
)
    requires
        o.func is Some,
        o.data is Some,
    ensures
        ({
            let task = o.task(kstack, entry, linear);
            &&& task.status == TaskStatus::Runnable
            &&& !task.linked
            &&& !task.need_resched
            &&& task.entity is None
            &&& task.woken_up_timestamp is None
            &&& task.exit_code == 0
            &&& Some(task.func) == o.func
            &&& Some(task.data) == o.data
            &&& task.user_space == o.user_space
            &&& task.priority == o.priority
            &&& task.affinity == o.cpu_affinity@
            &&& task.kstack == kstack
            &&& task.ctx == first_context(kstack, entry, linear)
        }),
{
}

} // verus!
