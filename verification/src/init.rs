//! The threads that the kernel starts with, and how it ends.
use vstd::prelude::*;

use crate::cpu::CpuSet;
use crate::task::options::TaskOptions;
use crate::task::priority::Priority;
use crate::task::task::Handle;

verus! {

/// The only CPU that a thread may run on, out of `num_cpus`.
pub open spec fn only(num_cpus: u32, cpu: u32) -> Seq<bool> {
    Seq::new(num_cpus as nat, |c: int| c == cpu)
}

/// The thread that a CPU runs when there is nothing else to run: bound to that CPU, and with the
/// lowest priority.
pub fn idle_thread(func: Handle, num_cpus: u32, cpu: u32) -> (r: TaskOptions)
    requires
        cpu < num_cpus,
        num_cpus * 8 <= usize::MAX,
    ensures
        r.func == Some(func),
        r.data is None,
        r.user_space is None,
        r.priority.wf(),
        r.priority.val == 139,
        r.cpu_affinity@ == only(num_cpus, cpu),
{
    let options = TaskOptions::new(func, num_cpus).cpu_affinity(
        CpuSet::single(num_cpus, cpu),
    ).priority(Priority::lowest());
    assert(options.cpu_affinity@ =~= only(num_cpus, cpu));
    options
}

/// The thread that brings the system up: bound to the CPU that starts it, with normal priority.
pub fn first_thread(func: Handle, num_cpus: u32, cpu: u32) -> (r: TaskOptions)
    requires
        cpu < num_cpus,
        num_cpus * 8 <= usize::MAX,
    ensures
        r.func == Some(func),
        r.data is None,
        r.user_space is None,
        r.priority.wf(),
        r.priority.val == 120,
        r.cpu_affinity@ == only(num_cpus, cpu),
{
    let options = TaskOptions::new(func, num_cpus).cpu_affinity(CpuSet::single(num_cpus, cpu));
    assert(options.cpu_affinity@ =~= only(num_cpus, cpu));
    options
}

/// What the machine is told when the kernel ends.
#[derive(Clone, Copy, PartialEq, Eq, Debug, Structural)]
pub enum QemuExitCode {
    Success,
    Failed,
}

/// What the machine is told when the init process ended: it succeeded if its exit code is zero.
pub fn exit_code_of(init_exit_code: u32) -> (r: QemuExitCode)
    ensures
        r == QemuExitCode::Success <==> init_exit_code == 0,
{
    if init_exit_code == 0 {
        QemuExitCode::Success
    } else {
        QemuExitCode::Failed
    }
}

/// The priorities of the threads that compete for mutexes when priorities are tried out.
pub const PRIO: [u16; 11] = [115, 116, 117, 118, 119, 120, 121, 122, 123, 124, 125];

/// How long they compete, in seconds.
pub const WAIT_SECS: u64 = 80;

/// The priority of one of the competing threads.
pub fn trial_priority(id: usize) -> (r: Priority)
    requires
        id < 11,
    ensures
        r.wf(),
        r.val == 115 + id,
{
    Priority::new(PRIO[id])
}

/// The mutex that a competing thread takes next, by the clock.
pub fn trial_mutex(tsc: u64) -> (r: usize)
    ensures
        r == tsc % 11,
        r < 11,
{
    (tsc % 11) as usize
}

/// Whether the threads competed long enough.
pub fn trial_is_over(start_tick: u64, now_tick: u64, timer_freq: u64) -> (r: bool)
    requires
        start_tick <= now_tick,
        WAIT_SECS * timer_freq <= u64::MAX,
    ensures
        r == (now_tick - start_tick >= WAIT_SECS * timer_freq),
{
    let ticks = now_tick - start_tick;
    ticks >= WAIT_SECS * timer_freq
}

/// A thread that is bound to a CPU may run on that one and on no other.
pub proof fn law_bound_to_one(num_cpus: u32, cpu: u32, other: int)
    requires
        cpu < num_cpus,
    ensures
        only(num_cpus, cpu).len() == num_cpus,
        crate::cpu::in_set(only(num_cpus, cpu), other) <==> other == cpu,
{
}

} // verus!
