//! Task priorities.
use vstd::prelude::*;

use crate::sched::nice::Nice;

verus! {

/// The largest priority number, which stands for the least important tasks.
pub const LOWEST_PRIORITY: u16 = 139;

/// Tasks with a priority number below this one are real-time tasks.
pub const REAL_TIME_PRIORITIES: u16 = 100;

/// The priority number of nice value zero.
pub const NICE_0_PRIORITY: u16 = 120;

/// The priority of a task: 0 to 139, a smaller number for a more important task. The numbers
/// below 100 are for real-time tasks, the others for normal tasks.
#[derive(Clone, Copy, PartialEq, Eq, Debug, Structural)]
pub struct Priority {
    pub val: u16,
}

impl Priority {
    /// Whether the number is in the range of priorities.
    pub open spec fn wf(&self) -> bool {
        self.val <= LOWEST_PRIORITY
    }

    /// Whether the priority is one of a real-time task.
    pub open spec fn real_time(&self) -> bool {
        self.val < REAL_TIME_PRIORITIES
    }

    /// The nice value of the priority of a normal task.
    pub open spec fn nice(&self) -> Nice {
        Nice { raw: (self.val - NICE_0_PRIORITY) as i8 }
    }

    /// A priority.
    pub fn new(val: u16) -> (p: Priority)
        requires
            val <= LOWEST_PRIORITY,
        ensures
            p.wf(),
            p.val == val,
    {
        Priority { val }
    }

    /// The priority of the least important tasks.
    pub fn lowest() -> (p: Priority)
        ensures
            p.wf(),
            p.val == LOWEST_PRIORITY,
    {
        Priority { val: LOWEST_PRIORITY }
    }

    /// The priority of a normal task with nice value zero.
    pub fn normal() -> (p: Priority)
        ensures
            p.wf(),
            p.val == NICE_0_PRIORITY,
    {
        Priority { val: NICE_0_PRIORITY }
    }

    /// Whether this is the priority of a real-time task.
    pub fn is_real_time(&self) -> (r: bool)
        ensures
            r == self.real_time(),
    {
        self.val < REAL_TIME_PRIORITIES
    }

    /// The nice value, which real-time priorities do not have.
    pub fn as_nice(&self) -> (nice: Option<Nice>)
        requires
            self.wf(),
        ensures
            self.real_time() ==> nice is None,
            !self.real_time() ==> nice == Some(self.nice()) && self.nice().wf(),
    {
        if self.is_real_time() {
            None
        } else {
            Some(Nice::new((self.val as i16 - 120) as i8))
        }
    }
}

/// The priorities below 100 are those of real-time tasks. The others are those of normal tasks,
/// one for each nice value, in the same order, with 120 for nice value zero.
pub proof fn law_priorities_are_split(p: Priority)
    requires
        p.wf(),
    ensures
        p.real_time() <==> p.val < 100,
        !p.real_time() ==> p.nice().wf() && p.nice().raw + 120 == p.val,
{
}

/// Every nice value is that of a priority of a normal task.
pub proof fn law_nice_has_priority(nice: Nice)
    requires
        nice.wf(),
    ensures
        ({
            let p = Priority { val: (nice.raw + 120) as u16 };
            p.wf() && !p.real_time() && p.nice() == nice
        }),
{
}

} // verus!
