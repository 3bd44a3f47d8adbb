//! The table of all tasks.
use vstd::prelude::*;

use crate::task::task::{Task, TaskId, TaskStatus, TaskView};

verus! {

/// All tasks of the kernel. A task is known by its place in the table.
pub struct TaskTable {
    pub tasks: Vec<Task>,
}

impl View for TaskTable {
    type V = Seq<TaskView>;

    open spec fn view(&self) -> Seq<TaskView> {
        Seq::new(self.tasks@.len(), |i: int| self.tasks@[i]@)
    }
}

/// Whether a table holds valid tasks, and no more of them than can be counted in 32 bits.
pub open spec fn table_wf(tasks: Seq<TaskView>) -> bool {
    &&& tasks.len() <= u32::MAX
    &&& forall|t: int| 0 <= t < tasks.len() ==> (#[trigger] tasks[t]).priority.wf()
}

impl TaskTable {
    /// A table without tasks.
    pub fn new() -> (r: TaskTable)
        ensures
            r@ == Seq::<TaskView>::empty(),
            table_wf(r@),
    {
        let r = TaskTable { tasks: Vec::new() };
        assert(r@ =~= Seq::<TaskView>::empty());
        r
    }

    /// Puts a new task in the table and gives back its number.
    pub fn insert(&mut self, task: Task) -> (t: TaskId)
        requires
            table_wf(old(self)@),
            old(self)@.len() < u32::MAX,
            task.priority.wf(),
        ensures
            t == old(self)@.len(),
            final(self)@ == old(self)@.push(task@),
            table_wf(final(self)@),
    {
        let t = self.tasks.len();
        self.tasks.push(task);
        assert(self@ =~= old(self)@.push(task@));
        t
    }

    /// Puts a new task in the place of one that exited and waits in no queue, and gives back the
    /// one that was there.
    pub fn replace(&mut self, t: TaskId, task: Task) -> (exited: Task)
        requires
            table_wf(old(self)@),
            t < old(self)@.len(),
            old(self)@[t as int].status == TaskStatus::Exited,
            !old(self)@[t as int].linked,
            task.priority.wf(),
        ensures
            exited@ == old(self)@[t as int],
            final(self)@ == old(self)@.update(t as int, task@),
            table_wf(final(self)@),
    {
        let mut other = task;
        std::mem::swap(self.get_mut(t), &mut other);
        other
    }

    /// Looks a task up.
    pub fn get(&self, t: TaskId) -> (task: &Task)
        requires
            t < self@.len(),
        ensures
            task@ == self@[t as int],
    {
        &self.tasks[t]
    }

    /// Looks a task up, open to change.
    pub fn get_mut(&mut self, t: TaskId) -> (task: &mut Task)
        requires
            t < old(self)@.len(),
        ensures
            task@ == old(self)@[t as int],
            final(self)@ == old(self)@.update(t as int, final(task)@),
    {
        let r = &mut self.tasks[t];
        r
    }
}

} // verus!
