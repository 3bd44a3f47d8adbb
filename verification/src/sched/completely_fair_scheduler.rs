//! The completely fair scheduler.
use vstd::prelude::*;

use crate::cpu::{in_set, lists_ones};
use crate::sched::clock::{period_fits, PeriodParams};
use crate::sched::nice::weight_of;
use crate::sched::run_queue::{
    after_tick, asked_to_preempt, can_push, can_tick, due, eligible, entering_vruntime, entity_wf,
    insert_position, law_asked_is_share_of_load, law_pop_changes_little, law_pop_keeps_waiting,
    law_pop_lightens, law_pop_none, law_pop_takes_least, law_pop_takes_one, law_push_adds_one,
    law_push_waits, law_tick_marks_used_up, lemma_insert_position, lemma_popped_frame,
    lemma_popped_shrinks, lemma_popped_wf, lemma_pushed_wf, lemma_queue_frame, lemma_tasks_change,
    lemma_unqueued_change, normal_entry, popped, pushed, ready, real_time_entry,
    real_time_runnable, rq_wf, tasks_wf, total_weight, vr, waits, RqView, RunQueue,
};
use crate::sched::vruntime::{fresh_vruntime, vr_lt, VRuntime};
use crate::task::lifecycle::exited;
use crate::task::preempt::Location;
use crate::task::processor::{
    can_schedule, can_switch, makes_way, scheduled, switched, Clock, Cpu,
};
use crate::task::scheduler::{SchedEnv, Scheduler};
use crate::task::table::TaskTable;
use crate::task::task::{ReadPriority, TaskId, TaskStatus, TaskView};

verus! {

/// The completely fair scheduler.
///
/// Each CPU has a run queue. Real-time tasks are always taken from it first; normal tasks are only
/// taken when no real-time task waits, and then the one that ran least.
pub struct CompletelyFairScheduler {
    /// The run queue of each CPU.
    rq: Vec<RunQueue>,
    /// For each CPU, the tick of its last checkpoint.
    pace: Vec<u64>,
    /// What the length of scheduling periods depends on.
    params: PeriodParams,
}

/// The mathematical value of the scheduler.
pub struct CfsView {
    pub rq: Seq<RqView>,
    pub pace: Seq<u64>,
    pub params: PeriodParams,
}

impl View for CompletelyFairScheduler {
    type V = CfsView;

    closed spec fn view(&self) -> CfsView {
        CfsView {
            rq: Seq::new(self.rq@.len(), |c: int| self.rq@[c]@),
            pace: self.pace@,
            params: self.params,
        }
    }
}

/// The number of ticks between two checkpoints of a CPU.
pub const PACE_TICKS: u64 = 5000;

/// Whether no task waits in two run queues.
pub open spec fn disjoint(rq: Seq<RqView>) -> bool {
    forall|a: int, b: int, t: TaskId|
        #![trigger waits(rq[a], t), waits(rq[b], t)]
        0 <= a < rq.len() && 0 <= b < rq.len() && waits(rq[a], t) && waits(rq[b], t) ==> a == b
}

/// Whether the scheduler is valid: it has a valid run queue for each CPU, and no task waits in two
/// of them.
pub open spec fn cfs_wf(sched: CfsView, tasks: Seq<TaskView>) -> bool {
    &&& tasks_wf(tasks)
    &&& 0 < sched.rq.len() <= u32::MAX
    &&& sched.pace.len() == sched.rq.len()
    &&& forall|c: int| 0 <= c < sched.rq.len() ==> (#[trigger] sched.rq[c]).cpu == c
    &&& forall|c: int| 0 <= c < sched.rq.len() ==> rq_wf(#[trigger] sched.rq[c], tasks)
    &&& disjoint(sched.rq)
}

/// The lowest CPU of a set, or the number of CPUs if the set is empty.
pub open spec fn first_cpu(bits: Seq<bool>) -> int
    decreases bits.len(),
{
    if bits.len() == 0 || bits.first() {
        0
    } else {
        1 + first_cpu(bits.drop_first())
    }
}

/// The CPU whose run queue a task is put into: this one if it may run here, else the first that it
/// may run on.
pub open spec fn home(task: TaskView, cpu: u32) -> int {
    if in_set(task.affinity, cpu as int) {
        cpu as int
    } else {
        first_cpu(task.affinity)
    }
}

proof fn lemma_first_cpu(bits: Seq<bool>)
    ensures
        0 <= first_cpu(bits) <= bits.len(),
        forall|c: int| 0 <= c < first_cpu(bits) ==> !#[trigger] bits[c],
        first_cpu(bits) < bits.len() ==> bits[first_cpu(bits)],
    decreases bits.len(),
{
    if bits.len() > 0 && !bits.first() {
        let r = bits.drop_first();
        lemma_first_cpu(r);
        assert forall|c: int| 0 <= c < 1 + first_cpu(r) implies !#[trigger] bits[c] by {
            if c > 0 {
                assert(r[c - 1] == bits[c]);
            }
        }
        if first_cpu(r) < r.len() {
            assert(r[first_cpu(r)] == bits[1 + first_cpu(r)]);
        }
    }
}

/// The list of the CPUs of a set begins with the lowest.
proof fn lemma_first_listed(ones: Seq<usize>, bits: Seq<bool>)
    requires
        lists_ones(ones, bits),
        first_cpu(bits) < bits.len(),
        bits.len() <= usize::MAX,
    ensures
        ones.len() > 0,
        ones[0] == first_cpu(bits),
{
    lemma_first_cpu(bits);
    let f = first_cpu(bits);
    assert(bits[f as usize as int]);
    assert(ones.contains(f as usize));
    let i = choose|i: int| 0 <= i < ones.len() && ones[i] == f as usize;
    assert(ones[0] <= ones[i]);
    assert(bits[ones[0] as int]);
}

// What the operations do.

/// The scheduler and the tasks after a task was put into the run queue of the CPU `c`.
pub open spec fn pushed_to(
    sched: CfsView,
    tasks: Seq<TaskView>,
    c: int,
    t: TaskId,
    now: u64,
) -> (CfsView, Seq<TaskView>) {
    let (rq, tasks2) = pushed(sched.rq[c], tasks, t, now);
    (CfsView { rq: sched.rq.update(c, rq), ..sched }, tasks2)
}

/// The scheduler, the tasks and the task taken, after the run queue of the CPU `c` was asked for a
/// task that may run on the CPU `target`.
pub open spec fn popped_from(
    sched: CfsView,
    tasks: Seq<TaskView>,
    c: int,
    target: u32,
    now: u64,
) -> (CfsView, Seq<TaskView>, Option<TaskId>) {
    let (rq, tasks2, r) = popped(sched.rq[c], tasks, target, now);
    (CfsView { rq: sched.rq.update(c, rq), ..sched }, tasks2, r)
}

/// The CPU with the largest load, the last one where several have the same.
pub open spec fn busiest(rq: Seq<RqView>) -> int
    decreases rq.len(),
{
    if rq.len() <= 1 {
        0
    } else {
        let m = busiest(rq.drop_last());
        if rq.last().load >= rq[m].load {
            rq.len() - 1
        } else {
            m
        }
    }
}

/// Whether a task should still be moved from the CPU `src` to the CPU `target`.
pub open spec fn unbalanced(rq: Seq<RqView>, src: int, target: int) -> bool {
    &&& 0 <= src < rq.len()
    &&& 0 <= target < rq.len()
    &&& src != target
    &&& rq[src].load > rq[target].load
    &&& rq[src].num > 1
}

/// The scheduler and the tasks after tasks were moved from the CPU `src` to the CPU `target`, one
/// at a time, until the load of the one is not above that of the other, only one task is left, or
/// none that may run on the target.
pub open spec fn moved(
    sched: CfsView,
    tasks: Seq<TaskView>,
    src: int,
    target: int,
    now: u64,
) -> (CfsView, Seq<TaskView>)
    decreases sched.rq[src].real_time.len() + sched.rq[src].normal.len(),
{
    proof {
        lemma_popped_shrinks(sched.rq[src], tasks, sched.rq[target].cpu, now);
    }
    let (sched1, tasks1, r) = popped_from(sched, tasks, src, sched.rq[target].cpu, now);
    if unbalanced(sched.rq, src, target) {
        match r {
            None => (sched1, tasks1),
            Some(t) => {
                let (sched2, tasks2) = pushed_to(sched1, tasks1, target, t, now);
                moved(sched2, tasks2, src, target, now)
            },
        }
    } else {
        (sched, tasks)
    }
}

// Validity.

/// A task that waits in some run queue is marked as being in a queue.
proof fn lemma_waits_linked(rq: RqView, tasks: Seq<TaskView>, t: TaskId)
    requires
        rq_wf(rq, tasks),
        waits(rq, t),
    ensures
        t < tasks.len(),
        tasks[t as int].linked,
{
    if rq.normal.contains(t) {
        let i = choose|i: int| 0 <= i < rq.normal.len() && rq.normal[i] == t;
        assert(normal_entry(tasks, rq.normal[i]));
    } else {
        let i = choose|i: int| 0 <= i < rq.real_time.len() && rq.real_time[i] == t;
        assert(real_time_entry(tasks, rq.real_time[i]));
    }
}

/// The scheduler stays valid when a task that is in no queue changes and stays in no queue.
proof fn lemma_change_unqueued(sched: CfsView, tasks: Seq<TaskView>, t: TaskId, task: TaskView)
    requires
        cfs_wf(sched, tasks),
        t < tasks.len(),
        !tasks[t as int].linked,
        tasks_wf(tasks.update(t as int, task)),
    ensures
        cfs_wf(sched, tasks.update(t as int, task)),
{
    assert forall|c: int| 0 <= c < sched.rq.len() implies rq_wf(
        #[trigger] sched.rq[c],
        tasks.update(t as int, task),
    ) by {
        lemma_unqueued_change(sched.rq[c], tasks, t, task);
    }
}

/// The tasks that wait after a task was put into a queue: those that waited before, and it.
proof fn lemma_pushed_waits(rq: RqView, tasks: Seq<TaskView>, t: TaskId, now: u64)
    requires
        rq_wf(rq, tasks),
        tasks_wf(tasks),
        can_push(tasks, t),
    ensures
        forall|u: TaskId|
            #[trigger] waits(pushed(rq, tasks, t, now).0, u) ==> waits(rq, u) || u == t,
{
    let rq2 = pushed(rq, tasks, t, now).0;
    assert forall|u: TaskId| #[trigger] waits(rq2, u) implies waits(rq, u) || u == t by {
        if rq2.real_time.contains(u) && u != t {
            let i = choose|i: int| 0 <= i < rq2.real_time.len() && rq2.real_time[i] == u;
            if i < rq.real_time.len() {
                assert(rq.real_time[i] == u);
            }
        }
        if rq2.normal.contains(u) && u != t {
            let i = choose|i: int| 0 <= i < rq2.normal.len() && rq2.normal[i] == u;
            lemma_pushed_wf(rq, tasks, t, now);
            if !tasks[t as int].priority.real_time() {
                lemma_insert_contains(rq, tasks, t, now, u);
            }
        }
    }
}

proof fn lemma_insert_contains(rq: RqView, tasks: Seq<TaskView>, t: TaskId, now: u64, u: TaskId)
    requires
        rq_wf(rq, tasks),
        tasks_wf(tasks),
        can_push(tasks, t),
        !tasks[t as int].priority.real_time(),
        u != t,
        pushed(rq, tasks, t, now).0.normal.contains(u),
    ensures
        rq.normal.contains(u),
{
    let v = entering_vruntime(tasks, t, now);
    let p = insert_position(rq.normal, tasks, v);
    lemma_insert_position(rq.normal, tasks, v);
    let r = rq.normal.insert(p, t);
    let i = choose|i: int| 0 <= i < r.len() && r[i] == u;
    if i < p {
        assert(rq.normal[i] == u);
    } else {
        assert(rq.normal[i - 1] == u);
    }
}

proof fn lemma_pushed_to_wf(sched: CfsView, tasks: Seq<TaskView>, c: int, t: TaskId, now: u64)
    requires
        cfs_wf(sched, tasks),
        0 <= c < sched.rq.len(),
        can_push(tasks, t),
    ensures
        cfs_wf(
            pushed_to(sched, tasks, c, t, now).0,
            pushed_to(sched, tasks, c, t, now).1,
        ),
{
    let (sched2, tasks2) = pushed_to(sched, tasks, c, t, now);
    lemma_pushed_wf(sched.rq[c], tasks, t, now);
    lemma_pushed_waits(sched.rq[c], tasks, t, now);
    assert(tasks2 =~= tasks.update(t as int, tasks2[t as int]));
    assert forall|d: int| 0 <= d < sched2.rq.len() implies rq_wf(
        #[trigger] sched2.rq[d],
        tasks2,
    ) by {
        if d != c {
            lemma_unqueued_change(sched.rq[d], tasks, t, tasks2[t as int]);
        }
    }
    assert forall|a: int, b: int, u: TaskId|
        #![trigger waits(sched2.rq[a], u), waits(sched2.rq[b], u)]
        0 <= a < sched2.rq.len() && 0 <= b < sched2.rq.len() && waits(sched2.rq[a], u) && waits(
            sched2.rq[b],
            u,
        ) implies a == b by {
        if a != c && waits(sched.rq[a], u) {
            lemma_waits_linked(sched.rq[a], tasks, u);
        }
        if b != c && waits(sched.rq[b], u) {
            lemma_waits_linked(sched.rq[b], tasks, u);
        }
        if u != t {
            assert(waits(sched.rq[a], u));
            assert(waits(sched.rq[b], u));
        }
    }
    assert forall|d: int| 0 <= d < sched2.rq.len() implies (#[trigger] sched2.rq[d]).cpu == d by {
        assert(sched.rq[d].cpu == d);
    }
}

proof fn lemma_popped_from_wf(
    sched: CfsView,
    tasks: Seq<TaskView>,
    c: int,
    target: u32,
    now: u64,
)
    requires
        cfs_wf(sched, tasks),
        0 <= c < sched.rq.len(),
    ensures
        cfs_wf(
            popped_from(sched, tasks, c, target, now).0,
            popped_from(sched, tasks, c, target, now).1,
        ),
{
    let (sched2, tasks2, r) = popped_from(sched, tasks, c, target, now);
    lemma_popped_wf(sched.rq[c], tasks, target, now);
    lemma_popped_frame(sched.rq[c], tasks, target, now);
    assert forall|d: int| 0 <= d < sched2.rq.len() implies rq_wf(
        #[trigger] sched2.rq[d],
        tasks2,
    ) by {
        if d != c {
            assert forall|t: TaskId|
                t < tasks.len() && #[trigger] waits(sched.rq[d], t) implies tasks2[t as int]
                == tasks[t as int] by {
                assert(!waits(sched.rq[c], t));
            }
            lemma_queue_frame(sched.rq[d], tasks, tasks2);
        }
    }
    assert forall|a: int, b: int, u: TaskId|
        #![trigger waits(sched2.rq[a], u), waits(sched2.rq[b], u)]
        0 <= a < sched2.rq.len() && 0 <= b < sched2.rq.len() && waits(sched2.rq[a], u) && waits(
            sched2.rq[b],
            u,
        ) implies a == b by {
        assert(waits(sched.rq[a], u));
        assert(waits(sched.rq[b], u));
    }
    assert forall|d: int| 0 <= d < sched2.rq.len() implies (#[trigger] sched2.rq[d]).cpu == d by {
        assert(sched.rq[d].cpu == d);
    }
}

proof fn lemma_busiest(rq: Seq<RqView>)
    requires
        rq.len() > 0,
    ensures
        0 <= busiest(rq) < rq.len(),
        forall|c: int| 0 <= c < rq.len() ==> (#[trigger] rq[c]).load <= rq[busiest(rq)].load,
        forall|c: int| busiest(rq) < c < rq.len() ==> (#[trigger] rq[c]).load < rq[busiest(rq)].load,
    decreases rq.len(),
{
    if rq.len() > 1 {
        let p = rq.drop_last();
        lemma_busiest(p);
        assert forall|c: int| 0 <= c < rq.len() implies (#[trigger] rq[c]).load <= rq[busiest(
            rq,
        )].load by {
            if c < p.len() {
                assert(p[c] == rq[c]);
            }
        }
        assert forall|c: int| busiest(rq) < c < rq.len() implies (#[trigger] rq[c]).load
            < rq[busiest(rq)].load by {
            if c < p.len() {
                assert(p[c] == rq[c]);
            }
        }
    }
}

impl CompletelyFairScheduler {
    /// A scheduler with an empty run queue for each of `num_cpus` CPUs, whose clocks have the given
    /// ratio of nanoseconds to cycles.
    pub fn new(num_cpus: u32, factors: (u64, u64)) -> (sched: Self)
        requires
            num_cpus > 0,
        ensures
            sched@.rq == Seq::new(
                num_cpus as nat,
                |c: int|
                    RqView {
                        cpu: c as u32,
                        real_time: Seq::empty(),
                        normal: Seq::empty(),
                        load: 0,
                        num: 0,
                    },
            ),
            sched@.pace == Seq::new(num_cpus as nat, |c: int| 0u64),
            sched@.params == (PeriodParams { factors, num_cpus }),
            forall|tasks: Seq<TaskView>| tasks_wf(tasks) ==> #[trigger] cfs_wf(sched@, tasks),
    {
        let mut rq: Vec<RunQueue> = Vec::new();
        let mut pace: Vec<u64> = Vec::new();
        for c in 0..num_cpus
            invariant
                rq.len() == c,
                pace.len() == c,
                forall|i: int| 0 <= i < c ==> #[trigger] pace[i] == 0,
                forall|i: int|
                    0 <= i < c ==> (#[trigger] rq[i])@ == (RqView {
                        cpu: i as u32,
                        real_time: Seq::empty(),
                        normal: Seq::empty(),
                        load: 0,
                        num: 0,
                    }),
                forall|i: int, tasks: Seq<TaskView>|
                    0 <= i < c ==> #[trigger] rq_wf(rq[i]@, tasks),
        {
            rq.push(RunQueue::new(c));
            pace.push(0);
        }
        let sched = CompletelyFairScheduler { rq, pace, params: PeriodParams { factors, num_cpus } };
        proof {
            assert(sched@.rq =~= Seq::new(
                num_cpus as nat,
                |c: int|
                    RqView {
                        cpu: c as u32,
                        real_time: Seq::empty(),
                        normal: Seq::empty(),
                        load: 0,
                        num: 0,
                    },
            ));
            assert(sched@.pace =~= Seq::new(num_cpus as nat, |c: int| 0u64));
            assert forall|tasks: Seq<TaskView>| tasks_wf(tasks) implies #[trigger] cfs_wf(
                sched@,
                tasks,
            ) by {
                assert forall|c: int| 0 <= c < sched@.rq.len() implies rq_wf(
                    #[trigger] sched@.rq[c],
                    tasks,
                ) by {
                    assert(rq_wf(sched.rq[c]@, tasks));
                }
            }
        }
        sched
    }

    /// The run queue of a CPU, open to change.
    fn rq_mut(&mut self, c: usize) -> (rq: &mut RunQueue)
        requires
            c < old(self)@.rq.len(),
        ensures
            rq@ == old(self)@.rq[c as int],
            final(self)@.rq == old(self)@.rq.update(c as int, final(rq)@),
            final(self)@.pace == old(self)@.pace,
            final(self)@.params == old(self)@.params,
    {
        &mut self.rq[c]
    }

    /// The run queue of the CPU with the number `cpu`.
    fn cur_rq(&self, cpu: u32) -> (rq: &RunQueue)
        requires
            cpu < self@.rq.len(),
        ensures
            rq@ == self@.rq[cpu as int],
    {
        &self.rq[cpu as usize]
    }

    /// Puts a task into the run queue of this CPU if it may run here, else of the first that it
    /// may run on.
    fn push(&mut self, tasks: &mut TaskTable, task: TaskId, cpu: u32, now: u64)
        requires
            cfs_wf(old(self)@, old(tasks)@),
            can_push(old(tasks)@, task),
            home(old(tasks)@[task as int], cpu) < old(tasks)@[task as int].affinity.len(),
            home(old(tasks)@[task as int], cpu) < old(self)@.rq.len(),
            old(tasks)@[task as int].affinity.len() <= usize::MAX,
        ensures
            (final(self)@, final(tasks)@) == pushed_to(
                old(self)@,
                old(tasks)@,
                home(old(tasks)@[task as int], cpu),
                task,
                now,
            ),
            cfs_wf(final(self)@, final(tasks)@),
    {
        let ghost task0 = tasks@[task as int];
        let home: usize = if tasks.get(task).cpu_affinity.contains(cpu) {
            cpu as usize
        } else {
            let allowed = tasks.get(task).cpu_affinity.iter();
            proof {
                lemma_first_listed(allowed@, task0.affinity);
            }
            allowed[0]
        };
        proof {
            lemma_first_cpu(task0.affinity);
            lemma_pushed_to_wf(self@, tasks@, home as int, task, now);
        }
        self.rq_mut(home).push(tasks, task, now);
    }

    /// Takes a task out of the run queue of the CPU `c` that may run on the CPU `target`.
    fn take_from(&mut self, tasks: &mut TaskTable, c: usize, target: u32, now: u64) -> (r: Option<
        TaskId,
    >)
        requires
            cfs_wf(old(self)@, old(tasks)@),
            c < old(self)@.rq.len(),
        ensures
            (final(self)@, final(tasks)@, r) == popped_from(
                old(self)@,
                old(tasks)@,
                c as int,
                target,
                now,
            ),
            cfs_wf(final(self)@, final(tasks)@),
            r matches Some(t) ==> t < final(tasks)@.len() && !final(tasks)@[t as int].linked
                && can_push(final(tasks)@, t),
    {
        proof {
            lemma_popped_from_wf(self@, tasks@, c as int, target, now);
            lemma_popped_wf(self@.rq[c as int], tasks@, target, now);
        }
        self.rq_mut(c).pop(tasks, target, now)
    }

    /// The CPU with the largest load, the last one where several have the same.
    fn find_busiest(&self) -> (c: usize)
        requires
            self@.rq.len() > 0,
        ensures
            c == busiest(self@.rq),
    {
        let mut m: usize = 0;
        let mut i: usize = 1;
        let ghost rqs = self@.rq;
        while i < self.rq.len()
            invariant
                rqs == self@.rq,
                1 <= i <= rqs.len(),
                m < i,
                m == busiest(rqs.take(i as int)),
            decreases rqs.len() - i,
        {
            assert(rqs.take(i + 1).drop_last() =~= rqs.take(i as int));
            assert(rqs.take(i + 1).last() == rqs[i as int]);
            if self.rq[i].load() >= self.rq[m].load() {
                m = i;
            }
            i = i + 1;
        }
        assert(rqs.take(i as int) =~= rqs);
        m
    }
}

// The operations of a scheduler.

proof fn lemma_runnable_kept(
    sched: CfsView,
    tasks: Seq<TaskView>,
    src: int,
    target: int,
    now: u64,
)
    requires
        cfs_wf(sched, tasks),
        0 <= src < sched.rq.len(),
        0 <= target < sched.rq.len(),
        src != target,
        real_time_runnable(sched.rq[src], tasks),
    ensures
        ({
            let (sched1, tasks1, r) = popped_from(
                sched,
                tasks,
                src,
                sched.rq[target].cpu,
                now,
            );
            r matches Some(t) ==> {
                &&& tasks1[t as int].status == TaskStatus::Runnable
                &&& real_time_runnable(
                    sched1.rq[src],
                    pushed_to(sched1, tasks1, target, t, now).1,
                )
            }
        }),
{
    let rq = sched.rq[src];
    let (sched1, tasks1, r) = popped_from(sched, tasks, src, sched.rq[target].cpu, now);
    lemma_popped_wf(rq, tasks, sched.rq[target].cpu, now);
    if let Some(t) = r {
        let rq1 = sched1.rq[src];
        let tasks2 = pushed_to(sched1, tasks1, target, t, now).1;
        if rq.real_time.len() > 0 {
            assert(rq.real_time[0] == t);
            assert(real_time_entry(tasks, rq.real_time[0]));
            assert forall|i: int| 0 <= i < rq1.real_time.len() implies tasks2[
            #[trigger] rq1.real_time[i] as int].status == TaskStatus::Runnable by {
                assert(rq1.real_time[i] == rq.real_time[i + 1]);
                assert(real_time_entry(tasks, rq.real_time[i + 1]));
                assert(rq.real_time[0] != rq.real_time[i + 1]);
            }
        } else {
            assert(!rq.real_time.contains(t));
            assert(rq1.real_time.len() == 0);
        }
        assert(tasks1[t as int].status == TaskStatus::Runnable);
        assert(real_time_runnable(rq1, tasks2));
    }
}

impl Scheduler for CompletelyFairScheduler {
    open spec fn wf(sched: CfsView, tasks: Seq<TaskView>) -> bool {
        cfs_wf(sched, tasks)
    }

    open spec fn can_enqueue(
        sched: CfsView,
        tasks: Seq<TaskView>,
        env: SchedEnv,
        task: TaskId,
    ) -> bool {
        &&& can_push(tasks, task)
        &&& tasks[task as int].affinity.len() <= usize::MAX
        &&& home(tasks[task as int], env.cpu) < tasks[task as int].affinity.len()
        &&& home(tasks[task as int], env.cpu) < sched.rq.len()
    }

    open spec fn enqueued(
        sched: CfsView,
        tasks: Seq<TaskView>,
        env: SchedEnv,
        task: TaskId,
    ) -> (CfsView, Seq<TaskView>) {
        pushed_to(sched, tasks, home(tasks[task as int], env.cpu), task, env.tsc)
    }

    fn enqueue(&mut self, tasks: &mut TaskTable, env: &SchedEnv, task: TaskId) {
        self.push(tasks, task, env.cpu, env.tsc);
    }

    open spec fn can_pick(sched: CfsView, env: SchedEnv) -> bool {
        env.cpu < sched.rq.len() && !env.irq_enabled
    }

    open spec fn picked(sched: CfsView, tasks: Seq<TaskView>, env: SchedEnv) -> (
        CfsView,
        Seq<TaskView>,
        Option<TaskId>,
    ) {
        popped_from(sched, tasks, env.cpu as int, env.cpu, env.tsc)
    }

    fn pick_next_task(&mut self, tasks: &mut TaskTable, env: &SchedEnv) -> (r: Option<TaskId>) {
        self.take_from(tasks, env.cpu as usize, env.cpu, env.tsc)
    }

    open spec fn cleared(tasks: Seq<TaskView>, env: SchedEnv, task: TaskId) -> Seq<TaskView> {
        tasks.update(task as int, TaskView { entity: None, ..tasks[task as int] })
    }

    fn clear(&mut self, tasks: &mut TaskTable, env: &SchedEnv, task: TaskId) {
        let ghost tasks0 = tasks@;
        proof {
            Self::clear_keeps(self@, tasks0, *env, task);
        }
        let _ = tasks.get_mut(task).sched_entity.remove();
        assert(tasks@ =~= Self::cleared(tasks0, *env, task));
    }

    open spec fn can_ask(sched: CfsView, tasks: Seq<TaskView>, env: SchedEnv) -> bool {
        &&& env.cpu < sched.rq.len()
        &&& env.current is Some
        &&& can_tick(
            sched.rq[env.cpu as int],
            tasks,
            env.current->Some_0,
            env.tsc,
            sched.params,
        )
    }

    open spec fn asked(sched: CfsView, tasks: Seq<TaskView>, env: SchedEnv) -> (
        Seq<TaskView>,
        bool,
    ) {
        asked_to_preempt(sched.rq[env.cpu as int], tasks, env.current, env.tsc, sched.params)
    }

    fn should_preempt_cur_task(&mut self, tasks: &mut TaskTable, env: &SchedEnv) -> (r: bool) {
        let ghost tasks0 = tasks@;
        let params = self.params;
        let r = self.cur_rq(env.cpu).should_preempt(tasks, env.current, env.tsc, &params);
        proof {
            if tasks@ != tasks0 {
                let c = env.current->Some_0;
                lemma_change_unqueued(self@, tasks0, c, tasks@[c as int]);
            }
        }
        r
    }

    open spec fn can_tick(sched: CfsView, tasks: Seq<TaskView>, env: SchedEnv) -> bool {
        &&& Self::can_ask(sched, tasks, env)
        &&& sched.pace[env.cpu as int] + PACE_TICKS <= u64::MAX
    }

    open spec fn ticked(sched: CfsView, tasks: Seq<TaskView>, env: SchedEnv) -> (
        CfsView,
        Seq<TaskView>,
    ) {
        let cpu = env.cpu as int;
        (
            CfsView {
                pace: if env.tick >= sched.pace[cpu] + PACE_TICKS {
                    sched.pace.update(cpu, env.tick)
                } else {
                    sched.pace
                },
                ..sched
            },
            after_tick(sched.rq[cpu], tasks, env.current, false, env.tsc, sched.params),
        )
    }

    fn tick_cur_task(&mut self, tasks: &mut TaskTable, env: &SchedEnv) {
        let ghost tasks0 = tasks@;
        let ghost sched0 = self@;
        let params = self.params;
        self.cur_rq(env.cpu).tick(tasks, env.current, false, env.tsc, &params);
        let c = env.cpu as usize;
        if env.tick >= self.pace[c] + PACE_TICKS {
            self.pace.set(c, env.tick);
        }
        proof {
            assert(self@.rq =~= sched0.rq);
            if tasks@ != tasks0 {
                let c = env.current->Some_0;
                lemma_change_unqueued(sched0, tasks0, c, tasks@[c as int]);
            }
        }
    }

    open spec fn can_yield(sched: CfsView, tasks: Seq<TaskView>, env: SchedEnv) -> bool {
        &&& env.cpu < sched.rq.len()
        &&& env.current matches Some(c) && c < tasks.len() && !tasks[c as int].linked
    }

    open spec fn yielding(sched: CfsView, tasks: Seq<TaskView>, env: SchedEnv) -> Seq<TaskView> {
        after_tick(sched.rq[env.cpu as int], tasks, env.current, true, env.tsc, sched.params)
    }

    fn prepare_to_yield_cur_task(&mut self, tasks: &mut TaskTable, env: &SchedEnv) {
        let ghost tasks0 = tasks@;
        let params = self.params;
        self.cur_rq(env.cpu).tick(tasks, env.current, true, env.tsc, &params);
        proof {
            if tasks@ != tasks0 {
                let c = env.current->Some_0;
                lemma_change_unqueued(self@, tasks0, c, tasks@[c as int]);
            }
        }
    }

    open spec fn can_yield_to(tasks: Seq<TaskView>, task: TaskId) -> bool {
        &&& task < tasks.len()
        &&& tasks[task as int].entity is None ==> !tasks[task as int].priority.real_time()
    }

    open spec fn yielding_to(tasks: Seq<TaskView>, env: SchedEnv, task: TaskId) -> Seq<TaskView> {
        if tasks[task as int].entity is Some {
            tasks
        } else {
            tasks.update(
                task as int,
                TaskView {
                    entity: Some(fresh_vruntime(task, tasks[task as int].priority, env.tsc)),
                    ..tasks[task as int]
                },
            )
        }
    }

    fn prepare_to_yield_to(&mut self, tasks: &mut TaskTable, env: &SchedEnv, task: TaskId) {
        let ghost tasks0 = tasks@;
        let priority = tasks.get(task).priority();
        let _ = tasks.get_mut(task).sched_entity.entry_or_new(task, priority, env.tsc);
        proof {
            let after = Self::yielding_to(tasks0, *env, task);
            assert(tasks@ =~= after);
            if tasks0[task as int].entity is None {
                lemma_tasks_change(tasks0, task, after[task as int]);
                assert forall|c: int| 0 <= c < self@.rq.len() implies rq_wf(
                    #[trigger] self@.rq[c],
                    after,
                ) by {
                    let rq = self@.rq[c];
                    assert(!waits(rq, task)) by {
                        if rq.normal.contains(task) {
                            let i = choose|i: int|
                                0 <= i < rq.normal.len() && rq.normal[i] == task;
                            assert(normal_entry(tasks0, rq.normal[i]));
                        }
                        if rq.real_time.contains(task) {
                            let i = choose|i: int|
                                0 <= i < rq.real_time.len() && rq.real_time[i] == task;
                            assert(real_time_entry(tasks0, rq.real_time[i]));
                        }
                    }
                    lemma_queue_frame(rq, tasks0, after);
                }
            }
        }
    }

    open spec fn can_balance(sched: CfsView, tasks: Seq<TaskView>, env: SchedEnv) -> bool {
        &&& env.cpu < sched.rq.len()
        &&& unbalanced(sched.rq, busiest(sched.rq), env.cpu as int) ==> real_time_runnable(
            sched.rq[busiest(sched.rq)],
            tasks,
        )
    }

    open spec fn balanced(sched: CfsView, tasks: Seq<TaskView>, env: SchedEnv) -> (
        CfsView,
        Seq<TaskView>,
    ) {
        moved(sched, tasks, busiest(sched.rq), env.cpu as int, env.tsc)
    }

    fn load_balance(&mut self, tasks: &mut TaskTable, env: &SchedEnv) {
        let src = self.find_busiest();
        let target = env.cpu as usize;
        let ghost result = Self::balanced(self@, tasks@, *env);
        proof {
            lemma_busiest(self@.rq);
        }
        if src != target {
            while self.rq[src].load() > self.rq[target].load() && self.rq[src].num() > 1
                invariant_except_break
                    unbalanced(self@.rq, src as int, target as int) ==> real_time_runnable(
                        self@.rq[src as int],
                        tasks@,
                    ),
                    result == moved(self@, tasks@, src as int, target as int, env.tsc),
                invariant
                    cfs_wf(self@, tasks@),
                    self@.rq.len() == self.rq.len(),
                    src < self@.rq.len(),
                    target < self@.rq.len(),
                    src != target,
                    target == env.cpu,
                ensures
                    (self@, tasks@) == result,
                    cfs_wf(self@, tasks@),
                decreases
                    self@.rq[src as int].real_time.len() + self@.rq[src as int].normal.len(),
            {
                proof {
                    lemma_popped_shrinks(
                        self@.rq[src as int],
                        tasks@,
                        self@.rq[target as int].cpu,
                        env.tsc,
                    );
                    lemma_runnable_kept(
                        self@,
                        tasks@,
                        src as int,
                        target as int,
                        env.tsc,
                    );
                }
                let task = match self.take_from(tasks, src, env.cpu, env.tsc) {
                    Some(task) => task,
                    None => {
                        break ;
                    },
                };
                assert(tasks@[task as int].status == TaskStatus::Runnable);
                proof {
                    lemma_pushed_to_wf(self@, tasks@, target as int, task, env.tsc);
                }
                let ghost sched1 = self@;
                self.rq_mut(target).push(tasks, task, env.tsc);
                assert(self@.rq[src as int] == sched1.rq[src as int]);
            }
        }
    }

    type Report = CpuReport;

    open spec fn can_traverse(sched: CfsView, tasks: Seq<TaskView>, env: SchedEnv) -> bool {
        &&& env.cpu < sched.rq.len()
        &&& env.current matches Some(c) ==> {
            let rq = sched.rq[env.cpu as int];
            &&& sched.params.factors.1 > 0
            &&& can_report(sched.params, tasks, c)
            &&& forall|i: int|
                0 <= i < rq.normal.len() ==> can_report(
                    sched.params,
                    tasks,
                    #[trigger] rq.normal[i],
                )
            &&& rq.load + vr(tasks, c).weight <= u64::MAX
            &&& sched.params.fits(rq.num)
            &&& sched.params.period(rq.num) * sched.params.factors.0 <= u64::MAX
        }
    }

    open spec fn traversed(
        sched: CfsView,
        tasks: Seq<TaskView>,
        env: SchedEnv,
        report: Option<CpuReport>,
    ) -> bool {
        match env.current {
            None => report is None,
            Some(c) => {
                let rq = sched.rq[env.cpu as int];
                &&& report matches Some(report)
                &&& report.cpu == env.cpu
                &&& report.cur_tick == env.tick
                &&& report.cur_task == task_report(sched.params, tasks, c)
                &&& report.load == rq.load + vr(tasks, c).weight
                &&& report.num == rq.num
                &&& report.period_ns == to_ns(sched.params, sched.params.period(rq.num))
                &&& report.ready@ == rq.normal.map_values(
                    |t: TaskId| task_report(sched.params, tasks, t),
                )
            },
        }
    }

    fn traverse(&self, tasks: &TaskTable, env: &SchedEnv) -> (r: Option<CpuReport>) {
        let c = match env.current {
            None => {
                return None;
            },
            Some(c) => c,
        };
        let rq = self.cur_rq(env.cpu);
        let cur_task = self.report(tasks, c);
        let waiting = rq.normal_tasks();
        let mut ready: Vec<TaskReport> = Vec::new();
        for i in 0..waiting.len()
            invariant
                self@.params.factors.1 > 0,
                waiting@ == rq@.normal,
                forall|k: int|
                    0 <= k < rq@.normal.len() ==> can_report(
                        self@.params,
                        tasks@,
                        #[trigger] rq@.normal[k],
                    ),
                ready.len() == i,
                forall|k: int|
                    0 <= k < i ==> #[trigger] ready[k] == task_report(
                        self@.params,
                        tasks@,
                        rq@.normal[k],
                    ),
        {
            assert(waiting@[i as int] == rq@.normal[i as int]);
            ready.push(self.report(tasks, waiting[i]));
        }
        let report = CpuReport {
            cpu: env.cpu,
            cur_tick: env.tick,
            cur_task,
            load: rq.load() + cur_task.weight,
            num: rq.num(),
            period_ns: self.ns(rq.period(&self.params)),
            ready,
        };
        assert(report.ready@ =~= rq@.normal.map_values(
            |t: TaskId| task_report(self@.params, tasks@, t),
        ));
        Some(report)
    }

    proof fn yield_marks(sched: CfsView, tasks: Seq<TaskView>, env: SchedEnv) {
    }

    proof fn wf_table(sched: CfsView, tasks: Seq<TaskView>) {
    }

    proof fn ask_keeps(
        sched: CfsView,
        tasks: Seq<TaskView>,
        env: SchedEnv,
        later: SchedEnv,
        task: TaskId,
    ) {
        let tasks2 = Self::asked(sched, tasks, env).0;
        if tasks2 != tasks {
            let c = env.current->Some_0;
            assert(entity_wf(tasks, c as int));
            lemma_tasks_change(tasks, c, tasks2[c as int]);
            lemma_change_unqueued(sched, tasks, c, tasks2[c as int]);
            assert(tasks2 =~= tasks.update(c as int, tasks2[c as int]));
        }
    }

    proof fn pick_keeps(
        sched: CfsView,
        tasks: Seq<TaskView>,
        env: SchedEnv,
        later: SchedEnv,
        task: TaskId,
    ) {
        let rq = sched.rq[env.cpu as int];
        lemma_popped_frame(rq, tasks, env.cpu, env.tsc);
        assert(!waits(rq, task)) by {
            if waits(rq, task) {
                lemma_waits_linked(rq, tasks, task);
            }
        }
    }

    proof fn pick_gives_task(sched: CfsView, tasks: Seq<TaskView>, env: SchedEnv) {
        let rq = sched.rq[env.cpu as int];
        lemma_popped_frame(rq, tasks, env.cpu, env.tsc);
        if let Some(t) = popped(rq, tasks, env.cpu, env.tsc).2 {
            lemma_waits_linked(rq, tasks, t);
        }
    }

    proof fn clear_keeps(sched: CfsView, tasks: Seq<TaskView>, env: SchedEnv, task: TaskId) {
        let after = TaskView { entity: None, ..tasks[task as int] };
        lemma_tasks_change(tasks, task, after);
        lemma_change_unqueued(sched, tasks, task, after);
    }

    proof fn transition_keeps_wf(
        sched: CfsView,
        tasks: Seq<TaskView>,
        task: TaskId,
        status: TaskStatus,
    ) {
        let after = TaskView { status, ..tasks[task as int] };
        assert(entity_wf(tasks, task as int));
        lemma_tasks_change(tasks, task, after);
        lemma_change_unqueued(sched, tasks, task, after);
    }

    proof fn replace_keeps_wf(sched: CfsView, tasks: Seq<TaskView>, t: TaskId, task: TaskView) {
        let after = tasks.update(t as int, task);
        assert forall|u: int| 0 <= u < after.len() implies #[trigger] entity_wf(after, u) by {
            assert(entity_wf(tasks, u));
        }
        lemma_change_unqueued(sched, tasks, t, task);
    }

    proof fn insert_keeps_wf(sched: CfsView, tasks: Seq<TaskView>, task: TaskView) {
        let after = tasks.push(task);
        assert forall|t: int| 0 <= t < after.len() implies #[trigger] entity_wf(after, t) by {
            if t < tasks.len() {
                assert(entity_wf(tasks, t));
            }
        }
        assert forall|c: int| 0 <= c < sched.rq.len() implies rq_wf(
            #[trigger] sched.rq[c],
            after,
        ) by {
            lemma_queue_frame(sched.rq[c], tasks, after);
        }
    }
}

// Reporting.

/// What is reported of one task.
#[derive(Clone, Copy, Debug, PartialEq, Eq, Structural)]
pub struct TaskReport {
    pub task: TaskId,
    pub weight: u64,
    /// The virtual run time, in nanoseconds.
    pub vruntime_ns: u64,
}

/// What is reported of one CPU.
#[derive(Debug)]
pub struct CpuReport {
    pub cpu: u32,
    pub cur_tick: u64,
    pub cur_task: TaskReport,
    /// The weight of the waiting normal tasks and the running one.
    pub load: u64,
    pub num: u64,
    /// The scheduling period, in nanoseconds.
    pub period_ns: u64,
    /// The waiting normal tasks, in the order in which they will run.
    pub ready: Vec<TaskReport>,
}

/// A number of clock cycles, in nanoseconds.
pub open spec fn to_ns(params: PeriodParams, cycles: int) -> int {
    (cycles * params.factors.0) / (params.factors.1 as int)
}

/// Whether a task has a run time that can be reported without overflow.
pub open spec fn can_report(params: PeriodParams, tasks: Seq<TaskView>, t: TaskId) -> bool {
    &&& t < tasks.len()
    &&& tasks[t as int].entity is Some
    &&& vr(tasks, t).vruntime * params.factors.0 <= u64::MAX
}

/// What is reported of a task.
pub open spec fn task_report(params: PeriodParams, tasks: Seq<TaskView>, t: TaskId) -> TaskReport {
    TaskReport {
        task: t,
        weight: vr(tasks, t).weight,
        vruntime_ns: to_ns(params, vr(tasks, t).vruntime as int) as u64,
    }
}

impl CompletelyFairScheduler {
    /// A number of clock cycles, in nanoseconds.
    fn ns(&self, cycles: u64) -> (r: u64)
        requires
            self@.params.factors.1 > 0,
            cycles * self@.params.factors.0 <= u64::MAX,
        ensures
            r == to_ns(self@.params, cycles as int),
    {
        cycles * self.params.factors.0 / self.params.factors.1
    }

    fn report(&self, tasks: &TaskTable, t: TaskId) -> (r: TaskReport)
        requires
            self@.params.factors.1 > 0,
            can_report(self@.params, tasks@, t),
        ensures
            r == task_report(self@.params, tasks@, t),
    {
        let v: VRuntime = *tasks.get(t).sched_entity.get().unwrap();
        TaskReport { task: t, weight: v.weight, vruntime_ns: self.ns(v.vruntime) }
    }

    /// Whether the run time of a task can be reported without overflow.
    fn is_reportable(&self, tasks: &TaskTable, t: TaskId) -> (r: bool)
        requires
            t < tasks@.len(),
        ensures
            r == can_report(self@.params, tasks@, t),
    {
        match tasks.get(t).sched_entity.get() {
            None => false,
            Some(v) => v.vruntime.checked_mul(self.params.factors.0).is_some(),
        }
    }

    /// Whether the scheduler can report on a CPU.
    pub fn can_be_traversed(&self, tasks: &TaskTable, env: &SchedEnv) -> (r: bool)
        requires
            cfs_wf(self@, tasks@),
        ensures
            r == Self::can_traverse(self@, tasks@, *env),
    {
        if env.cpu as usize >= self.rq.len() {
            return false;
        }
        let c = match env.current {
            None => {
                return true;
            },
            Some(c) => c,
        };
        let rq = self.cur_rq(env.cpu);
        let waiting = rq.normal_tasks();
        if self.params.factors.1 == 0 || c >= tasks.tasks.len() || !self.is_reportable(tasks, c) {
            return false;
        }
        let mut i: usize = 0;
        while i < waiting.len()
            invariant
                i <= waiting.len(),
                waiting@ == rq@.normal,
                rq@ == self@.rq[env.cpu as int],
                env.current == Some(c),
                rq_wf(rq@, tasks@),
                forall|k: int|
                    0 <= k < i ==> can_report(self@.params, tasks@, #[trigger] rq@.normal[k]),
            ensures
                i == waiting.len(),
            decreases waiting.len() - i,
        {
            assert(normal_entry(tasks@, rq@.normal[i as int]));
            if !self.is_reportable(tasks, waiting[i]) {
                assert(!can_report(self@.params, tasks@, rq@.normal[i as int]));
                return false;
            }
            i += 1;
        }
        match tasks.get(c).sched_entity.get() {
            None => false,
            Some(v) => rq.load() <= u64::MAX - v.weight && period_fits(&self.params, rq.num())
                && rq.period(&self.params).checked_mul(self.params.factors.0).is_some(),
        }
    }

    /// Whether a CPU can ask for its share of the waiting tasks.
    pub fn can_be_balanced(&self, tasks: &TaskTable, env: &SchedEnv) -> (r: bool)
        requires
            cfs_wf(self@, tasks@),
        ensures
            r == Self::can_balance(self@, tasks@, *env),
    {
        if env.cpu as usize >= self.rq.len() {
            return false;
        }
        let src = self.find_busiest();
        proof {
            lemma_busiest(self@.rq);
        }
        let target = env.cpu as usize;
        if src == target || self.rq[src].load() <= self.rq[target].load() || self.rq[src].num()
            <= 1 {
            return true;
        }
        self.rq[src].real_time_is_runnable(tasks)
    }

    /// Whether the scheduler can be asked about the running task of a CPU.
    pub fn can_be_asked(&self, tasks: &TaskTable, env: &SchedEnv) -> (r: bool)
        ensures
            r == Self::can_ask(self@, tasks@, *env),
    {
        if env.cpu as usize >= self.rq.len() {
            return false;
        }
        match env.current {
            None => false,
            Some(c) => self.cur_rq(env.cpu).tick_is_safe(tasks, c, env.tsc, &self.params),
        }
    }
}

// Laws.

/// A task that may run somewhere is put into the queue of a CPU that it may run on, and of this one
/// if it may run here.
pub proof fn law_home_is_allowed(task: TaskView, cpu: u32, c: int)
    requires
        in_set(task.affinity, c),
    ensures
        in_set(task.affinity, home(task, cpu)),
        in_set(task.affinity, cpu as int) ==> home(task, cpu) == cpu,
{
    lemma_first_cpu(task.affinity);
}

/// A normal task that a CPU picks may run on that CPU, and waited for it.
pub proof fn law_pick_is_allowed(sched: CfsView, tasks: Seq<TaskView>, env: SchedEnv)
    requires
        cfs_wf(sched, tasks),
        CompletelyFairScheduler::can_pick(sched, env),
        sched.rq[env.cpu as int].real_time.len() == 0,
    ensures
        CompletelyFairScheduler::picked(sched, tasks, env).2 matches Some(t) ==> {
            &&& in_set(tasks[t as int].affinity, env.cpu as int)
            &&& tasks[t as int].status == TaskStatus::Ready(env.cpu)
        },
{
    let rq = sched.rq[env.cpu as int];
    if popped(rq, tasks, env.cpu, env.tsc).2 is Some {
        law_pop_takes_least(rq, tasks, env.cpu, env.tsc);
    }
}

/// Load balancing leaves the queues of all CPUs but the two that it moves tasks between as they
/// were.
pub proof fn law_balance_leaves_others(
    sched: CfsView,
    tasks: Seq<TaskView>,
    src: int,
    target: int,
    now: u64,
    c: int,
)
    requires
        0 <= c < sched.rq.len(),
        c != src,
        c != target,
    ensures
        moved(sched, tasks, src, target, now).0.rq.len() == sched.rq.len(),
        moved(sched, tasks, src, target, now).0.rq[c] == sched.rq[c],
    decreases sched.rq[src].real_time.len() + sched.rq[src].normal.len(),
{
    if unbalanced(sched.rq, src, target) {
        let (sched1, tasks1, r) = popped_from(sched, tasks, src, sched.rq[target].cpu, now);
        lemma_popped_shrinks(sched.rq[src], tasks, sched.rq[target].cpu, now);
        if let Some(t) = r {
            let (sched2, tasks2) = pushed_to(sched1, tasks1, target, t, now);
            law_balance_leaves_others(sched2, tasks2, src, target, now, c);
        }
    }
}

/// Load balancing ends when the source has no more load than the target, when at most one normal
/// task waits at the source, or when nothing that waits there may run on the target.
pub proof fn law_balance_ends_balanced(
    sched: CfsView,
    tasks: Seq<TaskView>,
    src: int,
    target: int,
    now: u64,
)
    requires
        cfs_wf(sched, tasks),
        0 <= src < sched.rq.len(),
        0 <= target < sched.rq.len(),
        src != target,
    ensures
        ({
            let (sched2, tasks2) = moved(sched, tasks, src, target, now);
            let left = sched2.rq[src];
            ||| left.load <= sched2.rq[target].load
            ||| left.num <= 1
            ||| left.real_time.len() == 0 && forall|i: int|
                0 <= i < left.normal.len() ==> !eligible(
                    tasks2,
                    #[trigger] left.normal[i],
                    src as u32,
                    target as u32,
                )
        }),
    decreases sched.rq[src].real_time.len() + sched.rq[src].normal.len(),
{
    if unbalanced(sched.rq, src, target) {
        let rq = sched.rq[src];
        let to = sched.rq[target].cpu;
        assert(to == target && rq.cpu == src);
        let (sched1, tasks1, r) = popped_from(sched, tasks, src, to, now);
        lemma_popped_shrinks(rq, tasks, to, now);
        lemma_popped_from_wf(sched, tasks, src, to, now);
        lemma_popped_wf(rq, tasks, to, now);
        match r {
            Some(t) => {
                let (sched2, tasks2) = pushed_to(sched1, tasks1, target, t, now);
                lemma_pushed_to_wf(sched1, tasks1, target, t, now);
                law_balance_ends_balanced(sched2, tasks2, src, target, now);
            },
            None => {
                law_pop_none(rq, tasks, to, now);
                lemma_popped_frame(rq, tasks, to, now);
                let left = sched1.rq[src];
                assert forall|i: int| 0 <= i < left.normal.len() implies !eligible(
                    tasks1,
                    #[trigger] left.normal[i],
                    src as u32,
                    target as u32,
                ) by {
                    let u = left.normal[i];
                    assert(left.normal.contains(u));
                    assert(waits(left, u));
                    assert(waits(rq, u));
                    let j = choose|j: int| 0 <= j < rq.normal.len() && rq.normal[j] == u;
                    assert(!eligible(tasks, rq.normal[j], src as u32, target as u32));
                    assert(normal_entry(tasks, rq.normal[j]));
                }
            },
        }
    }
}

/// A runnable task that makes way for another one waits in a queue afterwards: it is not lost.
pub proof fn law_runnable_waits_again(
    sched: CfsView,
    tasks: Seq<TaskView>,
    cpu: Cpu,
    clock: Clock,
    next: TaskId,
    c: TaskId,
)
    requires
        cfs_wf(sched, tasks),
        cpu.processor.current == Some(c),
        can_switch::<CompletelyFairScheduler>(Some(sched), tasks, cpu, clock, next),
        tasks[c as int].status == TaskStatus::Runnable,
    ensures
        switched::<CompletelyFairScheduler>(Some(sched), tasks, cpu, clock, next).0 matches Some(
            sched2,
        ) && waits(sched2.rq[home(tasks[c as int], cpu.id)], c),
{
    let h = home(tasks[c as int], cpu.id);
    lemma_first_cpu(tasks[c as int].affinity);
    law_push_waits(sched.rq[h], tasks, c, clock.tsc, c);
}

/// Load balancing loses no task: one that waits for its turn at the source or the target does so at
/// one of the two afterwards.
pub proof fn law_balance_loses_none(
    sched: CfsView,
    tasks: Seq<TaskView>,
    src: int,
    target: int,
    now: u64,
    u: TaskId,
)
    requires
        cfs_wf(sched, tasks),
        0 <= src < sched.rq.len(),
        0 <= target < sched.rq.len(),
        src != target,
        unbalanced(sched.rq, src, target) ==> real_time_runnable(sched.rq[src], tasks),
        due(sched.rq[src], tasks, u) || due(sched.rq[target], tasks, u),
    ensures
        ({
            let (sched2, tasks2) = moved(sched, tasks, src, target, now);
            due(sched2.rq[src], tasks2, u) || due(sched2.rq[target], tasks2, u)
        }),
    decreases sched.rq[src].real_time.len() + sched.rq[src].normal.len(),
{
    if unbalanced(sched.rq, src, target) {
        let rq = sched.rq[src];
        let to = sched.rq[target].cpu;
        let (sched1, tasks1, r) = popped_from(sched, tasks, src, to, now);
        lemma_popped_shrinks(rq, tasks, to, now);
        lemma_popped_from_wf(sched, tasks, src, to, now);
        lemma_popped_frame(rq, tasks, to, now);
        if due(rq, tasks, u) {
            law_pop_keeps_waiting(rq, tasks, to, now, u);
        } else {
            assert(waits(sched.rq[target], u));
            lemma_waits_linked(sched.rq[target], tasks, u);
            assert(!waits(rq, u));
        }
        if let Some(t) = r {
            lemma_runnable_kept(sched, tasks, src, target, now);
            let (sched2, tasks2) = pushed_to(sched1, tasks1, target, t, now);
            lemma_pushed_to_wf(sched1, tasks1, target, t, now);
            if u == t || due(sched1.rq[target], tasks1, u) {
                law_push_waits(sched1.rq[target], tasks1, t, now, u);
            }
            law_balance_loses_none(sched2, tasks2, src, target, now, u);
        }
    }
}

/// A task that a CPU switches to waits in no queue, and is not the one that ran before: as long as
/// running tasks wait in no queue, none comes to run on a CPU while it waits for one.
pub proof fn law_next_is_unqueued(
    sched: CfsView,
    tasks: Seq<TaskView>,
    cpu: Cpu,
    clock: Clock,
    caller: Location,
)
    requires
        cfs_wf(sched, tasks),
        can_schedule::<CompletelyFairScheduler>(Some(sched), tasks, cpu, clock, caller),
        cpu.processor.current matches Some(c) ==> !tasks[c as int].linked,
    ensures
        ({
            let (_, tasks2, _, switch) = scheduled::<CompletelyFairScheduler>(
                Some(sched),
                tasks,
                cpu,
                clock,
                caller,
            );
            switch matches Some(s) ==> !tasks2[s.to as int].linked && Some(s.to)
                != cpu.processor.current
        }),
{
    let off = cpu.deactivated(caller);
    let env = off.env(clock);
    let (tasks1, way) = makes_way::<CompletelyFairScheduler>(Some(sched), tasks, off, clock);
    if let Some(c) = cpu.processor.current {
        if tasks[c as int].status == TaskStatus::Runnable && !tasks[c as int].need_resched {
            CompletelyFairScheduler::ask_keeps(sched, tasks, env, env, c);
        }
    }
    if way {
        let rq = sched.rq[env.cpu as int];
        lemma_popped_wf(rq, tasks1, env.cpu, env.tsc);
        lemma_popped_frame(rq, tasks1, env.cpu, env.tsc);
        if let Some(t) = popped(rq, tasks1, env.cpu, env.tsc).2 {
            lemma_waits_linked(rq, tasks1, t);
        }
    }
}

/// The weight with which a task counts in the load of a CPU: that of its nice value, and none for a
/// real-time task.
pub open spec fn load_of(task: TaskView) -> int {
    if task.priority.real_time() {
        0
    } else {
        weight_of(task.priority.nice()) as int
    }
}

/// Whether all normal tasks of a queue still wait for its CPU.
pub open spec fn all_ready(rq: RqView, tasks: Seq<TaskView>) -> bool {
    forall|i: int| 0 <= i < rq.normal.len() ==> ready(tasks, #[trigger] rq.normal[i], rq.cpu)
}

/// Balancing moves nothing at all unless the load of the source is above that of the target, more
/// than one normal task waits at the source, and the two are different CPUs.
pub proof fn law_balance_needs_more_load(
    sched: CfsView,
    tasks: Seq<TaskView>,
    src: int,
    target: int,
    now: u64,
)
    requires
        sched.rq[src].load <= sched.rq[target].load || sched.rq[src].num <= 1 || src == target,
    ensures
        moved(sched, tasks, src, target, now) == (sched, tasks),
{
}

/// What moving one task does: it takes its weight from the source and adds it to the target.
proof fn lemma_one_move(sched: CfsView, tasks: Seq<TaskView>, src: int, target: int, now: u64)
    requires
        cfs_wf(sched, tasks),
        0 <= src < sched.rq.len(),
        0 <= target < sched.rq.len(),
        src != target,
        real_time_runnable(sched.rq[src], tasks),
        all_ready(sched.rq[src], tasks),
    ensures
        ({
            let to = sched.rq[target].cpu;
            let (sched1, tasks1, r) = popped_from(sched, tasks, src, to, now);
            match r {
                None => sched1.rq =~= sched.rq && sched1.pace == sched.pace && sched1.params
                    == sched.params && tasks1 == tasks,
                Some(t) => {
                    let (sched2, tasks2) = pushed_to(sched1, tasks1, target, t, now);
                    &&& t < tasks.len()
                    &&& waits(sched.rq[src], t)
                    &&& !waits(sched.rq[target], t)
                    &&& !tasks[t as int].priority.real_time() ==> in_set(
                        tasks[t as int].affinity,
                        target,
                    )
                    &&& cfs_wf(sched2, tasks2)
                    &&& real_time_runnable(sched2.rq[src], tasks2)
                    &&& all_ready(sched2.rq[src], tasks2)
                    &&& sched2.rq.len() == sched.rq.len()
                    &&& sched2.rq[src].load == sched.rq[src].load - load_of(tasks[t as int])
                    &&& sched2.rq[target].load == sched.rq[target].load + load_of(tasks[t as int])
                    &&& sched2.rq[src].num + sched2.rq[target].num == sched.rq[src].num
                        + sched.rq[target].num
                    &&& waits(sched2.rq[target], t)
                    &&& !tasks[t as int].priority.real_time() ==> tasks2[t as int].status
                        == TaskStatus::Ready(target as u32) && (tasks2[t as int].entity matches Some(v)
                        && v.start == now)
                    &&& forall|u: TaskId| #[trigger]
                        waits(sched.rq[target], u) ==> waits(sched2.rq[target], u)
                    &&& forall|u: TaskId| #[trigger]
                        waits(sched2.rq[target], u) ==> waits(sched.rq[target], u) || u == t
                    &&& forall|u: TaskId| #[trigger]
                        waits(sched2.rq[src], u) ==> waits(sched.rq[src], u)
                    &&& tasks2.len() == tasks.len()
                    &&& forall|u: int|
                        0 <= u < tasks.len() ==> {
                            &&& (#[trigger] tasks2[u]).priority == tasks[u].priority
                            &&& tasks2[u].affinity == tasks[u].affinity
                            &&& tasks2[u].entity is Some == tasks[u].entity is Some
                            &&& tasks[u].entity matches Some(v) ==> tasks2[u].entity->Some_0
                                == (VRuntime { start: tasks2[u].entity->Some_0.start, ..v })
                            &&& u != t ==> tasks2[u] == tasks[u]
                        }
                },
            }
        }),
{
    let rq = sched.rq[src];
    let to = sched.rq[target].cpu;
    assert(to == target && rq.cpu == src);
    let (sched1, tasks1, r) = popped_from(sched, tasks, src, to, now);
    lemma_popped_from_wf(sched, tasks, src, to, now);
    lemma_popped_wf(rq, tasks, to, now);
    lemma_popped_frame(rq, tasks, to, now);
    law_pop_takes_one(rq, tasks, to, now);
    if let Some(t) = r {
        lemma_waits_linked(rq, tasks, t);
        assert(!waits(sched.rq[target], t));
        if !tasks[t as int].priority.real_time() {
            assert(rq.real_time.len() == 0) by {
                if rq.real_time.len() > 0 {
                    assert(real_time_entry(tasks, rq.real_time[0]));
                }
            }
            law_pop_takes_least(rq, tasks, to, now);
        }
        law_pop_changes_little(rq, tasks, to, now, t);
        lemma_runnable_kept(sched, tasks, src, target, now);
        let (sched2, tasks2) = pushed_to(sched1, tasks1, target, t, now);
        lemma_pushed_to_wf(sched1, tasks1, target, t, now);
        lemma_pushed_wf(sched1.rq[target], tasks1, t, now);
        lemma_pushed_waits(sched1.rq[target], tasks1, t, now);
        law_push_adds_one(sched1.rq[target], tasks1, t, now);
        assert(entity_wf(tasks, t as int));
        assert(waits(sched2.rq[target], t)) by {
            law_push_waits(sched1.rq[target], tasks1, t, now, t);
        }
        assert forall|u: TaskId| #[trigger] waits(sched.rq[target], u) implies waits(
            sched2.rq[target],
            u,
        ) by {
            lemma_push_keeps(sched1.rq[target], tasks1, t, now, u);
        }
        assert forall|i: int| 0 <= i < sched2.rq[src].normal.len() implies ready(
            tasks2,
            #[trigger] sched2.rq[src].normal[i],
            sched2.rq[src].cpu,
        ) by {
            let u = sched2.rq[src].normal[i];
            assert(sched2.rq[src].normal.contains(u));
            assert(waits(sched1.rq[src], u));
            lemma_waits_linked(sched1.rq[src], tasks1, u);
            assert(!tasks1[t as int].linked);
            assert(u != t);
            assert(waits(rq, u));
            assert(normal_entry(tasks1, sched1.rq[src].normal[i]));
            assert(rq.normal.contains(u)) by {
                if rq.real_time.contains(u) {
                    let j = choose|j: int| 0 <= j < rq.real_time.len() && rq.real_time[j] == u;
                    assert(real_time_entry(tasks, rq.real_time[j]));
                }
            }
            let j = choose|j: int| 0 <= j < rq.normal.len() && rq.normal[j] == u;
            assert(ready(tasks, rq.normal[j], rq.cpu));
        }
    }
}

/// What waits in a queue still waits when a task is added.
proof fn lemma_push_keeps(rq: RqView, tasks: Seq<TaskView>, t: TaskId, now: u64, u: TaskId)
    requires
        rq_wf(rq, tasks),
        tasks_wf(tasks),
        can_push(tasks, t),
        waits(rq, u),
    ensures
        waits(pushed(rq, tasks, t, now).0, u),
{
    let rq2 = pushed(rq, tasks, t, now).0;
    if rq.real_time.contains(u) {
        let i = choose|i: int| 0 <= i < rq.real_time.len() && rq.real_time[i] == u;
        assert(rq2.real_time[i] == u);
    } else {
        let i = choose|i: int| 0 <= i < rq.normal.len() && rq.normal[i] == u;
        if !tasks[t as int].priority.real_time() {
            let v = entering_vruntime(tasks, t, now);
            let p = insert_position(rq.normal, tasks, v);
            lemma_insert_position(rq.normal, tasks, v);
            if i < p {
                assert(rq2.normal[i] == u);
            } else {
                assert(rq2.normal[i + 1] == u);
            }
        }
    }
}

/// Balancing never overshoots by more than the last task: a task is moved only while the load of
/// the source is above that of the target, so if any was moved, one of them weighs so much that the
/// target, without it, had less load than the source, with it. In other words, the load of the
/// target is above that of the source by less than twice the weight of that task. This holds where
/// all tasks at the source still wait for its CPU.
pub proof fn law_balance_does_not_overshoot(
    sched: CfsView,
    tasks: Seq<TaskView>,
    src: int,
    target: int,
    now: u64,
)
    requires
        cfs_wf(sched, tasks),
        0 <= src < sched.rq.len(),
        0 <= target < sched.rq.len(),
        src != target,
        real_time_runnable(sched.rq[src], tasks),
        all_ready(sched.rq[src], tasks),
    ensures
        ({
            let (sched2, tasks2) = moved(sched, tasks, src, target, now);
            ||| sched2.rq == sched.rq && tasks2 == tasks
            ||| exists|u: TaskId|
                {
                    &&& waits(sched.rq[src], u)
                    &&& #[trigger] waits(sched2.rq[target], u)
                    &&& sched2.rq[target].load - load_of(tasks[u as int]) < sched2.rq[src].load
                        + load_of(tasks[u as int])
                }
        }),
    decreases sched.rq[src].real_time.len() + sched.rq[src].normal.len(),
{
    if unbalanced(sched.rq, src, target) {
        let to = sched.rq[target].cpu;
        let (sched1, tasks1, r) = popped_from(sched, tasks, src, to, now);
        lemma_popped_shrinks(sched.rq[src], tasks, to, now);
        lemma_one_move(sched, tasks, src, target, now);
        let (last, _) = moved(sched, tasks, src, target, now);
        if let Some(t) = r {
            let (sched2, tasks2) = pushed_to(sched1, tasks1, target, t, now);
            law_balance_does_not_overshoot(sched2, tasks2, src, target, now);
            let (sched3, tasks3) = moved(sched2, tasks2, src, target, now);
            if sched3.rq == sched2.rq && tasks3 == tasks2 {
                assert(waits(last.rq[target], t));
            } else {
                let u = choose|u: TaskId|
                    {
                        &&& waits(sched2.rq[src], u)
                        &&& #[trigger] waits(sched3.rq[target], u)
                        &&& sched3.rq[target].load - load_of(tasks2[u as int])
                            < sched3.rq[src].load + load_of(tasks2[u as int])
                    };
                lemma_waits_linked(sched2.rq[src], tasks2, u);
                assert(waits(last.rq[target], u));
                assert(tasks2[u as int].priority == tasks[u as int].priority);
            }
        }
    }
}

/// Balancing neither makes load nor loses it: what the source gives, the target gets, in weight and
/// in number. What waits at the target afterwards waited there before or at the source, and a
/// normal task that came over may run on the target and waits for it, with a run time that counts
/// from now. Of no task does it change the priority, the affinity or the run time, but for the
/// clock from which run time counts. This holds where all tasks at the source still wait for its
/// CPU.
pub proof fn law_balance_keeps_load(
    sched: CfsView,
    tasks: Seq<TaskView>,
    src: int,
    target: int,
    now: u64,
    u: TaskId,
)
    requires
        cfs_wf(sched, tasks),
        0 <= src < sched.rq.len(),
        0 <= target < sched.rq.len(),
        src != target,
        real_time_runnable(sched.rq[src], tasks),
        all_ready(sched.rq[src], tasks),
        u < tasks.len(),
    ensures
        ({
            let (sched2, tasks2) = moved(sched, tasks, src, target, now);
            let (task, task2) = (tasks[u as int], tasks2[u as int]);
            &&& sched2.rq.len() == sched.rq.len()
            &&& sched2.rq[src].load + sched2.rq[target].load == sched.rq[src].load
                + sched.rq[target].load
            &&& sched2.rq[src].num + sched2.rq[target].num == sched.rq[src].num
                + sched.rq[target].num
            &&& sched2.rq[src].load <= sched.rq[src].load
            &&& waits(sched.rq[target], u) ==> waits(sched2.rq[target], u)
            &&& waits(sched2.rq[target], u) && !waits(sched.rq[target], u) ==> {
                &&& waits(sched.rq[src], u)
                &&& !task.priority.real_time() ==> in_set(task.affinity, target) && task2.status
                    == TaskStatus::Ready(target as u32) && (task2.entity matches Some(v) && v.start
                    == now)
            }
            &&& waits(sched.rq[target], u) ==> task2 == task
            &&& waits(sched2.rq[src], u) ==> waits(sched.rq[src], u) && task2 == task
            &&& tasks2.len() == tasks.len()
            &&& task2.priority == task.priority
            &&& task2.affinity == task.affinity
            &&& task2.entity is Some == task.entity is Some
            &&& task.entity matches Some(v) ==> task2.entity->Some_0 == (VRuntime {
                start: task2.entity->Some_0.start,
                ..v
            })
            &&& sched2.pace == sched.pace
            &&& sched2.params == sched.params
        }),
    decreases sched.rq[src].real_time.len() + sched.rq[src].normal.len(),
{
    if unbalanced(sched.rq, src, target) {
        let to = sched.rq[target].cpu;
        let (sched1, tasks1, r) = popped_from(sched, tasks, src, to, now);
        lemma_popped_shrinks(sched.rq[src], tasks, to, now);
        lemma_one_move(sched, tasks, src, target, now);
        if let Some(t) = r {
            let (sched2, tasks2) = pushed_to(sched1, tasks1, target, t, now);
            law_balance_keeps_load(sched2, tasks2, src, target, now, u);
            assert(tasks2[u as int].priority == tasks[u as int].priority);
            let (sched3, tasks3) = moved(sched2, tasks2, src, target, now);
            if waits(sched3.rq[src], u) {
                assert(waits(sched2.rq[src], u));
                assert(u != t) by {
                    if u == t {
                        assert(waits(sched2.rq[target], t));
                        assert(src == target);
                    }
                }
            }
            if waits(sched3.rq[target], u) && !waits(sched.rq[target], u) && waits(
                sched2.rq[target],
                u,
            ) {
                assert(u == t);
            }
        }
    }
}

/// A CPU that asks for its share gets it from a CPU that no other one has more load than, the last
/// of them: the queues of all but these two stay as they are. A CPU that itself has as much load as
/// any gets nothing.
pub proof fn law_balance_asks_busiest(sched: CfsView, tasks: Seq<TaskView>, env: SchedEnv, d: int)
    requires
        cfs_wf(sched, tasks),
        env.cpu < sched.rq.len(),
        0 <= d < sched.rq.len(),
    ensures
        ({
            let (sched2, tasks2) = CompletelyFairScheduler::balanced(sched, tasks, env);
            &&& (forall|c: int|
                0 <= c < sched.rq.len() ==> (#[trigger] sched.rq[c]).load <= sched.rq[env.cpu as int].load)
                ==> sched2.rq == sched.rq && tasks2 == tasks
            &&& d != env.cpu && sched2.rq[d] != sched.rq[d] ==> forall|c: int|
                0 <= c < sched.rq.len() ==> {
                    &&& (#[trigger] sched.rq[c]).load <= sched.rq[d].load
                    &&& c > d ==> sched.rq[c].load < sched.rq[d].load
                }
        }),
{
    let src = busiest(sched.rq);
    lemma_busiest(sched.rq);
    if d != src && d != env.cpu {
        law_balance_leaves_others(sched, tasks, src, env.cpu as int, env.tsc, d);
    }
    if forall|c: int|
        0 <= c < sched.rq.len() ==> (#[trigger] sched.rq[c]).load <= sched.rq[env.cpu as int].load {
        assert(sched.rq[src].load <= sched.rq[env.cpu as int].load);
        law_balance_needs_more_load(sched, tasks, src, env.cpu as int, env.tsc);
    }
}

/// A task is put into one queue, that of this CPU if it may run here, and else that of the first
/// CPU that it may run on. It waits there, and no other queue changes.
pub proof fn law_enqueue_waits_at_home(
    sched: CfsView,
    tasks: Seq<TaskView>,
    env: SchedEnv,
    task: TaskId,
    c: int,
    u: int,
)
    requires
        cfs_wf(sched, tasks),
        CompletelyFairScheduler::can_enqueue(sched, tasks, env, task),
        0 <= c < sched.rq.len(),
        in_set(tasks[task as int].affinity, c),
        if in_set(tasks[task as int].affinity, env.cpu as int) {
            c == env.cpu
        } else {
            forall|d: int| 0 <= d < c ==> !#[trigger] in_set(tasks[task as int].affinity, d)
        },
        0 <= u < tasks.len(),
        u != task,
    ensures
        ({
            let (sched2, tasks2) = CompletelyFairScheduler::enqueued(sched, tasks, env, task);
            &&& waits(sched2.rq[c], task)
            &&& sched2.rq.len() == sched.rq.len()
            &&& forall|d: int| 0 <= d < sched.rq.len() && d != c ==> #[trigger] sched2.rq[d]
                == sched.rq[d]
            &&& sched2.rq[c].load == sched.rq[c].load + load_of(tasks[task as int])
            &&& sched2.pace == sched.pace
            &&& sched2.params == sched.params
            &&& tasks2[u] == tasks[u]
        }),
{
    let bits = tasks[task as int].affinity;
    lemma_first_cpu(bits);
    let h = home(tasks[task as int], env.cpu);
    assert(h == c) by {
        if !in_set(bits, env.cpu as int) {
            assert(bits[c]);
            if h < c {
                assert(in_set(bits, h));
            }
        }
    }
    law_push_waits(sched.rq[c], tasks, task, env.tsc, task);
    law_push_adds_one(sched.rq[c], tasks, task, env.tsc);
}

/// A CPU picks from its own queue only, and what it picks waited there.
pub proof fn law_pick_is_from_own_queue(
    sched: CfsView,
    tasks: Seq<TaskView>,
    env: SchedEnv,
    d: int,
)
    requires
        cfs_wf(sched, tasks),
        CompletelyFairScheduler::can_pick(sched, env),
        0 <= d < sched.rq.len(),
        d != env.cpu,
    ensures
        ({
            let (sched2, tasks2, r) = CompletelyFairScheduler::picked(sched, tasks, env);
            let rq = sched.rq[env.cpu as int];
            &&& sched2.rq[d] == sched.rq[d]
            &&& sched2.rq.len() == sched.rq.len()
            &&& sched2.pace == sched.pace
            &&& sched2.params == sched.params
            &&& r matches Some(t) ==> waits(rq, t)
            &&& rq.real_time.len() > 0 ==> r == Some(rq.real_time[0])
            &&& r is None <==> rq.real_time.len() == 0 && forall|i: int|
                0 <= i < rq.normal.len() ==> !(tasks[#[trigger] rq.normal[i] as int].status
                    == TaskStatus::Ready(env.cpu) && in_set(
                    tasks[rq.normal[i] as int].affinity,
                    env.cpu as int,
                ))
        }),
{
    let rq = sched.rq[env.cpu as int];
    assert(rq.cpu == env.cpu);
    lemma_popped_frame(rq, tasks, env.cpu, env.tsc);
    law_pop_none(rq, tasks, env.cpu, env.tsc);
    if rq.real_time.len() == 0 && popped(rq, tasks, env.cpu, env.tsc).2 is None {
        assert forall|i: int| 0 <= i < rq.normal.len() implies !(
        tasks[#[trigger] rq.normal[i] as int].status == TaskStatus::Ready(env.cpu) && in_set(
            tasks[rq.normal[i] as int].affinity,
            env.cpu as int,
        )) by {
            assert(!eligible(tasks, rq.normal[i], rq.cpu, env.cpu));
        }
    }
    if popped(rq, tasks, env.cpu, env.tsc).2 is Some && rq.real_time.len() == 0 {
        law_pop_takes_least(rq, tasks, env.cpu, env.tsc);
        let t = popped(rq, tasks, env.cpu, env.tsc).2->Some_0;
        let i = choose|i: int| 0 <= i < rq.normal.len() && rq.normal[i] == t;
        assert(eligible(tasks, rq.normal[i], rq.cpu, env.cpu));
    }
}

/// A timer tick sets the checkpoint of its CPU to the tick once 5000 ticks have passed since the
/// last one, and else leaves it. It never changes another CPU's, nor any queue.
pub proof fn law_tick_keeps_pace(sched: CfsView, tasks: Seq<TaskView>, env: SchedEnv, d: int)
    requires
        cfs_wf(sched, tasks),
        CompletelyFairScheduler::can_tick(sched, tasks, env),
        0 <= d < sched.rq.len(),
    ensures
        ({
            let sched2 = CompletelyFairScheduler::ticked(sched, tasks, env).0;
            &&& sched2.rq == sched.rq
            &&& sched2.params == sched.params
            &&& sched2.pace.len() == sched.pace.len()
            &&& sched2.pace[d] == if d == env.cpu && env.tick - sched.pace[d] >= 5000 {
                env.tick
            } else {
                sched.pace[d]
            }
        }),
{
}

/// Yielding to a task gives it a run time if it has none, a fresh one, and changes nothing else. A
/// task that is cleared has none, and is otherwise as it was.
pub proof fn law_run_times_come_and_go(
    tasks: Seq<TaskView>,
    env: SchedEnv,
    task: TaskId,
    u: int,
)
    requires
        task < tasks.len(),
        0 <= u < tasks.len(),
    ensures
        ({
            let to = CompletelyFairScheduler::yielding_to(tasks, env, task);
            let off = CompletelyFairScheduler::cleared(tasks, env, task);
            let old_task = tasks[task as int];
            &&& to.len() == tasks.len()
            &&& off.len() == tasks.len()
            &&& u != task ==> to[u] == tasks[u] && off[u] == tasks[u]
            &&& to[task as int].entity is Some
            &&& old_task.entity is Some ==> to == tasks
            &&& old_task.entity is None ==> (to[task as int].entity matches Some(v) && v.vruntime == 0
                && v.start == env.tsc && v.period_start == env.tsc && v.key == task && v.weight
                == weight_of(old_task.priority.nice()))
            &&& to[task as int] == (TaskView { entity: to[task as int].entity, ..old_task })
            &&& off[task as int] == (TaskView { entity: None, ..old_task })
        }),
{
}

/// A report gives times in nanoseconds: as many as the cycles take by the ratio of the clock,
/// rounded down.
pub proof fn law_report_is_in_nanoseconds(params: PeriodParams, cycles: int)
    requires
        params.factors.1 > 0,
        cycles >= 0,
    ensures
        to_ns(params, cycles) * params.factors.1 <= cycles * params.factors.0 < (to_ns(
            params,
            cycles,
        ) + 1) * params.factors.1,
        params.factors.0 == params.factors.1 ==> to_ns(params, cycles) == cycles,
{
    let (x, b) = (cycles * params.factors.0, params.factors.1 as int);
    assert((x / b) * b <= x < (x / b + 1) * b) by (nonlinear_arith)
        requires
            b > 0,
    ;
    if params.factors.0 == params.factors.1 {
        assert((cycles * b) / b == cycles) by (nonlinear_arith)
            requires
                b > 0,
        ;
    }
}

/// Balancing goes one task at a time, and just before each move the load of the source is above
/// that of the target and more than one normal task waits there. The steps are given, with the task
/// that each of them moves: it leaves the source and waits at the target, and its weight goes with
/// it. So at the end the load of the target is above that of the source by less than twice the
/// weight of the last task, if any was moved. This holds where all tasks at the source still wait
/// for its CPU.
pub proof fn law_each_move_is_needed(
    sched: CfsView,
    tasks: Seq<TaskView>,
    src: int,
    target: int,
    now: u64,
) -> (r: (Seq<CfsView>, Seq<TaskId>))
    requires
        cfs_wf(sched, tasks),
        0 <= src < sched.rq.len(),
        0 <= target < sched.rq.len(),
        src != target,
        real_time_runnable(sched.rq[src], tasks),
        all_ready(sched.rq[src], tasks),
    ensures
        r.0.len() == r.1.len() + 1,
        r.0.first().rq == sched.rq,
        r.0.last().rq == moved(sched, tasks, src, target, now).0.rq,
        r.1.len() == 0 ==> moved(sched, tasks, src, target, now).1 == tasks,
        forall|i: int|
            0 <= i < r.1.len() ==> {
                let t = #[trigger] r.1[i];
                let (before, after) = (r.0[i].rq, r.0[i + 1].rq);
                let weight = load_of(tasks[t as int]);
                &&& t < tasks.len()
                &&& before[src].load > before[target].load
                &&& before[src].num > 1
                &&& waits(before[src], t) && !waits(before[target], t)
                &&& waits(after[target], t) && !waits(after[src], t)
                &&& after[src].load == before[src].load - weight
                &&& after[target].load == before[target].load + weight
            },
        r.1.len() > 0 ==> {
            let after = moved(sched, tasks, src, target, now).0.rq;
            after[target].load - after[src].load < 2 * load_of(tasks[r.1.last() as int])
        },
    decreases sched.rq[src].real_time.len() + sched.rq[src].normal.len(),
{
    let to = sched.rq[target].cpu;
    let (sched1, tasks1, next) = popped_from(sched, tasks, src, to, now);
    if unbalanced(sched.rq, src, target) && next is Some {
        let t = next->Some_0;
        lemma_popped_shrinks(sched.rq[src], tasks, to, now);
        lemma_one_move(sched, tasks, src, target, now);
        let (sched2, tasks2) = pushed_to(sched1, tasks1, target, t, now);
        let (states, who) = law_each_move_is_needed(sched2, tasks2, src, target, now);
        let r = (seq![sched] + states, seq![t] + who);
        assert(!waits(sched2.rq[src], t)) by {
            if waits(sched2.rq[src], t) {
                assert(waits(sched2.rq[target], t));
                assert(src == target);
            }
        }
        assert forall|i: int| 0 <= i < r.1.len() implies {
            let t = #[trigger] r.1[i];
            let (before, after) = (r.0[i].rq, r.0[i + 1].rq);
            let weight = load_of(tasks[t as int]);
            &&& t < tasks.len()
            &&& before[src].load > before[target].load
            &&& before[src].num > 1
            &&& waits(before[src], t) && !waits(before[target], t)
            &&& waits(after[target], t) && !waits(after[src], t)
            &&& after[src].load == before[src].load - weight
            &&& after[target].load == before[target].load + weight
        } by {
            if i == 0 {
                assert(r.0[1] == states[0]);
            } else {
                let u = who[i - 1];
                assert(r.1[i] == u);
                assert(r.0[i] == states[i - 1] && r.0[i + 1] == states[i]);
                assert(tasks2[u as int].priority == tasks[u as int].priority);
            }
        }
        assert(r.0.last() == states.last());
        if who.len() > 0 {
            let u = who.last();
            assert(r.1.last() == u);
            assert(who[who.len() - 1] < tasks2.len());
            assert(tasks2[u as int].priority == tasks[u as int].priority);
        }
        r
    } else {
        if unbalanced(sched.rq, src, target) {
            lemma_one_move(sched, tasks, src, target, now);
        }
        (seq![moved(sched, tasks, src, target, now).0], Seq::empty())
    }
}

/// A task that exits is marked so and has no run time any more. Nothing else of it changes, and no
/// other task does.
pub proof fn law_exit_marks_one(
    tasks: Seq<TaskView>,
    cpu: Cpu,
    clock: Clock,
    task: TaskId,
    u: int,
)
    requires
        task < tasks.len(),
        0 <= u < tasks.len(),
    ensures
        ({
            let after = exited::<CompletelyFairScheduler>(tasks, cpu, clock, task);
            &&& after.len() == tasks.len()
            &&& after[task as int] == (TaskView {
                status: TaskStatus::Exited,
                entity: None,
                ..tasks[task as int]
            })
            &&& u != task ==> after[u] == tasks[u]
        }),
{
}

/// A CPU that runs no task takes the waiting one that ran least of those that may run there, a
/// real-time one before all others, and only goes on idling if there is none.
pub proof fn law_idle_cpu_runs_waiting(
    sched: CfsView,
    tasks: Seq<TaskView>,
    cpu: Cpu,
    clock: Clock,
    caller: Location,
    u: TaskId,
)
    requires
        cfs_wf(sched, tasks),
        cpu.preempt.preemptible(),
        cpu.processor.current is None,
        cpu.id < sched.rq.len(),
        sched.rq[cpu.id as int].normal.contains(u),
        tasks[u as int].status == TaskStatus::Ready(cpu.id),
        in_set(tasks[u as int].affinity, cpu.id as int),
    ensures
        ({
            let switch = scheduled::<CompletelyFairScheduler>(
                Some(sched),
                tasks,
                cpu,
                clock,
                caller,
            ).3;
            let rq = sched.rq[cpu.id as int];
            &&& switch matches Some(s) && s.from is None && s.next_ctx == tasks[s.to as int].ctx
                && if rq.real_time.len() > 0 {
                s.to == rq.real_time[0]
            } else {
                rq.normal.contains(s.to) && (s.to == u || vr_lt(vr(tasks, s.to), vr(tasks, u)))
            }
        }),
{
    let rq = sched.rq[cpu.id as int];
    assert(rq.cpu == cpu.id);
    law_pop_none(rq, tasks, cpu.id, clock.tsc);
    let i = choose|i: int| 0 <= i < rq.normal.len() && rq.normal[i] == u;
    assert(eligible(tasks, rq.normal[i], rq.cpu, cpu.id));
    let t = popped(rq, tasks, cpu.id, clock.tsc).2->Some_0;
    lemma_popped_frame(rq, tasks, cpu.id, clock.tsc);
    lemma_waits_linked(rq, tasks, t);
    law_pop_changes_little(rq, tasks, cpu.id, clock.tsc, t);
    if rq.real_time.len() == 0 {
        law_pop_takes_least(rq, tasks, cpu.id, clock.tsc);
    }
}

/// The running task of a CPU should make way exactly if it has no run time, or if it used up its
/// share: of the period for the tasks that wait for this CPU, the part that its weight is of theirs
/// and its own together.
pub proof fn law_cpu_shares_by_weight(sched: CfsView, tasks: Seq<TaskView>, env: SchedEnv)
    requires
        cfs_wf(sched, tasks),
        CompletelyFairScheduler::can_ask(sched, tasks, env),
    ensures
        ({
            let rq = sched.rq[env.cpu as int];
            let c = env.current->Some_0 as int;
            let answer = CompletelyFairScheduler::asked(sched, tasks, env).1;
            &&& tasks[c].entity is None ==> answer
            &&& tasks[c].entity matches Some(v) ==> (answer <==> (env.tsc - v.period_start) * (
            total_weight(rq.normal, tasks) + v.weight) > sched.params.period(
                rq.normal.len() as u64,
            ) * v.weight)
        }),
{
    let rq = sched.rq[env.cpu as int];
    law_asked_is_share_of_load(rq, tasks, env.current->Some_0, env.tsc, sched.params);
}

/// A timer tick marks the running task of its CPU to be rescheduled exactly if it should make way
/// for having used up its share, or was marked already, and brings its run time up to date as
/// asking does. A task that yields is marked in any case and begins a new period at that clock. No
/// other task changes.
pub proof fn law_tick_and_yield_mark_current(
    sched: CfsView,
    tasks: Seq<TaskView>,
    env: SchedEnv,
    u: int,
)
    requires
        cfs_wf(sched, tasks),
        CompletelyFairScheduler::can_ask(sched, tasks, env),
        0 <= u < tasks.len(),
    ensures
        ({
            let c = env.current->Some_0 as int;
            let (asked, answer) = CompletelyFairScheduler::asked(sched, tasks, env);
            let ticked = CompletelyFairScheduler::ticked(sched, tasks, env).1;
            let yields = CompletelyFairScheduler::yielding(sched, tasks, env);
            &&& ticked.len() == tasks.len() && yields.len() == tasks.len()
            &&& u != c ==> asked[u] == tasks[u] && ticked[u] == tasks[u] && yields[u] == tasks[u]
            &&& ticked[c].entity == asked[c].entity
            &&& ticked[c].need_resched == (tasks[c].need_resched || answer && tasks[c].entity is Some)
            &&& yields[c].need_resched
            &&& tasks[c].entity matches Some(v) ==> yields[c].entity == Some(
                VRuntime { period_start: env.tsc, ..v },
            )
            &&& asked[c] == (TaskView { entity: asked[c].entity, ..tasks[c] })
            &&& ticked[c] == (TaskView {
                entity: ticked[c].entity,
                need_resched: ticked[c].need_resched,
                ..tasks[c]
            })
            &&& yields[c] == (TaskView {
                entity: yields[c].entity,
                need_resched: yields[c].need_resched,
                ..tasks[c]
            })
        }),
{
    let rq = sched.rq[env.cpu as int];
    let c = env.current->Some_0;
    law_asked_is_share_of_load(rq, tasks, c, env.tsc, sched.params);
    law_tick_marks_used_up(rq, tasks, c, env.tsc, sched.params, false);
    law_tick_marks_used_up(rq, tasks, c, env.tsc, sched.params, true);
}

/// A report on a CPU that runs a task names that task and all that wait for the CPU, in the order
/// in which they will run, with their weights. The load is the sum of all these weights. There is
/// no report on a CPU that runs none.
pub proof fn law_report_adds_up(
    sched: CfsView,
    tasks: Seq<TaskView>,
    env: SchedEnv,
    report: Option<CpuReport>,
    i: int,
)
    requires
        cfs_wf(sched, tasks),
        CompletelyFairScheduler::can_traverse(sched, tasks, env),
        CompletelyFairScheduler::traversed(sched, tasks, env, report),
    ensures
        report is Some <==> env.current is Some,
        report matches Some(report) ==> {
            let waiting = sched.rq[env.cpu as int].normal;
            let c = env.current->Some_0;
            &&& report.cpu == env.cpu
            &&& report.cur_tick == env.tick
            &&& report.cur_task.task == c
            &&& report.cur_task.weight == vr(tasks, c).weight
            &&& report.num == waiting.len()
            &&& report.ready@.len() == waiting.len()
            &&& report.load == total_weight(waiting, tasks) + report.cur_task.weight
            &&& 0 <= i < waiting.len() ==> {
                &&& report.ready@[i].task == waiting[i]
                &&& report.ready@[i].weight == vr(tasks, waiting[i]).weight
                &&& report.ready@[i].vruntime_ns == (vr(tasks, waiting[i]).vruntime
                    * sched.params.factors.0) / (sched.params.factors.1 as int)
            }
            &&& report.cur_task.vruntime_ns == (vr(tasks, c).vruntime * sched.params.factors.0) / (
            sched.params.factors.1 as int)
            &&& report.period_ns == (sched.params.period(waiting.len() as u64)
                * sched.params.factors.0) / (sched.params.factors.1 as int)
        },
{
    if let Some(report) = report {
        let rq = sched.rq[env.cpu as int];
        assert(rq_wf(rq, tasks));
        let c = env.current->Some_0;
        let (f, b) = (sched.params.factors.0 as int, sched.params.factors.1 as int);
        lemma_ns_fits(vr(tasks, c).vruntime * f, b);
        if 0 <= i < rq.normal.len() {
            assert(can_report(sched.params, tasks, rq.normal[i]));
            lemma_ns_fits(vr(tasks, rq.normal[i]).vruntime * f, b);
        }
    }
}

/// What is divided does not grow.
proof fn lemma_ns_fits(x: int, b: int)
    requires
        0 <= x <= u64::MAX,
        b > 0,
    ensures
        0 <= x / b <= u64::MAX,
{
    assert(0 <= x / b <= x) by (nonlinear_arith)
        requires
            x >= 0,
            b > 0,
    ;
}

/// Also where tasks at the source no longer wait for its CPU, and are dropped on the way, balancing
/// goes one task at a time, and just before each move the load of the source is above that of the
/// target and more than one normal task waits there. The steps are given, with the task that each
/// of them moves: the target gets its weight, and the source loses at least that.
pub proof fn law_each_move_is_downhill(
    sched: CfsView,
    tasks: Seq<TaskView>,
    src: int,
    target: int,
    now: u64,
) -> (r: (Seq<CfsView>, Seq<TaskId>))
    requires
        cfs_wf(sched, tasks),
        0 <= src < sched.rq.len(),
        0 <= target < sched.rq.len(),
        src != target,
        real_time_runnable(sched.rq[src], tasks),
    ensures
        r.0.len() == r.1.len() + 1,
        r.0.first().rq == sched.rq,
        r.0.last().rq[target] == moved(sched, tasks, src, target, now).0.rq[target],
        moved(sched, tasks, src, target, now).0.rq[src].load <= r.0.last().rq[src].load,
        forall|i: int|
            0 <= i < r.1.len() ==> {
                let t = #[trigger] r.1[i];
                let (before, after) = (r.0[i].rq, r.0[i + 1].rq);
                let weight = load_of(tasks[t as int]);
                &&& t < tasks.len()
                &&& before[src].load > before[target].load
                &&& before[src].num > 1
                &&& waits(before[src], t)
                &&& waits(after[target], t)
                &&& after[src].load <= before[src].load - weight
                &&& after[target].load == before[target].load + weight
            },
    decreases sched.rq[src].real_time.len() + sched.rq[src].normal.len(),
{
    let to = sched.rq[target].cpu;
    let rq = sched.rq[src];
    let (sched1, tasks1, next) = popped_from(sched, tasks, src, to, now);
    law_pop_lightens(rq, tasks, to, now);
    if unbalanced(sched.rq, src, target) && next is Some {
        let t = next->Some_0;
        lemma_popped_shrinks(rq, tasks, to, now);
        lemma_popped_from_wf(sched, tasks, src, to, now);
        lemma_popped_wf(rq, tasks, to, now);
        lemma_popped_frame(rq, tasks, to, now);
        lemma_waits_linked(rq, tasks, t);
        lemma_runnable_kept(sched, tasks, src, target, now);
        let (sched2, tasks2) = pushed_to(sched1, tasks1, target, t, now);
        lemma_pushed_to_wf(sched1, tasks1, target, t, now);
        law_push_adds_one(sched1.rq[target], tasks1, t, now);
        law_push_waits(sched1.rq[target], tasks1, t, now, t);
        assert forall|u: TaskId| u < tasks.len() implies (#[trigger] tasks2[u as int]).priority
            == tasks[u as int].priority by {
            law_pop_changes_little(rq, tasks, to, now, u);
        }
        let (states, who) = law_each_move_is_downhill(sched2, tasks2, src, target, now);
        let r = (seq![sched] + states, seq![t] + who);
        assert forall|i: int| 0 <= i < r.1.len() implies {
            let t = #[trigger] r.1[i];
            let (before, after) = (r.0[i].rq, r.0[i + 1].rq);
            let weight = load_of(tasks[t as int]);
            &&& t < tasks.len()
            &&& before[src].load > before[target].load
            &&& before[src].num > 1
            &&& waits(before[src], t)
            &&& waits(after[target], t)
            &&& after[src].load <= before[src].load - weight
            &&& after[target].load == before[target].load + weight
        } by {
            if i == 0 {
                assert(r.0[1] == states[0]);
            } else {
                let u = who[i - 1];
                assert(r.1[i] == u);
                assert(r.0[i] == states[i - 1] && r.0[i + 1] == states[i]);
                assert(tasks2[u as int].priority == tasks[u as int].priority);
            }
        }
        assert(r.0.last() == states.last());
        r
    } else {
        (seq![sched], Seq::empty())
    }
}

} // verus!
