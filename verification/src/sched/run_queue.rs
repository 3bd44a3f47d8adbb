//! The run queue of one CPU.
use std::collections::VecDeque;
use vstd::prelude::*;

use crate::cpu::in_set;
use crate::sched::clock::{law_period_grows, period, period_fits, PeriodParams};
use crate::sched::nice::{law_weights_bounded, weight_of};
use crate::sched::vruntime::{fresh_vruntime, vr_lt, VRuntime};
use crate::task::table::{table_wf, TaskTable};
use crate::task::task::{NeedResched, ReadPriority, TaskId, TaskStatus, TaskView};

verus! {

/// The run queue of one CPU. Real-time tasks wait in the order in which they came, normal tasks
/// in the order of their virtual run times.
pub struct RunQueue {
    /// The CPU that the queue belongs to.
    cpu: u32,
    /// The waiting real-time tasks.
    real_time_tasks: VecDeque<TaskId>,
    /// The waiting normal tasks.
    normal_tasks: Vec<TaskId>,
    /// The weight of all waiting normal tasks.
    load: u64,
    /// The number of waiting normal tasks.
    num: u64,
}

/// The mathematical value of a run queue.
pub struct RqView {
    pub cpu: u32,
    pub real_time: Seq<TaskId>,
    pub normal: Seq<TaskId>,
    pub load: u64,
    pub num: u64,
}

impl View for RunQueue {
    type V = RqView;

    closed spec fn view(&self) -> RqView {
        RqView {
            cpu: self.cpu,
            real_time: self.real_time_tasks@,
            normal: self.normal_tasks@,
            load: self.load,
            num: self.num,
        }
    }
}

/// The virtual run time of a task that has one.
pub open spec fn vr(tasks: Seq<TaskView>, t: TaskId) -> VRuntime {
    tasks[t as int].entity->Some_0
}

/// The weight of all tasks of a queue together.
pub open spec fn total_weight(q: Seq<TaskId>, tasks: Seq<TaskView>) -> nat
    decreases q.len(),
{
    if q.len() == 0 {
        0
    } else {
        total_weight(q.drop_last(), tasks) + vr(tasks, q.last()).weight as nat
    }
}

/// Whether the run times of a queue increase from front to back.
pub open spec fn sorted(q: Seq<TaskId>, tasks: Seq<TaskView>) -> bool {
    forall|i: int, j: int|
        0 <= i < j < q.len() ==> vr_lt(vr(tasks, #[trigger] q[i]), vr(tasks, #[trigger] q[j]))
}

/// Whether the run time that a task may have is one of a normal task, and is that task's own.
pub open spec fn entity_wf(tasks: Seq<TaskView>, t: int) -> bool {
    tasks[t].entity matches Some(v) ==> {
        &&& !tasks[t].priority.real_time()
        &&& v.key == t
        &&& v.weight == weight_of(tasks[t].priority.nice())
    }
}

/// Whether all run times in a table are valid.
pub open spec fn entities_wf(tasks: Seq<TaskView>) -> bool {
    forall|t: int| 0 <= t < tasks.len() ==> #[trigger] entity_wf(tasks, t)
}

/// Whether a table of tasks can be scheduled.
pub open spec fn tasks_wf(tasks: Seq<TaskView>) -> bool {
    table_wf(tasks) && entities_wf(tasks)
}

/// Whether a task may wait in the queue of real-time tasks.
pub open spec fn real_time_entry(tasks: Seq<TaskView>, t: TaskId) -> bool {
    t < tasks.len() && tasks[t as int].priority.real_time() && tasks[t as int].linked
}

/// Whether a task may wait in the queue of normal tasks.
pub open spec fn normal_entry(tasks: Seq<TaskView>, t: TaskId) -> bool {
    &&& t < tasks.len()
    &&& !tasks[t as int].priority.real_time()
    &&& tasks[t as int].linked
    &&& tasks[t as int].entity is Some
}

/// Whether a run queue is valid: no task waits twice, normal tasks are in order, and load and
/// number are those of the waiting normal tasks.
pub open spec fn rq_wf(rq: RqView, tasks: Seq<TaskView>) -> bool {
    &&& rq.real_time.no_duplicates()
    &&& forall|i: int|
        0 <= i < rq.real_time.len() ==> real_time_entry(tasks, #[trigger] rq.real_time[i])
    &&& forall|i: int| 0 <= i < rq.normal.len() ==> normal_entry(tasks, #[trigger] rq.normal[i])
    &&& sorted(rq.normal, tasks)
    &&& rq.load == total_weight(rq.normal, tasks)
    &&& rq.num == rq.normal.len()
}

// Lemmas on queues.

/// A list without duplicates of numbers below `n` has at most `n` entries.
proof fn lemma_distinct_bounded(q: Seq<TaskId>, n: nat)
    requires
        q.no_duplicates(),
        forall|i: int| 0 <= i < q.len() ==> (#[trigger] q[i]) < n,
    ensures
        q.len() <= n,
    decreases n,
{
    if n > 0 {
        let m = (n - 1) as nat;
        if exists|i: int| 0 <= i < q.len() && #[trigger] q[i] == m {
            let i = choose|i: int| 0 <= i < q.len() && #[trigger] q[i] == m;
            let r = q.remove(i);
            assert forall|j: int| 0 <= j < r.len() implies (#[trigger] r[j]) < m by {
                assert(r[j] == if j < i {
                    q[j]
                } else {
                    q[j + 1]
                });
            }
            lemma_distinct_bounded(r, m);
        } else {
            lemma_distinct_bounded(q, m);
        }
    } else if q.len() > 0 {
        assert(q[0] < 0);
    }
}

/// A sorted queue holds no task twice.
pub proof fn lemma_sorted_distinct(q: Seq<TaskId>, tasks: Seq<TaskView>)
    requires
        sorted(q, tasks),
    ensures
        q.no_duplicates(),
{
    assert forall|i: int, j: int| 0 <= i < q.len() && 0 <= j < q.len() && i != j implies q[i]
        != q[j] by {
        if i < j {
            assert(vr_lt(vr(tasks, q[i]), vr(tasks, q[j])));
        } else {
            assert(vr_lt(vr(tasks, q[j]), vr(tasks, q[i])));
        }
    }
}

/// The weight of a queue depends only on the weights of its tasks.
pub proof fn lemma_weight_frame(q: Seq<TaskId>, a: Seq<TaskView>, b: Seq<TaskView>)
    requires
        forall|i: int| 0 <= i < q.len() ==> vr(a, #[trigger] q[i]).weight == vr(b, q[i]).weight,
    ensures
        total_weight(q, a) == total_weight(q, b),
    decreases q.len(),
{
    if q.len() > 0 {
        let p = q.drop_last();
        assert forall|i: int| 0 <= i < p.len() implies vr(a, #[trigger] p[i]).weight == vr(
            b,
            p[i],
        ).weight by {
            assert(p[i] == q[i]);
        }
        lemma_weight_frame(p, a, b);
        assert(vr(a, q[q.len() - 1]).weight == vr(b, q[q.len() - 1]).weight);
    }
}

/// Taking one task out of a queue takes its weight off.
pub proof fn lemma_weight_remove(q: Seq<TaskId>, tasks: Seq<TaskView>, i: int)
    requires
        0 <= i < q.len(),
    ensures
        total_weight(q.remove(i), tasks) + vr(tasks, q[i]).weight == total_weight(q, tasks),
    decreases q.len(),
{
    if i == q.len() - 1 {
        assert(q.remove(i) =~= q.drop_last());
    } else {
        lemma_weight_remove(q.drop_last(), tasks, i);
        assert(q.remove(i).drop_last() =~= q.drop_last().remove(i));
        assert(q.remove(i).last() == q.last());
    }
}

/// Putting one task into a queue adds its weight.
pub proof fn lemma_weight_insert(q: Seq<TaskId>, tasks: Seq<TaskView>, i: int, t: TaskId)
    requires
        0 <= i <= q.len(),
    ensures
        total_weight(q.insert(i, t), tasks) == total_weight(q, tasks) + vr(tasks, t).weight,
{
    lemma_weight_remove(q.insert(i, t), tasks, i);
    assert(q.insert(i, t).remove(i) =~= q);
}

/// The weight of a queue is at most that of as many tasks of the largest weight.
proof fn lemma_weight_bound(q: Seq<TaskId>, tasks: Seq<TaskView>)
    requires
        tasks_wf(tasks),
        forall|i: int| 0 <= i < q.len() ==> normal_entry(tasks, #[trigger] q[i]),
    ensures
        total_weight(q, tasks) <= 88761 * q.len(),
    decreases q.len(),
{
    if q.len() > 0 {
        let p = q.drop_last();
        assert forall|i: int| 0 <= i < p.len() implies normal_entry(tasks, #[trigger] p[i]) by {
            assert(p[i] == q[i]);
        }
        lemma_weight_bound(p, tasks);
        let t = q[q.len() - 1];
        assert(normal_entry(tasks, t));
        assert(entity_wf(tasks, t as int));
        law_weights_bounded(tasks[t as int].priority.nice());
    }
}

/// What stays of the validity of a queue when one normal task is taken out of it.
proof fn lemma_remove_normal(rq: RqView, tasks: Seq<TaskView>, i: int)
    requires
        rq_wf(rq, tasks),
        0 <= i < rq.normal.len(),
    ensures
        ({
            let t = rq.normal[i];
            let after = tasks.update(t as int, TaskView { linked: false, ..tasks[t as int] });
            &&& vr(tasks, t).weight <= rq.load
            &&& rq_wf(
                RqView {
                    normal: rq.normal.remove(i),
                    load: (rq.load - vr(tasks, t).weight) as u64,
                    num: (rq.num - 1) as u64,
                    ..rq
                },
                after,
            )
        }),
{
    let t = rq.normal[i];
    let q = rq.normal;
    let r = q.remove(i);
    let after = tasks.update(t as int, TaskView { linked: false, ..tasks[t as int] });
    assert(normal_entry(tasks, t));
    lemma_sorted_distinct(q, tasks);
    lemma_weight_remove(q, tasks, i);
    lemma_weight_frame(r, tasks, after);
    assert forall|j: int| 0 <= j < r.len() implies normal_entry(after, #[trigger] r[j]) && r[j]
        != t by {
        let k = if j < i {
            j
        } else {
            j + 1
        };
        assert(r[j] == q[k]);
        assert(normal_entry(tasks, q[k]));
    }
    assert(sorted(r, after)) by {
        assert forall|a: int, b: int| 0 <= a < b < r.len() implies vr_lt(
            vr(after, #[trigger] r[a]),
            vr(after, #[trigger] r[b]),
        ) by {
            let c = if a < i {
                a
            } else {
                a + 1
            };
            let d = if b < i {
                b
            } else {
                b + 1
            };
            assert(r[a] == q[c] && r[b] == q[d]);
        }
    }
    assert forall|j: int| 0 <= j < rq.real_time.len() implies real_time_entry(
        after,
        #[trigger] rq.real_time[j],
    ) by {
        assert(real_time_entry(tasks, rq.real_time[j]));
    }
}

// Putting a task into the queue.

/// Where a run time belongs in a sorted queue: behind all that do not come after it.
pub open spec fn insert_position(q: Seq<TaskId>, tasks: Seq<TaskView>, v: VRuntime) -> int
    decreases q.len(),
{
    if q.len() == 0 {
        0
    } else if vr_lt(v, vr(tasks, q.last())) {
        insert_position(q.drop_last(), tasks, v)
    } else {
        q.len() as int
    }
}

/// The run time with which a task enters the queue: the one it has, or that of a task which has
/// not run yet.
pub open spec fn entering_vruntime(tasks: Seq<TaskView>, t: TaskId, now: u64) -> VRuntime {
    match tasks[t as int].entity {
        Some(v) => v,
        None => fresh_vruntime(t, tasks[t as int].priority, now),
    }
}

/// A normal task after it entered the queue of `cpu`.
pub open spec fn entered(tasks: Seq<TaskView>, t: TaskId, cpu: u32, now: u64) -> TaskView {
    TaskView {
        status: TaskStatus::Ready(cpu),
        need_resched: false,
        entity: Some(entering_vruntime(tasks, t, now)),
        linked: true,
        ..tasks[t as int]
    }
}

/// The queue and the tasks after a task was put into the queue.
pub open spec fn pushed(rq: RqView, tasks: Seq<TaskView>, t: TaskId, now: u64) -> (
    RqView,
    Seq<TaskView>,
) {
    if tasks[t as int].priority.real_time() {
        (
            RqView { real_time: rq.real_time.push(t), ..rq },
            tasks.update(t as int, TaskView { linked: true, ..tasks[t as int] }),
        )
    } else {
        let v = entering_vruntime(tasks, t, now);
        (
            RqView {
                normal: rq.normal.insert(insert_position(rq.normal, tasks, v), t),
                load: (rq.load + v.weight) as u64,
                num: (rq.num + 1) as u64,
                ..rq
            },
            tasks.update(t as int, entered(tasks, t, rq.cpu, now)),
        )
    }
}

/// Whether a task can be put into a queue: it is in none, and a normal task is runnable.
pub open spec fn can_push(tasks: Seq<TaskView>, t: TaskId) -> bool {
    &&& t < tasks.len()
    &&& !tasks[t as int].linked
    &&& !tasks[t as int].priority.real_time() ==> tasks[t as int].status == TaskStatus::Runnable
}

pub proof fn lemma_insert_position(q: Seq<TaskId>, tasks: Seq<TaskView>, v: VRuntime)
    requires
        sorted(q, tasks),
    ensures
        0 <= insert_position(q, tasks, v) <= q.len(),
        forall|i: int|
            0 <= i < insert_position(q, tasks, v) ==> !vr_lt(v, vr(tasks, #[trigger] q[i])),
        forall|i: int|
            insert_position(q, tasks, v) <= i < q.len() ==> vr_lt(v, vr(tasks, #[trigger] q[i])),
    decreases q.len(),
{
    if q.len() > 0 {
        let p = q.drop_last();
        assert(sorted(p, tasks)) by {
            assert forall|i: int, j: int| 0 <= i < j < p.len() implies vr_lt(
                vr(tasks, #[trigger] p[i]),
                vr(tasks, #[trigger] p[j]),
            ) by {
                assert(p[i] == q[i] && p[j] == q[j]);
            }
        }
        if vr_lt(v, vr(tasks, q.last())) {
            lemma_insert_position(p, tasks, v);
            assert forall|i: int| 0 <= i < insert_position(q, tasks, v) implies !vr_lt(
                v,
                vr(tasks, #[trigger] q[i]),
            ) by {
                assert(p[i] == q[i]);
            }
            assert forall|i: int| insert_position(q, tasks, v) <= i < q.len() implies vr_lt(
                v,
                vr(tasks, #[trigger] q[i]),
            ) by {
                if i < p.len() {
                    assert(p[i] == q[i]);
                }
            }
        } else {
            let last = q.len() - 1;
            assert forall|i: int| 0 <= i < q.len() implies !vr_lt(
                v,
                vr(tasks, #[trigger] q[i]),
            ) by {
                if i < last {
                    assert(vr_lt(vr(tasks, q[i]), vr(tasks, q[last])));
                }
            }
        }
    }
}

/// A valid queue stays valid when a task is put into it, and so does the table.
pub proof fn lemma_pushed_wf(rq: RqView, tasks: Seq<TaskView>, t: TaskId, now: u64)
    requires
        rq_wf(rq, tasks),
        tasks_wf(tasks),
        can_push(tasks, t),
    ensures
        rq_wf(pushed(rq, tasks, t, now).0, pushed(rq, tasks, t, now).1),
        tasks_wf(pushed(rq, tasks, t, now).1),
        !tasks[t as int].priority.real_time() ==> {
            &&& rq.load + entering_vruntime(tasks, t, now).weight <= u64::MAX
            &&& rq.num < u64::MAX
        },
{
    let (rq2, tasks2) = pushed(rq, tasks, t, now);
    let q = rq.normal;
    assert(entity_wf(tasks, t as int));
    assert forall|u: int| 0 <= u < tasks2.len() implies #[trigger] entity_wf(tasks2, u) by {
        assert(entity_wf(tasks, u));
    }
    assert forall|i: int| 0 <= i < q.len() implies (#[trigger] q[i]) != t && vr(tasks2, q[i])
        == vr(tasks, q[i]) && normal_entry(tasks2, q[i]) by {
        assert(normal_entry(tasks, q[i]));
    }
    assert forall|i: int| 0 <= i < rq.real_time.len() implies (#[trigger] rq.real_time[i]) != t
        && real_time_entry(tasks2, rq.real_time[i]) by {
        assert(real_time_entry(tasks, rq.real_time[i]));
    }
    lemma_weight_frame(q, tasks, tasks2);
    if tasks[t as int].priority.real_time() {
        assert(rq2.real_time =~= rq.real_time.push(t));
        assert forall|i: int| 0 <= i < rq2.real_time.len() implies real_time_entry(
            tasks2,
            #[trigger] rq2.real_time[i],
        ) by {
            if i < rq.real_time.len() {
                assert(rq2.real_time[i] == rq.real_time[i]);
            }
        }
    } else {
        let v = entering_vruntime(tasks, t, now);
        let p = insert_position(q, tasks, v);
        lemma_insert_position(q, tasks, v);
        let r = q.insert(p, t);
        law_weights_bounded(tasks[t as int].priority.nice());
        assert(v.weight <= 88761);
        assert(v.key == t);
        assert(vr(tasks2, t) == v);
        lemma_weight_insert(q, tasks2, p, t);
        // The queue together with the new task has no more entries than the table.
        lemma_sorted_distinct(q, tasks);
        let all = q.push(t);
        assert(all.no_duplicates());
        assert forall|i: int| 0 <= i < all.len() implies (#[trigger] all[i]) < tasks.len() by {
            if i < q.len() {
                assert(all[i] == q[i]);
                assert(normal_entry(tasks, q[i]));
            }
        }
        lemma_distinct_bounded(all, tasks.len());
        lemma_weight_bound(q, tasks);
        assert(88761 * q.len() + 88761 <= u64::MAX);
        assert forall|i: int| 0 <= i < r.len() implies normal_entry(tasks2, #[trigger] r[i]) by {
            assert(r[i] == if i < p {
                q[i]
            } else if i == p {
                t
            } else {
                q[i - 1]
            });
            if i < p {
                assert(normal_entry(tasks2, q[i]));
            } else if i > p {
                assert(normal_entry(tasks2, q[i - 1]));
            }
        }
        assert(sorted(r, tasks2)) by {
            assert forall|i: int, j: int| 0 <= i < j < r.len() implies vr_lt(
                vr(tasks2, #[trigger] r[i]),
                vr(tasks2, #[trigger] r[j]),
            ) by {
                if i == p {
                    assert(r[j] == q[j - 1]);
                    assert(vr_lt(v, vr(tasks, q[j - 1])));
                } else if j == p {
                    assert(r[i] == q[i]);
                    assert(!vr_lt(v, vr(tasks, q[i])));
                    assert(entity_wf(tasks, q[i] as int));
                    assert(normal_entry(tasks, q[i]));
                } else {
                    let c = if i < p {
                        i
                    } else {
                        i - 1
                    };
                    let d = if j < p {
                        j
                    } else {
                        j - 1
                    };
                    assert(r[i] == q[c] && r[j] == q[d]);
                }
            }
        }
    }
}

impl RunQueue {
    /// An empty run queue.
    pub fn new(cpu: u32) -> (rq: Self)
        ensures
            rq@ == (RqView {
                cpu,
                real_time: Seq::empty(),
                normal: Seq::empty(),
                load: 0,
                num: 0,
            }),
            forall|tasks: Seq<TaskView>| #[trigger] rq_wf(rq@, tasks),
    {
        RunQueue {
            cpu,
            real_time_tasks: VecDeque::new(),
            normal_tasks: Vec::new(),
            load: 0,
            num: 0,
        }
    }

    /// Puts a task into the queue: a real-time task at the back, a normal task where its run time
    /// belongs. A normal task gets a run time if it has none, and is marked as waiting.
    pub fn push(&mut self, tasks: &mut TaskTable, task: TaskId, now: u64)
        requires
            rq_wf(old(self)@, old(tasks)@),
            tasks_wf(old(tasks)@),
            can_push(old(tasks)@, task),
        ensures
            (final(self)@, final(tasks)@) == pushed(old(self)@, old(tasks)@, task, now),
            rq_wf(final(self)@, final(tasks)@),
            tasks_wf(final(tasks)@),
    {
        proof {
            lemma_pushed_wf(self@, tasks@, task, now);
        }
        let ghost rq0 = self@;
        let ghost tasks0 = tasks@;
        if tasks.get(task).is_real_time() {
            tasks.get_mut(task).linked = true;
            self.real_time_tasks.push_back(task);
            assert(tasks@ =~= pushed(rq0, tasks0, task, now).1);
        } else {
            let cpu = self.cpu;
            let priority = tasks.get(task).priority();
            let ghost v = entering_vruntime(tasks0, task, now);
            let t = tasks.get_mut(task);
            t.task_status = TaskStatus::Ready(cpu);
            t.set_need_resched(false);
            t.linked = true;
            let vruntime: VRuntime = *t.sched_entity.entry_or_new(task, priority, now);
            assert(vruntime == v);
            assert(tasks@ =~= pushed(rq0, tasks0, task, now).1);
            self.load = self.load + vruntime.weight;
            self.num = self.num + 1;
            let mut i: usize = self.normal_tasks.len();
            assert(rq0.normal.take(i as int) =~= rq0.normal);
            while i > 0 && vruntime.precedes(
                tasks.get(self.normal_tasks[i - 1]).sched_entity.get().unwrap(),
            )
                invariant
                    i <= self.normal_tasks.len(),
                    self.normal_tasks@ == rq0.normal,
                    vruntime == v,
                    insert_position(rq0.normal, tasks0, v) == insert_position(
                        rq0.normal.take(i as int),
                        tasks0,
                        v,
                    ),
                    forall|k: int|
                        0 <= k < rq0.normal.len() ==> (#[trigger] rq0.normal[k]) < tasks@.len()
                            && tasks@[rq0.normal[k] as int].entity is Some && vr(
                            tasks@,
                            rq0.normal[k],
                        ) == vr(tasks0, rq0.normal[k]),
                decreases i,
            {
                assert(rq0.normal.take(i as int).drop_last() =~= rq0.normal.take(i - 1));
                assert(rq0.normal.take(i as int).last() == rq0.normal[i - 1]);
                i = i - 1;
            }
            if i > 0 {
                assert(rq0.normal.take(i as int).last() == rq0.normal[i - 1]);
            }
            self.normal_tasks.insert(i, task);
        }
    }
}

// Taking a task out of the queue.

/// Whether a task still waits for the CPU.
pub open spec fn ready(tasks: Seq<TaskView>, t: TaskId, cpu: u32) -> bool {
    tasks[t as int].status == TaskStatus::Ready(cpu)
}

/// Whether a task waits for the CPU and may run on the CPU `target`.
pub open spec fn eligible(tasks: Seq<TaskView>, t: TaskId, cpu: u32, target: u32) -> bool {
    ready(tasks, t, cpu) && in_set(tasks[t as int].affinity, target as int)
}

/// The place of the first eligible task of a queue, or its length if there is none.
pub open spec fn first_eligible(
    q: Seq<TaskId>,
    tasks: Seq<TaskView>,
    cpu: u32,
    target: u32,
) -> int
    decreases q.len(),
{
    if q.len() == 0 || eligible(tasks, q.first(), cpu, target) {
        0
    } else {
        1 + first_eligible(q.drop_first(), tasks, cpu, target)
    }
}

/// The tasks of a queue that still wait for the CPU, in their order.
pub open spec fn still_ready(q: Seq<TaskId>, tasks: Seq<TaskView>, cpu: u32) -> Seq<TaskId>
    decreases q.len(),
{
    if q.len() == 0 {
        q
    } else if ready(tasks, q.last(), cpu) {
        still_ready(q.drop_last(), tasks, cpu).push(q.last())
    } else {
        still_ready(q.drop_last(), tasks, cpu)
    }
}

/// The tasks after those of `q` that no longer wait for the CPU have left the queue.
pub open spec fn unlinked(tasks: Seq<TaskView>, q: Seq<TaskId>, cpu: u32) -> Seq<TaskView> {
    Seq::new(
        tasks.len(),
        |u: int|
            if q.contains(u as TaskId) && !ready(tasks, u as TaskId, cpu) {
                TaskView { linked: false, ..tasks[u] }
            } else {
                tasks[u]
            },
    )
}

/// A normal task after it was taken out of the queue to run: its run time counts from `now`.
pub open spec fn taken(task: TaskView, now: u64) -> TaskView {
    TaskView {
        status: TaskStatus::Runnable,
        entity: Some(VRuntime { start: now, ..task.entity->Some_0 }),
        linked: false,
        ..task
    }
}

/// The queue, the tasks and the task taken, after a task was asked for that may run on the CPU
/// `target`. A real-time task comes first, whatever its affinity. Else it is the first eligible
/// normal task; the tasks before it that no longer wait for the CPU leave the queue.
pub open spec fn popped(rq: RqView, tasks: Seq<TaskView>, target: u32, now: u64) -> (
    RqView,
    Seq<TaskView>,
    Option<TaskId>,
) {
    if rq.real_time.len() > 0 {
        let t = rq.real_time.first();
        (
            RqView { real_time: rq.real_time.drop_first(), ..rq },
            tasks.update(t as int, TaskView { linked: false, ..tasks[t as int] }),
            Some(t),
        )
    } else {
        let q = rq.normal;
        let k = first_eligible(q, tasks, rq.cpu, target);
        let kept = still_ready(q.take(k), tasks, rq.cpu) + if k < q.len() {
            q.skip(k + 1)
        } else {
            Seq::empty()
        };
        let rest = unlinked(tasks, q.take(k), rq.cpu);
        (
            RqView {
                normal: kept,
                load: total_weight(kept, tasks) as u64,
                num: kept.len() as u64,
                ..rq
            },
            if k < q.len() {
                rest.update(q[k] as int, taken(tasks[q[k] as int], now))
            } else {
                rest
            },
            if k < q.len() {
                Some(q[k])
            } else {
                None
            },
        )
    }
}

proof fn lemma_first_eligible(q: Seq<TaskId>, tasks: Seq<TaskView>, cpu: u32, target: u32)
    ensures
        0 <= first_eligible(q, tasks, cpu, target) <= q.len(),
        forall|i: int|
            0 <= i < first_eligible(q, tasks, cpu, target) ==> !eligible(
                tasks,
                #[trigger] q[i],
                cpu,
                target,
            ),
        first_eligible(q, tasks, cpu, target) < q.len() ==> eligible(
            tasks,
            q[first_eligible(q, tasks, cpu, target)],
            cpu,
            target,
        ),
    decreases q.len(),
{
    if q.len() > 0 && !eligible(tasks, q.first(), cpu, target) {
        let r = q.drop_first();
        lemma_first_eligible(r, tasks, cpu, target);
        let k = first_eligible(r, tasks, cpu, target);
        assert forall|i: int| 0 <= i < 1 + k implies !eligible(
            tasks,
            #[trigger] q[i],
            cpu,
            target,
        ) by {
            if i > 0 {
                assert(r[i - 1] == q[i]);
            }
        }
        if k < r.len() {
            assert(r[k] == q[1 + k]);
        }
    }
}

/// How the walk through a queue gets past one task.
proof fn lemma_walk_step(q: Seq<TaskId>, tasks: Seq<TaskView>, cpu: u32, j: int)
    requires
        0 <= j < q.len(),
        q.no_duplicates(),
        forall|i: int| 0 <= i < q.len() ==> (#[trigger] q[i]) < tasks.len(),
        tasks.len() <= u32::MAX,
    ensures
        still_ready(q.take(j + 1), tasks, cpu) == if ready(tasks, q[j], cpu) {
            still_ready(q.take(j), tasks, cpu).push(q[j])
        } else {
            still_ready(q.take(j), tasks, cpu)
        },
        unlinked(tasks, q.take(j + 1), cpu) == if ready(tasks, q[j], cpu) {
            unlinked(tasks, q.take(j), cpu)
        } else {
            unlinked(tasks, q.take(j), cpu).update(
                q[j] as int,
                TaskView { linked: false, ..tasks[q[j] as int] },
            )
        },
        unlinked(tasks, q.take(j), cpu)[q[j] as int] == tasks[q[j] as int],
        q.skip(j).drop_first() == q.skip(j + 1),
        q.skip(j).first() == q[j],
{
    assert(q.take(j + 1).drop_last() =~= q.take(j));
    assert(q.take(j + 1).last() == q[j]);
    assert(q.skip(j).drop_first() =~= q.skip(j + 1));
    let a = q.take(j);
    let b = q.take(j + 1);
    assert(!a.contains(q[j])) by {
        if a.contains(q[j]) {
            let i = choose|i: int| 0 <= i < a.len() && a[i] == q[j];
            assert(q[i] == q[j]);
        }
    }
    assert forall|t: TaskId| #[trigger] b.contains(t) <==> a.contains(t) || t == q[j] by {
        if b.contains(t) {
            let i = choose|i: int| 0 <= i < b.len() && b[i] == t;
            if i < j {
                assert(a[i] == t);
            }
        }
        if a.contains(t) {
            let i = choose|i: int| 0 <= i < a.len() && a[i] == t;
            assert(b[i] == t);
        }
        assert(b[j] == q[j]);
    }
    assert(unlinked(tasks, b, cpu) =~= if ready(tasks, q[j], cpu) {
        unlinked(tasks, a, cpu)
    } else {
        unlinked(tasks, a, cpu).update(
            q[j] as int,
            TaskView { linked: false, ..tasks[q[j] as int] },
        )
    });
}

impl RunQueue {
    /// Takes the next task out of the queue that may run on the CPU `target_cpu`, if there is
    /// one. This is not to be interrupted.
    pub fn pop(&mut self, tasks: &mut TaskTable, target_cpu: u32, now: u64) -> (r: Option<TaskId>)
        requires
            rq_wf(old(self)@, old(tasks)@),
            tasks_wf(old(tasks)@),
        ensures
            (final(self)@, final(tasks)@, r) == popped(old(self)@, old(tasks)@, target_cpu, now),
            rq_wf(final(self)@, final(tasks)@),
            tasks_wf(final(tasks)@),
            r matches Some(t) ==> t < final(tasks)@.len() && !final(tasks)@[t as int].linked,
    {
        let ghost rq0 = self@;
        let ghost tasks0 = tasks@;
        match self.real_time_tasks.pop_front() {
            Some(t) => {
                assert(t == rq0.real_time[0]);
                assert(real_time_entry(tasks0, rq0.real_time[0]));
                tasks.get_mut(t).linked = false;
                proof {
                    assert(self@.real_time =~= rq0.real_time.drop_first());
                    assert(tasks@ =~= popped(rq0, tasks0, target_cpu, now).1);
                    assert forall|i: int| 0 <= i < self@.real_time.len() implies real_time_entry(
                        tasks@,
                        #[trigger] self@.real_time[i],
                    ) by {
                        assert(self@.real_time[i] == rq0.real_time[i + 1]);
                        assert(real_time_entry(tasks0, rq0.real_time[i + 1]));
                    }
                    assert forall|i: int| 0 <= i < rq0.normal.len() implies normal_entry(
                        tasks@,
                        #[trigger] rq0.normal[i],
                    ) by {
                        assert(normal_entry(tasks0, rq0.normal[i]));
                    }
                    lemma_weight_frame(rq0.normal, tasks0, tasks@);
                    assert forall|u: int| 0 <= u < tasks@.len() implies #[trigger] entity_wf(
                        tasks@,
                        u,
                    ) by {
                        assert(entity_wf(tasks0, u));
                    }
                }
                return Some(t);
            },
            None => {},
        }
        let ghost q = rq0.normal;
        let cpu = self.cpu;
        let ghost mut j: int = 0;
        let mut i: usize = 0;
        proof {
            lemma_sorted_distinct(q, tasks0);
            lemma_first_eligible(q, tasks0, cpu, target_cpu);
            assert(q.skip(0) =~= q);
            assert(q.take(0) =~= Seq::<TaskId>::empty());
            assert(still_ready(q.take(0), tasks0, cpu) + q.skip(0) =~= q);
            assert(unlinked(tasks0, q.take(0), cpu) =~= tasks0);
            assert forall|k: int| 0 <= k < q.len() implies (#[trigger] q[k]) < tasks0.len() by {
                assert(normal_entry(tasks0, q[k]));
            }
        }
        while i < self.normal_tasks.len()
            invariant
                rq0 == old(self)@,
                tasks0 == old(tasks)@,
                0 <= j <= q.len(),
                q == rq0.normal,
                cpu == rq0.cpu,
                rq0.real_time.len() == 0,
                rq_wf(rq0, tasks0),
                tasks_wf(tasks0),
                tasks_wf(tasks@),
                q.no_duplicates(),
                forall|k: int| 0 <= k < q.len() ==> (#[trigger] q[k]) < tasks0.len(),
                rq_wf(self@, tasks@),
                self@.cpu == cpu,
                self@.real_time == rq0.real_time,
                self@.normal == still_ready(q.take(j), tasks0, cpu) + q.skip(j),
                i == still_ready(q.take(j), tasks0, cpu).len(),
                tasks@ == unlinked(tasks0, q.take(j), cpu),
                first_eligible(q, tasks0, cpu, target_cpu) == j + first_eligible(
                    q.skip(j),
                    tasks0,
                    cpu,
                    target_cpu,
                ),
            decreases q.len() - j,
        {
            let t = self.normal_tasks[i];
            assert(t == q[j]);
            assert(normal_entry(tasks@, self@.normal[i as int]));
            assert(normal_entry(tasks0, q[j]));
            let ghost before = self@;
            let ghost tasks1 = tasks@;
            proof {
                lemma_walk_step(q, tasks0, cpu, j);
                lemma_remove_normal(before, tasks1, i as int);
                assert(tasks1[t as int] == tasks0[t as int]);
            }
            let weight: u64 = tasks.get(t).sched_entity.get().unwrap().weight;
            if !tasks.get(t).status().is_ready(cpu) {
                self.load = self.load - weight;
                self.num = self.num - 1;
                let _ = self.normal_tasks.remove(i);
                tasks.get_mut(t).linked = false;
                proof {
                    assert(tasks@ =~= unlinked(tasks0, q.take(j + 1), cpu));
                    assert(self@.normal =~= still_ready(q.take(j + 1), tasks0, cpu) + q.skip(
                        j + 1,
                    ));
                    assert forall|u: int| 0 <= u < tasks@.len() implies #[trigger] entity_wf(
                        tasks@,
                        u,
                    ) by {
                        assert(entity_wf(tasks1, u));
                    }
                    j = j + 1;
                }
                continue;
            }
            if !tasks.get(t).cpu_affinity.contains(target_cpu) {
                proof {
                    assert(self@.normal =~= still_ready(q.take(j + 1), tasks0, cpu) + q.skip(
                        j + 1,
                    ));
                    j = j + 1;
                }
                i = i + 1;
                continue;
            }
            self.load = self.load - weight;
            self.num = self.num - 1;
            let _ = self.normal_tasks.remove(i);
            let task = tasks.get_mut(t);
            task.linked = false;
            match task.sched_entity.get_mut() {
                Some(v) => {
                    v.start = now;
                },
                None => {},
            }
            task.task_status = TaskStatus::Runnable;
            proof {
                let kept = still_ready(q.take(j), tasks0, cpu) + q.skip(j + 1);
                assert(self@.normal =~= kept);
                assert(eligible(tasks0, q.skip(j).first(), cpu, target_cpu));
                assert(first_eligible(q, tasks0, cpu, target_cpu) == j);
                let after = tasks1.update(t as int, TaskView { linked: false, ..tasks1[t as int] });
                assert(rq_wf(self@, after));
                assert(tasks@ =~= popped(rq0, tasks0, target_cpu, now).1);
                lemma_taken_frame(self@, tasks0, after, tasks@, t);
                assert(self@ == popped(rq0, tasks0, target_cpu, now).0);
                assert forall|u: int| 0 <= u < tasks@.len() implies #[trigger] entity_wf(
                    tasks@,
                    u,
                ) by {
                    assert(entity_wf(tasks1, u));
                }
            }
            return Some(t);
        }
        proof {
            assert(j == q.len());
            assert(q.skip(j) =~= Seq::<TaskId>::empty());
            lemma_weight_frame(self@.normal, tasks@, tasks0);
        }
        None
    }
}

/// A queue that does not hold `t` stays valid when only the status and run time of `t` change,
/// and its weight is also its weight by a table with the same run times.
proof fn lemma_taken_frame(
    rq: RqView,
    first: Seq<TaskView>,
    a: Seq<TaskView>,
    b: Seq<TaskView>,
    t: TaskId,
)
    requires
        rq_wf(rq, a),
        t < a.len(),
        a.len() == b.len(),
        first.len() == a.len(),
        !a[t as int].linked,
        forall|u: int| 0 <= u < a.len() && u != t ==> a[u] == #[trigger] b[u],
        forall|u: int| 0 <= u < a.len() ==> a[u].entity == (#[trigger] first[u]).entity,
    ensures
        rq_wf(rq, b),
        total_weight(rq.normal, b) == total_weight(rq.normal, first),
{
    assert forall|i: int| 0 <= i < rq.normal.len() implies normal_entry(b, #[trigger] rq.normal[i])
        && vr(b, rq.normal[i]) == vr(a, rq.normal[i]) && vr(first, rq.normal[i]) == vr(
        a,
        rq.normal[i],
    ) by {
        assert(normal_entry(a, rq.normal[i]));
        assert(rq.normal[i] != t);
    }
    assert forall|i: int| 0 <= i < rq.real_time.len() implies real_time_entry(
        b,
        #[trigger] rq.real_time[i],
    ) by {
        assert(real_time_entry(a, rq.real_time[i]));
    }
    lemma_weight_frame(rq.normal, a, b);
    lemma_weight_frame(rq.normal, first, b);
}

// Ticks of the running task.

/// The load that the running task is measured against: that of the waiting tasks and its own.
pub open spec fn load_with(rq: RqView, v: VRuntime) -> int {
    rq.load + v.weight
}

/// Whether a tick of the task `cur` can be taken: it is in no queue, and its run time, if it has
/// one, can be brought up to date without overflow.
pub open spec fn can_tick(
    rq: RqView,
    tasks: Seq<TaskView>,
    cur: TaskId,
    now: u64,
    params: PeriodParams,
) -> bool {
    &&& cur < tasks.len()
    &&& !tasks[cur as int].linked
    &&& tasks[cur as int].entity matches Some(v) ==> {
        &&& params.fits(rq.num)
        &&& load_with(rq, v) <= u64::MAX
        &&& v.can_tick(load_with(rq, v) as u64, params.period(rq.num) as u64, now)
    }
}

/// The run time of the running task after a tick, and whether it used up its slice.
pub open spec fn ticked(rq: RqView, v: VRuntime, now: u64, params: PeriodParams) -> (
    VRuntime,
    bool,
) {
    let load = load_with(rq, v) as u64;
    let period = params.period(rq.num) as u64;
    (v.ticked(load, period, now), v.slice_used(load, period, now))
}

/// The tasks after the queue was asked whether the running task should make way, and the answer:
/// it should if there is none, if it is not a normal task that has run, or if it used up its
/// slice.
pub open spec fn asked_to_preempt(
    rq: RqView,
    tasks: Seq<TaskView>,
    cur: Option<TaskId>,
    now: u64,
    params: PeriodParams,
) -> (Seq<TaskView>, bool) {
    match cur {
        None => (tasks, true),
        Some(c) => match tasks[c as int].entity {
            None => (tasks, true),
            Some(v) => {
                let (w, used) = ticked(rq, v, now, params);
                (tasks.update(c as int, TaskView { entity: Some(w), ..tasks[c as int] }), used)
            },
        },
    }
}

/// The tasks after a timer tick, or after the running task asked to yield. A task that yields, or
/// that used up its slice, is marked to be rescheduled; one that yields begins a new period.
pub open spec fn after_tick(
    rq: RqView,
    tasks: Seq<TaskView>,
    cur: Option<TaskId>,
    force_yield: bool,
    now: u64,
    params: PeriodParams,
) -> Seq<TaskView> {
    match cur {
        None => tasks,
        Some(c) => match tasks[c as int].entity {
            None => if force_yield {
                tasks.update(c as int, TaskView { need_resched: true, ..tasks[c as int] })
            } else {
                tasks
            },
            Some(v) => if force_yield {
                tasks.update(
                    c as int,
                    TaskView {
                        need_resched: true,
                        entity: Some(VRuntime { period_start: now, ..v }),
                        ..tasks[c as int]
                    },
                )
            } else {
                let (w, used) = ticked(rq, v, now, params);
                tasks.update(
                    c as int,
                    TaskView {
                        need_resched: used || tasks[c as int].need_resched,
                        entity: Some(w),
                        ..tasks[c as int]
                    },
                )
            },
        },
    }
}

/// A valid queue stays valid when a task that is in no queue changes, as long as it stays in no
/// queue; so does the table, if the change keeps its entries valid.
pub proof fn lemma_unqueued_change(rq: RqView, tasks: Seq<TaskView>, t: TaskId, task: TaskView)
    requires
        rq_wf(rq, tasks),
        t < tasks.len(),
        !tasks[t as int].linked,
    ensures
        rq_wf(rq, tasks.update(t as int, task)),
{
    let after = tasks.update(t as int, task);
    assert forall|i: int| 0 <= i < rq.normal.len() implies normal_entry(
        after,
        #[trigger] rq.normal[i],
    ) && vr(after, rq.normal[i]) == vr(tasks, rq.normal[i]) by {
        assert(normal_entry(tasks, rq.normal[i]));
    }
    assert forall|i: int| 0 <= i < rq.real_time.len() implies real_time_entry(
        after,
        #[trigger] rq.real_time[i],
    ) by {
        assert(real_time_entry(tasks, rq.real_time[i]));
    }
    lemma_weight_frame(rq.normal, tasks, after);
}

/// A table stays valid when one entry is replaced by a valid one.
pub proof fn lemma_tasks_change(tasks: Seq<TaskView>, t: TaskId, task: TaskView)
    requires
        tasks_wf(tasks),
        t < tasks.len(),
        task.priority == tasks[t as int].priority,
        task.entity matches Some(v) ==> {
            &&& !task.priority.real_time()
            &&& v.key == t
            &&& v.weight == weight_of(task.priority.nice())
        },
    ensures
        tasks_wf(tasks.update(t as int, task)),
{
    let after = tasks.update(t as int, task);
    assert forall|u: int| 0 <= u < after.len() implies #[trigger] entity_wf(after, u) by {
        assert(entity_wf(tasks, u));
    }
}

/// Whether the tasks that wait in the real-time part of a queue are runnable.
pub open spec fn real_time_runnable(rq: RqView, tasks: Seq<TaskView>) -> bool {
    forall|i: int|
        0 <= i < rq.real_time.len() ==> tasks[#[trigger] rq.real_time[i] as int].status
            == TaskStatus::Runnable
}

impl RunQueue {
    /// Whether the tasks that wait in the real-time part of the queue are runnable.
    pub fn real_time_is_runnable(&self, tasks: &TaskTable) -> (r: bool)
        requires
            rq_wf(self@, tasks@),
        ensures
            r == real_time_runnable(self@, tasks@),
    {
        let mut i: usize = 0;
        while i < self.real_time_tasks.len()
            invariant
                i <= self.real_time_tasks.len(),
                self@.real_time == self.real_time_tasks@,
                rq_wf(self@, tasks@),
                forall|k: int|
                    0 <= k < i ==> tasks@[#[trigger] self@.real_time[k] as int].status
                        == TaskStatus::Runnable,
            ensures
                i == self.real_time_tasks.len(),
            decreases self.real_time_tasks.len() - i,
        {
            assert(real_time_entry(tasks@, self@.real_time[i as int]));
            if !tasks.get(self.real_time_tasks[i]).status().is_runnable() {
                return false;
            }
            i += 1;
        }
        true
    }

    /// The length of the scheduling period of the waiting tasks.
    pub fn period(&self, params: &PeriodParams) -> (r: u64)
        requires
            params.fits(self@.num),
        ensures
            r == params.period(self@.num),
    {
        period(params, self.num)
    }

    /// The number of the CPU that the queue belongs to.
    pub fn cpu(&self) -> (r: u32)
        ensures
            r == self@.cpu,
    {
        self.cpu
    }

    /// The weight of the waiting normal tasks.
    pub fn load(&self) -> (r: u64)
        ensures
            r == self@.load,
    {
        self.load
    }

    /// The number of the waiting normal tasks.
    pub fn num(&self) -> (r: u64)
        ensures
            r == self@.num,
    {
        self.num
    }

    /// The waiting normal tasks, in the order in which they will run.
    pub fn normal_tasks(&self) -> (r: &Vec<TaskId>)
        ensures
            r@ == self@.normal,
    {
        &self.normal_tasks
    }

    /// Whether the run time of the running task can be brought up to date.
    pub fn tick_is_safe(
        &self,
        tasks: &TaskTable,
        cur: TaskId,
        now: u64,
        params: &PeriodParams,
    ) -> (r: bool)
        ensures
            r == can_tick(self@, tasks@, cur, now, *params),
    {
        if cur >= tasks.tasks.len() || tasks.get(cur).is_linked() {
            return false;
        }
        match tasks.get(cur).sched_entity.get() {
            None => true,
            Some(v) => {
                period_fits(params, self.num) && self.load <= u64::MAX - v.weight
                    && v.tick_is_safe(self.load + v.weight, self.period(params), now)
            },
        }
    }

    /// Brings the run time of the running task up to date and tells whether it should make way.
    pub fn should_preempt(
        &self,
        tasks: &mut TaskTable,
        cur: Option<TaskId>,
        now: u64,
        params: &PeriodParams,
    ) -> (r: bool)
        requires
            rq_wf(self@, old(tasks)@),
            tasks_wf(old(tasks)@),
            cur matches Some(c) ==> can_tick(self@, old(tasks)@, c, now, *params),
        ensures
            (final(tasks)@, r) == asked_to_preempt(self@, old(tasks)@, cur, now, *params),
            rq_wf(self@, final(tasks)@),
            tasks_wf(final(tasks)@),
    {
        let ghost tasks0 = tasks@;
        let c = match cur {
            None => {
                return true;
            },
            Some(c) => c,
        };
        let v: VRuntime = match tasks.get(c).sched_entity.get() {
            None => {
                return true;
            },
            Some(v) => *v,
        };
        proof {
            assert(entity_wf(tasks0, c as int));
            let after = asked_to_preempt(self@, tasks0, cur, now, *params).0;
            lemma_unqueued_change(self@, tasks0, c, after[c as int]);
            lemma_tasks_change(tasks0, c, after[c as int]);
        }
        let mut w = v;
        let used = w.tick(self.load + v.weight, self.period(params), now);
        match tasks.get_mut(c).sched_entity.get_mut() {
            Some(slot) => {
                *slot = w;
            },
            None => {},
        }
        assert(tasks@ =~= asked_to_preempt(self@, tasks0, cur, now, *params).0);
        used
    }

    /// Takes a tick of the running task: from the timer, or because it yields.
    pub fn tick(
        &self,
        tasks: &mut TaskTable,
        cur: Option<TaskId>,
        force_yield: bool,
        now: u64,
        params: &PeriodParams,
    )
        requires
            rq_wf(self@, old(tasks)@),
            tasks_wf(old(tasks)@),
            cur matches Some(c) ==> c < old(tasks)@.len() && !old(tasks)@[c as int].linked && (
            force_yield || can_tick(self@, old(tasks)@, c, now, *params)),
        ensures
            final(tasks)@ == after_tick(self@, old(tasks)@, cur, force_yield, now, *params),
            rq_wf(self@, final(tasks)@),
            tasks_wf(final(tasks)@),
    {
        let ghost tasks0 = tasks@;
        let c = match cur {
            None => {
                return ;
            },
            Some(c) => c,
        };
        let v: VRuntime = match tasks.get(c).sched_entity.get() {
            None => {
                if force_yield {
                    proof {
                        let after = after_tick(self@, tasks0, cur, force_yield, now, *params);
                        lemma_unqueued_change(self@, tasks0, c, after[c as int]);
                        lemma_tasks_change(tasks0, c, after[c as int]);
                    }
                    tasks.get_mut(c).set_need_resched(true);
                    assert(tasks@ =~= after_tick(self@, tasks0, cur, force_yield, now, *params));
                }
                return ;
            },
            Some(v) => *v,
        };
        proof {
            assert(entity_wf(tasks0, c as int));
            let after = after_tick(self@, tasks0, cur, force_yield, now, *params);
            lemma_unqueued_change(self@, tasks0, c, after[c as int]);
            lemma_tasks_change(tasks0, c, after[c as int]);
        }
        let mut w = v;
        let task = tasks.get_mut(c);
        if force_yield {
            task.set_need_resched(true);
            w.period_start = now;
        } else if w.tick(self.load + v.weight, self.period(params), now) {
            task.set_need_resched(true);
        }
        match task.sched_entity.get_mut() {
            Some(slot) => {
                *slot = w;
            },
            None => {},
        }
        assert(tasks@ =~= after_tick(self@, tasks0, cur, force_yield, now, *params));
    }
}

// Laws.

/// Real-time tasks are always taken first, in the order in which they came, and normal tasks wait
/// untouched until there are none.
pub proof fn law_real_time_first(rq: RqView, tasks: Seq<TaskView>, target: u32, now: u64)
    requires
        rq.real_time.len() > 0,
    ensures
        popped(rq, tasks, target, now).2 == Some(rq.real_time[0]),
        popped(rq, tasks, target, now).0.normal == rq.normal,
        popped(rq, tasks, target, now).0.real_time == rq.real_time.skip(1),
{
    assert(rq.real_time.drop_first() =~= rq.real_time.skip(1));
}

/// The normal task that is taken is the one that ran least, by virtual run time, of all waiting
/// tasks that may run on the CPU.
pub proof fn law_pop_takes_least(rq: RqView, tasks: Seq<TaskView>, target: u32, now: u64)
    requires
        rq_wf(rq, tasks),
        rq.real_time.len() == 0,
        popped(rq, tasks, target, now).2 is Some,
    ensures
        ({
            let t = popped(rq, tasks, target, now).2->Some_0;
            &&& rq.normal.contains(t)
            &&& eligible(tasks, t, rq.cpu, target)
            &&& forall|u: TaskId|
                #[trigger] rq.normal.contains(u) && eligible(tasks, u, rq.cpu, target) && u != t
                    ==> vr_lt(vr(tasks, t), vr(tasks, u))
        }),
{
    let q = rq.normal;
    let k = first_eligible(q, tasks, rq.cpu, target);
    lemma_first_eligible(q, tasks, rq.cpu, target);
    let t = q[k];
    assert(q.contains(t));
    assert forall|u: TaskId| #[trigger]
        q.contains(u) && eligible(tasks, u, rq.cpu, target) && u != t implies vr_lt(
        vr(tasks, t),
        vr(tasks, u),
    ) by {
        let i = choose|i: int| 0 <= i < q.len() && q[i] == u;
        assert(i > k);
    }
}

/// Nothing is taken only if no real-time task waits and no normal task that may run on the CPU
/// does.
pub proof fn law_pop_none(rq: RqView, tasks: Seq<TaskView>, target: u32, now: u64)
    ensures
        popped(rq, tasks, target, now).2 is None <==> {
            &&& rq.real_time.len() == 0
            &&& forall|i: int|
                0 <= i < rq.normal.len() ==> !eligible(
                    tasks,
                    #[trigger] rq.normal[i],
                    rq.cpu,
                    target,
                )
        },
{
    lemma_first_eligible(rq.normal, tasks, rq.cpu, target);
}

proof fn lemma_still_ready_contains(q: Seq<TaskId>, tasks: Seq<TaskView>, cpu: u32, t: TaskId)
    ensures
        still_ready(q, tasks, cpu).contains(t) <==> q.contains(t) && ready(tasks, t, cpu),
    decreases q.len(),
{
    if q.len() > 0 {
        let p = q.drop_last();
        lemma_still_ready_contains(p, tasks, cpu, t);
        assert(q.contains(t) <==> p.contains(t) || t == q.last()) by {
            if q.contains(t) {
                let i = choose|i: int| 0 <= i < q.len() && q[i] == t;
                if i < p.len() {
                    assert(p[i] == t);
                }
            }
            if p.contains(t) {
                let i = choose|i: int| 0 <= i < p.len() && p[i] == t;
                assert(q[i] == t);
            }
            assert(q[q.len() - 1] == q.last());
        }
        let s = still_ready(p, tasks, cpu);
        if ready(tasks, q.last(), cpu) {
            assert(s.push(q.last()).contains(t) <==> s.contains(t) || t == q.last()) by {
                if s.contains(t) {
                    let i = choose|i: int| 0 <= i < s.len() && s[i] == t;
                    assert(s.push(q.last())[i] == t);
                }
                assert(s.push(q.last())[s.len() as int] == q.last());
            }
        }
    }
}

/// Whether a task waits in a queue.
pub open spec fn waits(rq: RqView, t: TaskId) -> bool {
    rq.normal.contains(t) || rq.real_time.contains(t)
}

/// Whether a task waits for its turn: in the queue, and not with a status that has it dropped.
pub open spec fn due(rq: RqView, tasks: Seq<TaskView>, t: TaskId) -> bool {
    rq.normal.contains(t) && ready(tasks, t, rq.cpu) || rq.real_time.contains(t)
}

/// A queue stays valid when only tasks change that do not wait in it.
pub proof fn lemma_queue_frame(rq: RqView, a: Seq<TaskView>, b: Seq<TaskView>)
    requires
        rq_wf(rq, a),
        a.len() <= b.len(),
        forall|t: TaskId| t < a.len() && #[trigger] waits(rq, t) ==> b[t as int] == a[t as int],
    ensures
        rq_wf(rq, b),
{
    assert forall|i: int| 0 <= i < rq.normal.len() implies normal_entry(b, #[trigger] rq.normal[i])
        && vr(a, rq.normal[i]) == vr(b, rq.normal[i]) by {
        assert(normal_entry(a, rq.normal[i]));
        assert(rq.normal.contains(rq.normal[i]));
        assert(waits(rq, rq.normal[i]));
    }
    assert forall|i: int| 0 <= i < rq.real_time.len() implies real_time_entry(
        b,
        #[trigger] rq.real_time[i],
    ) by {
        assert(real_time_entry(a, rq.real_time[i]));
        assert(rq.real_time.contains(rq.real_time[i]));
        assert(waits(rq, rq.real_time[i]));
    }
    lemma_weight_frame(rq.normal, a, b);
}

proof fn lemma_still_ready_len(q: Seq<TaskId>, tasks: Seq<TaskView>, cpu: u32)
    ensures
        still_ready(q, tasks, cpu).len() <= q.len(),
    decreases q.len(),
{
    if q.len() > 0 {
        lemma_still_ready_len(q.drop_last(), tasks, cpu);
    }
}

/// A task that is taken leaves the queue shorter.
pub proof fn lemma_popped_shrinks(rq: RqView, tasks: Seq<TaskView>, target: u32, now: u64)
    ensures
        ({
            let (rq2, tasks2, r) = popped(rq, tasks, target, now);
            r is Some ==> rq2.real_time.len() + rq2.normal.len() < rq.real_time.len()
                + rq.normal.len()
        }),
{
    let k = first_eligible(rq.normal, tasks, rq.cpu, target);
    lemma_first_eligible(rq.normal, tasks, rq.cpu, target);
    lemma_still_ready_len(rq.normal.take(k), tasks, rq.cpu);
}

/// What asking for a task touches: only tasks that waited in the queue. What waits afterwards
/// waited before.
pub proof fn lemma_popped_frame(rq: RqView, tasks: Seq<TaskView>, target: u32, now: u64)
    requires
        rq_wf(rq, tasks),
        tasks_wf(tasks),
    ensures
        ({
            let (rq2, tasks2, r) = popped(rq, tasks, target, now);
            &&& tasks2.len() == tasks.len()
            &&& rq2.cpu == rq.cpu
            &&& forall|t: TaskId|
                t < tasks.len() && !#[trigger] waits(rq, t) ==> tasks2[t as int] == tasks[t as int]
            &&& forall|t: TaskId| #[trigger] waits(rq2, t) ==> waits(rq, t)
            &&& r matches Some(t) ==> waits(rq, t)
        }),
{
    let (rq2, tasks2, r) = popped(rq, tasks, target, now);
    if rq.real_time.len() > 0 {
        let s = rq.real_time.drop_first();
        assert(rq.real_time.contains(rq.real_time[0]));
        assert(real_time_entry(tasks, rq.real_time[0]));
        assert forall|t: TaskId| #[trigger] waits(rq2, t) implies waits(rq, t) by {
            if s.contains(t) {
                let i = choose|i: int| 0 <= i < s.len() && s[i] == t;
                assert(rq.real_time[i + 1] == t);
            }
        }
    } else {
        let q = rq.normal;
        let k = first_eligible(q, tasks, rq.cpu, target);
        lemma_first_eligible(q, tasks, rq.cpu, target);
        let p = q.take(k);
        let front = still_ready(p, tasks, rq.cpu);
        let back = if k < q.len() {
            q.skip(k + 1)
        } else {
            Seq::empty()
        };
        assert forall|t: TaskId| p.contains(t) implies #[trigger] q.contains(t) by {
            let i = choose|i: int| 0 <= i < p.len() && p[i] == t;
            assert(q[i] == t);
        }
        if k < q.len() {
            assert(q.contains(q[k]));
            assert(normal_entry(tasks, q[k]));
        }
        assert forall|t: TaskId| t < tasks.len() && !#[trigger] waits(rq, t) implies tasks2[t as int]
            == tasks[t as int] by {
            assert(!q.contains(t));
            assert(!p.contains(t));
        }
        assert forall|t: TaskId| #[trigger] waits(rq2, t) implies waits(rq, t) by {
            let i = choose|i: int| 0 <= i < rq2.normal.len() && rq2.normal[i] == t;
            if i < front.len() {
                assert(front[i] == t);
                lemma_still_ready_contains(p, tasks, rq.cpu, t);
                assert(q.contains(t));
            } else {
                assert(back[i - front.len()] == t);
                assert(q[k + 1 + (i - front.len())] == t);
            }
        }
    }
}

/// A queue from whose first `j` tasks those have left that no longer wait for the CPU is valid.
proof fn lemma_walk_wf(rq: RqView, tasks: Seq<TaskView>, j: int)
    requires
        rq_wf(rq, tasks),
        tasks_wf(tasks),
        0 <= j <= rq.normal.len(),
    ensures
        ({
            let left = still_ready(rq.normal.take(j), tasks, rq.cpu) + rq.normal.skip(j);
            &&& rq_wf(
                RqView {
                    normal: left,
                    load: total_weight(left, tasks) as u64,
                    num: left.len() as u64,
                    ..rq
                },
                unlinked(tasks, rq.normal.take(j), rq.cpu),
            )
            &&& total_weight(left, tasks) <= u64::MAX
            &&& left.len() <= u64::MAX
        }),
    decreases j,
{
    let q = rq.normal;
    let left = still_ready(q.take(j), tasks, rq.cpu) + q.skip(j);
    if j == 0 {
        assert(left =~= q);
        assert(unlinked(tasks, q.take(0), rq.cpu) =~= tasks);
    } else {
        let i = j - 1;
        lemma_walk_wf(rq, tasks, i);
        lemma_sorted_distinct(q, tasks);
        assert forall|k: int| 0 <= k < q.len() implies (#[trigger] q[k]) < tasks.len() by {
            assert(normal_entry(tasks, q[k]));
        }
        lemma_walk_step(q, tasks, rq.cpu, i);
        let front = still_ready(q.take(i), tasks, rq.cpu);
        let before = front + q.skip(i);
        let tasks1 = unlinked(tasks, q.take(i), rq.cpu);
        let rq1 = RqView {
            normal: before,
            load: total_weight(before, tasks) as u64,
            num: before.len() as u64,
            ..rq
        };
        if ready(tasks, q[i], rq.cpu) {
            assert(left =~= before);
        } else {
            let p = front.len() as int;
            assert(before[p] == q[i]);
            assert(left =~= before.remove(p));
            lemma_remove_normal(rq1, tasks1, p);
            lemma_weight_remove(before, tasks, p);
        }
    }
}

/// A valid queue stays valid when a task is asked for, and so does the table.
pub proof fn lemma_popped_wf(rq: RqView, tasks: Seq<TaskView>, target: u32, now: u64)
    requires
        rq_wf(rq, tasks),
        tasks_wf(tasks),
    ensures
        ({
            let (rq2, tasks2, r) = popped(rq, tasks, target, now);
            &&& rq_wf(rq2, tasks2)
            &&& tasks_wf(tasks2)
            &&& r matches Some(t) ==> {
                &&& t < tasks2.len()
                &&& !tasks2[t as int].linked
                &&& tasks[t as int].linked
                &&& tasks2[t as int].priority == tasks[t as int].priority
                &&& can_push(tasks2, t)
                &&& tasks[t as int].priority.real_time() ==> rq.real_time.contains(t)
                    && tasks2[t as int].status == tasks[t as int].status
            }
        }),
{
    let (rq2, tasks2, r) = popped(rq, tasks, target, now);
    let q = rq.normal;
    if rq.real_time.len() > 0 {
        let t = rq.real_time[0];
        let s = rq.real_time;
        assert(s.contains(t));
        assert(real_time_entry(tasks, t));
        assert(entity_wf(tasks, t as int));
        lemma_tasks_change(tasks, t, tasks2[t as int]);
        assert forall|i: int| 0 <= i < rq2.real_time.len() implies real_time_entry(
            tasks2,
            #[trigger] rq2.real_time[i],
        ) by {
            assert(rq2.real_time[i] == s[i + 1]);
            assert(real_time_entry(tasks, s[i + 1]));
        }
        assert forall|i: int| 0 <= i < q.len() implies normal_entry(tasks2, #[trigger] q[i]) by {
            assert(normal_entry(tasks, q[i]));
        }
        lemma_weight_frame(q, tasks, tasks2);
    } else {
        let k = first_eligible(q, tasks, rq.cpu, target);
        lemma_first_eligible(q, tasks, rq.cpu, target);
        lemma_walk_wf(rq, tasks, k);
        let front = still_ready(q.take(k), tasks, rq.cpu);
        let left = front + q.skip(k);
        let tasks1 = unlinked(tasks, q.take(k), rq.cpu);
        assert forall|u: int| 0 <= u < tasks2.len() implies #[trigger] entity_wf(tasks2, u) by {
            assert(entity_wf(tasks, u));
        }
        if k < q.len() {
            let t = q[k];
            let p = front.len() as int;
            let rq1 = RqView {
                normal: left,
                load: total_weight(left, tasks) as u64,
                num: left.len() as u64,
                ..rq
            };
            assert(left[p] == t);
            assert(normal_entry(tasks, t));
            lemma_remove_normal(rq1, tasks1, p);
            lemma_weight_remove(left, tasks, p);
            assert(left.remove(p) =~= rq2.normal);
            lemma_sorted_distinct(q, tasks);
            assert forall|i: int| 0 <= i < q.len() implies (#[trigger] q[i]) < tasks.len() by {
                assert(normal_entry(tasks, q[i]));
            }
            lemma_walk_step(q, tasks, rq.cpu, k);
            let after = tasks1.update(t as int, TaskView { linked: false, ..tasks1[t as int] });
            lemma_taken_frame(rq2, tasks, after, tasks2, t);
        } else {
            assert(left =~= rq2.normal);
        }
    }
}

/// A task that waits for its turn is either the one that is taken or waits on.
pub proof fn law_pop_keeps_waiting(
    rq: RqView,
    tasks: Seq<TaskView>,
    target: u32,
    now: u64,
    t: TaskId,
)
    requires
        rq_wf(rq, tasks),
        tasks_wf(tasks),
        due(rq, tasks, t),
    ensures
        ({
            let (rq2, tasks2, r) = popped(rq, tasks, target, now);
            r == Some(t) || due(rq2, tasks2, t)
        }),
{
    let (rq2, tasks2, r) = popped(rq, tasks, target, now);
    if rq.real_time.len() > 0 {
        if rq.real_time.contains(t) && r != Some(t) {
            let i = choose|i: int| 0 <= i < rq.real_time.len() && rq.real_time[i] == t;
            assert(rq2.real_time[i - 1] == t);
        }
    } else {
        let q = rq.normal;
        let k = first_eligible(q, tasks, rq.cpu, target);
        lemma_first_eligible(q, tasks, rq.cpu, target);
        let i = choose|i: int| 0 <= i < q.len() && q[i] == t;
        assert(normal_entry(tasks, q[i]));
        let front = still_ready(q.take(k), tasks, rq.cpu);
        if i < k {
            assert(q.take(k)[i] == t);
            lemma_still_ready_contains(q.take(k), tasks, rq.cpu, t);
            let j = choose|j: int| 0 <= j < front.len() && front[j] == t;
            assert(rq2.normal[j] == t);
        } else if i > k {
            assert(q.skip(k + 1)[i - k - 1] == t);
            assert(rq2.normal[front.len() + (i - k - 1)] == t);
        }
    }
}

/// A task that is added waits for its turn, and so does every one that did before.
pub proof fn law_push_waits(rq: RqView, tasks: Seq<TaskView>, t: TaskId, now: u64, u: TaskId)
    requires
        rq_wf(rq, tasks),
        tasks_wf(tasks),
        can_push(tasks, t),
        u == t || due(rq, tasks, u),
    ensures
        due(pushed(rq, tasks, t, now).0, pushed(rq, tasks, t, now).1, u),
{
    let rq2 = pushed(rq, tasks, t, now).0;
    if rq.real_time.contains(u) {
        let i = choose|i: int| 0 <= i < rq.real_time.len() && rq.real_time[i] == u;
        assert(real_time_entry(tasks, rq.real_time[i]));
        assert(rq2.real_time[i] == u);
    }
    if tasks[t as int].priority.real_time() {
        assert(rq2.real_time[rq.real_time.len() as int] == t);
        if rq.normal.contains(u) {
            let i = choose|i: int| 0 <= i < rq.normal.len() && rq.normal[i] == u;
            assert(normal_entry(tasks, rq.normal[i]));
        }
    } else {
        let v = entering_vruntime(tasks, t, now);
        let p = insert_position(rq.normal, tasks, v);
        lemma_insert_position(rq.normal, tasks, v);
        assert(rq2.normal[p] == t);
        if rq.normal.contains(u) {
            let i = choose|i: int| 0 <= i < rq.normal.len() && rq.normal[i] == u;
            assert(normal_entry(tasks, rq.normal[i]));
            if i < p {
                assert(rq2.normal[i] == u);
            } else {
                assert(rq2.normal[i + 1] == u);
            }
        }
    }
}

/// A normal task that is put into an empty queue and may run on the CPU is the next one taken,
/// and is then runnable and in no queue again, with the run time it entered with.
pub proof fn law_pop_gives_back_push(
    rq: RqView,
    tasks: Seq<TaskView>,
    t: TaskId,
    target: u32,
    now: u64,
    later: u64,
)
    requires
        rq_wf(rq, tasks),
        tasks_wf(tasks),
        can_push(tasks, t),
        !tasks[t as int].priority.real_time(),
        rq.real_time.len() == 0,
        rq.normal.len() == 0,
        in_set(tasks[t as int].affinity, target as int),
    ensures
        ({
            let (rq1, tasks1) = pushed(rq, tasks, t, now);
            let (rq2, tasks2, r) = popped(rq1, tasks1, target, later);
            &&& r == Some(t)
            &&& rq2 == rq
            &&& tasks2[t as int] == (TaskView {
                status: TaskStatus::Runnable,
                need_resched: false,
                entity: Some(
                    VRuntime { start: later, ..entering_vruntime(tasks, t, now) },
                ),
                linked: false,
                ..tasks[t as int]
            })
        }),
{
    let (rq1, tasks1) = pushed(rq, tasks, t, now);
    let q = rq1.normal;
    assert(rq.normal =~= Seq::<TaskId>::empty());
    assert(q =~= seq![t]);
    assert(eligible(tasks1, q.first(), rq.cpu, target));
    assert(first_eligible(q, tasks1, rq.cpu, target) == 0);
    assert(q.take(0) =~= Seq::<TaskId>::empty());
    assert(q.skip(1) =~= Seq::<TaskId>::empty());
    let kept = still_ready(q.take(0), tasks1, rq.cpu) + q.skip(1);
    assert(kept =~= rq.normal);
    assert(total_weight(kept, tasks1) == 0);
}

/// A task that is put into the queue is the only one that changes. A real-time task goes to the
/// back of the real-time tasks and only becomes linked. A normal task adds one to the number and
/// its own weight to the load, waits for this CPU, and keeps the run time that it has, or begins
/// one now. It stands behind all that come before it in the order of run times and before all
/// others, and none of these changes places.
pub proof fn law_push_adds_one(rq: RqView, tasks: Seq<TaskView>, t: TaskId, now: u64)
    requires
        rq_wf(rq, tasks),
        tasks_wf(tasks),
        can_push(tasks, t),
    ensures
        ({
            let (rq2, tasks2) = pushed(rq, tasks, t, now);
            let (task, task2) = (tasks[t as int], tasks2[t as int]);
            &&& tasks2.len() == tasks.len()
            &&& forall|u: int| 0 <= u < tasks.len() && u != t ==> #[trigger] tasks2[u] == tasks[u]
            &&& rq2.cpu == rq.cpu
            &&& task2.linked
            &&& task.priority.real_time() ==> {
                &&& rq2 == (RqView { real_time: rq.real_time.push(t), ..rq })
                &&& task2 == (TaskView { linked: true, ..task })
            }
            &&& !task.priority.real_time() ==> {
                &&& rq2.real_time == rq.real_time
                &&& rq2.num == rq.num + 1
                &&& rq2.load == rq.load + weight_of(task.priority.nice())
                &&& task2.status == TaskStatus::Ready(rq.cpu)
                &&& !task2.need_resched
                &&& task2.priority == task.priority
                &&& task2.affinity == task.affinity
                &&& task.entity is Some ==> task2.entity == task.entity
                &&& task.entity is None ==> (task2.entity matches Some(v) && v.vruntime == 0
                    && v.start == now && v.period_start == now && v.key == t)
                &&& exists|p: int|
                    {
                        &&& 0 <= p <= rq.normal.len()
                        &&& #[trigger] rq2.normal[p] == t
                        &&& forall|i: int|
                            0 <= i < p ==> #[trigger] rq2.normal[i] == rq.normal[i] && vr_lt(
                                vr(tasks2, rq2.normal[i]),
                                vr(tasks2, t),
                            )
                        &&& forall|i: int|
                            p <= i < rq.normal.len() ==> rq2.normal[i + 1] == #[trigger] rq.normal[i]
                                && vr_lt(vr(tasks2, t), vr(tasks2, rq.normal[i]))
                    }
            }
        }),
{
    let (rq2, tasks2) = pushed(rq, tasks, t, now);
    lemma_pushed_wf(rq, tasks, t, now);
    assert(entity_wf(tasks, t as int));
    if !tasks[t as int].priority.real_time() {
        let v = entering_vruntime(tasks, t, now);
        let p = insert_position(rq.normal, tasks, v);
        lemma_insert_position(rq.normal, tasks, v);
        assert(rq2.normal[p] == t);
        assert forall|i: int| 0 <= i < p implies #[trigger] rq2.normal[i] == rq.normal[i] && vr_lt(
            vr(tasks2, rq2.normal[i]),
            vr(tasks2, t),
        ) by {
            assert(vr_lt(vr(tasks2, rq2.normal[i]), vr(tasks2, rq2.normal[p])));
        }
        assert forall|i: int| p <= i < rq.normal.len() implies rq2.normal[i + 1]
            == #[trigger] rq.normal[i] && vr_lt(vr(tasks2, t), vr(tasks2, rq.normal[i])) by {
            assert(vr_lt(vr(tasks2, rq2.normal[p]), vr(tasks2, rq2.normal[i + 1])));
        }
    }
}

/// Of a queue all of whose tasks still wait for the CPU, nothing but the task that is taken leaves.
proof fn lemma_all_ready(q: Seq<TaskId>, tasks: Seq<TaskView>, cpu: u32)
    requires
        forall|i: int| 0 <= i < q.len() ==> ready(tasks, #[trigger] q[i], cpu),
    ensures
        still_ready(q, tasks, cpu) == q,
        unlinked(tasks, q, cpu) == tasks,
    decreases q.len(),
{
    if q.len() > 0 {
        let p = q.drop_last();
        assert forall|i: int| 0 <= i < p.len() implies ready(tasks, #[trigger] p[i], cpu) by {
            assert(p[i] == q[i]);
        }
        lemma_all_ready(p, tasks, cpu);
        assert(ready(tasks, q[q.len() - 1], cpu));
        assert(p.push(q.last()) =~= q);
    }
    assert forall|u: int| 0 <= u < tasks.len() implies unlinked(tasks, q, cpu)[u]
        == #[trigger] tasks[u] by {
        if q.contains(u as TaskId) {
            let i = choose|i: int| 0 <= i < q.len() && q[i] == u as TaskId;
            assert(ready(tasks, q[i], cpu));
        }
    }
    assert(unlinked(tasks, q, cpu) =~= tasks);
}

/// Taking a task from a queue all of whose normal tasks still wait for the CPU takes that task and
/// nothing else: a normal one takes one from the number and its own weight from the load, a real-
/// time one neither, and where none is taken all stays as it was. The order of the others stays.
pub proof fn law_pop_takes_one(rq: RqView, tasks: Seq<TaskView>, target: u32, now: u64)
    requires
        rq_wf(rq, tasks),
        tasks_wf(tasks),
        forall|i: int| 0 <= i < rq.normal.len() ==> ready(tasks, #[trigger] rq.normal[i], rq.cpu),
    ensures
        ({
            let (rq2, tasks2, r) = popped(rq, tasks, target, now);
            match r {
                None => rq2 == rq && tasks2 == tasks,
                Some(t) => {
                    let weight = if tasks[t as int].priority.real_time() {
                        0
                    } else {
                        weight_of(tasks[t as int].priority.nice()) as int
                    };
                    &&& rq2.load == rq.load - weight
                    &&& rq2.num == if tasks[t as int].priority.real_time() {
                        rq.num as int
                    } else {
                        rq.num - 1
                    }
                    &&& tasks2 == tasks.update(t as int, tasks2[t as int])
                    &&& exists|i: int| #![trigger rq.normal[i]]
                        0 <= i < rq.normal.len() && rq.normal[i] == t && rq2.normal
                            == rq.normal.remove(i) || rq2.normal == rq.normal && rq.real_time.len()
                            > 0 && rq.real_time[0] == t
                },
            }
        }),
{
    let (rq2, tasks2, r) = popped(rq, tasks, target, now);
    let q = rq.normal;
    if rq.real_time.len() > 0 {
        let t = rq.real_time[0];
        assert(real_time_entry(tasks, t));
        assert(rq2.normal == q && rq.real_time[0] == t);
        let i: int = 0;
        assert(q[i] == q[i]);
    } else {
        let k = first_eligible(q, tasks, rq.cpu, target);
        lemma_first_eligible(q, tasks, rq.cpu, target);
        assert forall|i: int| 0 <= i < q.take(k).len() implies ready(
            tasks,
            #[trigger] q.take(k)[i],
            rq.cpu,
        ) by {
            assert(q.take(k)[i] == q[i]);
        }
        lemma_all_ready(q.take(k), tasks, rq.cpu);
        if k < q.len() {
            assert(rq2.normal =~= q.remove(k));
            lemma_weight_remove(q, tasks, k);
            assert(normal_entry(tasks, q[k]));
            assert(entity_wf(tasks, q[k] as int));
            assert(q[k] == r->Some_0);
        } else {
            assert(rq2.normal =~= q);
        }
    }
}

/// A normal task that is taken runs: it is runnable and in no queue, its run time counts from now
/// and is otherwise as it was. A real-time task only leaves the queue. A task that is dropped
/// because it no longer waits for the CPU only leaves the queue, too, and no other task changes.
pub proof fn law_pop_changes_little(
    rq: RqView,
    tasks: Seq<TaskView>,
    target: u32,
    now: u64,
    u: TaskId,
)
    requires
        rq_wf(rq, tasks),
        tasks_wf(tasks),
        u < tasks.len(),
    ensures
        ({
            let (rq2, tasks2, r) = popped(rq, tasks, target, now);
            let (task, task2) = (tasks[u as int], tasks2[u as int]);
            &&& r == Some(u) && task.priority.real_time() ==> task2 == (TaskView {
                linked: false,
                ..task
            })
            &&& r == Some(u) && !task.priority.real_time() ==> {
                &&& task2.status == TaskStatus::Runnable
                &&& !task2.linked
                &&& task2.entity matches Some(v) && v == (VRuntime {
                    start: now,
                    ..task.entity->Some_0
                })
                &&& task2 == (TaskView {
                    status: task2.status,
                    entity: task2.entity,
                    linked: task2.linked,
                    ..task
                })
            }
            &&& r != Some(u) ==> task2 == task || {
                &&& rq.normal.contains(u)
                &&& task.status != TaskStatus::Ready(rq.cpu)
                &&& !waits(rq2, u)
                &&& task2 == (TaskView { linked: false, ..task })
            }
        }),
{
    let (rq2, tasks2, r) = popped(rq, tasks, target, now);
    if rq.real_time.len() > 0 {
        assert(real_time_entry(tasks, rq.real_time[0]));
    } else {
        let q = rq.normal;
        let k = first_eligible(q, tasks, rq.cpu, target);
        lemma_first_eligible(q, tasks, rq.cpu, target);
        if k < q.len() {
            assert(normal_entry(tasks, q[k]));
        }
        let p = q.take(k);
        if r != Some(u) && p.contains(u) && !ready(tasks, u, rq.cpu) {
            let i = choose|i: int| 0 <= i < p.len() && p[i] == u;
            assert(q[i] == u);
            assert(q.contains(u));
            assert(!rq2.normal.contains(u)) by {
                if rq2.normal.contains(u) {
                    let front = still_ready(p, tasks, rq.cpu);
                    lemma_still_ready_contains(p, tasks, rq.cpu, u);
                    let j = choose|j: int| 0 <= j < rq2.normal.len() && rq2.normal[j] == u;
                    lemma_sorted_distinct(q, tasks);
                    if j < front.len() {
                        assert(front[j] == u);
                        assert(front.contains(u));
                    } else {
                        assert(q.skip(k + 1)[j - front.len()] == u);
                        assert(q[k + 1 + (j - front.len())] == u);
                    }
                }
            }
        }
    }
}

/// The running task should make way exactly if there is none, if it has no run time, or if it used
/// up its share: of the period, the part that its weight is of the load, which is that of the
/// waiting tasks and its own. Asking brings its run time up to date and changes no other task.
pub proof fn law_asked_is_share_of_load(
    rq: RqView,
    tasks: Seq<TaskView>,
    cur: TaskId,
    now: u64,
    params: PeriodParams,
)
    requires
        rq_wf(rq, tasks),
        can_tick(rq, tasks, cur, now, params),
    ensures
        asked_to_preempt(rq, tasks, None, now, params) == (tasks, true),
        ({
            let (tasks2, answer) = asked_to_preempt(rq, tasks, Some(cur), now, params);
            let (task, task2) = (tasks[cur as int], tasks2[cur as int]);
            &&& task.entity is None ==> answer && tasks2 == tasks
            &&& task.entity matches Some(v) ==> {
                let load = total_weight(rq.normal, tasks) + v.weight;
                &&& answer <==> (now - v.period_start) * load > params.period(rq.normal.len() as u64)
                    * v.weight
                &&& task2.entity matches Some(w) && w.start == now && w.vruntime == v.vruntime
                    + ((now - v.start) * 1024) / (v.weight as int) && w.period_start == if answer {
                    now
                } else {
                    v.period_start
                } && w.weight == v.weight && w.key == v.key
                &&& task2 == (TaskView { entity: task2.entity, ..task })
                &&& forall|u: int| 0 <= u < tasks.len() && u != cur ==> #[trigger] tasks2[u]
                    == tasks[u]
            }
        }),
{
    if let Some(v) = tasks[cur as int].entity {
        assert(((now - v.start) * 1024) / (v.weight as int) >= 0) by (nonlinear_arith)
            requires
                v.weight > 0,
                now >= v.start,
        ;
        let (b, f) = (params.factors.1 as int, params.factors.0 as int);
        assert(params.period(rq.num) >= 0) by {
            law_period_grows(params, 0, rq.num);
            assert((6_000_000 * b) / f >= 0) by (nonlinear_arith)
                requires
                    b >= 0,
                    f > 0,
            ;
        }
        assert((6_000_000 * b) / f <= 6_000_000 * b) by (nonlinear_arith)
            requires
                b >= 0,
                f > 0,
        ;
        assert(params.period(rq.num) <= u64::MAX);
    }
}

/// A timer tick marks the running task to be rescheduled exactly if it used up its share or was
/// marked before. A task that yields is always marked, and its period begins anew. In both cases no
/// other task changes, and of this one only the mark and the run time.
pub proof fn law_tick_marks_used_up(
    rq: RqView,
    tasks: Seq<TaskView>,
    cur: TaskId,
    now: u64,
    params: PeriodParams,
    yields: bool,
)
    requires
        rq_wf(rq, tasks),
        can_tick(rq, tasks, cur, now, params),
    ensures
        after_tick(rq, tasks, None, yields, now, params) == tasks,
        ({
            let tasks2 = after_tick(rq, tasks, Some(cur), yields, now, params);
            let (task, task2) = (tasks[cur as int], tasks2[cur as int]);
            let (asked, answer) = asked_to_preempt(rq, tasks, Some(cur), now, params);
            &&& tasks2.len() == tasks.len()
            &&& forall|u: int| 0 <= u < tasks.len() && u != cur ==> #[trigger] tasks2[u] == tasks[u]
            &&& task2 == (TaskView {
                need_resched: task2.need_resched,
                entity: task2.entity,
                ..task
            })
            &&& yields ==> task2.need_resched
            &&& task.entity is None ==> task2.entity is None && (!yields ==> tasks2 == tasks)
            &&& task.entity matches Some(v) ==> {
                &&& yields ==> task2.entity == Some(VRuntime { period_start: now, ..v })
                &&& !yields ==> task2.entity == asked[cur as int].entity
                &&& !yields ==> task2.need_resched == (answer || task.need_resched)
            }
        }),
{
}

/// Where no real-time task waits, asking for a task drops of the normal tasks exactly those that no
/// longer wait for the CPU and come before the one that is taken, or all of them if none is. Every
/// other one but that waits on.
pub proof fn law_pop_drops_stale(
    rq: RqView,
    tasks: Seq<TaskView>,
    target: u32,
    now: u64,
    u: TaskId,
)
    requires
        rq_wf(rq, tasks),
        tasks_wf(tasks),
        rq.real_time.len() == 0,
        rq.normal.contains(u),
    ensures
        ({
            let (rq2, tasks2, r) = popped(rq, tasks, target, now);
            &&& rq2.real_time.len() == 0
            &&& rq2.normal.contains(u) <==> r != Some(u) && (tasks[u as int].status
                == TaskStatus::Ready(rq.cpu) || (r matches Some(t) && vr_lt(
                vr(tasks, t),
                vr(tasks, u),
            )))
        }),
{
    let (rq2, tasks2, r) = popped(rq, tasks, target, now);
    let q = rq.normal;
    let k = first_eligible(q, tasks, rq.cpu, target);
    lemma_first_eligible(q, tasks, rq.cpu, target);
    lemma_sorted_distinct(q, tasks);
    let p = q.take(k);
    let front = still_ready(p, tasks, rq.cpu);
    lemma_still_ready_contains(p, tasks, rq.cpu, u);
    let i = choose|i: int| 0 <= i < q.len() && q[i] == u;
    if i < k {
        assert(p[i] == u);
        if front.contains(u) {
            let j = choose|j: int| 0 <= j < front.len() && front[j] == u;
            assert(rq2.normal[j] == u);
        }
        if k < q.len() {
            assert(vr_lt(vr(tasks, q[i]), vr(tasks, q[k])));
        }
    } else if i > k {
        assert(q.skip(k + 1)[i - k - 1] == u);
        assert(rq2.normal[front.len() + (i - k - 1)] == u);
        assert(vr_lt(vr(tasks, q[k]), vr(tasks, q[i])));
    }
    if rq2.normal.contains(u) {
        let j = choose|j: int| 0 <= j < rq2.normal.len() && rq2.normal[j] == u;
        if j < front.len() {
            assert(front[j] == u);
            assert(front.contains(u));
            let l = choose|l: int| 0 <= l < p.len() && p[l] == u;
            assert(q[l] == u);
        } else {
            assert(q.skip(k + 1)[j - front.len()] == u);
            assert(q[k + 1 + (j - front.len())] == u);
        }
    }
}

/// The weight of two queues together is the sum of their weights.
proof fn lemma_weight_add(a: Seq<TaskId>, b: Seq<TaskId>, tasks: Seq<TaskView>)
    ensures
        total_weight(a + b, tasks) == total_weight(a, tasks) + total_weight(b, tasks),
    decreases b.len(),
{
    if b.len() > 0 {
        lemma_weight_add(a, b.drop_last(), tasks);
        assert((a + b).drop_last() =~= a + b.drop_last());
        assert((a + b).last() == b.last());
    } else {
        assert(a + b =~= a);
    }
}

/// Dropping tasks from a queue makes it no heavier.
proof fn lemma_still_ready_weight(q: Seq<TaskId>, tasks: Seq<TaskView>, cpu: u32)
    ensures
        total_weight(still_ready(q, tasks, cpu), tasks) <= total_weight(q, tasks),
    decreases q.len(),
{
    if q.len() > 0 {
        lemma_still_ready_weight(q.drop_last(), tasks, cpu);
        let front = still_ready(q.drop_last(), tasks, cpu);
        assert(front.push(q.last()).drop_last() =~= front);
    }
}

/// A normal task that is taken takes at least its own weight from the load and one from the number.
/// What else is taken was dropped. Asking never adds to either.
pub proof fn law_pop_lightens(rq: RqView, tasks: Seq<TaskView>, target: u32, now: u64)
    requires
        rq_wf(rq, tasks),
        tasks_wf(tasks),
    ensures
        ({
            let (rq2, tasks2, r) = popped(rq, tasks, target, now);
            &&& rq2.load <= rq.load
            &&& rq2.num <= rq.num
            &&& r matches Some(t) ==> !tasks[t as int].priority.real_time() ==> {
                &&& rq2.load + weight_of(tasks[t as int].priority.nice()) <= rq.load
                &&& rq2.num + 1 <= rq.num
            }
        }),
{
    let (rq2, tasks2, r) = popped(rq, tasks, target, now);
    let q = rq.normal;
    if rq.real_time.len() > 0 {
        assert(real_time_entry(tasks, rq.real_time[0]));
    } else {
        let k = first_eligible(q, tasks, rq.cpu, target);
        lemma_first_eligible(q, tasks, rq.cpu, target);
        let p = q.take(k);
        let front = still_ready(p, tasks, rq.cpu);
        lemma_still_ready_weight(p, tasks, rq.cpu);
        lemma_still_ready_len(p, tasks, rq.cpu);
        lemma_popped_wf(rq, tasks, target, now);
        if k < q.len() {
            assert(normal_entry(tasks, q[k]));
            assert(entity_wf(tasks, q[k] as int));
            lemma_weight_add(front, q.skip(k + 1), tasks);
            lemma_weight_add(p, q.skip(k + 1), tasks);
            lemma_weight_remove(q, tasks, k);
            assert(q.remove(k) =~= p + q.skip(k + 1));
        } else {
            assert(p =~= q);
            assert(front + Seq::<TaskId>::empty() =~= front);
        }
    }
}

} // verus!
