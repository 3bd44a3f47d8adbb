//! The virtual run time of a task: the time that it ran, scaled down by its weight.
use vstd::prelude::*;

use crate::sched::nice::{
    law_weights_bounded, law_weights_decrease, nice_to_weight, weight_of, WEIGHT_0,
};
use crate::task::priority::Priority;

verus! {

/// The virtual run time of a normal task.
#[derive(Clone, Copy, Debug)]
pub struct VRuntime {
    /// Tells tasks apart that ran equally long.
    pub key: usize,
    /// The weight of the task.
    pub weight: u64,
    /// The virtual run time up to `start`.
    pub vruntime: u64,
    /// The clock when the run time was last brought up to date.
    pub start: u64,
    /// The clock when the current scheduling period of the task began.
    pub period_start: u64,
}

/// The order of run times: by run time, then by the clock of the last update, then by key.
pub open spec fn vr_lt(a: VRuntime, b: VRuntime) -> bool {
    ||| a.vruntime < b.vruntime
    ||| a.vruntime == b.vruntime && a.start < b.start
    ||| a.vruntime == b.vruntime && a.start == b.start && a.key < b.key
}

/// Whether two run times stand at the same place of the order.
pub open spec fn vr_eq(a: VRuntime, b: VRuntime) -> bool {
    a.vruntime == b.vruntime && a.start == b.start && a.key == b.key
}

/// The run time of a normal task that has not run yet.
pub open spec fn fresh_vruntime(key: usize, priority: Priority, now: u64) -> VRuntime {
    VRuntime {
        key,
        weight: weight_of(priority.nice()),
        vruntime: 0,
        start: now,
        period_start: now,
    }
}

impl VRuntime {
    /// The virtual run time at clock `cur`, had the task been running since `start`.
    pub open spec fn at(&self, cur: u64) -> int {
        self.vruntime + ((cur - self.start) * WEIGHT_0) / (self.weight as int)
    }

    /// Whether `at` can be computed: the clock has not run backwards and nothing overflows.
    pub open spec fn can_advance(&self, cur: u64) -> bool {
        &&& self.weight > 0
        &&& self.start <= cur
        &&& (cur - self.start) * WEIGHT_0 <= u64::MAX
        &&& self.at(cur) <= u64::MAX
    }

    /// Whether a tick can be taken at clock `cur`: `at` can be computed, the period has begun
    /// before `cur`, and nothing overflows.
    pub open spec fn can_tick(&self, load: u64, period: u64, cur: u64) -> bool {
        &&& self.can_advance(cur)
        &&& load != 0
        &&& period != 0
        &&& self.period_start < cur
        &&& (cur - self.period_start) * load <= u64::MAX
        &&& period * self.weight <= u64::MAX
    }

    /// Whether the task has used up its share of the period: of `period`, the part that its
    /// weight is of the whole load.
    pub open spec fn slice_used(&self, load: u64, period: u64, cur: u64) -> bool {
        (cur - self.period_start) * load > period * self.weight
    }

    /// The run time after a tick at clock `cur`.
    pub open spec fn ticked(&self, load: u64, period: u64, cur: u64) -> VRuntime {
        VRuntime {
            vruntime: self.at(cur) as u64,
            start: cur,
            period_start: if self.slice_used(load, period, cur) {
                cur
            } else {
                self.period_start
            },
            ..*self
        }
    }

    /// The run time of a normal task that has not run yet.
    pub fn new(key: usize, priority: Priority, now: u64) -> (r: VRuntime)
        requires
            priority.wf(),
            !priority.real_time(),
        ensures
            r == fresh_vruntime(key, priority, now),
    {
        let nice = priority.as_nice().unwrap();
        VRuntime { key, weight: nice_to_weight(nice), vruntime: 0, start: now, period_start: now }
    }

    /// The virtual run time at clock `cur`.
    pub fn get_with_cur(&self, cur: u64) -> (r: u64)
        requires
            self.can_advance(cur),
        ensures
            r == self.at(cur),
    {
        assert(((cur - self.start) * WEIGHT_0) / (self.weight as int) >= 0) by (nonlinear_arith)
            requires
                self.weight > 0,
                cur >= self.start,
        ;
        self.vruntime + ((cur - self.start) * WEIGHT_0 / self.weight)
    }

    /// The virtual run time up to the last update.
    pub fn get(&self) -> (r: u64)
        ensures
            r == self.vruntime,
    {
        self.vruntime
    }

    /// Brings the run time up to the clock `cur`. Tells whether the task has used up its share
    /// of the period; a new period then begins.
    pub fn tick(&mut self, load: u64, period: u64, cur: u64) -> (used: bool)
        requires
            old(self).can_tick(load, period, cur),
        ensures
            *final(self) == old(self).ticked(load, period, cur),
            used == old(self).slice_used(load, period, cur),
    {
        self.vruntime = self.get_with_cur(cur);
        self.start = cur;
        let slice: u64 = period * self.weight;
        if (cur - self.period_start) * load > slice {
            self.period_start = cur;
            true
        } else {
            false
        }
    }

    /// Whether a tick can be taken: the clock has not run backwards, and nothing overflows.
    pub fn tick_is_safe(&self, load: u64, period: u64, cur: u64) -> (r: bool)
        ensures
            r == self.can_tick(load, period, cur),
    {
        if self.weight == 0 || cur < self.start || load == 0 || period == 0
            || self.period_start >= cur {
            return false;
        }
        let limit: u128 = u64::MAX as u128;
        let ran: u128 = (cur - self.start) as u128;
        assert(ran * 1024 <= 0xffff_ffff_ffff_ffff * 1024) by (nonlinear_arith)
            requires
                ran <= 0xffff_ffff_ffff_ffff,
        ;
        let scaled: u128 = ran * (WEIGHT_0 as u128);
        let elapsed: u128 = (cur - self.period_start) as u128;
        let (w, l, p): (u128, u128, u128) = (self.weight as u128, load as u128, period as u128);
        assert(scaled / w <= scaled) by (nonlinear_arith)
            requires
                w > 0,
        ;
        assert(elapsed * l <= 0xffff_ffff_ffff_ffff * 0xffff_ffff_ffff_ffff && p * w
            <= 0xffff_ffff_ffff_ffff * 0xffff_ffff_ffff_ffff) by (nonlinear_arith)
            requires
                elapsed <= 0xffff_ffff_ffff_ffff,
                l <= 0xffff_ffff_ffff_ffff,
                p <= 0xffff_ffff_ffff_ffff,
                w <= 0xffff_ffff_ffff_ffff,
        ;
        scaled <= limit && self.vruntime as u128 + scaled / w <= limit && elapsed * l <= limit && p
            * w <= limit
    }

    /// Whether this run time comes before another.
    pub fn precedes(&self, other: &VRuntime) -> (r: bool)
        ensures
            r == vr_lt(*self, *other),
    {
        if self.vruntime != other.vruntime {
            self.vruntime < other.vruntime
        } else if self.start != other.start {
            self.start < other.start
        } else {
            self.key < other.key
        }
    }
}

impl PartialEq for VRuntime {
    fn eq(&self, other: &Self) -> (r: bool) {
        self.vruntime == other.vruntime && self.start == other.start && self.key == other.key
    }
}

impl vstd::std_specs::cmp::PartialEqSpecImpl for VRuntime {
    open spec fn obeys_eq_spec() -> bool {
        true
    }

    open spec fn eq_spec(&self, other: &Self) -> bool {
        vr_eq(*self, *other)
    }
}

impl Eq for VRuntime {}

impl PartialOrd for VRuntime {
    fn partial_cmp(&self, other: &Self) -> (r: Option<core::cmp::Ordering>) {
        if self.precedes(other) {
            Some(core::cmp::Ordering::Less)
        } else if other.precedes(self) {
            Some(core::cmp::Ordering::Greater)
        } else {
            Some(core::cmp::Ordering::Equal)
        }
    }
}

impl vstd::std_specs::cmp::PartialOrdSpecImpl for VRuntime {
    open spec fn obeys_partial_cmp_spec() -> bool {
        true
    }

    open spec fn partial_cmp_spec(&self, other: &Self) -> Option<core::cmp::Ordering> {
        if vr_lt(*self, *other) {
            Some(core::cmp::Ordering::Less)
        } else if vr_lt(*other, *self) {
            Some(core::cmp::Ordering::Greater)
        } else {
            Some(core::cmp::Ordering::Equal)
        }
    }
}

/// The order is total: of two run times, one comes first or they stand at the same place, and
/// never more than one of these holds.
pub proof fn law_order_total(a: VRuntime, b: VRuntime)
    ensures
        vr_lt(a, b) || vr_lt(b, a) || vr_eq(a, b),
        !(vr_lt(a, b) && vr_lt(b, a)),
        vr_eq(a, b) ==> !vr_lt(a, b) && !vr_lt(b, a),
{
}

/// The order is transitive.
pub proof fn law_order_transitive(a: VRuntime, b: VRuntime, c: VRuntime)
    requires
        vr_lt(a, b),
        vr_lt(b, c),
    ensures
        vr_lt(a, c),
{
}

/// Run time never goes down: a tick leaves the task at the same place of the order or further
/// back.
pub proof fn law_tick_advances(v: VRuntime, load: u64, period: u64, cur: u64)
    requires
        v.can_tick(load, period, cur),
    ensures
        v.vruntime <= v.ticked(load, period, cur).vruntime,
        !vr_lt(v.ticked(load, period, cur), v),
        v.ticked(load, period, cur).weight == v.weight,
        v.ticked(load, period, cur).key == v.key,
{
    assert(((cur - v.start) * WEIGHT_0) / (v.weight as int) >= 0) by (nonlinear_arith)
        requires
            v.weight > 0,
            cur >= v.start,
    ;
}

/// Over the same stretch of clock, the heavier of two tasks gains no more run time than the
/// lighter one.
pub proof fn law_heavier_gains_less(a: VRuntime, b: VRuntime, cur: u64)
    requires
        a.weight >= b.weight > 0,
        a.start == b.start,
        a.start <= cur,
    ensures
        a.at(cur) - a.vruntime <= b.at(cur) - b.vruntime,
{
    let x = (cur - a.start) * WEIGHT_0;
    assert(x / (a.weight as int) <= x / (b.weight as int)) by {
        vstd::arithmetic::div_mod::lemma_div_is_ordered_by_denominator(
            x,
            b.weight as int,
            a.weight as int,
        );
    }
}

/// A task of the base weight gains exactly the clock that passed.
pub proof fn law_base_weight_gains_clock(v: VRuntime, cur: u64)
    requires
        v.weight == WEIGHT_0,
        v.start <= cur,
    ensures
        v.at(cur) == v.vruntime + (cur - v.start),
{
}

/// The part of a period that is a task's own: a tick finds the slice used up exactly when the
/// clock since the period began, taken of the whole load, is more than the period taken of the
/// task's own weight. A new period then begins at the tick, and else the old one goes on.
pub proof fn law_slice_is_share_of_period(v: VRuntime, load: u64, period: u64, cur: u64)
    requires
        v.can_tick(load, period, cur),
    ensures
        v.slice_used(load, period, cur) <==> (cur - v.period_start) * load > period * v.weight,
        v.slice_used(load, period, cur) <==> cur - v.period_start > (period * v.weight) / (
        load as int),
        v.slice_used(load, period, cur) ==> v.ticked(load, period, cur).period_start == cur,
        !v.slice_used(load, period, cur) ==> v.ticked(load, period, cur).period_start
            == v.period_start,
{
    let elapsed = cur - v.period_start;
    let slice = period * v.weight;
    let l = load as int;
    assert(elapsed * l > slice <==> elapsed > slice / l) by (nonlinear_arith)
        requires
            l > 0,
            slice >= 0,
            elapsed >= 0,
    ;
}

/// Over the same load, period and clock, a task that is at least as heavy uses its slice up no
/// sooner: where its slice is used up, so is that of the other.
pub proof fn law_heavier_runs_longer(a: VRuntime, b: VRuntime, load: u64, period: u64, cur: u64)
    requires
        a.can_tick(load, period, cur),
        b.can_tick(load, period, cur),
        a.period_start == b.period_start,
        a.weight >= b.weight,
    ensures
        a.slice_used(load, period, cur) ==> b.slice_used(load, period, cur),
{
    let p = period as int;
    let (x, y) = (a.weight as int, b.weight as int);
    assert(p * x >= p * y) by (nonlinear_arith)
        requires
            p >= 0,
            x >= y,
    ;
}

/// The clock that all tasks of a load have run since their periods began.
pub open spec fn total_elapsed(vs: Seq<VRuntime>, cur: u64) -> int
    decreases vs.len(),
{
    if vs.len() == 0 {
        0
    } else {
        total_elapsed(vs.drop_last(), cur) + (cur - vs.last().period_start)
    }
}

/// The weight of all tasks of a load.
pub open spec fn total_load(vs: Seq<VRuntime>) -> int
    decreases vs.len(),
{
    if vs.len() == 0 {
        0
    } else {
        total_load(vs.drop_last()) + vs.last().weight
    }
}

proof fn lemma_slices(vs: Seq<VRuntime>, load: u64, period: u64, cur: u64, used: bool)
    requires
        forall|i: int|
            0 <= i < vs.len() ==> (#[trigger] vs[i]).can_tick(load, period, cur) && vs[i].slice_used(
                load,
                period,
                cur,
            ) == used,
    ensures
        used ==> total_elapsed(vs, cur) * load >= period * total_load(vs),
        used && vs.len() > 0 ==> total_elapsed(vs, cur) * load > period * total_load(vs),
        !used ==> total_elapsed(vs, cur) * load <= period * total_load(vs),
    decreases vs.len(),
{
    let (l, p) = (load as int, period as int);
    if vs.len() > 0 {
        let front = vs.drop_last();
        assert forall|i: int| 0 <= i < front.len() implies (#[trigger] front[i]).can_tick(
            load,
            period,
            cur,
        ) && front[i].slice_used(load, period, cur) == used by {
            assert(front[i] == vs[i]);
        }
        lemma_slices(front, load, period, cur, used);
        let v = vs[vs.len() - 1];
        law_slice_is_share_of_period(v, load, period, cur);
        let (e, w) = (cur - v.period_start, v.weight as int);
        let (es, ws) = (total_elapsed(front, cur), total_load(front));
        assert((es + e) * l == es * l + e * l && p * (ws + w) == p * ws + p * w)
            by (nonlinear_arith);
    } else {
        assert(0 * l == 0 && p * 0 == 0);
    }
}

/// The slices of all tasks of a load make up the period: once every slice is used up, the tasks
/// together have run for more than the period, and while none is, for no more than it.
pub proof fn law_slices_make_up_period(vs: Seq<VRuntime>, load: u64, period: u64, cur: u64)
    requires
        vs.len() > 0,
        load == total_load(vs),
        forall|i: int| 0 <= i < vs.len() ==> (#[trigger] vs[i]).can_tick(load, period, cur),
    ensures
        (forall|i: int| 0 <= i < vs.len() ==> (#[trigger] vs[i]).slice_used(load, period, cur))
            ==> total_elapsed(vs, cur) > period,
        (forall|i: int| 0 <= i < vs.len() ==> !(#[trigger] vs[i]).slice_used(load, period, cur))
            ==> total_elapsed(vs, cur) <= period,
{
    let (t, l, p) = (total_elapsed(vs, cur), load as int, period as int);
    assert(vs[0].can_tick(load, period, cur));
    if forall|i: int| 0 <= i < vs.len() ==> (#[trigger] vs[i]).slice_used(load, period, cur) {
        lemma_slices(vs, load, period, cur, true);
        assert(t > p) by (nonlinear_arith)
            requires
                t * l > p * l,
                l > 0,
        ;
    }
    if forall|i: int| 0 <= i < vs.len() ==> !(#[trigger] vs[i]).slice_used(load, period, cur) {
        lemma_slices(vs, load, period, cur, false);
        assert(t <= p) by (nonlinear_arith)
            requires
                t * l <= p * l,
                l > 0,
        ;
    }
}

/// Run time is clock over weight: the run time that a task gains, times its weight, is the clock
/// that passed times 1024, but for the rest of the division. A tick brings the run time up to
/// the clock.
pub proof fn law_run_time_is_clock_by_weight(v: VRuntime, load: u64, period: u64, cur: u64)
    requires
        v.can_tick(load, period, cur),
    ensures
        ({
            let u = v.ticked(load, period, cur);
            let gained = u.vruntime - v.vruntime;
            &&& gained * v.weight <= (cur - v.start) * 1024 < (gained + 1) * v.weight
            &&& u.start == cur
        }),
{
    let (x, w) = ((cur - v.start) * 1024, v.weight as int);
    assert((x / w) * w <= x < (x / w + 1) * w) by (nonlinear_arith)
        requires
            w > 0,
    ;
    assert(x / w >= 0) by (nonlinear_arith)
        requires
            w > 0,
            x >= 0,
    ;
}

/// Run time adds up: a task that is brought up to date half way has in the end at most the run
/// time of one that is not, and at most one unit less.
pub proof fn law_run_time_adds_up(v: VRuntime, load: u64, period: u64, mid: u64, cur: u64)
    requires
        mid <= cur,
        v.can_tick(load, period, mid),
        v.can_advance(cur),
    ensures
        v.at(cur) - 1 <= v.ticked(load, period, mid).at(cur) <= v.at(cur),
{
    let (x, y, w) = ((mid - v.start) * WEIGHT_0, (cur - mid) * WEIGHT_0, v.weight as int);
    let (a, b, c) = (x / w, y / w, (x + y) / w);
    assert(x >= 0 && y >= 0);
    assert(a >= 0) by (nonlinear_arith)
        requires
            a == x / w,
            w > 0,
            x >= 0,
    ;
    assert(c - 1 <= a + b <= c) by (nonlinear_arith)
        requires
            a == x / w,
            b == y / w,
            c == (x + y) / w,
            w > 0,
    ;
}

/// Of two run times, the one that ran less comes first, whatever else holds of them; of those
/// that ran equally long, the one that was brought up to date earlier; and of those, the one
/// with the smaller key.
pub proof fn law_ran_less_first(a: VRuntime, b: VRuntime)
    ensures
        a.vruntime < b.vruntime ==> vr_lt(a, b),
        a.vruntime == b.vruntime && a.start < b.start ==> vr_lt(a, b),
        a.vruntime == b.vruntime && a.start == b.start ==> (vr_lt(a, b) <==> a.key < b.key),
        vr_eq(a, b) <==> a.vruntime == b.vruntime && a.start == b.start && a.key == b.key,
{
}

/// A task that has not run yet has no run time, and comes before every one that has run. Its
/// period begins at the clock it was made with, and it is as heavy as its nice value says: no
/// lighter than any task of a larger one.
pub proof fn law_fresh_comes_first(key: usize, priority: Priority, other: Priority, now: u64)
    requires
        priority.wf(),
        other.wf(),
        !priority.real_time(),
        !other.real_time(),
    ensures
        ({
            let v = fresh_vruntime(key, priority, now);
            &&& v.vruntime == 0
            &&& v.key == key
            &&& v.start == now
            &&& v.period_start == now
            &&& v.weight > 0
            &&& forall|u: VRuntime| u.vruntime > 0 ==> #[trigger] vr_lt(v, u)
            &&& priority.nice().raw < other.nice().raw ==> v.weight > fresh_vruntime(
                key,
                other,
                now,
            ).weight
            &&& priority.nice().raw == 0 ==> v.weight == 1024
        }),
{
    law_weights_bounded(priority.nice());
    if priority.nice().raw < other.nice().raw {
        law_weights_decrease(priority.nice(), other.nice());
    }
}

} // verus!
