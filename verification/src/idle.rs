//! What a CPU does that has no task to run.
use vstd::arithmetic::power2::pow2;
use vstd::prelude::*;

verus! {

/// The wait no longer grows after so many turns.
pub const MAX_SPIN_SHIFT: u32 = 16;

/// The load is balanced after so many turns in which another task ran.
pub const MAX_YIELD_COUNT: u32 = 61;

/// What an idle CPU remembers.
#[derive(Clone, Copy, PartialEq, Eq, Debug, Structural)]
pub struct IdleState {
    pub spin_shift: u32,
    pub yield_count: u32,
}

/// What an idle CPU does after it offered to run another task.
#[derive(Clone, Copy, PartialEq, Eq, Debug, Structural)]
pub enum IdleAction {
    /// Offer it again.
    Yield,
    /// Spin so many times, and then trigger load balancing before it offers it again.
    SpinAndBalance(u32),
}

/// What an idle CPU remembers and does, after it offered to run another task and one ran or not.
pub open spec fn idled(state: IdleState, switched: bool) -> (IdleState, IdleAction) {
    if switched && state.yield_count != MAX_YIELD_COUNT {
        (
            IdleState { spin_shift: 0, yield_count: (state.yield_count + 1) as u32 },
            IdleAction::Yield,
        )
    } else {
        let shift = if switched {
            0
        } else {
            state.spin_shift
        };
        (
            IdleState {
                spin_shift: if shift < MAX_SPIN_SHIFT {
                    (shift + 1) as u32
                } else {
                    shift
                },
                yield_count: if switched {
                    0
                } else {
                    state.yield_count
                },
            },
            IdleAction::SpinAndBalance(pow2(shift as nat) as u32),
        )
    }
}

impl IdleState {
    /// Whether the counters are in their ranges.
    pub open spec fn wf(self) -> bool {
        self.spin_shift <= MAX_SPIN_SHIFT && self.yield_count <= MAX_YIELD_COUNT
    }

    /// A CPU that just became idle.
    pub fn new() -> (r: IdleState)
        ensures
            r == (IdleState { spin_shift: 0, yield_count: 0 }),
            r.wf(),
    {
        IdleState { spin_shift: 0, yield_count: 0 }
    }

    /// Decides what to do after the CPU offered to run another task, and one ran or not.
    pub fn offered(&mut self, switched: bool) -> (r: IdleAction)
        requires
            old(self).wf(),
        ensures
            (*final(self), r) == idled(*old(self), switched),
            final(self).wf(),
    {
        if switched {
            self.spin_shift = 0;
            if self.yield_count == MAX_YIELD_COUNT {
                self.yield_count = 0;
            } else {
                self.yield_count += 1;
                return IdleAction::Yield;
            }
        }
        proof {
            let n = self.spin_shift;
            vstd::arithmetic::power2::lemma_pow2_strictly_increases(n as nat, 17);
            vstd::arithmetic::power2::lemma2_to64();
            vstd::bits::lemma_u32_shl_is_mul(1, n);
        }
        let spins: u32 = 1 << self.spin_shift;
        if self.spin_shift < MAX_SPIN_SHIFT {
            self.spin_shift += 1;
        }
        IdleAction::SpinAndBalance(spins)
    }
}

/// How far an idle CPU has come in a turn.
#[derive(Clone, Copy, PartialEq, Eq, Debug, Structural)]
pub enum IdlePhase {
    /// It asks whether it should still idle, before it offers to run another task.
    BeforeOffer,
    /// It offers to run another task.
    Offering,
    /// It spins.
    Spinning,
    /// It asks again whether it should still idle, before it triggers load balancing.
    BeforeBalance,
    /// It triggers load balancing.
    Balancing,
    /// It idles no longer.
    Stopped,
}

/// What happened to an idle CPU.
#[derive(Clone, Copy, PartialEq, Eq, Debug, Structural)]
pub enum IdleEvent {
    /// It was told whether it should still idle.
    Condition(bool),
    /// It offered to run another task, and one ran or not.
    Offered(bool),
    /// It has spun.
    Spun,
    /// Load balancing was triggered.
    Balanced,
}

/// What an idle CPU does next.
#[derive(Clone, Copy, PartialEq, Eq, Debug, Structural)]
pub enum IdleStep {
    /// Ask whether it should still idle.
    Ask,
    /// Offer to run another task.
    Offer,
    /// Spin so many times.
    Spin(u32),
    /// Trigger load balancing.
    Balance,
    /// Stop.
    Stop,
}

/// An idle CPU: what it remembers, and how far it has come.
#[derive(Clone, Copy, PartialEq, Eq, Debug, Structural)]
pub struct IdleLoop {
    pub state: IdleState,
    pub phase: IdlePhase,
}

/// Whether an event can happen in a phase.
pub open spec fn expected(phase: IdlePhase, event: IdleEvent) -> bool {
    match phase {
        IdlePhase::BeforeOffer | IdlePhase::BeforeBalance => event is Condition,
        IdlePhase::Offering => event is Offered,
        IdlePhase::Spinning => event is Spun,
        IdlePhase::Balancing => event is Balanced,
        IdlePhase::Stopped => false,
    }
}

/// An idle CPU after an event, and what it does next.
pub open spec fn idle_step(cpu: IdleLoop, event: IdleEvent) -> (IdleLoop, IdleStep) {
    match event {
        IdleEvent::Condition(true) => if cpu.phase is BeforeOffer {
            (IdleLoop { phase: IdlePhase::Offering, ..cpu }, IdleStep::Offer)
        } else {
            (IdleLoop { phase: IdlePhase::Balancing, ..cpu }, IdleStep::Balance)
        },
        IdleEvent::Condition(false) => (
            IdleLoop { phase: IdlePhase::Stopped, ..cpu },
            IdleStep::Stop,
        ),
        IdleEvent::Offered(switched) => {
            let (state, action) = idled(cpu.state, switched);
            match action {
                IdleAction::Yield => (
                    IdleLoop { state, phase: IdlePhase::BeforeOffer },
                    IdleStep::Ask,
                ),
                IdleAction::SpinAndBalance(spins) => (
                    IdleLoop { state, phase: IdlePhase::Spinning },
                    IdleStep::Spin(spins),
                ),
            }
        },
        IdleEvent::Spun => (IdleLoop { phase: IdlePhase::BeforeBalance, ..cpu }, IdleStep::Ask),
        IdleEvent::Balanced => (IdleLoop { phase: IdlePhase::BeforeOffer, ..cpu }, IdleStep::Ask),
    }
}

impl IdleLoop {
    /// A CPU that just became idle: it first asks whether it should.
    pub fn new() -> (r: IdleLoop)
        ensures
            r == (IdleLoop {
                state: IdleState { spin_shift: 0, yield_count: 0 },
                phase: IdlePhase::BeforeOffer,
            }),
            r.state.wf(),
    {
        IdleLoop { state: IdleState::new(), phase: IdlePhase::BeforeOffer }
    }

    /// Decides what to do after an event.
    pub fn step(&mut self, event: IdleEvent) -> (r: IdleStep)
        requires
            old(self).state.wf(),
            expected(old(self).phase, event),
        ensures
            (*final(self), r) == idle_step(*old(self), event),
            final(self).state.wf(),
    {
        match event {
            IdleEvent::Condition(idle) => {
                if !idle {
                    self.phase = IdlePhase::Stopped;
                    return IdleStep::Stop;
                }
                if self.phase == IdlePhase::BeforeOffer {
                    self.phase = IdlePhase::Offering;
                    IdleStep::Offer
                } else {
                    self.phase = IdlePhase::Balancing;
                    IdleStep::Balance
                }
            },
            IdleEvent::Offered(switched) => match self.state.offered(switched) {
                IdleAction::Yield => {
                    self.phase = IdlePhase::BeforeOffer;
                    IdleStep::Ask
                },
                IdleAction::SpinAndBalance(spins) => {
                    self.phase = IdlePhase::Spinning;
                    IdleStep::Spin(spins)
                },
            },
            IdleEvent::Spun => {
                self.phase = IdlePhase::BeforeBalance;
                IdleStep::Ask
            },
            IdleEvent::Balanced => {
                self.phase = IdlePhase::BeforeOffer;
                IdleStep::Ask
            },
        }
    }
}

/// An idle CPU after events, one after the other.
pub open spec fn idle_after(cpu: IdleLoop, events: Seq<IdleEvent>) -> IdleLoop
    decreases events.len(),
{
    if events.len() == 0 {
        cpu
    } else {
        idle_step(idle_after(cpu, events.drop_last()), events.last()).0
    }
}

/// A CPU stops when it is first told that it should not idle any longer, and not before: it offers
/// to run a task, and triggers load balancing, only right after it was told that it should still
/// idle.
pub proof fn law_idles_while_told(cpu: IdleLoop, event: IdleEvent)
    requires
        expected(cpu.phase, event),
    ensures
        ({
            let (next, step) = idle_step(cpu, event);
            &&& step is Stop <==> event == IdleEvent::Condition(false)
            &&& next.phase is Stopped <==> step is Stop
            &&& step is Offer || step is Balance ==> event == IdleEvent::Condition(true)
            &&& step is Ask <==> expected(next.phase, IdleEvent::Condition(true))
        }),
{
}

/// A CPU that goes on was never told to stop: as long as it has not stopped, all answers that it
/// got were that it should still idle, and after it stopped nothing happens to it any more.
pub proof fn law_stops_at_first_no(cpu: IdleLoop, events: Seq<IdleEvent>)
    requires
        !(cpu.phase is Stopped),
        forall|i: int|
            0 <= i < events.len() ==> expected(
                idle_after(cpu, events.take(i)).phase,
                #[trigger] events[i],
            ),
    ensures
        idle_after(cpu, events).phase is Stopped <==> events.len() > 0 && events.last()
            == IdleEvent::Condition(false),
        forall|i: int|
            0 <= i < events.len() - 1 ==> #[trigger] events[i] != IdleEvent::Condition(false),
    decreases events.len(),
{
    if events.len() > 0 {
        let before = events.drop_last();
        let n = before.len() as int;
        assert forall|i: int| 0 <= i < before.len() implies expected(
            idle_after(cpu, before.take(i)).phase,
            #[trigger] before[i],
        ) by {
            assert(before.take(i) =~= events.take(i));
            assert(before[i] == events[i]);
        }
        law_stops_at_first_no(cpu, before);
        assert(events.take(n) =~= before);
        assert(expected(idle_after(cpu, before).phase, events[n]));
        assert forall|i: int| 0 <= i < events.len() - 1 implies #[trigger] events[i]
            != IdleEvent::Condition(false) by {
            assert(before[i] == events[i]);
            if i == n - 1 {
                assert(before.last() == events[i]);
            }
        }
    }
}

/// What an idle CPU remembers after so many turns in each of which another task ran, and whether it
/// triggered load balancing in the last of them.
pub open spec fn busy_turns(state: IdleState, n: nat) -> (IdleState, bool)
    decreases n,
{
    if n == 0 {
        (state, false)
    } else {
        let before = busy_turns(state, (n - 1) as nat).0;
        let (after, action) = idled(before, true);
        (after, action is SpinAndBalance)
    }
}

/// However busy the CPU is, the load is balanced: among 62 turns in each of which another task ran
/// there is one with load balancing.
pub proof fn law_balancing_is_not_starved(state: IdleState)
    requires
        state.wf(),
    ensures
        exists|n: nat| 1 <= n <= MAX_YIELD_COUNT + 1 && #[trigger] busy_turns(state, n).1,
{
    let left = (MAX_YIELD_COUNT - state.yield_count) as nat;
    lemma_busy_turns(state, left);
    assert(busy_turns(state, left + 1).1);
}

/// Until then each such turn is counted.
proof fn lemma_busy_turns(state: IdleState, n: nat)
    requires
        state.wf(),
        state.yield_count + n <= MAX_YIELD_COUNT,
    ensures
        busy_turns(state, n).0.yield_count == state.yield_count + n,
    decreases n,
{
    if n > 0 {
        lemma_busy_turns(state, (n - 1) as nat);
    }
}

/// A CPU that finds no other task spins twice as long each time, up to 65536 times, and balances
/// the load each time. One that lets another task run offers again at once, but for every 62nd
/// time, when it spins once and balances the load; its waits then begin anew.
pub proof fn law_idle_waits_double(state: IdleState)
    requires
        state.wf(),
    ensures
        ({
            let (next, action) = idled(state, false);
            let (_, later) = idled(next, false);
            &&& next.yield_count == state.yield_count
            &&& action matches IdleAction::SpinAndBalance(spins) && (state.spin_shift == 0 ==> spins
                == 1) && (later matches IdleAction::SpinAndBalance(more) && more == if spins < 65536 {
                2 * spins
            } else {
                spins as int
            })
        }),
        ({
            let (next, action) = idled(state, true);
            let (_, later) = idled(next, false);
            &&& action is Yield <==> state.yield_count != 61
            &&& state.yield_count != 61 ==> next.yield_count == state.yield_count + 1 && later
                == IdleAction::SpinAndBalance(1)
            &&& state.yield_count == 61 ==> next.yield_count == 0 && action
                == IdleAction::SpinAndBalance(1) && later == IdleAction::SpinAndBalance(2)
        }),
{
    let n = state.spin_shift as nat;
    vstd::arithmetic::power2::lemma2_to64();
    vstd::arithmetic::power2::lemma_pow2_strictly_increases(n, 17);
    if n < 16 {
        vstd::arithmetic::power2::lemma_pow2_unfold(n + 1);
        vstd::arithmetic::power2::lemma_pow2_strictly_increases(n, 16);
        vstd::arithmetic::power2::lemma_pow2_strictly_increases(n + 1, 17);
    }
}

/// An idle CPU asks whether it should still idle, offers to run another task, and, unless it offers
/// again at once, spins, asks once more, balances the load and begins anew. What it remembers
/// changes only when it offered.
pub proof fn law_idle_turn_order(state: IdleState, phase: IdlePhase, switched: bool)
    ensures
        ({
            let at = |p: IdlePhase| IdleLoop { state, phase: p };
            &&& idle_step(at(IdlePhase::BeforeOffer), IdleEvent::Condition(true)) == (
                at(IdlePhase::Offering),
                IdleStep::Offer,
            )
            &&& idle_step(at(IdlePhase::BeforeBalance), IdleEvent::Condition(true)) == (
                at(IdlePhase::Balancing),
                IdleStep::Balance,
            )
            &&& idle_step(at(IdlePhase::Spinning), IdleEvent::Spun) == (
                at(IdlePhase::BeforeBalance),
                IdleStep::Ask,
            )
            &&& idle_step(at(IdlePhase::Balancing), IdleEvent::Balanced) == (
                at(IdlePhase::BeforeOffer),
                IdleStep::Ask,
            )
            &&& idle_step(at(phase), IdleEvent::Condition(false)) == (
                at(IdlePhase::Stopped),
                IdleStep::Stop,
            )
            &&& match idled(state, switched).1 {
                IdleAction::Yield => idle_step(at(IdlePhase::Offering), IdleEvent::Offered(switched))
                    == (
                    IdleLoop { state: idled(state, switched).0, phase: IdlePhase::BeforeOffer },
                    IdleStep::Ask,
                ),
                IdleAction::SpinAndBalance(spins) => idle_step(
                    at(IdlePhase::Offering),
                    IdleEvent::Offered(switched),
                ) == (
                    IdleLoop { state: idled(state, switched).0, phase: IdlePhase::Spinning },
                    IdleStep::Spin(spins),
                ),
            }
        }),
{
}

} // verus!
