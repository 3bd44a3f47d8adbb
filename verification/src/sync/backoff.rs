//! How long to wait between attempts to take a lock that another CPU holds.
use vstd::arithmetic::power2::pow2;
use vstd::prelude::*;

verus! {

/// Every so many attempts a CPU says that it is stuck.
pub const STUCK_REPORT: u32 = 5000;

/// The wait between attempts no longer grows after so many of them.
pub const MAX_SPIN_SHIFT: u32 = 16;

/// After so many attempts to take a mutex a CPU lets another task run.
pub const MUTEX_TRIES: u32 = 11;

/// What a CPU does after an attempt to take a spin lock failed.
#[derive(Clone, Copy, PartialEq, Eq, Debug, Structural)]
pub struct SpinStep {
    /// How many times to spin before the next attempt.
    pub spins: u32,
    /// Whether to say that the CPU is stuck.
    pub report: bool,
}

/// What a CPU remembers of its attempts to take a spin lock.
#[derive(Clone, Copy, PartialEq, Eq, Debug, Structural)]
pub struct SpinBackoff {
    pub spin_shift: u32,
    /// The attempts since the wait no longer grows, counted anew after each report.
    pub stuck_count: u32,
}

/// What a CPU remembers after so many attempts failed.
pub open spec fn spin_backoff_after(n: nat) -> SpinBackoff {
    SpinBackoff {
        spin_shift: if n < MAX_SPIN_SHIFT {
            n as u32
        } else {
            MAX_SPIN_SHIFT
        },
        stuck_count: if n < MAX_SPIN_SHIFT {
            0
        } else {
            ((n - MAX_SPIN_SHIFT) % (STUCK_REPORT as int)) as u32
        },
    }
}

/// What a CPU remembers and does after one more attempt failed: it spins twice as long each time
/// until that is long enough, and from then on says every so often that it is stuck.
pub open spec fn spin_failed(b: SpinBackoff) -> (SpinBackoff, SpinStep) {
    let spins = pow2(b.spin_shift as nat) as u32;
    if b.spin_shift < MAX_SPIN_SHIFT {
        (
            SpinBackoff { spin_shift: (b.spin_shift + 1) as u32, ..b },
            SpinStep { spins, report: false },
        )
    } else if b.stuck_count + 1 < STUCK_REPORT {
        (
            SpinBackoff { stuck_count: (b.stuck_count + 1) as u32, ..b },
            SpinStep { spins, report: false },
        )
    } else {
        (SpinBackoff { stuck_count: 0, ..b }, SpinStep { spins, report: true })
    }
}

/// Shifting a one is taking a power of two.
proof fn lemma_shift(n: u32)
    requires
        n <= MAX_SPIN_SHIFT,
    ensures
        1u32 << n == pow2(n as nat),
        pow2(n as nat) <= 0x1_0000,
{
    vstd::arithmetic::power2::lemma_pow2_strictly_increases(n as nat, 17);
    vstd::arithmetic::power2::lemma2_to64();
    vstd::bits::lemma_u32_shl_is_mul(1, n);
    if n < 16 {
        vstd::arithmetic::power2::lemma_pow2_strictly_increases(n as nat, 16);
    }
}

impl SpinBackoff {
    /// Whether the counters are in their ranges.
    pub open spec fn wf(self) -> bool {
        self.spin_shift <= MAX_SPIN_SHIFT && self.stuck_count < STUCK_REPORT
    }

    /// No attempt failed yet.
    pub fn new() -> (r: SpinBackoff)
        ensures
            r == spin_backoff_after(0),
            r.wf(),
    {
        SpinBackoff { spin_shift: 0, stuck_count: 0 }
    }

    /// An attempt failed: tells how long to spin, and whether it is time to say that the CPU is
    /// stuck.
    pub fn fail(&mut self) -> (r: SpinStep)
        requires
            old(self).wf(),
        ensures
            (*final(self), r) == spin_failed(*old(self)),
            final(self).wf(),
    {
        proof {
            lemma_shift(self.spin_shift);
        }
        let spins: u32 = 1 << self.spin_shift;
        if self.spin_shift < MAX_SPIN_SHIFT {
            self.spin_shift += 1;
            return SpinStep { spins, report: false };
        }
        self.stuck_count = (self.stuck_count + 1) % STUCK_REPORT;
        SpinStep { spins, report: self.stuck_count == 0 }
    }

    /// An attempt was made: tells what to do before the next one, or that there is none because the
    /// lock was taken.
    pub fn after_attempt(&mut self, taken: bool) -> (r: Option<SpinStep>)
        requires
            old(self).wf(),
        ensures
            taken ==> r is None && *final(self) == *old(self),
            !taken ==> (r matches Some(step) && (*final(self), step) == spin_failed(*old(self))),
            final(self).wf(),
    {
        if taken {
            return None;
        }
        Some(self.fail())
    }
}

/// The first 17 waits double each time and the others stay as long, and a CPU says that it is stuck
/// after every 5000 of those that no longer grow.
pub proof fn law_spin_backoff(n: nat)
    ensures
        ({
            let (next, step) = spin_failed(spin_backoff_after(n));
            &&& next == spin_backoff_after(n + 1)
            &&& step.spins == pow2(
                if n < MAX_SPIN_SHIFT {
                    n
                } else {
                    MAX_SPIN_SHIFT as nat
                },
            )
            &&& step.report <==> n >= MAX_SPIN_SHIFT && (n - MAX_SPIN_SHIFT + 1) % (
            STUCK_REPORT as int) == 0
        }),
{
    lemma_shift(spin_backoff_after(n).spin_shift);
}

/// What a CPU does after an attempt to take a mutex failed.
#[derive(Clone, Copy, PartialEq, Eq, Debug, Structural)]
pub struct MutexStep {
    /// How many times to spin.
    pub spins: u32,
    /// Whether to let another task run after that.
    pub yields: bool,
}

/// What a CPU remembers of its attempts to take a mutex.
#[derive(Clone, Copy, PartialEq, Eq, Debug, Structural)]
pub struct MutexBackoff {
    pub spin_count: u32,
}

/// What a CPU remembers and does after one more attempt failed: it spins twice as long each time,
/// and after so many attempts lets another task run and begins anew.
pub open spec fn mutex_failed(b: MutexBackoff) -> (MutexBackoff, MutexStep) {
    let spins = pow2(b.spin_count as nat) as u32;
    if b.spin_count + 1 < MUTEX_TRIES {
        (MutexBackoff { spin_count: (b.spin_count + 1) as u32 }, MutexStep { spins, yields: false })
    } else {
        (MutexBackoff { spin_count: 0 }, MutexStep { spins, yields: true })
    }
}

impl MutexBackoff {
    /// No attempt failed since another task was let run.
    pub fn new() -> (r: MutexBackoff)
        ensures
            r.spin_count == 0,
    {
        MutexBackoff { spin_count: 0 }
    }

    /// An attempt failed: tells how long to spin, and whether to let another task run after that.
    pub fn fail(&mut self) -> (r: MutexStep)
        requires
            old(self).spin_count < MUTEX_TRIES,
        ensures
            (*final(self), r) == mutex_failed(*old(self)),
            final(self).spin_count < MUTEX_TRIES,
    {
        proof {
            lemma_shift(self.spin_count);
        }
        let spins: u32 = 1 << self.spin_count;
        self.spin_count += 1;
        if self.spin_count == MUTEX_TRIES {
            self.spin_count = 0;
            MutexStep { spins, yields: true }
        } else {
            MutexStep { spins, yields: false }
        }
    }

    /// An attempt was made: tells what to do before the next one, or that there is none because the
    /// mutex was taken.
    pub fn after_attempt(&mut self, taken: bool) -> (r: Option<MutexStep>)
        requires
            old(self).spin_count < MUTEX_TRIES,
        ensures
            taken ==> r is None && *final(self) == *old(self),
            !taken ==> (r matches Some(step) && (*final(self), step) == mutex_failed(*old(self))),
            final(self).spin_count < MUTEX_TRIES,
    {
        if taken {
            return None;
        }
        Some(self.fail())
    }
}

/// Of all attempts that fail in a row every eleventh lets another task run, and between those the
/// waits double.
pub proof fn law_mutex_backoff(n: nat)
    ensures
        ({
            let count = (n % (MUTEX_TRIES as nat)) as u32;
            let (next, step) = mutex_failed(MutexBackoff { spin_count: count });
            &&& next.spin_count == (n + 1) % (MUTEX_TRIES as nat)
            &&& step.spins == pow2(n % (MUTEX_TRIES as nat))
            &&& step.yields <==> (n + 1) % (MUTEX_TRIES as nat) == 0
        }),
{
    lemma_shift((n % (MUTEX_TRIES as nat)) as u32);
}

/// A CPU that keeps failing spins once after the first attempt, twice as long after each further
/// one up to 65536 times, and no longer after that. It reports every 5000th of the attempts after
/// which the wait no longer grows.
pub proof fn law_spin_waits_double(n: nat)
    ensures
        ({
            let (next, step) = spin_failed(spin_backoff_after(n));
            let (_, later) = spin_failed(next);
            &&& spin_failed(spin_backoff_after(0)).1.spins == 1
            &&& n < 16 ==> later.spins == 2 * step.spins
            &&& n >= 16 ==> later.spins == step.spins && step.spins == 65536
            &&& step.report <==> n > 15 && (n - 15) % 5000 == 0
        }),
{
    law_spin_backoff(n);
    law_spin_backoff(n + 1);
    law_spin_backoff(0);
    vstd::arithmetic::power2::lemma2_to64();
    if n < 16 {
        vstd::arithmetic::power2::lemma_pow2_unfold(n + 1);
        lemma_shift(n as u32);
        lemma_shift((n + 1) as u32);
    }
}

/// A CPU that keeps failing to take a mutex spins once at first and twice as long each time, and
/// lets another task run after every eleventh attempt, after which it begins anew.
pub proof fn law_mutex_waits_double(b: MutexBackoff)
    requires
        b.spin_count < 11,
    ensures
        ({
            let (next, step) = mutex_failed(b);
            let (_, later) = mutex_failed(next);
            &&& b.spin_count == 0 ==> step.spins == 1
            &&& step.yields <==> b.spin_count == 10
            &&& !step.yields ==> later.spins == 2 * step.spins && next.spin_count == b.spin_count + 1
            &&& step.yields ==> later.spins == 1 && next.spin_count == 0 && step.spins == 1024
        }),
{
    vstd::arithmetic::power2::lemma2_to64();
    lemma_shift(b.spin_count);
    if b.spin_count < 10 {
        lemma_shift((b.spin_count + 1) as u32);
        vstd::arithmetic::power2::lemma_pow2_unfold((b.spin_count + 1) as nat);
    }
}

} // verus!
