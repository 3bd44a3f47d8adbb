//! Clock arithmetic: the ratio of nanoseconds to clock cycles, and the length of a scheduling
//! period.
use vstd::arithmetic::logarithm::log;
use vstd::arithmetic::power::pow;
use vstd::prelude::*;

verus! {

/// Nanoseconds in a second.
pub const NS_PER_SEC: u64 = 1_000_000_000;

/// The time slice of one task on a machine with one CPU, in nanoseconds.
pub const BASE_SLICE_NS: u64 = 750_000;

/// The shortest scheduling period, in nanoseconds.
pub const MIN_PERIOD_NS: u64 = 6_000_000;

/// What repeated division with remainder leaves of two numbers, if it stops as soon as one of
/// them is at most one.
pub open spec fn reduced(a: nat, b: nat) -> nat
    decreases b,
{
    if a > 1 && b > 1 {
        reduced(b, a % b)
    } else if a <= 1 {
        b
    } else {
        a
    }
}

/// The number by which nanoseconds per second and the clock frequency are both divided.
pub open spec fn scale(freq: u64) -> nat {
    if freq > NS_PER_SEC {
        reduced(freq as nat, NS_PER_SEC as nat)
    } else {
        reduced(NS_PER_SEC as nat, freq as nat)
    }
}

/// The ratio of nanoseconds to cycles of a clock that runs at `freq` cycles per second, with
/// both sides divided by `scale(freq)`.
pub fn tsc_factors(freq: u64) -> (r: (u64, u64))
    requires
        freq != 0,
    ensures
        r.0 == NS_PER_SEC as nat / scale(freq),
        r.1 == freq as nat / scale(freq),
{
    let mut a: u64 = NS_PER_SEC;
    let mut b: u64 = freq;
    if a < b {
        std::mem::swap(&mut a, &mut b);
    }
    while a > 1 && b > 1
        invariant
            reduced(a as nat, b as nat) == scale(freq),
            a >= 1,
            a > 1 || b > 0,
        decreases b,
    {
        let t = a;
        a = b;
        b = t % b;
    }
    let gcd: u64 = if a <= 1 {
        b
    } else {
        a
    };
    (NS_PER_SEC / gcd, freq / gcd)
}

/// Whether `d` divides `n`.
pub open spec fn divides(d: nat, n: nat) -> bool {
    d > 0 && n % d == 0
}

proof fn lemma_divides_remainder(d: nat, a: nat, b: nat)
    requires
        d > 0,
        b > 0,
        b % d == 0,
    ensures
        a % d == 0 <==> (a % b) % d == 0,
{
    let q = a / b;
    let k = b / d;
    vstd::arithmetic::div_mod::lemma_fundamental_div_mod(a as int, b as int);
    vstd::arithmetic::div_mod::lemma_fundamental_div_mod(b as int, d as int);
    assert(b * q == d * (k * q)) by (nonlinear_arith)
        requires
            b == d * k,
    ;
    vstd::arithmetic::div_mod::lemma_mod_multiples_vanish(
        (k * q) as int,
        (a % b) as int,
        d as int,
    );
}

proof fn lemma_reduced_is_gcd(a: nat, b: nat, e: nat)
    requires
        a >= 1,
        e > 1,
        divides(e, a),
        divides(e, b),
    ensures
        divides(reduced(a, b), a),
        divides(reduced(a, b), b),
        forall|d: nat| divides(d, a) && divides(d, b) ==> #[trigger] divides(d, reduced(a, b)),
    decreases b,
{
    assert(a > 1) by {
        if a == 1 {
            assert(1nat % e == 1) by (nonlinear_arith)
                requires
                    e > 1,
            ;
        }
    }
    if b > 1 {
        lemma_divides_remainder(e, a, b);
        lemma_reduced_is_gcd(b, a % b, e);
        let g = reduced(b, a % b);
        lemma_divides_remainder(g, a, b);
        assert forall|d: nat| divides(d, a) && divides(d, b) implies #[trigger] divides(
            d,
            reduced(a, b),
        ) by {
            lemma_divides_remainder(d, a, b);
            assert(divides(d, a % b));
        }
    } else if b == 1 {
        assert(1nat % e == 1) by (nonlinear_arith)
            requires
                e > 1,
        ;
    } else {
        assert(a % a == 0) by {
            vstd::arithmetic::div_mod::lemma_mod_self_0(a as int);
        }
        assert(0nat % a == 0) by (nonlinear_arith)
            requires
                a > 0,
        ;
    }
}

/// Where nanoseconds per second and the frequency have a common divisor above one, the ratio is
/// reduced by their greatest common divisor: `scale` divides both, and every common divisor
/// divides it.
pub proof fn law_scale_is_gcd(freq: u64, e: nat)
    requires
        freq != 0,
        e > 1,
        divides(e, NS_PER_SEC as nat),
        divides(e, freq as nat),
    ensures
        divides(scale(freq), NS_PER_SEC as nat),
        divides(scale(freq), freq as nat),
        forall|d: nat|
            divides(d, NS_PER_SEC as nat) && divides(d, freq as nat) ==> #[trigger] divides(
                d,
                scale(freq),
            ),
{
    if freq > NS_PER_SEC {
        lemma_reduced_is_gcd(freq as nat, NS_PER_SEC as nat, e);
    } else {
        lemma_reduced_is_gcd(NS_PER_SEC as nat, freq as nat, e);
    }
}

/// The integer part of the logarithm to base two.
fn ilog2(x: u32) -> (r: u32)
    requires
        x > 0,
    ensures
        r == log(2, x as int),
        r < 32,
{
    let mut y: u32 = x;
    let mut r: u32 = 0;
    assert((x as u64) < (1u64 << 32)) by (bit_vector);
    while y > 1
        invariant
            y > 0,
            r + log(2, y as int) == log(2, x as int),
            (y as u64) < (1u64 << ((32 - r) as u64)),
            r < 32,
        decreases y,
    {
        proof {
            vstd::arithmetic::logarithm::lemma_log_s(2, y as int);
        }
        assert(r < 31 && ((y / 2) as u64) < (1u64 << ((31 - r) as u64))) by (bit_vector)
            requires
                r < 32,
                y > 1,
                (y as u64) < (1u64 << ((32 - r) as u64)),
        ;
        y = y / 2;
        r = r + 1;
    }
    proof {
        vstd::arithmetic::logarithm::lemma_log0(2, y as int);
    }
    r
}

/// What the length of a scheduling period depends on besides the number of tasks.
#[derive(Clone, Copy, Debug)]
pub struct PeriodParams {
    /// The ratio of nanoseconds to clock cycles.
    pub factors: (u64, u64),
    /// The number of CPUs.
    pub num_cpus: u32,
}

impl PeriodParams {
    /// A time in nanoseconds, in clock cycles.
    pub open spec fn cycles(&self, ns: u64) -> int {
        (ns * self.factors.1) / (self.factors.0 as int)
    }

    /// The time that each task adds to the period, in clock cycles.
    pub open spec fn granularity(&self) -> int {
        self.cycles(BASE_SLICE_NS) * log(2, 1 + self.num_cpus)
    }

    /// The scheduling period of `num` tasks, in clock cycles.
    pub open spec fn period(&self, num: u64) -> int {
        if self.granularity() * num >= self.cycles(MIN_PERIOD_NS) {
            self.granularity() * num
        } else {
            self.cycles(MIN_PERIOD_NS)
        }
    }

    /// Whether the period of `num` tasks can be computed without overflow.
    pub open spec fn fits(&self, num: u64) -> bool {
        &&& self.factors.0 > 0
        &&& MIN_PERIOD_NS * self.factors.1 <= u64::MAX
        &&& self.num_cpus < u32::MAX
        &&& self.granularity() <= u64::MAX
        &&& self.granularity() * num <= u64::MAX
    }
}

/// The scheduling period of `num` tasks, in clock cycles: a slice for each of them, longer where
/// there are more CPUs, and never less than the shortest period.
pub fn period(params: &PeriodParams, num: u64) -> (r: u64)
    requires
        params.fits(num),
    ensures
        r == params.period(num),
{
    let (a, b) = params.factors;
    assert((BASE_SLICE_NS * b) / (a as int) <= BASE_SLICE_NS * b) by (nonlinear_arith)
        requires
            a > 0,
    ;
    let base_slice_clks: u64 = BASE_SLICE_NS * b / a;
    let min_period_clks: u64 = MIN_PERIOD_NS * b / a;
    let min_gran_clks: u64 = base_slice_clks * (ilog2(1 + params.num_cpus) as u64);
    let clks: u64 = min_gran_clks * num;
    if clks >= min_period_clks {
        clks
    } else {
        min_period_clks
    }
}

/// Whether the period of `num` tasks can be computed without overflow.
pub fn period_fits(params: &PeriodParams, num: u64) -> (r: bool)
    ensures
        r == params.fits(num),
{
    let (a, b) = params.factors;
    if a == 0 || params.num_cpus == u32::MAX {
        return false;
    }
    let limit: u128 = u64::MAX as u128;
    let cycles: u128 = BASE_SLICE_NS as u128 * (b as u128) / (a as u128);
    assert((BASE_SLICE_NS * b) / (a as int) <= BASE_SLICE_NS * b) by (nonlinear_arith)
        requires
            a > 0,
    ;
    let steps: u128 = ilog2(1 + params.num_cpus) as u128;
    assert(cycles * steps <= 750_000 * 0xffff_ffff_ffff_ffff * 32) by (nonlinear_arith)
        requires
            cycles <= 750_000 * 0xffff_ffff_ffff_ffff,
            steps < 32,
    ;
    let granularity: u128 = cycles * steps;
    let wide: u128 = b as u128;
    assert(6_000_000 * wide <= 6_000_000 * 0xffff_ffff_ffff_ffff) by (nonlinear_arith)
        requires
            wide <= 0xffff_ffff_ffff_ffff,
    ;
    if MIN_PERIOD_NS as u128 * wide > limit || granularity > limit {
        return false;
    }
    let n: u128 = num as u128;
    assert(granularity * n <= 0xffff_ffff_ffff_ffff * 0xffff_ffff_ffff_ffff) by (nonlinear_arith)
        requires
            granularity <= 0xffff_ffff_ffff_ffff,
            n <= 0xffff_ffff_ffff_ffff,
    ;
    granularity * n <= limit
}

/// A period is never shorter than the shortest one, and more tasks never make it shorter.
pub proof fn law_period_grows(params: PeriodParams, m: u64, n: u64)
    requires
        m <= n,
        params.factors.0 > 0,
    ensures
        params.period(m) >= params.cycles(MIN_PERIOD_NS),
        params.period(m) <= params.period(n),
{
    assert(params.cycles(BASE_SLICE_NS) >= 0) by (nonlinear_arith)
        requires
            params.factors.0 > 0,
            params.cycles(BASE_SLICE_NS) == (BASE_SLICE_NS * params.factors.1) / (
            params.factors.0 as int),
    ;
    let l = log(2, 1 + params.num_cpus);
    vstd::arithmetic::logarithm::lemma_log_nonnegative(2, 1 + params.num_cpus);
    assert(params.granularity() >= 0) by (nonlinear_arith)
        requires
            params.granularity() == params.cycles(BASE_SLICE_NS) * l,
            params.cycles(BASE_SLICE_NS) >= 0,
            l >= 0,
    ;
    assert(params.granularity() * m <= params.granularity() * n) by (nonlinear_arith)
        requires
            params.granularity() >= 0,
            m <= n,
    ;
}

/// The ratio is that of nanoseconds to cycles: a number of nanoseconds that is a multiple of the
/// first factor takes as many cycles at `freq` cycles per second as the second factor says.
pub proof fn law_factors_are_ratio(freq: u64, e: nat)
    requires
        freq != 0,
        e > 1,
        divides(e, 1_000_000_000),
        divides(e, freq as nat),
    ensures
        (1_000_000_000nat / scale(freq)) * freq == (freq as nat / scale(freq)) * 1_000_000_000,
{
    law_scale_is_gcd(freq, e);
    let (n, f, g) = (1_000_000_000int, freq as int, scale(freq) as int);
    vstd::arithmetic::div_mod::lemma_fundamental_div_mod(n, g);
    vstd::arithmetic::div_mod::lemma_fundamental_div_mod(f, g);
    let (a, b) = (n / g, f / g);
    assert(a * f == b * n) by (nonlinear_arith)
        requires
            n == g * a,
            f == g * b,
    ;
}

proof fn lemma_log_between(x: int, k: nat)
    requires
        pow(2, k) <= x < pow(2, k + 1),
    ensures
        log(2, x) == k,
    decreases k,
{
    reveal(pow);
    if k == 0 {
        assert(pow(2, 0) == 1 && pow(2, 1) == 2) by {
            assert(pow(2, 1) == 2 * pow(2, 0));
        }
        vstd::arithmetic::logarithm::lemma_log0(2, x);
    } else {
        let j = (k - 1) as nat;
        assert(pow(2, k) == 2 * pow(2, j) && pow(2, k + 1) == 2 * pow(2, k));
        vstd::arithmetic::power::lemma_pow_positive(2, j);
        lemma_log_between(x / 2, j);
        vstd::arithmetic::logarithm::lemma_log_s(2, x);
    }
}

/// A period holds for each task one slice of 750000 nanoseconds for each doubling of the number
/// of CPUs, and is never shorter than 6000000 nanoseconds: it is the longer of these two times,
/// both in clock cycles.
pub proof fn law_period_is_longer_of_two(params: PeriodParams, num: u64, doublings: nat)
    requires
        params.factors.0 > 0,
        pow(2, doublings) <= 1 + params.num_cpus < pow(2, doublings + 1),
    ensures
        ({
            let p = params.period(num);
            let slices = ((750_000 * params.factors.1) / (params.factors.0 as int)) * doublings
                * num;
            let least = (6_000_000 * params.factors.1) / (params.factors.0 as int);
            p >= slices && p >= least && (p == slices || p == least)
        }),
{
    lemma_log_between(1 + params.num_cpus, doublings);
}

/// A time in nanoseconds takes as many cycles as the ratio says, rounded down.
pub proof fn law_cycles_keep_ratio(params: PeriodParams, ns: u64)
    requires
        params.factors.0 > 0,
    ensures
        params.cycles(ns) * params.factors.0 <= ns * params.factors.1 < (params.cycles(ns) + 1)
            * params.factors.0,
{
    let (x, a) = (ns * params.factors.1, params.factors.0 as int);
    assert((x / a) * a <= x < (x / a + 1) * a) by (nonlinear_arith)
        requires
            a > 0,
    ;
}

/// The scale is found by division with remainder: two numbers above one have that of the second one
/// and the rest, and where one of them is at most one it is the other. Of nanoseconds per second
/// and the frequency the larger one is divided by the other.
pub proof fn law_scale_by_remainders(a: nat, b: nat, freq: u64)
    ensures
        a > 1 && b > 1 ==> reduced(a, b) == reduced(b, a % b),
        a > 1 && b <= 1 ==> reduced(a, b) == a,
        a <= 1 ==> reduced(a, b) == b,
        scale(freq) == reduced(freq as nat, 1_000_000_000) || scale(freq) == reduced(
            1_000_000_000,
            freq as nat,
        ),
        1 < freq < 1_000_000_000 ==> scale(freq) == reduced(freq as nat, 1_000_000_000nat % freq as nat),
        freq > 1_000_000_000 ==> scale(freq) == reduced(1_000_000_000, freq as nat % 1_000_000_000),
        freq <= 1 ==> scale(freq) == 1_000_000_000,
{
}

} // verus!
