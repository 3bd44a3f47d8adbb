//! Nice values and the share of a CPU that each stands for.
use vstd::prelude::*;

verus! {

/// How willing a task is to let others run before it: -20 to 19, a lower value for a larger
/// share of the CPU.
#[derive(Clone, Copy, PartialEq, Eq, Debug, Structural)]
pub struct Nice {
    pub raw: i8,
}

impl Nice {
    /// Whether the value is in the range of nice values.
    pub open spec fn wf(&self) -> bool {
        -20 <= self.raw <= 19
    }

    /// A nice value.
    pub fn new(raw: i8) -> (nice: Nice)
        requires
            -20 <= raw <= 19,
        ensures
            nice.wf(),
            nice.raw == raw,
    {
        Nice { raw }
    }

    /// The number behind the nice value.
    pub fn to_raw(&self) -> (raw: i8)
        ensures
            raw == self.raw,
    {
        self.raw
    }
}

/// The weight of each nice value, from -20 up. Each step down is worth about a quarter more.
pub const NICE_TO_WEIGHT: [u64; 40] = [
    88761, 71755, 56483, 46273, 36291, 29154, 23254, 18705, 14949, 11916, 9548, 7620, 6100,
    4904, 3906, 3121, 2501, 1991, 1586, 1277, 1024, 820, 655, 526, 423, 335, 272, 215, 172,
    137, 110, 87, 70, 56, 45, 36, 29, 23, 18, 15,
];

/// The weight of nice value zero, against which other weights are measured.
pub const WEIGHT_0: u64 = 1024;

/// The weight of a nice value.
pub open spec fn weight_of(nice: Nice) -> u64 {
    NICE_TO_WEIGHT@[nice.raw + 20]
}

/// Returns the weight of a nice value.
pub fn nice_to_weight(nice: Nice) -> (weight: u64)
    requires
        nice.wf(),
    ensures
        weight == weight_of(nice),
{
    NICE_TO_WEIGHT[(nice.to_raw() + 20) as usize]
}

/// No weight is zero, none is above 88761, and nice value zero has the base weight.
pub proof fn law_weights_bounded(nice: Nice)
    requires
        nice.wf(),
    ensures
        15 <= weight_of(nice) <= 88761,
        weight_of(Nice { raw: 0 }) == WEIGHT_0,
{
}

/// A smaller nice value has a strictly larger weight.
pub proof fn law_weights_decrease(a: Nice, b: Nice)
    requires
        a.wf(),
        b.wf(),
        a.raw < b.raw,
    ensures
        weight_of(a) > weight_of(b),
{
}

/// One step of nice value is worth about a quarter of the CPU: the next smaller value weighs at
/// least a fifth more, and at most 28 parts of a hundred more.
pub proof fn law_step_is_a_quarter(nice: Nice)
    requires
        nice.wf(),
        nice.raw < 19,
    ensures
        ({
            let next = weight_of(Nice { raw: (nice.raw + 1) as i8 });
            120 * next <= 100 * weight_of(nice) <= 128 * next
        }),
{
}

/// The weight of every nice value, from -20 up: the values that are in common use.
pub proof fn law_weights_are_the_usual_ones(nice: Nice)
    requires
        nice.wf(),
    ensures
        weight_of(nice) == seq![
            88761int, 71755, 56483, 46273, 36291, 29154, 23254, 18705, 14949, 11916, 9548, 7620,
            6100, 4904, 3906, 3121, 2501, 1991, 1586, 1277, 1024, 820, 655, 526, 423, 335, 272,
            215, 172, 137, 110, 87, 70, 56, 45, 36, 29, 23, 18, 15,
        ][nice.raw + 20],
{
}

} // verus!
