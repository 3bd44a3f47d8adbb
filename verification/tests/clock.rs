use asterinas::sched::clock::{period, period_fits, tsc_factors, PeriodParams};
use asterinas::sched::nice::{nice_to_weight, Nice, WEIGHT_0};
use asterinas::sched::vruntime::VRuntime;
use asterinas::task::priority::Priority;

#[test]
fn weights_of_the_ends_and_the_middle() {
    assert_eq!(nice_to_weight(Nice::new(-20)), 88761);
    assert_eq!(nice_to_weight(Nice::new(0)), WEIGHT_0);
    assert_eq!(nice_to_weight(Nice::new(19)), 15);
    assert_eq!(Nice::new(-3).to_raw(), -3);
}

#[test]
fn weights_decrease() {
    for raw in -20..19 {
        assert!(nice_to_weight(Nice::new(raw)) > nice_to_weight(Nice::new(raw + 1)));
    }
}

#[test]
fn priorities_and_nice_values() {
    assert!(Priority::new(99).is_real_time());
    assert!(Priority::new(99).as_nice().is_none());
    assert!(!Priority::new(100).is_real_time());
    assert_eq!(Priority::new(100).as_nice().unwrap().to_raw(), -20);
    assert_eq!(Priority::normal().as_nice().unwrap().to_raw(), 0);
    assert_eq!(Priority::lowest().as_nice().unwrap().to_raw(), 19);
}

#[test]
fn factors_are_reduced_by_the_greatest_common_divisor() {
    assert_eq!(tsc_factors(2_400_000_000), (5, 12));
    assert_eq!(tsc_factors(1_000_000_000), (1, 1));
    assert_eq!(tsc_factors(500_000_000), (2, 1));
}

#[test]
fn factors_of_numbers_without_common_divisor() {
    // The reduction ends at the number before a remainder of one.
    assert_eq!(tsc_factors(3), (333_333_333, 1));
    assert_eq!(tsc_factors(7), (166_666_666, 1));
    assert_eq!(tsc_factors(1), (1, 0));
}

#[test]
fn period_is_at_least_the_minimum() {
    // 1 GHz, so that a cycle is a nanosecond, and 3 CPUs.
    let params = PeriodParams { factors: (1, 1), num_cpus: 3 };
    assert_eq!(period(&params, 0), 6_000_000);
    assert_eq!(period(&params, 4), 6_000_000);
    assert_eq!(period(&params, 5), 7_500_000);
}

#[test]
fn period_counts_in_clock_cycles() {
    let params = PeriodParams { factors: (5, 12), num_cpus: 1 };
    assert_eq!(period(&params, 1), 14_400_000);
    assert_eq!(period(&params, 10), 18_000_000);
}

#[test]
fn fresh_run_time_begins_now() {
    let v = VRuntime::new(4, Priority::new(121), 50);
    assert_eq!((v.key, v.weight, v.vruntime, v.start, v.period_start), (4, 820, 0, 50, 50));
    assert_eq!(v.get(), 0);
}

#[test]
fn base_weight_gains_the_clock() {
    let v = VRuntime::new(0, Priority::normal(), 100);
    assert_eq!(v.get_with_cur(350), 250);
}

#[test]
fn heavier_task_gains_less() {
    let light = VRuntime::new(0, Priority::new(125), 0);
    let heavy = VRuntime::new(1, Priority::new(115), 0);
    assert_eq!(light.get_with_cur(1000), 1000 * 1024 / 335);
    assert_eq!(heavy.get_with_cur(1000), 1000 * 1024 / 3121);
}

#[test]
fn tick_tells_when_the_share_is_used() {
    let mut v = VRuntime::new(0, Priority::normal(), 0);
    // Half of the load, so half of the period.
    assert!(!v.tick(2048, 1000, 500));
    assert_eq!((v.vruntime, v.start, v.period_start), (500, 500, 0));
    assert!(v.tick(2048, 1000, 501));
    assert_eq!((v.vruntime, v.start, v.period_start), (501, 501, 501));
}

#[test]
fn run_times_are_ordered_by_time_then_clock_then_key() {
    let a = VRuntime { key: 1, weight: 1024, vruntime: 5, start: 9, period_start: 0 };
    let b = VRuntime { key: 0, weight: 1024, vruntime: 6, start: 0, period_start: 0 };
    let c = VRuntime { key: 0, weight: 15, vruntime: 5, start: 9, period_start: 3 };
    let d = VRuntime { key: 1, weight: 15, vruntime: 5, start: 9, period_start: 3 };
    assert!(a.precedes(&b));
    assert!(!b.precedes(&a));
    assert!(c < a);
    assert!(a == d);
    assert!(a != c);
}

#[test]
fn period_that_overflows_is_told() {
    let params = PeriodParams { factors: (1, 1), num_cpus: 3 };
    assert!(period_fits(&params, 1_000_000));
    assert!(!period_fits(&params, u64::MAX / 1_000_000));
    assert!(!period_fits(&PeriodParams { factors: (0, 1), num_cpus: 3 }, 1));
    assert!(!period_fits(&PeriodParams { factors: (1, u64::MAX), num_cpus: 3 }, 1));
}

#[test]
fn tick_with_a_bad_clock_is_told() {
    let v = VRuntime::new(0, Priority::normal(), 100);
    assert!(v.tick_is_safe(1024, 1000, 101));
    assert!(!v.tick_is_safe(1024, 1000, 100));
    assert!(!v.tick_is_safe(1024, 1000, 99));
    assert!(!v.tick_is_safe(0, 1000, 101));
    assert!(!v.tick_is_safe(1024, 0, 101));
    assert!(!v.tick_is_safe(1024, 1000, u64::MAX));
    assert!(!v.tick_is_safe(1024, u64::MAX, 101));
}
