use asterinas::boot::{cpu_local_init, cpu_local_pages, init_func_slots};
use asterinas::cpu::{num_cpus, CpuLocal, CpuSet};
use asterinas::init::{
    exit_code_of, first_thread, idle_thread, trial_is_over, trial_mutex, trial_priority,
    QemuExitCode,
};
use asterinas::smp::Smp;
use asterinas::task::stack::VmSegment;
use asterinas::trap::LocalIrq;

#[test]
fn one_cpu_before_they_are_counted() {
    assert_eq!(num_cpus(&None), 1);
    assert_eq!(num_cpus(&Some(8)), 8);
}

#[test]
fn full_set_holds_all() {
    let s = CpuSet::new_full(3);
    assert_eq!(s.iter(), vec![0, 1, 2]);
    assert!(!s.contains(3));
}

#[test]
fn empty_set_holds_none() {
    let s = CpuSet::new_empty(3);
    assert_eq!(s.iter(), Vec::<usize>::new());
    assert!(!s.contains(0));
}

#[test]
fn default_set_knows_no_cpu() {
    let s = CpuSet::default();
    assert_eq!(s.iter(), Vec::<usize>::new());
    assert!(!s.contains(0));
}

#[test]
fn single_holds_one() {
    let s = CpuSet::single(4, 2);
    assert!(s.contains(2));
    assert!(!s.contains(1));
    assert_eq!(s.iter(), vec![2]);
}

#[test]
fn remove_undoes_add() {
    let mut s = CpuSet::new_empty(70);
    s.add(65);
    assert_eq!(s.iter(), vec![65]);
    s.remove(65);
    assert_eq!(s.iter(), Vec::<usize>::new());
}

#[test]
fn lists_are_added_and_removed() {
    let mut s = CpuSet::new_empty(6);
    s.add_from_vec(vec![4, 1, 4]);
    assert_eq!(s.iter(), vec![1, 4]);
    s.remove_from_vec(vec![1, 5]);
    assert_eq!(s.iter(), vec![4]);
    s.add_all();
    assert_eq!(s.iter(), vec![0, 1, 2, 3, 4, 5]);
    s.clear();
    assert_eq!(s.iter(), Vec::<usize>::new());
}

#[test]
fn local_value_is_used_with_interrupts_off() {
    let mut irq = LocalIrq { enabled: true };
    let mut local = CpuLocal::new(5u32);
    let r = local.with(&mut irq, |v, irq| {
        assert!(!irq.is_local_enabled());
        *v + 1
    });
    assert_eq!(r, 6);
    assert!(irq.is_local_enabled());
    let r = local.with_borrow(&mut irq, |v, irq| (*v, irq.is_local_enabled()));
    assert_eq!(r, (5, false));
    assert!(irq.is_local_enabled());
    let r = local.with_borrow_mut(&mut irq, |v, irq| {
        *v = 9;
        !irq.is_local_enabled()
    });
    assert!(r);
    assert_eq!(local.get(), 9);
    assert!(irq.is_local_enabled());
    let mut off = LocalIrq { enabled: false };
    assert!(!local.with(&mut off, |_, irq| irq.is_local_enabled()));
    assert!(!off.is_local_enabled());
}

#[test]
fn local_value_is_replaced_and_taken() {
    let mut local = CpuLocal::new(5u32);
    local.set(6);
    assert_eq!(local.replace(7), 6);
    assert_eq!(local.take(), 7);
    assert_eq!(local.get(), 0);
}

#[test]
fn interrupts_come_back_with_the_outer_guard() {
    let mut irq = LocalIrq { enabled: true };
    let outer = irq.disable_local();
    let inner = irq.disable_local();
    irq.restore(inner);
    assert!(!irq.is_local_enabled());
    irq.restore(outer);
    assert!(irq.is_local_enabled());
}

#[test]
fn cpus_are_counted_and_listed_once() {
    let stack = VmSegment { start_paddr: 0x1000, nframes: 4 };
    let other = VmSegment { start_paddr: 0x9000, nframes: 4 };
    let mut smp = Smp::new();
    smp.init(0, &vec![(1, stack), (3, stack), (3, other)]);
    assert_eq!(smp.cpu_num, Some(4));
    assert_eq!(smp.bsp, Some(0));
    smp.init(7, &vec![(9, stack)]);
    assert_eq!(smp.cpu_num, Some(4));
    assert_eq!(smp.bsp, Some(0));
    let infos = smp.ap_boot_info.as_ref().unwrap();
    assert!(infos.get(9).is_none());
    assert_eq!(infos.get(3).unwrap().boot_stack_frames, other);
    assert!(!infos.get(1).unwrap().is_started);
}

#[test]
fn processor_says_that_it_started() {
    let stack = VmSegment { start_paddr: 0x1000, nframes: 4 };
    let mut smp = Smp::new();
    smp.init(0, &vec![(1, stack), (2, stack)]);
    smp.ap_started(2);
    let infos = smp.ap_boot_info.as_ref().unwrap();
    assert!(infos.get(2).unwrap().is_started);
    assert_eq!(infos.get(2).unwrap().boot_stack_frames, stack);
    assert!(!infos.get(1).unwrap().is_started);
}

#[test]
fn local_area_is_data_and_zeros() {
    let area = cpu_local_init(0x1000, &vec![1, 2, 3], 2);
    assert_eq!(area.image, vec![1, 2, 3, 0, 0]);
    assert_eq!(area.tend, 0x1005);
}

#[test]
fn local_area_takes_whole_pages() {
    assert_eq!(cpu_local_pages(0, 0), 0);
    assert_eq!(cpu_local_pages(4000, 96), 1);
    assert_eq!(cpu_local_pages(4000, 97), 2);
}

#[test]
fn init_functions_are_eight_bytes_apart() {
    assert_eq!(init_func_slots(0x100, 0x11c), vec![0x100, 0x108, 0x110]);
    assert_eq!(init_func_slots(0x100, 0x100), Vec::<usize>::new());
}

#[test]
fn idle_thread_is_bound_and_least_important() {
    let options = idle_thread(7, 4, 3);
    assert_eq!(options.cpu_affinity.iter(), vec![3]);
    assert_eq!(options.priority.val, 139);
    assert_eq!(options.func, Some(7));
}

#[test]
fn first_thread_is_bound_with_normal_priority() {
    let options = first_thread(7, 4, 0);
    assert_eq!(options.cpu_affinity.iter(), vec![0]);
    assert_eq!(options.priority.val, 120);
}

#[test]
fn machine_is_told_how_the_init_process_ended() {
    assert_eq!(exit_code_of(0), QemuExitCode::Success);
    assert_eq!(exit_code_of(1), QemuExitCode::Failed);
}

#[test]
fn priorities_are_tried_out_for_a_while() {
    assert_eq!(trial_priority(0).val, 115);
    assert_eq!(trial_priority(10).val, 125);
    assert_eq!(trial_mutex(25), 3);
    assert!(!trial_is_over(100, 100 + 79_999, 1000));
    assert!(trial_is_over(100, 100 + 80_000, 1000));
}
