use std::sync::Arc;

use os_kernel::processor::{get_kernel_runtime_usec, get_user_runtime_usec, Processor, TaskContext};

#[test]
fn new_processor_is_idle() {
    let mut p: Processor<Arc<u32>> = Processor::new();
    assert_eq!(p.current(), None);
    assert_eq!(p.get_user_clock(), 0);
    assert_eq!(p.get_kernel_clock(), 0);
    let cx = p.idle_task_cx_mut();
    assert_eq!(cx.ra, 0);
    assert_eq!(cx.sp, 0);
    assert_eq!(cx.s, [0; 12]);
}

#[test]
fn clocks_give_back_what_was_recorded() {
    let mut p: Processor<Arc<u32>> = Processor::new();
    p.update_user_clock(1_000);
    p.update_kernel_clock(1_500);
    assert_eq!(p.get_user_clock(), 1_000);
    assert_eq!(p.get_kernel_clock(), 1_500);
    assert_eq!(get_user_runtime_usec(&p, 1_250), 250);
    assert_eq!(get_kernel_runtime_usec(&p, 2_000), 500);
    assert_eq!(get_kernel_runtime_usec(&p, 1_500), 0);
}

#[test]
fn take_current_leaves_no_thread() {
    let mut p: Processor<Arc<u32>> = Processor::new();
    let t = Arc::new(7);
    p.set_current(t.clone());
    let first = p.current().unwrap();
    let second = p.current().unwrap();
    assert!(Arc::ptr_eq(&first, &t));
    assert!(Arc::ptr_eq(&first, &second));
    assert_eq!(p.take_current(), Some(t));
    assert_eq!(p.current(), None);
    assert_eq!(p.take_current(), None);
}

#[test]
fn idle_context_keeps_what_is_saved_in_it() {
    let mut p: Processor<Arc<u32>> = Processor::new();
    p.idle_task_cx_mut().ra = 0x8020_0000;
    p.idle_task_cx_mut().s[3] = 42;
    assert_eq!(p.idle_task_cx_mut().ra, 0x8020_0000);
    assert_eq!(p.idle_task_cx_mut().s[3], 42);
    let z = TaskContext::zero_init();
    assert_eq!(z.s[11], 0);
}
