use os_kernel::process::ProcessControlBlockInner;

fn fresh() -> ProcessControlBlockInner<&'static str, u32> {
    ProcessControlBlockInner::new(0x8000_0000_0008_0000, "stdin", "stdout", "stderr")
}

#[test]
fn new_process_has_standard_streams() {
    let p = fresh();
    assert!(!p.is_zombie);
    assert_eq!(p.get_user_token(), 0x8000_0000_0008_0000);
    assert_eq!(p.parent, None);
    assert!(p.children.is_empty());
    assert_eq!(p.exit_code, 0);
    assert_eq!(p.fd_table, vec![Some("stdin"), Some("stdout"), Some("stderr")]);
    assert_eq!(p.signals, 0);
    assert_eq!(p.thread_count(), 0);
}

#[test]
fn alloc_fd_grows_a_full_table() {
    let mut p = fresh();
    assert_eq!(p.alloc_fd(), 3);
    assert_eq!(p.fd_table.len(), 4);
    assert_eq!(p.fd_table[3], None);
}

#[test]
fn alloc_fd_takes_the_lowest_free_slot() {
    let mut p = fresh();
    p.fd_table.push(Some("file"));
    p.fd_table.push(None);
    p.fd_table[1] = None;
    assert_eq!(p.alloc_fd(), 1);
    assert_eq!(p.fd_table.len(), 5);
}

#[test]
fn alloc_fd_repeats_until_the_slot_is_filled() {
    let mut p = fresh();
    let fd = p.alloc_fd();
    assert_eq!(p.alloc_fd(), fd);
    assert_eq!(p.fd_table.len(), 4);
    p.fd_table[fd] = Some("pipe");
    assert_eq!(p.alloc_fd(), 4);
}

#[test]
fn thread_ids_come_from_the_process_allocator() {
    let mut p = fresh();
    assert_eq!(p.alloc_tid(), 0);
    assert_eq!(p.alloc_tid(), 1);
    p.dealloc_tid(0);
    assert_eq!(p.alloc_tid(), 0);
    assert_eq!(p.alloc_tid(), 2);
}

#[test]
fn install_task_grows_the_table() {
    let mut p = fresh();
    p.install_task(0, 100);
    assert_eq!(p.tasks, vec![Some(100)]);
    p.install_task(3, 103);
    assert_eq!(p.tasks, vec![Some(100), None, None, Some(103)]);
    p.install_task(1, 101);
    assert_eq!(p.tasks, vec![Some(100), Some(101), None, Some(103)]);
    assert_eq!(p.thread_count(), 4);
    assert_eq!(p.get_task(3), 103);
    assert_eq!(p.get_task(1), 101);
}

#[test]
fn waittid_answers_per_thread_state() {
    let mut p = fresh();
    p.install_task(0, 100);
    p.install_task(2, 102);
    // waiting for oneself
    assert_eq!(p.waittid(0, 0, Some(5)), -1);
    // no such thread
    assert_eq!(p.waittid(0, 1, Some(5)), -1);
    assert_eq!(p.waittid(0, 9, None), -1);
    // still running
    assert_eq!(p.waittid(0, 2, None), -2);
    assert_eq!(p.tasks[2], Some(102));
    // exited: collected and removed
    assert_eq!(p.waittid(0, 2, Some(7)), 7);
    assert_eq!(p.tasks[2], None);
    // gone now
    assert_eq!(p.waittid(0, 2, Some(7)), -1);
}

#[test]
fn fork_copies_descriptors_and_records_the_child() {
    let mut parent = fresh();
    parent.install_task(0, 100);
    parent.fd_table.push(None);
    parent.fd_table.push(Some("file"));
    let child = parent.fork(1, 2, 0x8000_0000_0009_0000);
    assert_eq!(parent.children, vec![2]);
    assert_eq!(child.parent, Some(1));
    assert_eq!(child.user_token, 0x8000_0000_0009_0000);
    assert_eq!(child.fd_table, parent.fd_table);
    assert!(child.children.is_empty());
    assert_eq!(child.thread_count(), 0);
    assert_eq!(child.exit_code, 0);
    assert!(!child.is_zombie);
    let mut child = child;
    assert_eq!(child.alloc_tid(), 0);
}

#[test]
fn new_process_main_thread_is_thread_zero() {
    let mut p = fresh();
    let tid = p.add_thread(|tid| 100 + tid as u32);
    assert_eq!(tid, 0);
    assert_eq!(p.tasks, vec![Some(100)]);
    assert!(p.task_res_allocator.is_allocated(0));
    assert!(!p.task_res_allocator.is_allocated(1));
}

#[test]
fn forked_child_main_thread_is_thread_zero() {
    let mut parent = fresh();
    parent.add_thread(|_| 100);
    let mut child = parent.fork(1, 2, 0);
    assert_eq!(child.add_thread(|tid| 200 + tid as u32), 0);
    assert_eq!(child.tasks, vec![Some(200)]);
}

#[test]
fn further_threads_take_the_next_ids() {
    let mut p = fresh();
    p.add_thread(|_| 100);
    assert_eq!(p.add_thread(|tid| 100 + tid as u32), 1);
    assert_eq!(p.add_thread(|tid| 100 + tid as u32), 2);
    assert_eq!(p.tasks, vec![Some(100), Some(101), Some(102)]);
    p.dealloc_tid(1);
    p.tasks[1] = None;
    assert_eq!(p.add_thread(|tid| 200 + tid as u32), 1);
    assert_eq!(p.tasks, vec![Some(100), Some(201), Some(102)]);
}
