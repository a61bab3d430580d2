use os_kernel::kernel::{AppImage, Kernel};
use os_kernel::mm::{MapArea, MemorySet};
use os_kernel::process::Process;
use os_kernel::semaphore::Semaphore;
use os_kernel::primitives::{Condvar, LockOutcome, Mutex};
use os_kernel::sys_process::{
    sys_exec, sys_exit, sys_fork, sys_get_time, sys_getpid, sys_mmap, sys_munmap, sys_sbrk,
    sys_set_priority, sys_spawn, sys_task_info, sys_thread_create, sys_waitpid, sys_yield, TaskInfo,
    TimeVal, MAX_SYSCALL_NUM,
};
use os_kernel::sys_sync::{
    sys_condvar_create, sys_condvar_signal, sys_condvar_wait, sys_enable_deadlock_detect,
    sys_mutex_create, sys_mutex_lock, sys_mutex_unlock, sys_semaphore_create, sys_semaphore_down,
    sys_semaphore_up, sys_sleep, DEADLOCK,
};
use os_kernel::task::TaskStatus;

fn image() -> AppImage {
    AppImage { memory_set: MemorySet::new(), entry: 0x1000, user_sp: 0x8000, heap_bottom: 0x10000 }
}

fn boot() -> Kernel {
    Kernel::new(image())
}

fn proc_of(k: &Kernel, pid: usize) -> &Process {
    k.procs[pid].as_ref().unwrap()
}

fn areas(k: &Kernel) -> Vec<MapArea> {
    let (pid, _) = k.current.unwrap();
    proc_of(k, pid).memory_set.areas.clone()
}

fn conserved(k: &Kernel, pid: usize) -> bool {
    let p = proc_of(k, pid);
    (0..p.semaphore_list.len()).all(|s| {
        let held: usize = p.threads.iter().map(|t| t.allocate[s]).sum();
        p.work[s] + held == p.sem_total[s]
    })
}

#[test]
fn set_priority_rejects_one_and_zero() {
    let mut k = boot();
    assert_eq!(sys_set_priority(&mut k, 1), -1);
    assert_eq!(sys_set_priority(&mut k, 0), -1);
    assert_eq!(sys_set_priority(&mut k, -3), -1);
    assert_eq!(sys_set_priority(&mut k, 5), 5);
    assert_eq!(proc_of(&k, 0).threads[0].priority, 5);
}

#[test]
fn waitpid_reaps_child_exited_with_seven() {
    let mut k = boot();
    let child = sys_fork(&mut k);
    assert_eq!(child, 1);
    assert_eq!(sys_yield(&mut k), 0);
    assert_eq!(k.current, Some((1, 0)));
    assert_eq!(sys_getpid(&k), 1);
    sys_exit(&mut k, 7);
    assert!(proc_of(&k, 1).is_zombie);
    assert_eq!(k.current, Some((0, 0)));
    let mut code: i32 = 0;
    assert_eq!(sys_waitpid(&mut k, -1, &mut code), 1);
    assert_eq!(code, 7);
    assert!(k.procs[1].is_none());
    assert!(proc_of(&k, 0).children.is_empty());
    let mut again: i32 = 0;
    assert_eq!(sys_waitpid(&mut k, -1, &mut again), -1);
    assert_eq!(again, 0);
}

#[test]
fn waitpid_distinguishes_missing_and_running_children() {
    let mut k = boot();
    let child = sys_fork(&mut k);
    let mut code: i32 = 0;
    assert_eq!(sys_waitpid(&mut k, child + 5, &mut code), -1);
    assert_eq!(sys_waitpid(&mut k, child, &mut code), -2);
    assert_eq!(sys_waitpid(&mut k, -1, &mut code), -2);
    assert_eq!(code, 0);
}

#[test]
fn fork_child_context_reads_zero() {
    let mut k = boot();
    k.procs[0].as_mut().unwrap().threads[0].trap_cx.x[10] = 123;
    k.procs[0].as_mut().unwrap().threads[0].trap_cx.x[5] = 55;
    let pid = sys_fork(&mut k);
    assert_eq!(pid, 1);
    let parent_cx = &proc_of(&k, 0).threads[0].trap_cx;
    let child = proc_of(&k, 1);
    assert_eq!(child.parent, Some(0));
    assert_eq!(child.threads[0].trap_cx.x[10], 0);
    assert_eq!(child.threads[0].trap_cx.x[5], 55);
    assert_eq!(child.threads[0].trap_cx.x[2], 0x8000);
    assert_eq!(child.threads[0].trap_cx.sepc, parent_cx.sepc);
    assert_eq!(parent_cx.x[10], 123);
    assert_eq!(proc_of(&k, 0).children, vec![1]);
    assert_eq!(k.ready, vec![(1, 0)]);
}

#[test]
fn fork_copies_the_address_space() {
    let mut k = boot();
    assert_eq!(sys_mmap(&mut k, 0x40000, 0x1000, 3), 0);
    let pid = sys_fork(&mut k) as usize;
    assert_eq!(proc_of(&k, pid).memory_set.areas, proc_of(&k, 0).memory_set.areas);
}

#[test]
fn overlapping_mmap_fails_and_keeps_areas() {
    let mut k = boot();
    assert_eq!(sys_mmap(&mut k, 0x10000, 0x2000, 3), 0);
    let before = areas(&k);
    assert_eq!(before, vec![MapArea { start_vpn: 0x10, end_vpn: 0x12, perm: 0b10110 }]);
    assert_eq!(sys_mmap(&mut k, 0x11000, 0x1000, 1), -1);
    assert_eq!(sys_mmap(&mut k, 0xf000, 0x1800, 1), -1);
    assert_eq!(areas(&k), before);
    assert_eq!(sys_mmap(&mut k, 0x12000, 0x1000, 1), 0);
}

#[test]
fn mmap_then_munmap_restores_areas() {
    let mut k = boot();
    assert_eq!(sys_mmap(&mut k, 0x10000, 0x1000, 1), 0);
    let before = areas(&k);
    assert_eq!(sys_mmap(&mut k, 0x20000, 0x3000, 7), 0);
    assert_eq!(areas(&k).len(), 2);
    assert_eq!(areas(&k)[1].perm, 0b11110);
    assert_eq!(sys_munmap(&mut k, 0x20000, 0x3000), 0);
    assert_eq!(areas(&k), before);
}

#[test]
fn munmap_of_part_of_an_area_fails() {
    let mut k = boot();
    assert_eq!(sys_mmap(&mut k, 0x20000, 0x3000, 2), 0);
    let before = areas(&k);
    assert_eq!(sys_munmap(&mut k, 0x21000, 0x1000), -1);
    assert_eq!(sys_munmap(&mut k, 0x20000, 0x1000), -1);
    assert_eq!(sys_munmap(&mut k, 0x30000, 0x1000), -1);
    assert_eq!(areas(&k), before);
}

#[test]
fn mmap_rejects_bad_arguments() {
    let mut k = boot();
    assert_eq!(sys_mmap(&mut k, 0x10001, 0x1000, 1), -1);
    assert_eq!(sys_mmap(&mut k, 0x10000, 0x1000, 0), -1);
    assert_eq!(sys_mmap(&mut k, 0x10000, 0x1000, 8), -1);
    assert_eq!(sys_mmap(&mut k, 0x10000, 0x1000, 9), -1);
    assert_eq!(sys_mmap(&mut k, usize::MAX - 0xfff, 0x1000, 1), -1);
    assert!(areas(&k).is_empty());
}

#[test]
fn mmap_rounds_the_end_up_to_a_page() {
    let mut k = boot();
    assert_eq!(sys_mmap(&mut k, 0x10000, 0x1001, 1), 0);
    assert_eq!(areas(&k)[0].end_vpn, 0x12);
    // the area ends on a page, not at start + len
    assert_eq!(sys_munmap(&mut k, 0x10000, 0x1001), -1);
    assert_eq!(sys_munmap(&mut k, 0x10000, 0x2000), 0);
}

#[test]
fn crossed_acquisition_is_refused_as_deadlock() {
    let mut k = boot();
    assert_eq!(sys_semaphore_create(&mut k, 1), 0);
    assert_eq!(sys_semaphore_create(&mut k, 1), 1);
    assert_eq!(sys_semaphore_create(&mut k, 1), 2);
    assert_eq!(sys_enable_deadlock_detect(&mut k, 1), 0);
    assert_eq!(sys_thread_create(&mut k, 0x2000, 0x9000), 1);
    assert_eq!(sys_thread_create(&mut k, 0x3000, 0xa000), 2);
    // thread A takes semaphore 1
    sys_yield(&mut k);
    assert_eq!(k.current, Some((0, 1)));
    assert_eq!(sys_semaphore_down(&mut k, 1), 0);
    assert!(conserved(&k, 0));
    // thread B takes semaphore 2
    sys_yield(&mut k);
    assert_eq!(k.current, Some((0, 2)));
    assert_eq!(sys_semaphore_down(&mut k, 2), 0);
    assert!(conserved(&k, 0));
    sys_yield(&mut k);
    assert_eq!(k.current, Some((0, 0)));
    sys_yield(&mut k);
    // A blocks on semaphore 2
    assert_eq!(k.current, Some((0, 1)));
    assert_eq!(sys_semaphore_down(&mut k, 2), 0);
    assert_eq!(proc_of(&k, 0).threads[1].status, TaskStatus::Blocked);
    assert_eq!(proc_of(&k, 0).threads[1].need[2], 1);
    // B asking for semaphore 1 is refused
    assert_eq!(k.current, Some((0, 2)));
    let work_before = proc_of(&k, 0).work.clone();
    assert_eq!(sys_semaphore_down(&mut k, 1), DEADLOCK);
    assert_eq!(DEADLOCK, -0xdead);
    assert_eq!(k.current, Some((0, 2)));
    assert_eq!(proc_of(&k, 0).work, work_before);
    assert_eq!(proc_of(&k, 0).threads[2].need[1], 0);
    assert!(conserved(&k, 0));
    // B gives semaphore 2 back: A gets it and wakes
    assert_eq!(sys_semaphore_up(&mut k, 2), 0);
    assert_eq!(proc_of(&k, 0).threads[1].allocate[2], 1);
    assert_eq!(proc_of(&k, 0).threads[1].need[2], 0);
    assert_eq!(proc_of(&k, 0).threads[1].status, TaskStatus::Ready);
    assert!(conserved(&k, 0));
}

#[test]
fn units_stay_conserved_with_detection_on() {
    let mut k = boot();
    assert_eq!(sys_enable_deadlock_detect(&mut k, 1), 0);
    assert_eq!(sys_semaphore_create(&mut k, 0), 0);
    assert_eq!(sys_semaphore_create(&mut k, 3), 1);
    assert_eq!(sys_thread_create(&mut k, 0x2000, 0x9000), 1);
    sys_yield(&mut k);
    assert_eq!(k.current, Some((0, 1)));
    assert_eq!(sys_semaphore_down(&mut k, 1), 0);
    assert_eq!(sys_semaphore_down(&mut k, 1), 0);
    assert_eq!(proc_of(&k, 0).work[1], 1);
    assert_eq!(proc_of(&k, 0).threads[1].allocate[1], 2);
    assert!(conserved(&k, 0));
    assert_eq!(sys_semaphore_up(&mut k, 1), 0);
    assert_eq!(proc_of(&k, 0).work[1], 2);
    assert!(conserved(&k, 0));
    // a unit never held is not returned to the pool
    assert_eq!(sys_semaphore_up(&mut k, 1), 0);
    assert_eq!(sys_semaphore_up(&mut k, 1), 0);
    assert_eq!(proc_of(&k, 0).work[1], 3);
    assert!(conserved(&k, 0));
}

#[test]
fn semaphore_blocks_and_wakes_in_order() {
    let mut k = boot();
    assert_eq!(sys_semaphore_create(&mut k, 0), 0);
    sys_thread_create(&mut k, 0x2000, 0x9000);
    sys_thread_create(&mut k, 0x3000, 0xa000);
    sys_yield(&mut k);
    assert_eq!(sys_semaphore_down(&mut k, 0), 0);
    assert_eq!(k.current, Some((0, 2)));
    assert_eq!(sys_semaphore_down(&mut k, 0), 0);
    assert_eq!(k.current, Some((0, 0)));
    let sem = proc_of(&k, 0).semaphore_list[0].as_ref().unwrap();
    assert_eq!(sem.inner.count, -2);
    assert_eq!(sem.inner.wait_queue, vec![1, 2]);
    assert_eq!(sys_semaphore_up(&mut k, 0), 0);
    assert_eq!(k.ready, vec![(0, 1)]);
    assert_eq!(sys_semaphore_up(&mut k, 0), 0);
    assert_eq!(k.ready, vec![(0, 1), (0, 2)]);
    assert_eq!(proc_of(&k, 0).semaphore_list[0].as_ref().unwrap().inner.count, 0);
}

#[test]
fn semaphore_calls_reject_unknown_ids() {
    let mut k = boot();
    assert_eq!(sys_semaphore_down(&mut k, 0), -1);
    assert_eq!(sys_semaphore_up(&mut k, 3), -1);
    assert_eq!(sys_semaphore_create(&mut k, usize::MAX), -1);
    assert_eq!(sys_mutex_lock(&mut k, 0), -1);
    assert_eq!(sys_mutex_unlock(&mut k, 0), -1);
    assert_eq!(sys_condvar_signal(&mut k, 0), -1);
    assert_eq!(sys_condvar_wait(&mut k, 0, 0), -1);
}

#[test]
fn semaphore_counts_units() {
    let mut s = Semaphore::new(1);
    assert!(!s.down(4));
    assert!(s.down(5));
    assert_eq!(s.inner.count, -1);
    assert_eq!(s.up(), Some(5));
    assert_eq!(s.up(), None);
    assert_eq!(s.inner.count, 1);
}

#[test]
fn blocking_mutex_hands_over_to_the_first_waiter() {
    let mut k = boot();
    assert_eq!(sys_mutex_create(&mut k, true), 0);
    assert_eq!(sys_mutex_create(&mut k, false), 1);
    sys_thread_create(&mut k, 0x2000, 0x9000);
    assert_eq!(sys_mutex_lock(&mut k, 0), 0);
    sys_yield(&mut k);
    assert_eq!(k.current, Some((0, 1)));
    assert_eq!(sys_mutex_lock(&mut k, 0), 0);
    assert_eq!(proc_of(&k, 0).threads[1].status, TaskStatus::Blocked);
    assert_eq!(k.current, Some((0, 0)));
    assert_eq!(sys_mutex_unlock(&mut k, 0), 0);
    let m = proc_of(&k, 0).mutex_list[0].as_ref().unwrap();
    assert!(m.locked);
    assert!(m.wait_queue.is_empty());
    assert_eq!(k.ready, vec![(0, 1)]);
}

#[test]
fn spinning_mutex_is_taken_when_the_thread_runs_again() {
    let mut k = boot();
    assert_eq!(sys_mutex_create(&mut k, false), 0);
    sys_thread_create(&mut k, 0x2000, 0x9000);
    assert_eq!(sys_mutex_lock(&mut k, 0), 0);
    sys_yield(&mut k);
    assert_eq!(k.current, Some((0, 1)));
    assert_eq!(sys_mutex_lock(&mut k, 0), 0);
    assert_eq!(proc_of(&k, 0).threads[1].spinning_on, Some(0));
    assert_eq!(k.current, Some((0, 0)));
    assert_eq!(sys_mutex_unlock(&mut k, 0), 0);
    assert!(!proc_of(&k, 0).mutex_list[0].as_ref().unwrap().locked);
    sys_yield(&mut k);
    assert_eq!(k.current, Some((0, 1)));
    assert_eq!(proc_of(&k, 0).threads[1].spinning_on, None);
    assert!(proc_of(&k, 0).mutex_list[0].as_ref().unwrap().locked);
}

#[test]
fn mutex_lock_blocks_even_with_detection_on() {
    let mut k = boot();
    assert_eq!(sys_mutex_create(&mut k, true), 0);
    assert_eq!(sys_enable_deadlock_detect(&mut k, 1), 0);
    sys_thread_create(&mut k, 0x2000, 0x9000);
    assert_eq!(sys_mutex_lock(&mut k, 0), 0);
    sys_yield(&mut k);
    assert_eq!(k.current, Some((0, 1)));
    assert_eq!(sys_mutex_lock(&mut k, 0), 0);
    assert_eq!(proc_of(&k, 0).threads[1].status, TaskStatus::Blocked);
    assert_eq!(proc_of(&k, 0).mutex_list[0].as_ref().unwrap().wait_queue, vec![1]);
}

#[test]
fn mutex_primitive_variants() {
    let mut m = Mutex::new(false);
    assert_eq!(m.lock(1), LockOutcome::Acquired);
    assert_eq!(m.lock(2), LockOutcome::Spin);
    assert!(m.is_locked());
    assert_eq!(m.unlock(), None);
    assert!(!m.is_locked());
    let mut b = Mutex::new(true);
    assert_eq!(b.lock(1), LockOutcome::Acquired);
    assert_eq!(b.lock(2), LockOutcome::Blocked);
    assert_eq!(b.unlock(), Some(2));
    assert!(b.is_locked());
    let mut c = Condvar::new();
    c.wait(3);
    c.wait(4);
    assert_eq!(c.signal(), Some(3));
    assert_eq!(c.signal(), Some(4));
    assert_eq!(c.signal(), None);
}

#[test]
fn condvar_wait_releases_the_mutex_and_signal_wakes() {
    let mut k = boot();
    assert_eq!(sys_mutex_create(&mut k, true), 0);
    assert_eq!(sys_condvar_create(&mut k), 0);
    assert_eq!(sys_condvar_create(&mut k), 1);
    sys_thread_create(&mut k, 0x2000, 0x9000);
    assert_eq!(sys_mutex_lock(&mut k, 0), 0);
    assert_eq!(sys_condvar_wait(&mut k, 1, 0), 0);
    assert!(!proc_of(&k, 0).mutex_list[0].as_ref().unwrap().locked);
    assert_eq!(proc_of(&k, 0).condvar_list[1].as_ref().unwrap().wait_queue, vec![0]);
    assert_eq!(k.current, Some((0, 1)));
    assert_eq!(sys_condvar_signal(&mut k, 1), 0);
    assert_eq!(k.ready, vec![(0, 0)]);
    assert_eq!(sys_condvar_signal(&mut k, 1), 0);
    assert_eq!(k.ready, vec![(0, 0)]);
}

#[test]
fn sleeping_thread_wakes_after_expiry() {
    let mut k = boot();
    sys_thread_create(&mut k, 0x2000, 0x9000);
    assert_eq!(sys_sleep(&mut k, 50, 1000), 0);
    assert_eq!(k.timers.len(), 1);
    assert_eq!(k.timers[0].expire_ms, 1050);
    assert_eq!(k.current, Some((0, 1)));
    k.check_timer(1049);
    assert_eq!(k.timers.len(), 1);
    k.check_timer(1050);
    assert!(k.timers.is_empty());
    assert_eq!(k.ready, vec![(0, 0)]);
    assert_eq!(sys_sleep(&mut k, usize::MAX, 10), 0);
    assert_eq!(k.timers[0].expire_ms, usize::MAX);
}

#[test]
fn enable_deadlock_detect_checks_its_argument() {
    let mut k = boot();
    assert_eq!(sys_enable_deadlock_detect(&mut k, 2), -1);
    assert!(!proc_of(&k, 0).deadlock_detect);
    assert_eq!(sys_enable_deadlock_detect(&mut k, 0), 0);
    assert!(!proc_of(&k, 0).deadlock_detect);
    assert_eq!(sys_enable_deadlock_detect(&mut k, 1), 0);
    assert!(proc_of(&k, 0).deadlock_detect);
}

#[test]
fn get_time_splits_microseconds() {
    let mut tv = TimeVal { sec: 0, usec: 0 };
    assert_eq!(sys_get_time(&mut tv, 3_500_042), 0);
    assert_eq!(tv, TimeVal { sec: 3, usec: 500_042 });
}

#[test]
fn task_info_is_not_provided() {
    let mut ti = TaskInfo { status: TaskStatus::Running, syscall_times: [0; MAX_SYSCALL_NUM], time: 9 };
    assert_eq!(sys_task_info(&mut ti), -1);
    assert_eq!(ti.time, 9);
}

#[test]
fn sbrk_moves_the_break_within_bounds() {
    let mut k = boot();
    assert_eq!(sys_sbrk(&mut k, 0x1000), 0x10000);
    assert_eq!(sys_sbrk(&mut k, -0x800), 0x11000);
    assert_eq!(sys_sbrk(&mut k, -0x1000), -1);
    assert_eq!(sys_sbrk(&mut k, 0), 0x10800);
}

#[test]
fn exec_and_spawn_need_a_program() {
    let mut k = boot();
    assert_eq!(sys_exec(&mut k, None), -1);
    assert_eq!(sys_spawn(&mut k, None), -1);
    assert!(k.procs.len() == 1);
    let mut img = image();
    img.entry = 0x4000;
    assert_eq!(sys_exec(&mut k, Some(img)), 0);
    assert_eq!(proc_of(&k, 0).threads[0].trap_cx.sepc, 0x4000);
    let mut img2 = image();
    img2.entry = 0x5000;
    let pid = sys_spawn(&mut k, Some(img2));
    assert_eq!(pid, 1);
    let child = proc_of(&k, 1);
    assert_eq!(child.parent, Some(0));
    assert_eq!(child.threads[0].trap_cx.sepc, 0x5000);
    assert_eq!(child.threads[0].trap_cx.x[10], 0);
    assert_eq!(proc_of(&k, 0).children, vec![1]);
}

#[test]
fn reaped_pid_is_reused() {
    let mut k = boot();
    assert_eq!(sys_fork(&mut k), 1);
    assert_eq!(sys_fork(&mut k), 2);
    sys_yield(&mut k);
    assert_eq!(k.current, Some((1, 0)));
    sys_exit(&mut k, 3);
    assert_eq!(k.current, Some((2, 0)));
    sys_exit(&mut k, 4);
    assert_eq!(k.current, Some((0, 0)));
    let mut code: i32 = 0;
    assert_eq!(sys_waitpid(&mut k, 2, &mut code), 2);
    assert_eq!(code, 4);
    assert_eq!(sys_spawn(&mut k, Some(image())), 2);
    assert_eq!(sys_waitpid(&mut k, -1, &mut code), 1);
    assert_eq!(code, 3);
}

#[test]
fn semaphore_slots_and_counts() {
    let mut k = boot();
    assert_eq!(sys_semaphore_create(&mut k, 4), 0);
    assert_eq!(sys_semaphore_create(&mut k, 2), 1);
    let p = proc_of(&k, 0);
    assert_eq!(p.work, vec![4, 2]);
    assert_eq!(p.sem_total, vec![4, 2]);
    assert_eq!(p.threads[0].allocate, vec![0, 0]);
    assert_eq!(p.semaphore_list[1].as_ref().unwrap().inner.count, 2);
}

#[test]
fn exited_threads_do_not_count_as_able_to_finish() {
    let mut k = boot();
    for _ in 0..3 {
        sys_semaphore_create(&mut k, 1);
    }
    sys_enable_deadlock_detect(&mut k, 1);
    for t in 1..4 {
        assert_eq!(sys_thread_create(&mut k, 0x2000, 0x9000), t);
    }
    sys_yield(&mut k);
    assert_eq!(k.current, Some((0, 1)));
    assert_eq!(sys_semaphore_down(&mut k, 1), 0);
    sys_yield(&mut k);
    assert_eq!(k.current, Some((0, 2)));
    assert_eq!(sys_semaphore_down(&mut k, 2), 0);
    sys_yield(&mut k);
    assert_eq!(k.current, Some((0, 3)));
    sys_exit(&mut k, 0);
    assert_eq!(proc_of(&k, 0).threads[3].status, TaskStatus::Zombie);
    assert!(!proc_of(&k, 0).is_zombie);
    assert_eq!(k.current, Some((0, 0)));
    sys_yield(&mut k);
    assert_eq!(k.current, Some((0, 1)));
    assert_eq!(sys_semaphore_down(&mut k, 2), 0);
    assert_eq!(k.current, Some((0, 2)));
    assert_eq!(sys_semaphore_down(&mut k, 1), DEADLOCK);
}

#[test]
fn last_thread_exit_makes_the_process_a_zombie() {
    let mut k = boot();
    sys_thread_create(&mut k, 0x2000, 0x9000);
    sys_exit(&mut k, 9);
    assert!(!proc_of(&k, 0).is_zombie);
    assert_eq!(k.current, Some((0, 1)));
    sys_exit(&mut k, 11);
    assert!(proc_of(&k, 0).is_zombie);
    assert_eq!(proc_of(&k, 0).exit_code, 11);
    assert_eq!(k.current, None);
}

#[test]
fn fork_duplicates_synchronization_tables() {
    let mut k = boot();
    assert_eq!(sys_semaphore_create(&mut k, 0), 0);
    assert_eq!(sys_semaphore_create(&mut k, 2), 1);
    assert_eq!(sys_mutex_create(&mut k, true), 0);
    assert_eq!(sys_condvar_create(&mut k), 0);
    assert_eq!(sys_enable_deadlock_detect(&mut k, 1), 0);
    assert_eq!(sys_mutex_lock(&mut k, 0), 0);
    assert_eq!(sys_semaphore_down(&mut k, 1), 0);
    let pid = sys_fork(&mut k) as usize;
    let child = proc_of(&k, pid);
    assert!(child.deadlock_detect);
    assert_eq!(child.semaphore_list.len(), 2);
    assert_eq!(child.semaphore_list[1].as_ref().unwrap().inner.count, 1);
    assert!(child.mutex_list[0].as_ref().unwrap().locked);
    assert!(child.mutex_list[0].as_ref().unwrap().blocking);
    assert!(child.condvar_list[0].as_ref().unwrap().wait_queue.is_empty());
    assert_eq!(child.work, proc_of(&k, 0).work);
    assert!(conserved(&k, pid));
    assert!(conserved(&k, 0));
}
