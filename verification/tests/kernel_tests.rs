use std::collections::BTreeMap;
use easy_fs::config::{BIGSTRDE, INIT_PRIORITY};
use easy_fs::deadlock::LockGuard;
use easy_fs::manager::{
    add_stopping_task, add_task, fetch_task, get_min_stride, get_task_num, insert_into_pid2process,
    pid2process, remove_from_pid2process, remove_task, wakeup_task, TaskManager,
};
use easy_fs::process::{
    sys_get_time, sys_kill, sys_mmap, sys_munmap, sys_set_priority, sys_task_info, sys_waitpid,
    sys_yield, MmapDecision, MunmapDecision, ProcessControlBlock, TimeVal, SIGNAL_MASK,
};
use easy_fs::stride::Stride;
use easy_fs::task::{SyscallInfo, TaskControlBlock, TaskStatus};

#[test]
fn no_deadlock_when_one_thread_can_finish() {
    let mut guard = LockGuard::new();
    guard.add_source(10, 1);
    // thread 1 takes the only instance; thread 2 waits for it
    guard.need_source_one(1, 10);
    guard.get_source_one(1, 10);
    guard.need_source_one(2, 10);
    // thread 1 needs nothing more, so it can finish and release
    assert!(!guard.check_deadlock(&[1, 2]));
}

#[test]
fn crossed_locks_deadlock() {
    let mut guard = LockGuard::new();
    guard.add_source(10, 1);
    guard.add_source(20, 1);
    // thread 1 holds lock 10, thread 2 holds lock 20
    guard.need_source_one(1, 10);
    guard.get_source_one(1, 10);
    guard.need_source_one(2, 20);
    guard.get_source_one(2, 20);
    // each now waits for the other's lock
    guard.need_source_one(1, 20);
    guard.need_source_one(2, 10);
    assert!(guard.check_deadlock(&[1, 2]));
    // releasing breaks the cycle
    guard.dont_need_source_one(1, 20);
    guard.return_source_one(1, 10);
    assert!(!guard.check_deadlock(&[1, 2]));
}

#[test]
fn empty_bookkeeping_has_no_deadlock() {
    let guard = LockGuard::new();
    assert!(!guard.check_deadlock(&[1, 2, 3]));
    assert!(!guard.check_deadlock(&[]));
}

#[test]
fn two_instances_serve_two_threads() {
    let mut guard = LockGuard::new();
    guard.add_source(5, 2);
    guard.need_source_one(1, 5);
    guard.get_source_one(1, 5);
    guard.need_source_one(2, 5);
    assert!(!guard.check_deadlock(&[1, 2]));
    // replacing the source resets its bookkeeping
    guard.delete_source(5, 2);
    assert!(!guard.check_deadlock(&[1, 2]));
}

#[test]
fn stride_comparison_wraps_around() {
    assert!(Stride(1).less(&Stride(2)));
    assert!(Stride(2).greater(&Stride(1)));
    assert!(!Stride(3).less(&Stride(3)));
    assert!(!Stride(3).greater(&Stride(3)));
    // far apart: the comparison reverses, so a wrapped counter stays small
    let far = BIGSTRDE / 2 + 10;
    assert!(Stride(far).less(&Stride(0)));
    assert!(Stride(0).greater(&Stride(far)));
}

#[test]
fn fetch_picks_the_smallest_stride_and_steps_it() {
    let mut manager = TaskManager::new();
    let mut t1 = TaskControlBlock::new(&manager, 1, 101);
    let mut t2 = TaskControlBlock::new(&manager, 2, 102);
    let mut t3 = TaskControlBlock::new(&manager, 3, 103);
    t1.inner.stride_info.stride = Stride(30);
    t2.inner.stride_info.stride = Stride(10);
    t3.inner.stride_info.stride = Stride(20);
    add_task(&mut manager, t1);
    add_task(&mut manager, t2);
    add_task(&mut manager, t3);
    assert_eq!(get_task_num(&manager), 3);
    assert_eq!(get_min_stride(&manager).0, 10);
    let picked = fetch_task(&mut manager).expect("queue not empty");
    assert_eq!(picked.inner.res, Some(2));
    assert_eq!(picked.inner.stride_info.stride.0, 10 + BIGSTRDE / INIT_PRIORITY);
    assert_eq!(get_task_num(&manager), 2);
    assert_eq!(get_min_stride(&manager).0, 20);
}

#[test]
fn fetch_from_empty_queue_gives_nothing() {
    let mut manager = TaskManager::new();
    assert!(fetch_task(&mut manager).is_none());
    assert_eq!(get_min_stride(&manager).0, 0);
}

#[test]
fn new_task_starts_at_the_smallest_waiting_stride() {
    let mut manager = TaskManager::new();
    let mut t1 = TaskControlBlock::new(&manager, 1, 101);
    assert_eq!(t1.inner.stride_info.stride.0, 0);
    t1.inner.stride_info.stride = Stride(40);
    add_task(&mut manager, t1);
    let t2 = TaskControlBlock::new(&manager, 2, 102);
    assert_eq!(t2.inner.stride_info.stride.0, 40);
    assert_eq!(t2.inner.stride_info.priority, INIT_PRIORITY);
}

#[test]
fn remove_and_wakeup_and_stop() {
    let mut manager = TaskManager::new();
    let t1 = TaskControlBlock::new(&manager, 1, 101);
    let mut t2 = TaskControlBlock::new(&manager, 2, 102);
    t2.inner.task_status = TaskStatus::Blocked;
    add_task(&mut manager, t1);
    wakeup_task(&mut manager, t2);
    assert_eq!(get_task_num(&manager), 2);
    remove_task(&mut manager, 1);
    assert_eq!(get_task_num(&manager), 1);
    // the woken task is ready again
    let left = fetch_task(&mut manager).expect("one task left");
    assert_eq!(left.inner.res, Some(2));
    assert!(matches!(left.inner.task_status, TaskStatus::Ready));
    let t3 = TaskControlBlock::new(&manager, 3, 103);
    add_stopping_task(&mut manager, t3);
    assert!(manager.stop_task.is_some());
}

fn plain_process(pid: usize, is_zombie: bool, exit_code: i32) -> ProcessControlBlock {
    ProcessControlBlock { pid, is_zombie, exit_code, signals: 0, children: Vec::new() }
}

#[test]
fn waitpid_reports_missing_running_and_finished_children() {
    // no child matches the pid
    let mut children = vec![plain_process(5, true, 1)];
    assert_eq!(sys_waitpid(&mut children, 7), (-1, None));
    assert_eq!(children.len(), 1);
    // a matching child is still running
    let mut children = vec![plain_process(5, false, 0)];
    assert_eq!(sys_waitpid(&mut children, 5), (-2, None));
    assert_eq!(sys_waitpid(&mut children, -1), (-2, None));
    assert_eq!(children.len(), 1);
    // the first matching zombie is collected and removed
    let mut children = vec![
        plain_process(3, false, 0),
        plain_process(4, true, 42),
        plain_process(5, true, 43),
    ];
    assert_eq!(sys_waitpid(&mut children, -1), (4, Some(42)));
    assert_eq!(children.len(), 2);
    assert_eq!(sys_waitpid(&mut children, 5), (5, Some(43)));
    assert_eq!(children.len(), 1);
}

#[test]
fn kill_posts_valid_signals_only() {
    let mut map: BTreeMap<usize, ProcessControlBlock> = BTreeMap::new();
    insert_into_pid2process(&mut map, 9, plain_process(9, false, 0));
    let sigint = 1u32 << 2;
    assert_eq!(sys_kill(&mut map, 9, sigint), 0);
    assert_eq!(pid2process(&map, 9).expect("present").signals, sigint);
    // unknown signal bits are refused
    assert_eq!(sys_kill(&mut map, 9, 1 << 3), -1);
    // unknown processes are refused
    assert_eq!(sys_kill(&mut map, 10, sigint), -1);
    assert!(pid2process(&map, 10).is_none());
    remove_from_pid2process(&mut map, 9);
    assert!(pid2process(&map, 9).is_none());
    assert_eq!(SIGNAL_MASK & (1 << 3), 0);
}

#[test]
fn mmap_decisions() {
    // misaligned start
    assert!(sys_mmap(4097, 8, 1) == MmapDecision::Reject);
    // unknown protection bits, and no protection at all
    assert!(sys_mmap(4096, 8, 8) == MmapDecision::Reject);
    assert!(sys_mmap(4096, 8, 0) == MmapDecision::Reject);
    // empty range
    assert!(sys_mmap(4096, 0, 3) == MmapDecision::Done);
    // read and write
    assert!(
        sys_mmap(8192, 100, 3) == MmapDecision::MapRange { start: 8192, end: 8292, perm: 2 | 4 },
    );
    // read, write and execute
    assert!(
        sys_mmap(0, 4096, 7) == MmapDecision::MapRange { start: 0, end: 4096, perm: 2 | 4 | 8 },
    );
}

#[test]
fn munmap_decisions() {
    assert!(sys_munmap(4096, 0) == MunmapDecision::Done);
    assert!(sys_munmap(4097, 8) == MunmapDecision::Reject);
    assert!(sys_munmap(4096, 4096) == MunmapDecision::Unmap { start: 4096, end: 8192 });
}

#[test]
fn priority_must_be_at_least_two() {
    let mut manager = TaskManager::new();
    let mut task = TaskControlBlock::new(&manager, 1, 101);
    let inner = task.inner_exclusive_access();
    assert_eq!(sys_set_priority(inner, 5), 5);
    assert_eq!(inner.stride_info.priority, 5);
    assert_eq!(sys_set_priority(inner, 1), -1);
    assert_eq!(inner.stride_info.priority, 5);
    assert_eq!(sys_set_priority(inner, -3), -1);
}

#[test]
fn time_splits_into_seconds_and_microseconds() {
    let t = TimeVal::from_us(3_500_001);
    assert_eq!(t.sec, 3);
    assert_eq!(t.usec, 500_001);
    assert!(sys_get_time(999_999) == TimeVal { sec: 0, usec: 999_999 });
    assert!(sys_get_time(0) == TimeVal { sec: 0, usec: 0 });
}

#[test]
fn trivial_syscalls() {
    assert_eq!(sys_task_info(), -1);
    assert_eq!(sys_yield(), 0);
    let info = SyscallInfo::zero_init();
    assert!(info.is_first);
    assert_eq!(info.time, 0);
    assert!(info.syscall_times.iter().all(|c| *c == 0));
}

#[test]
fn stride_steps_by_bigstride_over_priority() {
    let manager = TaskManager::new();
    let mut task = TaskControlBlock::new(&manager, 1, 101);
    let inner = task.inner_exclusive_access();
    inner.stride_info.stride = Stride(100);
    inner.stride_info.priority = 4;
    inner.stride_info.step();
    assert_eq!(inner.stride_info.stride.0, 100 + BIGSTRDE / 4);
    // stepping wraps around at the top of the counter
    inner.stride_info.stride = Stride(u64::MAX);
    inner.stride_info.priority = BIGSTRDE;
    inner.stride_info.step();
    assert_eq!(inner.stride_info.stride.0, 0);
}

#[test]
fn lock_bookkeeping_numbers() {
    let mut guard = LockGuard::new();
    guard.add_source(3, 5);
    guard.need_source_one(7, 3);
    guard.need_source_one(7, 3);
    {
        let rec = guard.record.get(&3).expect("registered");
        assert_eq!(rec.available, 5);
        assert_eq!(rec.need.get(&7), Some(&2));
        assert_eq!(rec.allocation.get(&7), None);
    }
    guard.get_source_one(7, 3);
    {
        let rec = guard.record.get(&3).expect("registered");
        assert_eq!(rec.available, 4);
        assert_eq!(rec.need.get(&7), Some(&1));
        assert_eq!(rec.allocation.get(&7), Some(&1));
    }
    guard.dont_need_source_one(7, 3);
    guard.return_source_one(7, 3);
    {
        let rec = guard.record.get(&3).expect("registered");
        assert_eq!(rec.available, 5);
        assert_eq!(rec.need.get(&7), Some(&0));
        assert_eq!(rec.allocation.get(&7), Some(&0));
    }
}
