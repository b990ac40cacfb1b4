use lib::syscall::fs::{
    sys_close, sys_fstat, sys_linkat, sys_open, sys_read, sys_unlinkat, sys_write, FS_ERROR,
    LINK_SAME_PATH,
};
use lib::syscall::process::{
    inc_syscall_times, sys_get_time, sys_mmap, sys_munmap, sys_sbrk, sys_task_info, TaskStatus, TimeVal,
    MAX_SYSCALL_NUM,
};
use lib::syscall::sync::{
    sys_condvar_create, sys_condvar_signal, sys_condvar_wait, sys_enable_deadlock_detect,
    sys_mutex_create, sys_mutex_lock, sys_mutex_unlock, sys_semaphore_create, sys_semaphore_down,
    sys_semaphore_down_received, sys_semaphore_up, sys_sleep, SyncDecision, DEADLOCK_REFUSED,
};
use lib::task::process::{FileHandle, MutexKind, ProcessControlBlock, TaskHandle};

const GRANT: SyncDecision = SyncDecision { ret: 0, acquire: true, pending: false };
const WAIT: SyncDecision = SyncDecision { ret: 0, acquire: true, pending: true };
const REFUSE: SyncDecision = SyncDecision { ret: DEADLOCK_REFUSED, acquire: false, pending: false };

fn process() -> ProcessControlBlock {
    ProcessControlBlock::new(1, 0x100, TaskHandle { key: 1 })
}

fn rw(key: usize) -> FileHandle {
    FileHandle { file: key, readable: true, writable: true }
}

#[test]
fn write_and_read_honour_permissions() {
    let mut p = process();
    let inner = p.inner_exclusive_access();
    assert_eq!(sys_write(inner, 0), Err(FS_ERROR));
    assert_eq!(sys_write(inner, 1), Ok(FileHandle { file: 1, readable: false, writable: true }));
    assert_eq!(sys_read(inner, 0), Ok(FileHandle { file: 0, readable: true, writable: false }));
    assert_eq!(sys_read(inner, 1), Err(FS_ERROR));
    assert_eq!(sys_read(inner, 3), Err(FS_ERROR));
    assert_eq!(sys_write(inner, 99), Err(FS_ERROR));
}

#[test]
fn open_close_reuse_descriptor() {
    let mut p = process();
    let inner = p.inner_exclusive_access();
    assert_eq!(sys_open(inner, Some(rw(5))), 3);
    assert_eq!(sys_open(inner, Some(rw(6))), 4);
    assert_eq!(sys_open(inner, None), FS_ERROR);
    assert_eq!(sys_close(inner, 3), 0);
    assert_eq!(sys_close(inner, 3), FS_ERROR);
    assert_eq!(sys_close(inner, 40), FS_ERROR);
    assert_eq!(sys_fstat(inner, 3), Err(FS_ERROR));
    assert_eq!(sys_open(inner, Some(rw(7))), 3);
    assert_eq!(sys_fstat(inner, 3), Ok(rw(7)));
    assert_eq!(sys_fstat(inner, 4), Ok(rw(6)));
    assert_eq!(sys_close(inner, 0), 0);
    assert_eq!(sys_open(inner, Some(rw(8))), 0);
}

#[test]
fn linkat_rejects_same_path() {
    let mut p = process();
    let inner = p.inner_exclusive_access();
    assert_eq!(sys_linkat(inner, b"a", b"a", None), Err(LINK_SAME_PATH));
    assert_eq!(inner.fd_table.len(), 3);
    assert_eq!(sys_linkat(inner, b"a", b"b", Some(rw(4))), Ok(rw(4)));
    assert_eq!(inner.fd_table[3], Some(rw(4)));
}

#[test]
fn unlinkat_installs_opened_file() {
    let mut p = process();
    let inner = p.inner_exclusive_access();
    assert_eq!(sys_close(inner, 1), 0);
    assert_eq!(sys_unlinkat(inner, Some(rw(4))), Ok(rw(4)));
    assert_eq!(inner.fd_table[1], Some(rw(4)));
}

#[test]
fn get_time_splits_microseconds() {
    assert_eq!(sys_get_time(3_500_042), TimeVal { sec: 3, usec: 500_042 });
    assert_eq!(sys_get_time(999_999), TimeVal { sec: 0, usec: 999_999 });
    assert_eq!(sys_get_time(0), TimeVal { sec: 0, usec: 0 });
}

#[test]
fn task_info_reports_elapsed_time() {
    let mut times = [0u32; MAX_SYSCALL_NUM];
    inc_syscall_times(&mut times, 64);
    inc_syscall_times(&mut times, 64);
    inc_syscall_times(&mut times, 169);
    let info = sys_task_info(TaskStatus::Running, times, 1500, 1000);
    assert_eq!(info.status, TaskStatus::Running);
    assert_eq!(info.time, 500);
    assert_eq!(info.syscall_times[64], 2);
    assert_eq!(info.syscall_times[169], 1);
    assert_eq!(info.syscall_times[0], 0);
}

#[test]
fn mmap_argument_errors() {
    assert_eq!(sys_mmap(0x1000, 0b011), Ok(()));
    assert_eq!(sys_mmap(0x1001, 0b011), Err(-1));
    assert_eq!(sys_mmap(0x1000, 0b1001), Err(-1));
    assert_eq!(sys_mmap(0x1000, 0), Err(-1));
    assert_eq!(sys_mmap(0, 0b111), Ok(()));
    assert_eq!(sys_munmap(0x2000), Ok(()));
    assert_eq!(sys_munmap(0x2010), Err(-1));
}

#[test]
fn sbrk_reports_old_break() {
    assert_eq!(sys_sbrk(Some(0x4000)), 0x4000);
    assert_eq!(sys_sbrk(None), -1);
}

#[test]
fn sleep_wakes_after_delay() {
    assert_eq!(sys_sleep(100, 25), (125, 0));
}

#[test]
fn enable_deadlock_detect_validates_argument() {
    let mut p = process();
    assert_eq!(sys_enable_deadlock_detect(&mut p, 2), -1);
    assert!(!p.inner_ref().deadlock_detect);
    assert_eq!(sys_enable_deadlock_detect(&mut p, 1), 0);
    assert!(p.inner_ref().deadlock_detect);
    assert_eq!(sys_enable_deadlock_detect(&mut p, 0), 0);
    assert!(!p.inner_ref().deadlock_detect);
}

#[test]
fn mutex_create_fills_free_slot() {
    let mut p = process();
    let inner = p.inner_exclusive_access();
    assert_eq!(sys_mutex_create(inner, true), 0);
    assert_eq!(sys_mutex_create(inner, false), 1);
    assert_eq!(inner.mutex_list, vec![Some(MutexKind::Blocking), Some(MutexKind::Spin)]);
    assert_eq!(inner.mutex_detector.available, vec![1, 1]);
    assert_eq!(inner.mutex_detector.allocation, vec![vec![0, 0]]);
    inner.mutex_list[0] = None;
    inner.mutex_detector.available[0] = 0;
    assert_eq!(sys_mutex_create(inner, false), 0);
    assert_eq!(inner.mutex_list[0], Some(MutexKind::Spin));
    assert_eq!(inner.mutex_detector.available, vec![1, 1]);
}

#[test]
fn mutex_relock_is_refused_with_detection() {
    let mut p = process();
    assert_eq!(sys_enable_deadlock_detect(&mut p, 1), 0);
    let inner = p.inner_exclusive_access();
    let id = sys_mutex_create(inner, true) as usize;
    assert_eq!(sys_mutex_lock(inner, 0, id), GRANT);
    assert_eq!(inner.mutex_detector.allocation, vec![vec![1]]);
    assert_eq!(inner.mutex_detector.need, vec![vec![1]]);
    assert_eq!(sys_mutex_lock(inner, 0, id), REFUSE);
    assert_eq!(DEADLOCK_REFUSED, -57005);
    // a refused request leaves the bookkeeping as it was
    assert_eq!(inner.mutex_detector.need, vec![vec![1]]);
    assert_eq!(inner.mutex_detector.allocation, vec![vec![1]]);
    // after unlocking, the free mutex can be locked again
    assert_eq!(sys_mutex_unlock(inner, 0, id), 0);
    assert_eq!(sys_mutex_lock(inner, 0, id), GRANT);
}

#[test]
fn mutex_lock_unlock_round_trip() {
    let mut p = process();
    let inner = p.inner_exclusive_access();
    let id = sys_mutex_create(inner, false) as usize;
    assert_eq!(sys_mutex_lock(inner, 0, id), GRANT);
    assert_eq!(sys_mutex_unlock(inner, 0, id), 0);
    assert_eq!(inner.mutex_detector.need, vec![vec![0]]);
    assert_eq!(inner.mutex_detector.allocation, vec![vec![0]]);
    assert_eq!(inner.mutex_detector.available, vec![1]);
}

#[test]
fn mutex_lock_without_detection_never_refuses() {
    let mut p = process();
    let inner = p.inner_exclusive_access();
    let id = sys_mutex_create(inner, true) as usize;
    assert_eq!(sys_mutex_lock(inner, 0, id), GRANT);
    assert_eq!(sys_mutex_lock(inner, 0, id), GRANT);
    assert_eq!(inner.mutex_detector.allocation, vec![vec![2]]);
}

#[test]
fn semaphore_down_with_detection() {
    let mut p = process();
    assert_eq!(sys_enable_deadlock_detect(&mut p, 1), 0);
    let inner = p.inner_exclusive_access();
    let id = sys_semaphore_create(inner, 1) as usize;
    assert_eq!(id, 0);
    assert_eq!(inner.semaphore_list, vec![Some(1)]);
    assert_eq!(inner.semaphore_detector.available, vec![1]);
    assert_eq!(sys_semaphore_down(inner, 0, id), GRANT);
    assert_eq!(inner.semaphore_detector.available, vec![0]);
    assert_eq!(inner.semaphore_detector.allocation, vec![vec![1]]);
    assert_eq!(inner.semaphore_detector.need, vec![vec![0]]);
    // a second unit is not there: the request would deadlock the thread
    assert_eq!(sys_semaphore_down(inner, 0, id), REFUSE);
    assert_eq!(inner.semaphore_detector.need, vec![vec![0]]);
    assert_eq!(sys_semaphore_up(inner, 0, id), 0);
    assert_eq!(inner.semaphore_detector.available, vec![1]);
    assert_eq!(inner.semaphore_detector.allocation, vec![vec![0]]);
}

#[test]
fn semaphore_down_without_detection() {
    let mut p = process();
    let inner = p.inner_exclusive_access();
    let id = sys_semaphore_create(inner, 1) as usize;
    // a free unit is assigned and taken from the semaphore
    assert_eq!(sys_semaphore_down(inner, 0, id), GRANT);
    assert_eq!(inner.semaphore_detector.available, vec![0]);
    // no unit free: the request is registered and the thread waits
    assert_eq!(sys_semaphore_down(inner, 0, id), WAIT);
    assert_eq!(inner.semaphore_detector.need, vec![vec![1]]);
    assert_eq!(inner.semaphore_detector.allocation, vec![vec![1]]);
    // another release frees a unit, which goes to the waiting thread
    assert_eq!(sys_semaphore_up(inner, 0, id), 0);
    assert_eq!(inner.semaphore_detector.available, vec![1]);
    sys_semaphore_down_received(inner, 0, id);
    assert_eq!(inner.semaphore_detector.available, vec![0]);
    assert_eq!(inner.semaphore_detector.need, vec![vec![0]]);
    assert_eq!(inner.semaphore_detector.allocation, vec![vec![1]]);
}

#[test]
fn semaphore_second_refusal_restores_detector() {
    // Thread 0 waits for semaphore 1, which thread 1 holds; thread 1 waits
    // for semaphore 0.  Thread 0 may not take the free unit of semaphore 0:
    // then neither thread could finish.
    let mut p = process();
    assert_eq!(sys_enable_deadlock_detect(&mut p, 1), 0);
    let inner = p.inner_exclusive_access();
    inner.tasks.push(Some(TaskHandle { key: 2 }));
    inner.semaphore_detector.allocation.push(Vec::new());
    inner.semaphore_detector.need.push(Vec::new());
    assert_eq!(sys_semaphore_create(inner, 1), 0);
    assert_eq!(sys_semaphore_create(inner, 1), 1);
    assert_eq!(inner.semaphore_detector.allocation, vec![vec![0, 0], vec![0, 0]]);
    inner.semaphore_detector.available = vec![1, 0];
    inner.semaphore_detector.allocation[1][1] = 1;
    inner.semaphore_detector.need[0][1] = 1;
    inner.semaphore_detector.need[1][0] = 1;
    // the request alone passes; taking the unit does not
    assert_eq!(sys_semaphore_down(inner, 0, 0), REFUSE);
    assert_eq!(inner.semaphore_detector.available, vec![1, 0]);
    assert_eq!(inner.semaphore_detector.allocation, vec![vec![0, 0], vec![0, 1]]);
    assert_eq!(inner.semaphore_detector.need, vec![vec![0, 1], vec![1, 0]]);
}

#[test]
fn semaphore_down_up_round_trip_restores_detector() {
    let mut p = process();
    let inner = p.inner_exclusive_access();
    let id = sys_semaphore_create(inner, 1) as usize;
    assert_eq!(sys_semaphore_down(inner, 0, id), GRANT);
    assert_eq!(sys_semaphore_up(inner, 0, id), 0);
    assert_eq!(inner.semaphore_detector.available, vec![1]);
    assert_eq!(inner.semaphore_detector.allocation, vec![vec![0]]);
    assert_eq!(inner.semaphore_detector.need, vec![vec![0]]);
}

#[test]
fn mutex_create_adds_column_to_every_row() {
    let mut p = process();
    let inner = p.inner_exclusive_access();
    inner.mutex_detector.allocation.push(Vec::new());
    inner.mutex_detector.need.push(Vec::new());
    assert_eq!(sys_mutex_create(inner, true), 0);
    assert_eq!(sys_mutex_create(inner, true), 1);
    assert_eq!(inner.mutex_detector.available, vec![1, 1]);
    assert_eq!(inner.mutex_detector.allocation, vec![vec![0, 0], vec![0, 0]]);
    assert_eq!(inner.mutex_detector.need, vec![vec![0, 0], vec![0, 0]]);
    inner.mutex_list[0] = None;
    inner.mutex_detector.allocation[1][0] = 3;
    inner.mutex_detector.need[0][0] = 2;
    assert_eq!(sys_mutex_create(inner, false), 0);
    assert_eq!(inner.mutex_detector.allocation, vec![vec![0, 0], vec![0, 0]]);
    assert_eq!(inner.mutex_detector.need, vec![vec![0, 0], vec![0, 0]]);
}

#[test]
fn semaphore_create_reuses_slot() {
    let mut p = process();
    let inner = p.inner_exclusive_access();
    assert_eq!(sys_semaphore_create(inner, 3), 0);
    assert_eq!(sys_semaphore_create(inner, 2), 1);
    inner.semaphore_list[0] = None;
    inner.semaphore_detector.allocation[0][0] = 4;
    assert_eq!(sys_semaphore_create(inner, 5), 0);
    assert_eq!(inner.semaphore_list, vec![Some(5), Some(2)]);
    assert_eq!(inner.semaphore_detector.available, vec![5, 2]);
    assert_eq!(inner.semaphore_detector.allocation, vec![vec![0, 0]]);
}

#[test]
fn condvars_are_created_in_free_slots() {
    let mut p = process();
    let inner = p.inner_exclusive_access();
    assert_eq!(sys_condvar_create(inner), 0);
    assert_eq!(sys_condvar_create(inner), 1);
    inner.condvar_list[0] = None;
    assert_eq!(sys_condvar_create(inner), 0);
    assert_eq!(sys_condvar_signal(inner, 1), 0);
    let m = sys_mutex_create(inner, true) as usize;
    assert_eq!(sys_condvar_wait(inner, 0, m), 0);
}

#[test]
fn open_then_close_restores_table() {
    let mut p = process();
    let inner = p.inner_exclusive_access();
    let before = inner.fd_table.clone();
    let fd = sys_open(inner, Some(rw(5)));
    assert_eq!(fd, 3);
    assert_eq!(sys_close(inner, fd as usize), 0);
    let mut expected = before.clone();
    expected.push(None);
    assert_eq!(inner.fd_table, expected);
    assert_eq!(sys_close(inner, 1), 0);
    let before = inner.fd_table.clone();
    let fd = sys_open(inner, Some(rw(6)));
    assert_eq!(fd, 1);
    assert_eq!(sys_close(inner, fd as usize), 0);
    assert_eq!(inner.fd_table, before);
}
