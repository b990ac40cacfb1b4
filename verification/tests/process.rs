use lib::task::detector::BankerDeadlockDetector;
use lib::task::id::RecycleAllocator;
use lib::task::process::{
    find_free_slot, FileHandle, MutexKind, ProcessControlBlock, ProcessControlBlockInner, TaskHandle,
    STDIN_FILE, STDOUT_FILE,
};

fn file(key: usize) -> FileHandle {
    FileHandle { file: key, readable: true, writable: true }
}

fn empty_inner() -> ProcessControlBlockInner {
    ProcessControlBlockInner {
        is_zombie: false,
        memory_set_token: 7,
        parent: None,
        children: Vec::new(),
        exit_code: 0,
        fd_table: Vec::new(),
        signals: 0,
        tasks: Vec::new(),
        task_res_allocator: RecycleAllocator::new(),
        mutex_list: Vec::new(),
        semaphore_list: Vec::new(),
        condvar_list: Vec::new(),
        deadlock_detect: false,
        mutex_detector: BankerDeadlockDetector::new(),
        semaphore_detector: BankerDeadlockDetector::new(),
    }
}

#[test]
fn new_process_has_standard_descriptors_and_one_thread() {
    let mut p = ProcessControlBlock::new(5, 0x8000, TaskHandle { key: 11 });
    assert_eq!(p.getpid(), 5);
    let inner = p.inner_exclusive_access();
    assert_eq!(
        inner.fd_table,
        vec![
            Some(FileHandle { file: STDIN_FILE, readable: true, writable: false }),
            Some(FileHandle { file: STDOUT_FILE, readable: false, writable: true }),
            Some(FileHandle { file: STDOUT_FILE, readable: false, writable: true }),
        ]
    );
    assert_eq!(inner.thread_count(), 1);
    assert_eq!(inner.get_task(0), TaskHandle { key: 11 });
    assert_eq!(inner.get_user_token(), 0x8000);
    assert!(!inner.deadlock_detect);
    assert!(inner.mutex_list.is_empty());
    assert_eq!(inner.parent, None);
    // thread id 0 is taken by the main thread
    assert_eq!(inner.alloc_tid(), 1);
}

#[test]
fn alloc_fd_takes_lowest_free_slot() {
    let mut inner = empty_inner();
    inner.fd_table = vec![Some(file(1)), None, Some(file(2)), None];
    assert_eq!(inner.alloc_fd(), 1);
    assert_eq!(inner.fd_table.len(), 4);
}

#[test]
fn alloc_fd_grows_full_table() {
    let mut inner = empty_inner();
    inner.fd_table = vec![Some(file(1)), Some(file(2))];
    assert_eq!(inner.alloc_fd(), 2);
    assert_eq!(inner.fd_table, vec![Some(file(1)), Some(file(2)), None]);
}

#[test]
fn find_free_slot_reports_none_when_full() {
    let table = vec![Some(MutexKind::Spin), Some(MutexKind::Blocking)];
    assert_eq!(find_free_slot(&table), None);
    let table = vec![Some(MutexKind::Spin), None, None];
    assert_eq!(find_free_slot(&table), Some(1));
}

#[test]
fn tids_are_recycled_most_recent_first() {
    let mut inner = empty_inner();
    assert_eq!(inner.alloc_tid(), 0);
    assert_eq!(inner.alloc_tid(), 1);
    assert_eq!(inner.alloc_tid(), 2);
    inner.dealloc_tid(0);
    inner.dealloc_tid(2);
    assert_eq!(inner.alloc_tid(), 2);
    assert_eq!(inner.alloc_tid(), 0);
    assert_eq!(inner.alloc_tid(), 3);
}

#[test]
fn dealloc_then_alloc_returns_same_id() {
    let mut a = RecycleAllocator::new();
    let x = a.alloc_id();
    let _y = a.alloc_id();
    a.dealloc_id(x);
    assert_eq!(a.alloc_id(), x);
}

#[test]
fn fork_copies_descriptors_and_links_parent() {
    let mut parent = ProcessControlBlock::new(1, 0x100, TaskHandle { key: 1 });
    parent.inner_exclusive_access().fd_table.push(Some(file(9)));
    parent.inner_exclusive_access().fd_table[0] = None;
    let mut child = parent.fork(2, 0x200, TaskHandle { key: 2 });
    assert_eq!(child.getpid(), 2);
    let parent_fds = parent.inner_exclusive_access().fd_table.clone();
    let ci = child.inner_exclusive_access();
    assert_eq!(ci.fd_table, parent_fds);
    assert_eq!(ci.parent, Some(1));
    assert_eq!(ci.get_user_token(), 0x200);
    assert_eq!(ci.tasks, vec![Some(TaskHandle { key: 2 })]);
    assert!(ci.children.is_empty());
    assert_eq!(parent.inner_exclusive_access().children, vec![2]);
}

#[test]
fn exec_lays_out_arguments() {
    let mut p = ProcessControlBlock::new(1, 0x100, TaskHandle { key: 1 });
    let args = vec![b"ab".to_vec(), b"c".to_vec()];
    let layout = p.exec(0x300, 4096, &args);
    let w = core::mem::size_of::<usize>();
    let base = 4096 - 3 * w;
    assert_eq!(layout.argv_base, base);
    assert_eq!(layout.argv, vec![base - 3, base - 5, 0]);
    assert_eq!(layout.user_sp, (base - 5) - (base - 5) % w);
    assert_eq!(layout.user_sp % w, 0);
    assert_eq!(p.inner_exclusive_access().get_user_token(), 0x300);
}

#[test]
fn exec_without_arguments() {
    let mut p = ProcessControlBlock::new(1, 0x100, TaskHandle { key: 1 });
    let layout = p.exec(0x300, 4096, &Vec::new());
    let w = core::mem::size_of::<usize>();
    assert_eq!(layout.argv_base, 4096 - w);
    assert_eq!(layout.argv, vec![0]);
    assert_eq!(layout.user_sp, 4096 - w);
}

#[test]
fn set_deadlock_detect_sets_flag() {
    let mut p = ProcessControlBlock::new(1, 0x100, TaskHandle { key: 1 });
    assert_eq!(p.set_deadlock_detect(true), 0);
    assert!(p.inner_ref().deadlock_detect);
    assert_eq!(p.set_deadlock_detect(false), 0);
    assert!(!p.inner_ref().deadlock_detect);
}
