use lib::task::detector::BankerDeadlockDetector;

fn detector(available: Vec<isize>, allocation: Vec<Vec<isize>>, need: Vec<Vec<isize>>) -> BankerDeadlockDetector {
    BankerDeadlockDetector { available, allocation, need }
}

#[test]
fn new_detector_has_one_empty_row() {
    let d = BankerDeadlockDetector::new();
    assert!(d.available.is_empty());
    assert_eq!(d.allocation, vec![Vec::<isize>::new()]);
    assert_eq!(d.need, vec![Vec::<isize>::new()]);
}

#[test]
fn new_detector_is_safe() {
    let d = BankerDeadlockDetector::new();
    assert_eq!(d.is_safe_state(), (true, vec![0]));
}

#[test]
fn textbook_state_is_safe_in_greedy_order() {
    let d = detector(
        vec![3, 3, 2],
        vec![vec![0, 1, 0], vec![2, 0, 0], vec![3, 0, 2], vec![2, 1, 1], vec![0, 0, 2]],
        vec![vec![7, 4, 3], vec![1, 2, 2], vec![6, 0, 0], vec![0, 1, 1], vec![4, 3, 1]],
    );
    assert_eq!(d.is_safe_state(), (true, vec![1, 3, 0, 2, 4]));
}

#[test]
fn circular_wait_is_unsafe() {
    let d = detector(vec![0, 0], vec![vec![1, 0], vec![0, 1]], vec![vec![0, 1], vec![1, 0]]);
    assert_eq!(d.is_safe_state(), (false, vec![]));
}

#[test]
fn partial_progress_still_unsafe() {
    // Thread 2 can finish, but what it releases is not enough for the others.
    let d = detector(
        vec![1],
        vec![vec![1], vec![1], vec![0]],
        vec![vec![3], vec![3], vec![1]],
    );
    assert_eq!(d.is_safe_state(), (false, vec![]));
}

#[test]
fn no_threads_is_safe_with_empty_order() {
    let d = detector(vec![5], vec![], vec![]);
    assert_eq!(d.is_safe_state(), (true, vec![]));
}

#[test]
fn lowest_index_is_taken_first() {
    let d = detector(vec![2], vec![vec![0], vec![0], vec![0]], vec![vec![1], vec![1], vec![1]]);
    assert_eq!(d.is_safe_state(), (true, vec![0, 1, 2]));
}

#[test]
fn later_release_unblocks_earlier_thread() {
    let d = detector(vec![1], vec![vec![0], vec![2]], vec![vec![3], vec![1]]);
    assert_eq!(d.is_safe_state(), (true, vec![1, 0]));
}

#[test]
fn negative_holding_can_block_detection() {
    // Thread 0 "holds" a negative amount (after an unmatched release); once
    // it finishes, fewer units are free than before.
    let d = detector(vec![1], vec![vec![-1], vec![0]], vec![vec![0], vec![1]]);
    assert_eq!(d.is_safe_state(), (false, vec![]));
}

#[test]
fn longer_rows_than_kinds_are_ignored_beyond_kinds() {
    let d = detector(vec![1], vec![vec![0, 9]], vec![vec![1, 100]]);
    assert_eq!(d.is_safe_state(), (true, vec![0]));
}
