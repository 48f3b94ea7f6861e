use deadlock_guard::detector::{DeadlockDetector, DeadlockDetectorInner};
use deadlock_guard::task::{TaskControlBlock, TaskUserRes};

fn thread(tid: usize) -> Option<TaskControlBlock> {
    Some(TaskControlBlock { res: Some(TaskUserRes { tid }) })
}

fn tables(
    available: Vec<u32>,
    allocation: Vec<Vec<u32>>,
    need: Vec<Vec<u32>>,
) -> DeadlockDetectorInner {
    let inner = DeadlockDetectorInner { available, allocation, need };
    assert!(inner.well_formed());
    inner
}

fn total(inner: &DeadlockDetectorInner, r: usize) -> u64 {
    let held: u64 = inner.allocation.iter().map(|row| row[r] as u64).sum();
    inner.available[r] as u64 + held
}

#[test]
fn new_detector_has_one_thread_row_and_no_resource() {
    let detector = DeadlockDetector::new();
    assert_eq!(detector.inner.available, Vec::<u32>::new());
    assert_eq!(detector.inner.allocation, vec![Vec::<u32>::new()]);
    assert_eq!(detector.inner.need, vec![Vec::<u32>::new()]);
    assert!(detector.inner.well_formed());
}

#[test]
fn default_detector_has_no_row_at_all() {
    let detector = DeadlockDetector::default();
    assert_eq!(detector.inner.available, Vec::<u32>::new());
    assert_eq!(detector.inner.allocation, Vec::<Vec<u32>>::new());
    assert_eq!(detector.inner.need, Vec::<Vec<u32>>::new());
    assert!(detector.inner.well_formed());
}

#[test]
fn well_formed_rejects_ragged_tables() {
    let short_row = DeadlockDetectorInner {
        available: vec![1, 1],
        allocation: vec![vec![0, 0], vec![0]],
        need: vec![vec![0, 0], vec![0, 0]],
    };
    assert!(!short_row.well_formed());
    let missing_need_row = DeadlockDetectorInner {
        available: vec![1],
        allocation: vec![vec![0], vec![0]],
        need: vec![vec![0]],
    };
    assert!(!missing_need_row.well_formed());
    let wide_need = DeadlockDetectorInner {
        available: vec![1],
        allocation: vec![vec![0]],
        need: vec![vec![0, 0]],
    };
    assert!(!wide_need.well_formed());
}

#[test]
fn growing_the_thread_axis_adds_zero_rows_of_current_width() {
    let mut inner = tables(vec![1, 0, 2], vec![vec![0, 1, 0]], vec![vec![1, 0, 0]]);
    inner.resize_update_thread_cnt(4);
    assert_eq!(inner.available, vec![1, 0, 2]);
    assert_eq!(
        inner.allocation,
        vec![vec![0, 1, 0], vec![0, 0, 0], vec![0, 0, 0], vec![0, 0, 0]]
    );
    assert_eq!(inner.need, vec![vec![1, 0, 0], vec![0, 0, 0], vec![0, 0, 0], vec![0, 0, 0]]);
    assert!(inner.well_formed());
}

#[test]
fn the_thread_axis_never_shrinks() {
    let mut inner = tables(
        vec![1],
        vec![vec![1], vec![0], vec![0]],
        vec![vec![0], vec![1], vec![0]],
    );
    let before = inner.clone();
    inner.resize_update_thread_cnt(1);
    assert_eq!(inner, before);
    inner.resize_update_thread_cnt(0);
    assert_eq!(inner, before);
    inner.resize_update_thread_cnt(3);
    assert_eq!(inner, before);
}

#[test]
fn growing_the_resource_axis_adds_zero_columns_and_keeps_values() {
    let mut inner = tables(vec![3], vec![vec![1], vec![2]], vec![vec![0], vec![4]]);
    inner.resize_update_res_cnt(3);
    assert_eq!(inner.available, vec![3, 0, 0]);
    assert_eq!(inner.allocation, vec![vec![1, 0, 0], vec![2, 0, 0]]);
    assert_eq!(inner.need, vec![vec![0, 0, 0], vec![4, 0, 0]]);
    assert!(inner.well_formed());
}

#[test]
fn the_resource_axis_never_shrinks() {
    let mut inner = tables(vec![1, 1], vec![vec![0, 1]], vec![vec![1, 0]]);
    let before = inner.clone();
    inner.resize_update_res_cnt(1);
    assert_eq!(inner, before);
    inner.resize_update_res_cnt(0);
    assert_eq!(inner, before);
    inner.resize_update_res_cnt(2);
    assert_eq!(inner, before);
}

#[test]
fn growing_from_the_fresh_detector() {
    let mut detector = DeadlockDetector::new();
    detector.resize_update_res_cnt(2);
    assert_eq!(detector.inner.available, vec![0, 0]);
    assert_eq!(detector.inner.allocation, vec![vec![0, 0]]);
    assert_eq!(detector.inner.need, vec![vec![0, 0]]);
    detector.resize_update_thread_cnt(2);
    assert_eq!(detector.inner.allocation, vec![vec![0, 0], vec![0, 0]]);
    assert_eq!(detector.inner.need, vec![vec![0, 0], vec![0, 0]]);
}

#[test]
fn the_two_resizes_commute() {
    let start = tables(vec![2], vec![vec![1], vec![0]], vec![vec![0], vec![3]]);
    let mut threads_first = start.clone();
    threads_first.resize_update_thread_cnt(4);
    threads_first.resize_update_res_cnt(3);
    let mut resources_first = start.clone();
    resources_first.resize_update_res_cnt(3);
    resources_first.resize_update_thread_cnt(4);
    assert_eq!(threads_first, resources_first);
    assert_eq!(threads_first.available, vec![2, 0, 0]);
    assert_eq!(
        threads_first.allocation,
        vec![vec![1, 0, 0], vec![0, 0, 0], vec![0, 0, 0], vec![0, 0, 0]]
    );
    assert_eq!(
        threads_first.need,
        vec![vec![0, 0, 0], vec![3, 0, 0], vec![0, 0, 0], vec![0, 0, 0]]
    );
}

#[test]
fn reset_resource_clears_its_column_only() {
    let mut inner = tables(
        vec![0, 5],
        vec![vec![1, 2], vec![3, 4]],
        vec![vec![5, 6], vec![7, 8]],
    );
    inner.reset_resource(0, 1);
    assert_eq!(inner.available, vec![1, 5]);
    assert_eq!(inner.allocation, vec![vec![0, 2], vec![0, 4]]);
    assert_eq!(inner.need, vec![vec![0, 6], vec![0, 8]]);
    assert_eq!(total(&inner, 0), 1);
    assert_eq!(total(&inner, 1), 11);
}

#[test]
fn reset_thread_clears_its_row_only() {
    let mut inner = tables(
        vec![0, 5],
        vec![vec![1, 2], vec![3, 4], vec![0, 1]],
        vec![vec![5, 6], vec![7, 8], vec![9, 0]],
    );
    inner.reset_thread(1);
    assert_eq!(inner.available, vec![0, 5]);
    assert_eq!(inner.allocation, vec![vec![1, 2], vec![0, 0], vec![0, 1]]);
    assert_eq!(inner.need, vec![vec![5, 6], vec![0, 0], vec![9, 0]]);
    inner.reset_thread(1);
    assert_eq!(inner.allocation, vec![vec![1, 2], vec![0, 0], vec![0, 1]]);
    assert_eq!(inner.need, vec![vec![5, 6], vec![0, 0], vec![9, 0]]);
    assert!(inner.well_formed());

    let mut narrow = tables(vec![], vec![vec![]], vec![vec![]]);
    narrow.reset_thread(0);
    assert_eq!(narrow.allocation, vec![Vec::<u32>::new()]);
    assert_eq!(narrow.need, vec![Vec::<u32>::new()]);
}

#[test]
fn a_reused_thread_slot_no_longer_counts_against_the_oracle() {
    // The thread that used to stand at position 0 left a hopeless need
    // behind; with it, thread 1 is refused.
    let mut stale = tables(vec![1], vec![vec![0], vec![0]], vec![vec![9], vec![0]]);
    let tasks = vec![thread(7), thread(1)];
    let before = stale.clone();
    assert!(!stale.request(&tasks, 1, 0));
    assert_eq!(stale, before);
    stale.reset_thread(0);
    assert!(stale.request(&tasks, 1, 0));
    assert_eq!(stale.need, vec![vec![0], vec![1]]);
}

#[test]
fn allocate_moves_one_unit_and_settles_one_need() {
    let mut inner = tables(vec![1, 4], vec![vec![0, 2], vec![0, 0]], vec![vec![0, 0], vec![0, 3]]);
    inner.allocate(1, 1);
    assert_eq!(inner.available, vec![1, 3]);
    assert_eq!(inner.allocation, vec![vec![0, 2], vec![0, 1]]);
    assert_eq!(inner.need, vec![vec![0, 0], vec![0, 2]]);
}

#[test]
fn free_moves_one_unit_back_and_never_touches_need() {
    let mut inner = tables(vec![0, 3], vec![vec![1, 2], vec![0, 1]], vec![vec![7, 0], vec![0, 9]]);
    inner.free(0, 1);
    assert_eq!(inner.available, vec![0, 4]);
    assert_eq!(inner.allocation, vec![vec![1, 1], vec![0, 1]]);
    assert_eq!(inner.need, vec![vec![7, 0], vec![0, 9]]);
}

#[test]
fn free_is_the_inverse_of_allocate_on_available_and_allocation() {
    let start = tables(vec![2, 1], vec![vec![0, 0], vec![1, 0]], vec![vec![1, 0], vec![1, 2]]);
    let mut inner = start.clone();
    inner.allocate(0, 0);
    inner.free(0, 0);
    assert_eq!(inner.available, start.available);
    assert_eq!(inner.allocation, start.allocation);
    assert_eq!(inner.need, vec![vec![0, 0], vec![1, 2]]);

    let mut other = start.clone();
    other.free(1, 0);
    other.allocate(1, 1);
    other.free(1, 1);
    other.allocate(1, 0);
    assert_eq!(other.available, start.available);
    assert_eq!(other.allocation, start.allocation);
}

#[test]
fn totals_are_conserved_by_allocate_and_free() {
    let mut inner = tables(
        vec![1, 2, 0],
        vec![vec![0, 1, 1], vec![0, 0, 0], vec![1, 0, 0]],
        vec![vec![1, 0, 0], vec![0, 2, 0], vec![0, 0, 0]],
    );
    let before: Vec<u64> = (0..3).map(|r| total(&inner, r)).collect();
    assert_eq!(before, vec![2, 3, 1]);
    inner.allocate(0, 0);
    assert_eq!((0..3).map(|r| total(&inner, r)).collect::<Vec<u64>>(), before);
    inner.allocate(1, 1);
    assert_eq!((0..3).map(|r| total(&inner, r)).collect::<Vec<u64>>(), before);
    inner.free(0, 2);
    assert_eq!((0..3).map(|r| total(&inner, r)).collect::<Vec<u64>>(), before);
    inner.free(2, 0);
    inner.allocate(1, 1);
    inner.free(0, 0);
    assert_eq!((0..3).map(|r| total(&inner, r)).collect::<Vec<u64>>(), before);
}

#[test]
fn safe_state_is_accepted() {
    let mut inner = tables(vec![3, 0], vec![vec![1, 0]], vec![vec![0, 0]]);
    let tasks = vec![thread(0)];
    assert!(inner.request(&tasks, 0, 0));
    assert_eq!(inner.need, vec![vec![1, 0]]);
    assert_eq!(inner.available, vec![3, 0]);
    assert_eq!(inner.allocation, vec![vec![1, 0]]);
}

#[test]
fn deadlock_is_detected_when_a_asks_first() {
    let mut inner = tables(
        vec![0, 0],
        vec![vec![1, 0], vec![0, 1]],
        vec![vec![0, 0], vec![0, 0]],
    );
    let tasks = vec![thread(0), thread(1)];
    assert!(inner.request(&tasks, 0, 1));
    assert_eq!(inner.need, vec![vec![0, 1], vec![0, 0]]);
    let before = inner.clone();
    assert!(!inner.request(&tasks, 1, 0));
    assert_eq!(inner, before);
}

#[test]
fn deadlock_is_detected_when_b_asks_first() {
    let mut inner = tables(
        vec![0, 0],
        vec![vec![1, 0], vec![0, 1]],
        vec![vec![0, 0], vec![0, 0]],
    );
    let tasks = vec![thread(0), thread(1)];
    assert!(inner.request(&tasks, 1, 0));
    assert_eq!(inner.need, vec![vec![0, 0], vec![1, 0]]);
    let before = inner.clone();
    assert!(!inner.request(&tasks, 0, 1));
    assert_eq!(inner, before);
}

#[test]
fn contention_without_a_cycle_is_not_a_deadlock() {
    let mut inner = tables(vec![0], vec![vec![1], vec![0]], vec![vec![0], vec![0]]);
    let tasks = vec![thread(0), thread(1)];
    assert!(inner.request(&tasks, 1, 0));
    assert_eq!(inner.need, vec![vec![0], vec![1]]);
    assert_eq!(inner.available, vec![0]);
    assert_eq!(inner.allocation, vec![vec![1], vec![0]]);
}

#[test]
fn a_refused_request_restores_every_cell() {
    let mut inner = tables(
        vec![0, 1, 0],
        vec![vec![1, 0, 0], vec![0, 0, 1], vec![0, 0, 0]],
        vec![vec![0, 0, 1], vec![0, 0, 0], vec![0, 0, 0]],
    );
    let tasks = vec![thread(0), thread(1), thread(2)];
    let before = inner.clone();
    assert!(!inner.request(&tasks, 1, 0));
    assert_eq!(inner.available, before.available);
    assert_eq!(inner.allocation, before.allocation);
    assert_eq!(inner.need, before.need);
}

#[test]
fn all_of_a_threads_need_counts_not_only_the_unit_asked_for() {
    // Thread 0 asks for resource 0, which is free, but it still waits for a
    // unit of resource 1 that nobody will give back.
    let mut inner = tables(vec![1, 0], vec![vec![0, 0]], vec![vec![0, 1]]);
    let tasks = vec![thread(0)];
    let before = inner.clone();
    assert!(!inner.request(&tasks, 0, 0));
    assert_eq!(inner, before);
}

#[test]
fn a_thread_may_qualify_in_a_later_round() {
    // Thread 0 needs what thread 2 holds, thread 1 what thread 0 holds, and
    // thread 2 can finish at once: the order 2, 0, 1 takes two rounds.
    let mut inner = tables(
        vec![0, 0, 0],
        vec![vec![0, 1, 0], vec![0, 0, 0], vec![1, 0, 1]],
        vec![vec![1, 0, 0], vec![0, 1, 0], vec![0, 0, 0]],
    );
    let tasks = vec![thread(0), thread(1), thread(2)];
    assert!(inner.request(&tasks, 1, 2));
    assert_eq!(inner.need, vec![vec![1, 0, 0], vec![0, 1, 1], vec![0, 0, 0]]);
}

#[test]
fn an_empty_thread_slot_counts_as_finished() {
    // Row 0 belongs to a thread that is gone; its hopeless need is ignored,
    // and so is what it holds.
    let mut inner = tables(
        vec![1],
        vec![vec![5], vec![0]],
        vec![vec![9], vec![0]],
    );
    let tasks = vec![None, thread(1)];
    assert!(inner.request(&tasks, 1, 0));
    assert_eq!(inner.need, vec![vec![9], vec![1]]);

    let mut starved = tables(vec![0], vec![vec![5], vec![0]], vec![vec![0], vec![0]]);
    let before = starved.clone();
    assert!(!starved.request(&tasks, 1, 0));
    assert_eq!(starved, before);
}

#[test]
fn rows_beyond_the_thread_table_are_ignored() {
    let mut inner = tables(
        vec![1],
        vec![vec![0], vec![0], vec![0]],
        vec![vec![0], vec![0], vec![7]],
    );
    let tasks = vec![thread(4), thread(9)];
    assert!(inner.request(&tasks, 0, 0));
    assert_eq!(inner.need, vec![vec![1], vec![0], vec![7]]);
}

#[test]
fn a_request_with_no_thread_alive_is_trivially_safe() {
    let mut inner = tables(vec![0], vec![vec![0]], vec![vec![3]]);
    let tasks: Vec<Option<TaskControlBlock>> = vec![None];
    assert!(inner.request(&tasks, 0, 0));
    assert_eq!(inner.need, vec![vec![4]]);
    let none: Vec<Option<TaskControlBlock>> = Vec::new();
    assert!(inner.request(&none, 0, 0));
    assert_eq!(inner.need, vec![vec![5]]);
}

#[test]
fn reclaimed_capacity_beyond_the_largest_count_still_decides_rightly() {
    // What threads 0 and 1 give back adds up to more than a `u32` holds;
    // thread 2 needs the largest count there is and gets it.
    let mut inner = tables(
        vec![0],
        vec![vec![u32::MAX], vec![u32::MAX], vec![0]],
        vec![vec![0], vec![0], vec![u32::MAX - 1]],
    );
    let tasks = vec![thread(0), thread(1), thread(2)];
    assert!(inner.request(&tasks, 2, 0));
    assert_eq!(inner.need, vec![vec![0], vec![0], vec![u32::MAX]]);
}

#[test]
fn request_then_allocate_then_free_round_trip() {
    let mut inner = tables(vec![1], vec![vec![0], vec![0]], vec![vec![0], vec![0]]);
    let tasks = vec![thread(0), thread(1)];
    assert!(inner.request(&tasks, 0, 0));
    inner.allocate(0, 0);
    assert_eq!(inner.available, vec![0]);
    assert_eq!(inner.allocation, vec![vec![1], vec![0]]);
    assert_eq!(inner.need, vec![vec![0], vec![0]]);
    inner.free(0, 0);
    assert_eq!(inner.available, vec![1]);
    assert_eq!(inner.allocation, vec![vec![0], vec![0]]);
    assert_eq!(inner.need, vec![vec![0], vec![0]]);
}
