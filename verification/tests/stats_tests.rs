use glance_github_graph::stats::compute_max_count;
use glance_github_graph::stats::compute_quartiles;
use glance_github_graph::stats::compute_streaks;

#[test]
fn quartiles_recompute_is_identical() {
    // Quartile derivation on an already ascending sequence, recomputed, gives
    // the same five values.
    let sorted: Vec<u32> = vec![0, 1, 2, 3, 5, 8, 13];
    let first = compute_quartiles(&sorted);
    let second = compute_quartiles(&sorted);
    assert_eq!(first, second);
    let of_quart: Vec<u32> = first.to_vec();
    assert_eq!(compute_quartiles(&of_quart), first);
}

#[test]
fn quartiles_of_three_counts() {
    let counts: Vec<u32> = vec![0, 5, 12];
    assert_eq!(compute_quartiles(&counts), [0, 0, 5, 12, 12]);
}

#[test]
fn quartiles_of_unsorted_input() {
    let counts: Vec<u32> = vec![9, 1, 4, 7, 2, 8, 3, 6, 5];
    // sorted: 1..=9, n = 9: indices 0, 2, 4, 6, 8
    assert_eq!(compute_quartiles(&counts), [1, 3, 5, 7, 9]);
}

#[test]
fn quartiles_of_single_count() {
    let counts: Vec<u32> = vec![4];
    assert_eq!(compute_quartiles(&counts), [4, 4, 4, 4, 4]);
}

#[test]
fn quartiles_are_nondecreasing() {
    let counts: Vec<u32> = vec![30, 0, 7, 7, 2, 19];
    let q = compute_quartiles(&counts);
    for i in 1..5 {
        assert!(q[i - 1] <= q[i]);
    }
}

#[test]
fn streaks_with_active_last_day() {
    // chronological [0,1,2,0,3]: the most recent day is active.
    let counts: Vec<u32> = vec![0, 1, 2, 0, 3];
    let (current, longest) = compute_streaks(&counts);
    assert_eq!(current, 1);
    assert_eq!(longest, 2);
}

#[test]
fn streaks_with_inactive_last_day() {
    // chronological [1,1,0]: the most recent day is inactive.
    let counts: Vec<u32> = vec![1, 1, 0];
    let (current, longest) = compute_streaks(&counts);
    assert_eq!(current, 0);
    assert_eq!(longest, 2);
}

#[test]
fn streaks_all_active() {
    let counts: Vec<u32> = vec![2, 5, 1, 9];
    let (current, longest) = compute_streaks(&counts);
    assert_eq!(current, 4);
    assert_eq!(longest, 4);
}

#[test]
fn streaks_all_inactive() {
    let counts: Vec<u32> = vec![0, 0, 0];
    let (current, longest) = compute_streaks(&counts);
    assert_eq!(current, 0);
    assert_eq!(longest, 0);
}

#[test]
fn streaks_of_empty_sequence() {
    let counts: Vec<u32> = vec![];
    let (current, longest) = compute_streaks(&counts);
    assert_eq!(current, 0);
    assert_eq!(longest, 0);
}

#[test]
fn max_count_of_vector() {
    assert_eq!(compute_max_count(&vec![3, 12, 5]), 12);
    assert_eq!(compute_max_count(&vec![]), 0);
}
