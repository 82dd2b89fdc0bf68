use crdt_store::vector_clock::{compare, increment, merge, new_clock, ClockOrdering};

#[test]
fn test_increment() {
    let mut clock = new_clock(3);
    increment(&mut clock, 0);
    assert_eq!(clock, vec![1, 0, 0]);
    increment(&mut clock, 0);
    assert_eq!(clock, vec![2, 0, 0]);
    increment(&mut clock, 1);
    assert_eq!(clock, vec![2, 1, 0]);
}

#[test]
fn test_equal() {
    let a = vec![1, 1, 0];
    let b = vec![1, 1, 0];
    assert_eq!(compare(&a, &b), ClockOrdering::Equal);
}

#[test]
fn test_after() {
    // local has seen everything incoming has, plus more
    let local = vec![2, 1, 0];
    let incoming = vec![1, 1, 0];
    assert_eq!(compare(&local, &incoming), ClockOrdering::After);
}

#[test]
fn test_before() {
    // incoming is strictly newer than local
    let local = vec![1, 1, 0];
    let incoming = vec![2, 1, 0];
    assert_eq!(compare(&local, &incoming), ClockOrdering::Before);
}

#[test]
fn test_concurrent() {
    // neither dominates — genuine conflict
    let local = vec![1, 0, 0];
    let incoming = vec![0, 1, 0];
    assert_eq!(compare(&local, &incoming), ClockOrdering::Concurrent);
}

#[test]
fn test_merge() {
    let local = vec![3, 1, 0];
    let incoming = vec![2, 2, 1];
    let merged = merge(&local, &incoming);
    assert_eq!(merged, vec![3, 2, 1]);
}

#[test]
fn increment_out_of_range_is_ignored() {
    let mut clock = vec![4, 5];
    increment(&mut clock, 2);
    assert_eq!(clock, vec![4, 5]);
}

#[test]
fn new_clock_is_all_zero() {
    assert_eq!(new_clock(0), Vec::<u64>::new());
    assert_eq!(new_clock(4), vec![0, 0, 0, 0]);
}

#[test]
fn compare_pads_missing_slots_with_zero() {
    assert_eq!(compare(&vec![1, 0, 0], &vec![1]), ClockOrdering::Equal);
    assert_eq!(compare(&vec![1], &vec![1, 0, 2]), ClockOrdering::Before);
    assert_eq!(compare(&vec![1, 0, 2], &vec![1]), ClockOrdering::After);
    assert_eq!(compare(&vec![], &vec![]), ClockOrdering::Equal);
}

#[test]
fn compare_is_antisymmetric() {
    let a = vec![2, 1, 0];
    let b = vec![1, 1, 0];
    assert_eq!(compare(&a, &b), ClockOrdering::After);
    assert_eq!(compare(&b, &a), ClockOrdering::Before);
    let c = vec![1, 0, 0];
    let d = vec![0, 1, 0];
    assert_eq!(compare(&c, &d), ClockOrdering::Concurrent);
    assert_eq!(compare(&d, &c), ClockOrdering::Concurrent);
}

#[test]
fn merge_of_different_lengths_keeps_longer() {
    assert_eq!(merge(&vec![5], &vec![1, 2, 3]), vec![5, 2, 3]);
    assert_eq!(merge(&vec![1, 2, 3], &vec![5]), vec![5, 2, 3]);
}

#[test]
fn merge_is_commutative_associative_idempotent() {
    let a = vec![3, 1, 0];
    let b = vec![2, 2, 1];
    let c = vec![0, 5, 0];
    assert_eq!(merge(&a, &b), merge(&b, &a));
    assert_eq!(merge(&merge(&a, &b), &c), merge(&a, &merge(&b, &c)));
    assert_eq!(merge(&a, &a), a);
}

#[test]
fn merge_dominates_both_inputs() {
    let a = vec![2, 0, 0];
    let b = vec![1, 1, 0];
    let m = merge(&a, &b);
    assert_eq!(m, vec![2, 1, 0]);
    assert_eq!(compare(&m, &a), ClockOrdering::After);
    assert_eq!(compare(&m, &b), ClockOrdering::After);
    assert_eq!(compare(&merge(&a, &vec![1, 0, 0]), &a), ClockOrdering::Equal);
}

#[test]
fn increment_makes_clock_newer() {
    let old = vec![2, 0, 0];
    let mut new = old.clone();
    increment(&mut new, 1);
    assert_eq!(compare(&new, &old), ClockOrdering::After);
}

#[test]
fn conflict_detection_example() {
    let local = vec![2, 0, 0];
    let incoming = vec![1, 1, 0];
    assert_eq!(compare(&local, &incoming), ClockOrdering::Concurrent);
    assert_eq!(merge(&local, &incoming), vec![2, 1, 0]);
}
