use gravity_sim::collision::{pending_target, plan_merges};

#[test]
fn target_is_first_other_overlap() {
    let overlaps = vec![true, false, true, true];
    assert_eq!(pending_target(&overlaps, 0), Some(2));
    assert_eq!(pending_target(&overlaps, 2), Some(0));
}

#[test]
fn target_never_self() {
    let overlaps = vec![false, true, false];
    assert_eq!(pending_target(&overlaps, 1), None);
    assert_eq!(pending_target(&overlaps, 0), Some(1));
}

#[test]
fn no_target_without_overlap() {
    let overlaps = vec![false; 5];
    assert_eq!(pending_target(&overlaps, 3), None);
    assert_eq!(pending_target(&Vec::new(), 0), None);
}

#[test]
fn two_overlapping_bodies_merge_once() {
    let pending = vec![Some(1), Some(0)];
    assert_eq!(plan_merges(&pending), vec![(0, 1)]);
}

#[test]
fn three_mutually_overlapping_bodies_give_one_merge() {
    // each body's target is the first other body it overlaps
    let pending = vec![Some(1), Some(0), Some(0)];
    let pairs = plan_merges(&pending);
    assert_eq!(pairs, vec![(0, 1)]);
}

#[test]
fn chain_of_claims_does_not_consume_a_body_twice() {
    let pending = vec![Some(1), Some(2), Some(1)];
    assert_eq!(plan_merges(&pending), vec![(0, 1)]);
}

#[test]
fn independent_pairs_all_merge() {
    let pending = vec![Some(3), None, Some(1), Some(0), None];
    assert_eq!(plan_merges(&pending), vec![(0, 3), (2, 1)]);
}

#[test]
fn self_target_is_ignored() {
    let pending = vec![Some(0), None];
    assert!(plan_merges(&pending).is_empty());
}

#[test]
fn no_collisions_no_merges() {
    let pending: Vec<Option<usize>> = vec![None, None, None];
    assert!(plan_merges(&pending).is_empty());
    assert!(plan_merges(&Vec::new()).is_empty());
}
