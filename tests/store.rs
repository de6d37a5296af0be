use gravity_sim::collision::plan_merges;
use gravity_sim::store::{BodyId, BodyStore};

fn store_of(names: &[&'static str]) -> BodyStore<&'static str> {
    let mut s = BodyStore::new();
    for n in names {
        s.insert(*n).unwrap();
    }
    s
}

#[test]
fn insert_gives_fresh_ids_in_order() {
    let mut s = BodyStore::new();
    assert_eq!(s.insert('a'), Some(BodyId(0)));
    assert_eq!(s.insert('b'), Some(BodyId(1)));
    assert_eq!(s.len(), 2);
    assert_eq!(s.ids(), &vec![BodyId(0), BodyId(1)]);
    assert_eq!(s.bodies(), &vec!['a', 'b']);
}

#[test]
fn remove_takes_out_one_body() {
    let mut s = store_of(&["a", "b", "c"]);
    assert_eq!(s.remove(BodyId(1)), Some("b"));
    assert_eq!(s.ids(), &vec![BodyId(0), BodyId(2)]);
    assert_eq!(s.bodies(), &vec!["a", "c"]);
    assert_eq!(s.remove(BodyId(1)), None);
    assert_eq!(s.len(), 2);
}

#[test]
fn ids_are_not_reused_after_removal() {
    let mut s = store_of(&["a", "b"]);
    s.remove(BodyId(1));
    assert_eq!(s.insert("c"), Some(BodyId(2)));
}

#[test]
fn index_of_finds_body() {
    let s = store_of(&["a", "b", "c"]);
    assert_eq!(s.index_of(BodyId(2)), Some(2));
    assert_eq!(s.index_of(BodyId(9)), None);
}

#[test]
fn replace_bodies_keeps_ids() {
    let mut s = store_of(&["a", "b"]);
    s.replace_bodies(vec!["x", "y"]);
    assert_eq!(s.ids(), &vec![BodyId(0), BodyId(1)]);
    assert_eq!(s.bodies(), &vec!["x", "y"]);
}

#[test]
fn merges_replace_pairs_by_merged_bodies() {
    let mut s = store_of(&["a", "b", "c", "d"]);
    let pairs = plan_merges(&vec![None, Some(3), None, Some(1)]);
    assert_eq!(pairs, vec![(1, 3)]);
    s.apply_merges(&pairs, vec!["bd"]);
    assert_eq!(s.bodies(), &vec!["a", "c", "bd"]);
    assert_eq!(s.ids(), &vec![BodyId(0), BodyId(2), BodyId(4)]);
}

#[test]
fn three_overlapping_bodies_leave_one_merged_and_one_unmerged() {
    let mut s = store_of(&["a", "b", "c"]);
    let pairs = plan_merges(&vec![Some(1), Some(0), Some(0)]);
    s.apply_merges(&pairs, vec!["ab"]);
    assert_eq!(s.bodies(), &vec!["c", "ab"]);
    assert_eq!(s.len(), 2);
}

#[test]
fn no_merges_leave_store_unchanged() {
    let mut s = store_of(&["a", "b"]);
    s.apply_merges(&Vec::new(), Vec::new());
    assert_eq!(s.bodies(), &vec!["a", "b"]);
    assert_eq!(s.ids(), &vec![BodyId(0), BodyId(1)]);
    assert_eq!(s.insert("c"), Some(BodyId(2)));
}
