use byteset::ByteSet;
use std::hash::{Hash, Hasher};

#[test]
fn insert_then_remove_every_byte() {
    for v in 0u8..=255 {
        let mut set = ByteSet::new();
        assert!(!set.contains(v));
        assert!(set.insert(v));
        assert!(set.contains(v));
        assert_eq!(set.len(), 1);
        assert_eq!(set.min(), Some(v));
        assert_eq!(set.max(), Some(v));
        for other in 0u8..=255 {
            assert_eq!(set.contains(other), other == v);
        }
        assert!(set.remove(v));
        assert!(!set.contains(v));
        assert!(set.is_empty());
    }
}

#[test]
fn insert_says_whether_the_value_was_absent() {
    let mut set = ByteSet::new();
    assert!(set.insert(9));
    assert!(!set.insert(9));
    assert!(set.insert(128));
    assert!(!set.insert(128));
    assert_eq!(set.len(), 2);
}

#[test]
fn remove_says_whether_the_value_was_present() {
    let mut set = ByteSet::full();
    assert!(set.remove(9));
    assert!(!set.remove(9));
    assert!(set.remove(255));
    assert!(!set.remove(255));
    assert_eq!(set.len(), 254);
    assert!(!set.contains(9));
    assert!(set.contains(10));
}

#[test]
fn remove_in_an_insert_filled_set_leaves_the_others() {
    let mut set = ByteSet::new();
    for v in [0u8, 127, 128, 255] {
        set.insert(v);
    }
    assert!(set.remove(128));
    assert!(set.contains(0));
    assert!(set.contains(127));
    assert!(!set.contains(128));
    assert!(set.contains(255));
    assert_eq!(set.len(), 3);
}

#[test]
fn toggle_returns_the_new_membership() {
    let mut set = ByteSet::new();
    assert!(set.toggle(42));
    assert!(set.contains(42));
    assert!(!set.toggle(42));
    assert!(!set.contains(42));
}

#[test]
fn toggle_twice_restores_every_byte() {
    let start = ByteSet::from_predicate(|v| v % 3 == 0);
    for v in 0u8..=255 {
        let mut set = start;
        let first = set.toggle(v);
        assert_eq!(first, !start.contains(v));
        assert_eq!(set.contains(v), first);
        let second = set.toggle(v);
        assert_eq!(second, !first);
        assert_eq!(set, start);
    }
}

#[test]
fn take_removes_a_member_and_returns_it() {
    let mut set = ByteSet::from_iter(&[5, 200]);
    assert_eq!(set.take(200), Some(200));
    assert!(!set.contains(200));
    assert_eq!(set.take(200), None);
    assert_eq!(set, ByteSet::from_iter(&[5]));
    assert_eq!(set.take(6), None);
    assert_eq!(set, ByteSet::from_iter(&[5]));
}

#[test]
fn clear_removes_everything() {
    let mut set = ByteSet::full();
    set.clear();
    assert!(set.is_empty());
    assert_eq!(set, ByteSet::new());
}

#[test]
fn len_counts_the_members_in_both_halves() {
    let mut set = ByteSet::new();
    let mut expected: u32 = 0;
    for v in [0u8, 1, 63, 64, 127, 128, 129, 191, 192, 254, 255] {
        set.insert(v);
        expected += 1;
        assert_eq!(set.len(), expected);
    }
    assert_eq!(ByteSet::from_predicate(|v| v < 128).len(), 128);
    assert_eq!(ByteSet::from_predicate(|v| v >= 128).len(), 128);
}

#[test]
fn min_and_max_across_the_halves() {
    let low = ByteSet::from_iter(&[17, 90, 127]);
    assert_eq!(low.min(), Some(17));
    assert_eq!(low.max(), Some(127));
    let high = ByteSet::from_iter(&[128, 130, 255]);
    assert_eq!(high.min(), Some(128));
    assert_eq!(high.max(), Some(255));
    let both = ByteSet::from_iter(&[127, 128]);
    assert_eq!(both.min(), Some(127));
    assert_eq!(both.max(), Some(128));
    let zero = ByteSet::from_iter(&[0]);
    assert_eq!(zero.min(), Some(0));
    assert_eq!(zero.max(), Some(0));
    assert!(!zero.is_empty());
}

#[test]
fn index_says_whether_a_byte_is_a_member() {
    let set = ByteSet::from_iter(&[0, 128]);
    assert!(set[0]);
    assert!(!set[1]);
    assert!(set[128]);
    assert!(!set[255]);
}

#[test]
fn default_is_the_empty_set() {
    assert_eq!(ByteSet::default(), ByteSet::new());
}

#[test]
fn sets_are_equal_when_their_members_are() {
    let mut a = ByteSet::new();
    a.insert(1);
    a.insert(200);
    let mut b = ByteSet::new();
    b.insert(200);
    b.insert(1);
    assert_eq!(a, b);
    b.insert(2);
    assert_ne!(a, b);
    let copy = a;
    assert_eq!(copy, a);
}

#[test]
fn equal_sets_hash_alike() {
    let mut a = ByteSet::new();
    a.insert(77);
    a.insert(177);
    let mut b = ByteSet::full();
    b.retain(|v| v == 77 || v == 177);
    let mut ha = std::collections::hash_map::DefaultHasher::new();
    let mut hb = std::collections::hash_map::DefaultHasher::new();
    a.hash(&mut ha);
    b.hash(&mut hb);
    assert_eq!(ha.finish(), hb.finish());
}
