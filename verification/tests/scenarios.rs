use byteset::ByteSet;

fn set_of(vals: &[u8]) -> ByteSet {
    ByteSet::from_iter(vals)
}

#[test]
fn insert_collapses_duplicates() {
    let mut set = ByteSet::new();
    for v in [3u8, 1, 4, 1, 5] {
        set.insert(v);
    }
    assert_eq!(set.len(), 4);
    assert_eq!(set.min(), Some(1));
    assert_eq!(set.max(), Some(5));
    let members: Vec<u8> = set.iter().collect();
    assert_eq!(members, vec![1u8, 3, 4, 5]);
}

#[test]
fn full_minus_full_is_empty() {
    assert!(ByteSet::full().difference(&ByteSet::full()).is_empty());
    assert_eq!(ByteSet::full().difference(&ByteSet::full()), ByteSet::new());
}

#[test]
fn full_has_256_members() {
    assert_eq!(ByteSet::full().len(), 256);
    assert_eq!(ByteSet::full().min(), Some(0));
    assert_eq!(ByteSet::full().max(), Some(255));
}

#[test]
fn new_is_empty() {
    assert!(ByteSet::new().is_empty());
    assert_eq!(ByteSet::new().len(), 0);
    assert_eq!(ByteSet::new().min(), None);
    assert_eq!(ByteSet::new().max(), None);
}

#[test]
fn retain_keeps_the_even_members() {
    let mut set = set_of(&[1, 2, 3, 4, 5]);
    set.retain(|v| v % 2 == 0);
    assert_eq!(set, set_of(&[2, 4]));
    assert_eq!(set.iter().collect::<Vec<u8>>(), vec![2u8, 4]);
}

#[test]
fn retain_asks_each_member_once_in_ascending_order() {
    let mut asked = Vec::new();
    let mut set = set_of(&[200, 7, 128, 0, 255, 127]);
    set.retain(|v| {
        asked.push(v);
        v >= 128
    });
    assert_eq!(asked, vec![0u8, 7, 127, 128, 200, 255]);
    assert_eq!(set, set_of(&[128, 200, 255]));
}

#[test]
fn retain_on_all_or_nothing() {
    let mut all = ByteSet::full();
    all.retain(|_| true);
    assert_eq!(all, ByteSet::full());
    all.retain(|_| false);
    assert!(all.is_empty());
    let mut none = ByteSet::new();
    none.retain(|_| true);
    assert!(none.is_empty());
}

#[test]
fn from_predicate_asks_each_byte_once_in_ascending_order() {
    let mut asked = Vec::new();
    let set = ByteSet::from_predicate(|v| {
        asked.push(v);
        v % 64 == 1
    });
    let expected: Vec<u8> = (0u8..=255).collect();
    assert_eq!(asked, expected);
    assert_eq!(set, set_of(&[1, 65, 129, 193]));
}

#[test]
fn from_predicate_always_and_never() {
    assert_eq!(ByteSet::from_predicate(|_| true), ByteSet::full());
    assert_eq!(ByteSet::from_predicate(|_| false), ByteSet::new());
}

#[test]
fn a_predicate_may_keep_state() {
    let mut calls: u32 = 0;
    let every_third = ByteSet::from_predicate(|_| {
        calls += 1;
        calls % 3 == 0
    });
    assert_eq!(calls, 256);
    assert_eq!(every_third, ByteSet::from_predicate(|v| v % 3 == 2));
    let mut kept: u32 = 0;
    let mut set = ByteSet::full();
    set.retain(|_| {
        kept += 1;
        kept <= 10
    });
    assert_eq!(kept, 256);
    assert_eq!(set, ByteSet::from_predicate(|v| v < 10));
}
