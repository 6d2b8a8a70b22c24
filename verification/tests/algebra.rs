use byteset::ByteSet;

fn set_of(vals: &[u8]) -> ByteSet {
    ByteSet::from_iter(vals)
}

fn samples() -> Vec<ByteSet> {
    vec![
        ByteSet::new(),
        ByteSet::full(),
        set_of(&[0]),
        set_of(&[255]),
        set_of(&[0, 127, 128, 255]),
        ByteSet::from_predicate(|v| v % 2 == 0),
        ByteSet::from_predicate(|v| v % 3 == 0),
        ByteSet::from_predicate(|v| v < 128),
        ByteSet::from_predicate(|v| (100..200).contains(&v)),
    ]
}

#[test]
fn named_operations_on_small_sets() {
    let a = set_of(&[1, 2, 3, 200]);
    let b = set_of(&[2, 3, 4, 201]);
    assert_eq!(a.union(&b), set_of(&[1, 2, 3, 4, 200, 201]));
    assert_eq!(a.intersection(&b), set_of(&[2, 3]));
    assert_eq!(a.difference(&b), set_of(&[1, 200]));
    assert_eq!(b.difference(&a), set_of(&[4, 201]));
    assert_eq!(a.symmetric_difference(&b), set_of(&[1, 4, 200, 201]));
}

#[test]
fn difference_is_not_subtraction_of_the_masks() {
    let a = set_of(&[1]);
    let b = set_of(&[0]);
    assert_eq!(a.difference(&b), set_of(&[1]));
    assert_eq!(b.difference(&a), set_of(&[0]));
    assert_eq!(a - b, set_of(&[1]));
    assert_eq!(ByteSet::new().difference(&ByteSet::full()), ByteSet::new());
}

#[test]
fn complement_flips_every_byte() {
    let a = set_of(&[0, 128]);
    let c = a.complement();
    assert_eq!(c.len(), 254);
    for v in 0u8..=255 {
        assert_eq!(c.contains(v), !a.contains(v));
    }
    assert_eq!(ByteSet::new().complement(), ByteSet::full());
    assert_eq!(ByteSet::full().complement(), ByteSet::new());
}

#[test]
fn union_and_intersection_commute() {
    for a in samples() {
        for b in samples() {
            assert_eq!(a.union(&b), b.union(&a));
            assert_eq!(a.intersection(&b), b.intersection(&a));
        }
    }
}

#[test]
fn difference_is_and_not() {
    for a in samples() {
        for b in samples() {
            assert_eq!(a.difference(&b), a.intersection(&b.complement()));
            assert_eq!(a.difference(&b), a & !b);
        }
    }
}

#[test]
fn symmetric_difference_is_union_without_intersection() {
    for a in samples() {
        for b in samples() {
            assert_eq!(a.symmetric_difference(&b), a.union(&b).difference(&a.intersection(&b)));
        }
    }
}

#[test]
fn complement_twice_is_the_set() {
    for a in samples() {
        assert_eq!(a.complement().complement(), a);
        assert_eq!(!!a, a);
    }
}

#[test]
fn subsets_both_ways_are_equal() {
    for a in samples() {
        for b in samples() {
            if a.is_subset(&b) && b.is_subset(&a) {
                assert_eq!(a, b);
            } else {
                assert_ne!(a, b);
            }
        }
    }
}

#[test]
fn subset_superset_disjoint() {
    let small = set_of(&[3, 130]);
    let big = set_of(&[3, 4, 130, 131]);
    let apart = set_of(&[5, 129]);
    assert!(small.is_subset(&big));
    assert!(!big.is_subset(&small));
    assert!(big.is_superset(&small));
    assert!(!small.is_superset(&big));
    assert!(small.is_subset(&small));
    assert!(ByteSet::new().is_subset(&small));
    assert!(small.is_subset(&ByteSet::full()));
    assert!(small.is_disjoint(&apart));
    assert!(!small.is_disjoint(&big));
    assert!(ByteSet::new().is_disjoint(&ByteSet::new()));
    assert!(ByteSet::new().is_disjoint(&ByteSet::full()));
    assert!(!ByteSet::full().is_disjoint(&ByteSet::full()));
}

#[test]
fn operators_agree_with_the_named_operations() {
    for a in samples() {
        for b in samples() {
            assert_eq!(a & b, a.intersection(&b));
            assert_eq!(a & &b, a.intersection(&b));
            assert_eq!(&a & b, a.intersection(&b));
            assert_eq!(&a & &b, a.intersection(&b));
            assert_eq!(a | b, a.union(&b));
            assert_eq!(a | &b, a.union(&b));
            assert_eq!(&a | b, a.union(&b));
            assert_eq!(&a | &b, a.union(&b));
            assert_eq!(a ^ b, a.symmetric_difference(&b));
            assert_eq!(a ^ &b, a.symmetric_difference(&b));
            assert_eq!(&a ^ b, a.symmetric_difference(&b));
            assert_eq!(&a ^ &b, a.symmetric_difference(&b));
            assert_eq!(a - b, a.difference(&b));
            assert_eq!(a - &b, a.difference(&b));
            assert_eq!(&a - b, a.difference(&b));
            assert_eq!(&a - &b, a.difference(&b));
        }
        assert_eq!(!a, a.complement());
        assert_eq!(!&a, a.complement());
    }
}

#[test]
fn assigning_operators_change_the_left_operand_only() {
    for a in samples() {
        for b in samples() {
            let right = b;
            let mut left = a;
            left &= right;
            assert_eq!(left, a.intersection(&b));
            let mut left = a;
            left &= &right;
            assert_eq!(left, a.intersection(&b));
            let mut left = a;
            left |= right;
            assert_eq!(left, a.union(&b));
            let mut left = a;
            left |= &right;
            assert_eq!(left, a.union(&b));
            let mut left = a;
            left ^= right;
            assert_eq!(left, a.symmetric_difference(&b));
            let mut left = a;
            left ^= &right;
            assert_eq!(left, a.symmetric_difference(&b));
            let mut left = a;
            left -= right;
            assert_eq!(left, a.difference(&b));
            let mut left = a;
            left -= &right;
            assert_eq!(left, a.difference(&b));
            assert_eq!(right, b);
        }
    }
}

#[test]
fn named_operations_leave_their_operands_alone() {
    let a = set_of(&[1, 2]);
    let b = set_of(&[2, 3]);
    let _ = a.union(&b);
    let _ = a.intersection(&b);
    let _ = a.difference(&b);
    let _ = a.symmetric_difference(&b);
    let _ = a.complement();
    assert_eq!(a, set_of(&[1, 2]));
    assert_eq!(b, set_of(&[2, 3]));
}
