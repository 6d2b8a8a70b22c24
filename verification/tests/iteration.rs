use byteset::ByteSet;

fn set_of(vals: &[u8]) -> ByteSet {
    ByteSet::from_iter(vals)
}

#[test]
fn members_come_in_ascending_order() {
    let set = set_of(&[200, 3, 128, 0, 255, 127, 3]);
    let members: Vec<u8> = set.iter().collect();
    assert_eq!(members, vec![0u8, 3, 127, 128, 200, 255]);
    assert_eq!(members.len(), set.len() as usize);
}

#[test]
fn members_come_in_descending_order_from_the_back() {
    let set = set_of(&[200, 3, 128, 0, 255, 127]);
    let members: Vec<u8> = set.iter().rev().collect();
    assert_eq!(members, vec![255u8, 200, 128, 127, 3, 0]);
}

#[test]
fn iteration_matches_contains_for_sample_sets() {
    let samples = [
        ByteSet::new(),
        ByteSet::full(),
        ByteSet::from_predicate(|v| v % 7 == 3),
        ByteSet::from_predicate(|v| v >= 250),
        set_of(&[0]),
        set_of(&[255]),
    ];
    for set in samples {
        let expected: Vec<u8> = (0u8..=255).filter(|v| set.contains(*v)).collect();
        assert_eq!(set.iter().collect::<Vec<u8>>(), expected);
        assert_eq!(set.into_iter().collect::<Vec<u8>>(), expected);
        let mut reversed = expected.clone();
        reversed.reverse();
        assert_eq!(set.iter().rev().collect::<Vec<u8>>(), reversed);
        assert_eq!(set.iter().count(), set.len() as usize);
    }
}

#[test]
fn both_ends_meet_without_overlap() {
    let set = set_of(&[1, 2, 3, 4, 5]);
    let mut members = set.iter();
    assert_eq!(members.next(), Some(1));
    assert_eq!(members.next_back(), Some(5));
    assert_eq!(members.next_back(), Some(4));
    assert_eq!(members.next(), Some(2));
    assert_eq!(members.next(), Some(3));
    assert_eq!(members.next(), None);
    assert_eq!(members.next_back(), None);
}

#[test]
fn a_single_member_is_handed_out_once() {
    for v in [0u8, 1, 127, 128, 255] {
        let set = set_of(&[v]);
        let mut front = set.iter();
        assert_eq!(front.next(), Some(v));
        assert_eq!(front.next(), None);
        assert_eq!(front.next_back(), None);
        let mut back = set.iter();
        assert_eq!(back.next_back(), Some(v));
        assert_eq!(back.next_back(), None);
        assert_eq!(back.next(), None);
    }
}

#[test]
fn an_empty_set_hands_out_nothing() {
    let set = ByteSet::new();
    let mut members = set.iter();
    assert_eq!(members.next(), None);
    assert_eq!(members.next_back(), None);
    assert_eq!(set.into_iter().next(), None);
    assert_eq!(set.iter().min(), None);
    assert_eq!(set.iter().max(), None);
}

#[test]
fn an_exhausted_iterator_stays_exhausted() {
    let set = set_of(&[9]);
    let mut members = set.into_iter();
    assert_eq!(members.next(), Some(9));
    for _ in 0..3 {
        assert_eq!(members.next(), None);
        assert_eq!(members.next_back(), None);
    }
    let mut pairs = set.into_pairs();
    for _ in 0..256 {
        assert!(pairs.next().is_some());
    }
    for _ in 0..3 {
        assert_eq!(pairs.next(), None);
        assert_eq!(pairs.next_back(), None);
    }
}

#[test]
fn min_and_max_of_an_iterator_are_its_ends() {
    let set = set_of(&[40, 7, 250]);
    assert_eq!(set.iter().min(), Some(7));
    assert_eq!(set.iter().max(), Some(250));
    assert_eq!(set.into_iter().min(), Some(7));
    assert_eq!(set.into_iter().max(), Some(250));
    let mut rest = set.iter();
    rest.next();
    rest.next_back();
    assert_eq!(rest.clone().min(), Some(40));
    assert_eq!(rest.max(), Some(40));
}

#[test]
fn a_for_loop_visits_the_members() {
    let set = set_of(&[10, 20, 30]);
    let mut seen = Vec::new();
    for v in &set {
        seen.push(v);
    }
    assert_eq!(seen, vec![10u8, 20, 30]);
    let mut total: u32 = 0;
    for v in set {
        total += v as u32;
    }
    assert_eq!(total, 60);
}

#[test]
fn iterating_again_starts_over() {
    let set = set_of(&[1, 2]);
    assert_eq!(set.iter().collect::<Vec<u8>>(), vec![1u8, 2]);
    assert_eq!(set.iter().collect::<Vec<u8>>(), vec![1u8, 2]);
}

#[test]
fn pairs_cover_all_bytes_in_order() {
    let set = ByteSet::from_predicate(|v| v % 5 == 0);
    let pairs: Vec<(u8, bool)> = set.pairs().collect();
    assert_eq!(pairs.len(), 256);
    for (i, (v, member)) in pairs.iter().enumerate() {
        assert_eq!(*v as usize, i);
        assert_eq!(*member, set.contains(*v));
    }
    assert_eq!(set.into_pairs().collect::<Vec<(u8, bool)>>(), pairs);
}

#[test]
fn pairs_of_the_empty_set_are_all_false() {
    let pairs: Vec<(u8, bool)> = ByteSet::new().into_pairs().collect();
    assert_eq!(pairs.len(), 256);
    assert!(pairs.iter().all(|(_, member)| !*member));
    assert_eq!(pairs[0], (0, false));
    assert_eq!(pairs[255], (255, false));
}

#[test]
fn pairs_from_the_back_descend() {
    let set = set_of(&[255, 0]);
    let pairs: Vec<(u8, bool)> = set.pairs().rev().collect();
    assert_eq!(pairs.len(), 256);
    assert_eq!(pairs[0], (255, true));
    assert_eq!(pairs[1], (254, false));
    assert_eq!(pairs[255], (0, true));
}

#[test]
fn pairs_know_how_many_are_left() {
    let set = set_of(&[3]);
    let mut pairs = set.pairs();
    assert_eq!(pairs.len(), 256);
    assert_eq!(pairs.next(), Some((0, false)));
    assert_eq!(pairs.len(), 255);
    assert_eq!(pairs.next_back(), Some((255, false)));
    assert_eq!(pairs.len(), 254);
    assert_eq!(pairs.next(), Some((1, false)));
    assert_eq!(pairs.next(), Some((2, false)));
    assert_eq!(pairs.next(), Some((3, true)));
    assert_eq!(pairs.len(), 251);
    let rest: Vec<(u8, bool)> = pairs.collect();
    assert_eq!(rest.len(), 251);
    assert_eq!(rest[0], (4, false));
}

#[test]
fn min_and_max_of_pairs_are_the_ends() {
    let set = set_of(&[0]);
    assert_eq!(set.pairs().min(), Some((0, true)));
    assert_eq!(set.pairs().max(), Some((255, false)));
    assert_eq!(set.into_pairs().min(), Some((0, true)));
    assert_eq!(set.into_pairs().max(), Some((255, false)));
}
