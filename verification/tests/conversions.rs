use byteset::ByteSet;

#[test]
fn from_iter_collapses_duplicates() {
    let set = ByteSet::from_iter(&[3, 1, 4, 1, 5, 9, 2, 6, 5, 3, 5]);
    assert_eq!(set.len(), 7);
    assert_eq!(set.iter().collect::<Vec<u8>>(), vec![1u8, 2, 3, 4, 5, 6, 9]);
    assert_eq!(ByteSet::from_iter(&[]), ByteSet::new());
}

#[test]
fn extend_adds_to_what_is_there() {
    let mut set = ByteSet::from_iter(&[1, 200]);
    set.extend(&[200, 201, 0]);
    assert_eq!(set, ByteSet::from_iter(&[0, 1, 200, 201]));
    set.extend(&[]);
    assert_eq!(set.len(), 4);
}

#[test]
fn a_set_survives_the_way_through_an_array() {
    let samples = [
        ByteSet::new(),
        ByteSet::full(),
        ByteSet::from_iter(&[0, 127, 128, 255]),
        ByteSet::from_predicate(|v| v % 11 == 4),
    ];
    for set in samples {
        let flags: [bool; 256] = <[bool; 256]>::from(set);
        for v in 0u8..=255 {
            assert_eq!(flags[v as usize], set.contains(v));
        }
        assert_eq!(ByteSet::from(flags), set);
        assert_eq!(ByteSet::from(&flags), set);
        let by_reference: [bool; 256] = <[bool; 256]>::from(&set);
        assert_eq!(by_reference, flags);
    }
}

#[test]
fn an_array_survives_the_way_through_a_set() {
    let mut flags = [false; 256];
    for i in [0usize, 1, 100, 127, 128, 254, 255] {
        flags[i] = true;
    }
    let set = ByteSet::from(&flags);
    assert_eq!(set.len(), 7);
    assert!(set.contains(100));
    assert!(!set.contains(101));
    let back: [bool; 256] = set.into();
    assert_eq!(back, flags);
    let all = [true; 256];
    assert_eq!(ByteSet::from(all), ByteSet::full());
    let back: [bool; 256] = ByteSet::full().into();
    assert_eq!(back, all);
    assert_eq!(ByteSet::from([false; 256]), ByteSet::new());
}
