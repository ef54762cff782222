use dungeonbuilder::random::{RandomSource, SequenceRandom, StdRandom};

#[test]
fn test_std_pick_in_range_stays_in_range() {
    let mut rng = StdRandom::from_seed(1);
    for _ in 0..100 {
        let v = rng.pick_in_range(10, 12);
        assert!(v == 10 || v == 11);
    }
    assert_eq!(5, rng.pick_in_range(5, 6));
}

#[test]
fn test_std_one_in_one_is_certain() {
    let mut rng = StdRandom::from_entropy();
    for _ in 0..20 {
        assert!(rng.one_in(1));
    }
}

#[test]
fn test_sequence_random_replays_values() {
    let mut rng = SequenceRandom::new(vec![7, 99, 0, 3]);
    assert_eq!(7, rng.pick_in_range(0, 10));
    // 99 lies outside the range, so the draw falls back to the low end.
    assert_eq!(0, rng.pick_in_range(0, 10));
    // A zero stands for the one-in-n event.
    assert!(rng.one_in(4));
    assert!(!rng.one_in(4));
    // Past the end of the list every range draw is the low end.
    assert_eq!(5, rng.pick_in_range(5, 9));
}
