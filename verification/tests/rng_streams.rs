use scenario::rng::{choose_lane, fork_rng, rand_range, shuffle, SimRng};
use scenario::types::LaneID;

#[test]
fn equal_seeds_give_equal_streams() {
    let mut a = SimRng::seeded(7);
    let mut b = SimRng::seeded(7);
    for _ in 0..5 {
        assert_eq!(a.next_u64(), b.next_u64());
    }
}

#[test]
fn different_seeds_diverge() {
    let mut a = SimRng::seeded(1);
    let mut b = SimRng::seeded(2);
    assert_ne!(a.next_u64(), b.next_u64());
}

#[test]
fn forking_advances_the_base_by_one_draw() {
    let mut base = SimRng::seeded(9);
    let _fork = fork_rng(&mut base);
    let after_fork = base.next_u64();

    let mut plain = SimRng::seeded(9);
    let _consumed_by_fork = plain.next_u64();
    assert_eq!(after_fork, plain.next_u64());
}

#[test]
fn a_fork_is_seeded_from_the_base_draw() {
    let mut base = SimRng::seeded(9);
    let mut fork = fork_rng(&mut base);

    let mut witness = SimRng::seeded(9);
    let fork_seed = witness.next_u64();
    let mut replay = SimRng::seeded(fork_seed);
    assert_eq!(fork.next_u64(), replay.next_u64());
}

#[test]
fn fork_consumption_never_touches_the_base() {
    let mut base1 = SimRng::seeded(11);
    let mut fork1 = fork_rng(&mut base1);
    let _ = fork1.next_u64();
    let _ = fork1.next_u64();

    let mut base2 = SimRng::seeded(11);
    let _fork2 = fork_rng(&mut base2);

    assert_eq!(base1.next_u64(), base2.next_u64());
}

#[test]
fn rand_range_stays_in_bounds() {
    let mut rng = SimRng::seeded(77);
    for _ in 0..100 {
        let x = rand_range(&mut rng, 10, 20);
        assert!((10..20).contains(&x));
    }
}

#[test]
fn shuffle_permutes_and_is_deterministic() {
    let original: Vec<u64> = (0..10).collect();
    let mut v1 = original.clone();
    let mut v2 = original.clone();
    let mut rng1 = SimRng::seeded(123);
    let mut rng2 = SimRng::seeded(123);
    shuffle(&mut rng1, &mut v1);
    shuffle(&mut rng2, &mut v2);
    assert_eq!(v1, v2);
    let mut sorted = v1.clone();
    sorted.sort();
    assert_eq!(sorted, original);
    // With ten items the odds of the identity permutation are negligible;
    // an unchanged vector means the shuffle did nothing.
    assert_ne!(v1, original);
}

#[test]
fn choose_lane_picks_an_element_or_nothing() {
    let mut rng = SimRng::seeded(4);
    let lanes = vec![LaneID(3), LaneID(5), LaneID(9)];
    let picked = choose_lane(&mut rng, &lanes).unwrap();
    assert!(lanes.contains(&picked));

    let empty: Vec<LaneID> = vec![];
    assert_eq!(choose_lane(&mut rng, &empty), None);
}
