use chaos_game::rules::RuleRng;
use rand::Rng;

fn reference_seed() -> [u8; 32] {
    let mut seed = [0u8; 32];
    seed[0] = 1;
    seed[8] = 2;
    seed[16] = 3;
    seed[24] = 4;
    seed
}

#[test]
fn test_rand_reseed() {
    for _ in 0..100 {
        let mut rng_base = RuleRng::from_entropy();
        let mut rng_clone = rng_base.clone();

        assert!(rng_base.next_u64() == rng_clone.next_u64());

        let mut rng_base = RuleRng::from_entropy();
        let mut rng_reseed = rng_base.clone();
        rng_reseed.reseed(&rand::thread_rng().gen());

        assert!(rng_base.next_u64() != rng_reseed.next_u64());

        let rng_base = RuleRng::from_entropy();
        let mut rng_reseed = rng_base.clone();
        let mut rng_reseed2 = rng_base.clone();
        let seed = rand::thread_rng().gen();
        rng_reseed.reseed(&seed);
        rng_reseed2.reseed(&seed);

        assert!(rng_reseed.next_u64() == rng_reseed2.next_u64());
    }
}

#[test]
fn reference_stream() {
    let mut rng = RuleRng::from_seed(reference_seed());
    let expected: [u64; 10] = [
        5,
        211106232532999,
        211106635186183,
        9223759065350669058,
        9250833439874351877,
        13862484359527728515,
        2346507365006083650,
        1168864526675804870,
        34095955243042024,
        3466914240207415127,
    ];
    for e in expected {
        assert_eq!(rng.next_u64(), e);
    }
}

#[test]
fn from_seed_keeps_the_identity() {
    let rng = RuleRng::from_seed(reference_seed());
    assert_eq!(rng.instance_seed, reference_seed());
}

#[test]
fn entropy_identities_differ() {
    let a = RuleRng::from_entropy();
    let b = RuleRng::from_entropy();
    assert_ne!(a.instance_seed, b.instance_seed);
}

#[test]
fn reseed_folds_the_seed_into_the_identity() {
    let mut rng = RuleRng::from_seed(reference_seed());
    let mut seed = [0u8; 32];
    seed[0] = 0b1010_1010;
    seed[8] = 2;
    seed[31] = 0xFF;
    rng.reseed(&seed);

    let mut expected = reference_seed();
    expected[0] = 0b1010_1011;
    expected[8] = 0;
    expected[31] = 0xFF;
    assert_eq!(rng.instance_seed, expected);

    let mut direct = RuleRng::from_seed(expected);
    for _ in 0..16 {
        assert_eq!(rng.next_u64(), direct.next_u64());
    }
}

#[test]
fn reseed_with_the_same_bytes_twice_restores_the_identity() {
    let mut rng = RuleRng::from_seed(reference_seed());
    let seed: [u8; 32] = rand::thread_rng().gen();
    rng.reseed(&seed);
    rng.reseed(&seed);
    assert_eq!(rng.instance_seed, reference_seed());
    assert_eq!(rng.next_u64(), 5);
}

#[test]
fn clone_starts_the_stream_anew() {
    let mut rng = RuleRng::from_seed(reference_seed());
    assert_eq!(rng.next_u64(), 5);
    assert_eq!(rng.next_u64(), 211106232532999);
    let mut copy = rng.clone();
    assert_eq!(copy.instance_seed, reference_seed());
    assert_eq!(copy.next_u64(), 5);
    assert_eq!(rng.next_u64(), 211106635186183);
}

#[test]
fn clones_reseeded_alike_run_alike() {
    let base = RuleRng::from_entropy();
    let mut a = base.clone();
    let mut b = base.clone();
    let seed: [u8; 32] = rand::thread_rng().gen();
    a.reseed(&seed);
    b.reseed(&seed);
    for _ in 0..1000 {
        assert_eq!(a.next_u64(), b.next_u64());
    }
}

#[test]
fn clones_reseeded_otherwise_run_apart() {
    let base = RuleRng::from_seed(reference_seed());
    let mut a = base.clone();
    let mut b = base.clone();
    let mut one = [0u8; 32];
    one[5] = 1;
    let mut two = [0u8; 32];
    two[5] = 2;
    a.reseed(&one);
    b.reseed(&two);
    assert_ne!(a.instance_seed, b.instance_seed);
    let same = (0..64).filter(|_| a.next_u64() == b.next_u64()).count();
    assert_eq!(same, 0);
}

#[test]
fn zero_seed_still_gives_a_stream() {
    let mut rng = RuleRng::from_seed([0u8; 32]);
    let first = rng.next_u64();
    let second = rng.next_u64();
    assert!(first != 0 || second != 0);
    assert_ne!(first, second);
}

#[test]
fn below_stays_below_the_bound() {
    let mut rng = RuleRng::from_seed(reference_seed());
    let mut seen = [false; 7];
    for _ in 0..1000 {
        let x = rng.below(7);
        assert!(x < 7);
        seen[x as usize] = true;
    }
    assert!(seen.iter().all(|s| *s));
    for _ in 0..100 {
        assert_eq!(rng.below(1), 0);
    }
}

#[test]
fn below_moves_the_stream() {
    let mut a = RuleRng::from_seed(reference_seed());
    let mut b = RuleRng::from_seed(reference_seed());
    a.below(1000);
    assert_ne!(a.next_u64(), b.next_u64());
}

#[test]
fn between_stays_between_the_bounds() {
    let mut rng = RuleRng::from_seed(reference_seed());
    let mut seen = [false; 5];
    for _ in 0..1000 {
        let x = rng.between(-2, 2);
        assert!((-2..=2).contains(&x));
        seen[(x + 2) as usize] = true;
    }
    assert!(seen.iter().all(|s| *s));
    assert_eq!(rng.between(-3, -3), -3);
    let wide = rng.between(i64::MIN, i64::MAX);
    let wide2 = rng.between(i64::MIN, i64::MAX);
    assert_ne!(wide, wide2);
}

#[test]
fn coin_shows_both_sides() {
    let mut rng = RuleRng::from_seed(reference_seed());
    let heads = (0..10_000).filter(|_| rng.coin()).count();
    assert!(heads > 4_500 && heads < 5_500, "{}", heads);
}

#[test]
fn ratio_respects_its_ends() {
    let mut rng = RuleRng::from_seed(reference_seed());
    for _ in 0..1000 {
        assert!(rng.ratio(3, 3));
        assert!(!rng.ratio(0, 3));
    }
    let hits = (0..30_000).filter(|_| rng.ratio(1, 3)).count();
    assert!(hits > 9_000 && hits < 11_000, "{}", hits);
}

#[test]
fn samplers_are_functions_of_the_state() {
    let mut a = RuleRng::from_seed(reference_seed());
    let mut b = RuleRng::from_seed(reference_seed());
    for _ in 0..100 {
        assert_eq!(a.below(12345), b.below(12345));
        assert_eq!(a.between(-9, 99), b.between(-9, 99));
        assert_eq!(a.coin(), b.coin());
        assert_eq!(a.ratio(2, 7), b.ratio(2, 7));
    }
}

fn words(seed: &[u8; 32]) -> [u64; 4] {
    let mut state = [0u64; 4];
    for (word, bytes) in state.iter_mut().zip(seed.chunks_exact(8)) {
        *word = u64::from_le_bytes(bytes.try_into().unwrap());
    }
    state
}

fn step(s: [u64; 4]) -> (u64, [u64; 4]) {
    let out = s[0].wrapping_add(s[3]);
    let shifted = s[1] << 17;
    let third = s[2] ^ s[0];
    let fourth = s[3] ^ s[1];
    let second = s[1] ^ third;
    let first = s[0] ^ fourth;
    (out, [first, second, third ^ shifted, (fourth << 45) | (fourth >> 19)])
}

#[test]
fn the_stream_is_the_stated_step() {
    for _ in 0..50 {
        let seed: [u8; 32] = rand::thread_rng().gen();
        let mut rng = RuleRng::from_seed(seed);
        let mut state = words(&seed);
        for _ in 0..200 {
            let (out, next) = step(state);
            assert_eq!(rng.next_u64(), out);
            state = next;
        }
    }
}

#[test]
fn the_coin_is_the_highest_bit_of_the_step() {
    for _ in 0..50 {
        let seed: [u8; 32] = rand::thread_rng().gen();
        let mut rng = RuleRng::from_seed(seed);
        let mut state = words(&seed);
        for _ in 0..200 {
            let (out, next) = step(state);
            assert_eq!(rng.coin(), out >> 63 == 1);
            state = next;
        }
        let (out, _) = step(state);
        assert_eq!(rng.next_u64(), out);
    }
}
