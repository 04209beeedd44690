use montecarlo::rng::ClockError;
use montecarlo::rng::Rng;
use montecarlo::rng::INCREMENT;
use montecarlo::rng::MODULUS;
use montecarlo::rng::MULTIPLIER;

#[test]
fn first_draw_from_zero_is_the_increment() {
    let mut rng = Rng::from_seed(0);
    assert_eq!(rng.next(), 1);
}

#[test]
fn draws_follow_the_recurrence() {
    let mut rng = Rng::from_seed(0);
    let drawn: Vec<u64> = (0..5).map(|_| rng.next()).collect();
    assert_eq!(drawn, vec![1, 1284865838, 1311059223, 1078613516, 3535606813]);

    let mut rng = Rng::from_seed(12345);
    let drawn: Vec<u64> = (0..3).map(|_| rng.next()).collect();
    assert_eq!(drawn, vec![354533638, 2519656463, 806960036]);
}

#[test]
fn each_draw_is_the_recurrence_applied_to_the_one_before() {
    let mut rng = Rng::from_seed(987654321);
    let mut state: u128 = 987654321;
    for _ in 0..1000 {
        state = (MULTIPLIER as u128 * state + INCREMENT as u128) % MODULUS as u128;
        assert_eq!(rng.next() as u128, state);
    }
}

#[test]
fn a_seed_counts_only_by_its_low_half() {
    let mut low = Rng::from_seed(5);
    let mut high = Rng::from_seed((1 << 32) + 5);
    assert_eq!(low.next(), 2129361890);
    assert_eq!(high.next(), 2129361890);
}

#[test]
fn the_largest_seed_does_not_overflow() {
    let mut rng = Rng::from_seed(u64::MAX);
    assert_eq!(rng.next(), 3010101460);
}

#[test]
fn sample() {
    let mut rng = Rng::new().unwrap();
    for _ in 0..10000 {
        let fraction = rng.next() as f64 / MODULUS as f64;
        assert!(0.0 <= fraction && fraction < 1.0);
    }
}

#[test]
fn a_clock_seeded_generator_follows_the_recurrence_too() {
    let mut rng = Rng::new().unwrap();
    let first = rng.next();
    let second = rng.next();
    assert!(first < MODULUS);
    assert_eq!(
        second as u128,
        (MULTIPLIER as u128 * first as u128 + INCREMENT as u128) % MODULUS as u128
    );
}

#[test]
fn a_clock_reading_seeds_with_its_nanoseconds_reduced_to_64_bits() {
    assert_eq!(Rng::from_clock(Some(5)).unwrap().next(), 2129361890);
    assert_eq!(Rng::from_clock(Some((1u128 << 64) + 5)).unwrap().next(), 2129361890);
    assert_eq!(
        Rng::from_clock(Some(u128::MAX)).unwrap().next(),
        Rng::from_seed(u64::MAX).next()
    );
    assert_eq!(Rng::from_clock(Some(12345)).unwrap().next(), 354533638);
    assert_eq!(Rng::from_clock(Some(0)).unwrap().next(), 1);
}

#[test]
fn no_clock_reading_gives_no_generator() {
    assert_eq!(Rng::from_clock(None).err(), Some(ClockError::BeforeEpoch));
}

#[test]
fn the_clock_reads_after_the_epoch() {
    assert!(Rng::new().is_ok());
}
