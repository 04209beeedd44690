use montecarlo::fixed::fine_mean;
use montecarlo::fixed::fine_quotient;
use montecarlo::fixed::fine_sum;
use montecarlo::fixed::fraction;
use montecarlo::fixed::product;
use montecarlo::fixed::quotient;
use montecarlo::fixed::scaled;
use montecarlo::fixed::square_fraction;
use montecarlo::fixed::FINE_ONE;
use montecarlo::fixed::ONE;

#[test]
fn one_is_two_to_the_thirty_two() {
    assert_eq!(ONE, 4294967296);
}

#[test]
fn product_rounds_down() {
    assert_eq!(product(ONE, ONE), Some(ONE));
    assert_eq!(product(3 * ONE, ONE / 2), Some(3 * ONE / 2));
    assert_eq!(product(1, 1), Some(0));
    assert_eq!(product(ONE + 1, ONE + 1), Some(ONE + 2));
    assert_eq!(product(0, u64::MAX), Some(0));
}

#[test]
fn product_that_does_not_fit_is_none() {
    assert_eq!(product(1 << 48, 1 << 48), None);
    assert_eq!(product(u64::MAX, u64::MAX), None);
    assert_eq!(product(1 << 48, (1 << 48) - 1), Some(u64::MAX - (1 << 16) + 1));
}

#[test]
fn quotient_rounds_down() {
    assert_eq!(quotient(ONE, ONE), Some(ONE));
    assert_eq!(quotient(45, 100), Some(1932735283));
    assert_eq!(quotient(1, 3), Some(1431655765));
    assert_eq!(quotient(7 * ONE, 2 * ONE), Some(7 * ONE / 2));
    assert_eq!(quotient(0, 5), Some(0));
}

#[test]
fn quotient_by_zero_or_too_large_is_none() {
    assert_eq!(quotient(ONE, 0), None);
    assert_eq!(quotient(0, 0), None);
    assert_eq!(quotient(u64::MAX, 1), None);
    assert_eq!(quotient(ONE, 1), None);
    assert_eq!(quotient(ONE - 1, 1), Some((ONE - 1) * ONE));
}

#[test]
fn fine_quotient_keeps_sixty_four_fractional_bits() {
    assert_eq!(FINE_ONE, 1 << 64);
    assert_eq!(fine_quotient(ONE, ONE), Some(FINE_ONE));
    assert_eq!(fine_quotient(1, 3), Some(6148914691236517205));
    assert_eq!(fine_quotient(ONE, 3 * ONE), Some(6148914691236517205));
    assert_eq!(fine_quotient(u64::MAX, 1), Some((u64::MAX as u128) << 64));
    assert_eq!(fine_quotient(0, 7), Some(0));
    assert_eq!(fine_quotient(ONE, 0), None);
    assert_eq!(fine_quotient(0, 0), None);
}

#[test]
fn fine_sum_that_does_not_fit_is_none() {
    assert_eq!(fine_sum(FINE_ONE, 2 * FINE_ONE), Some(3 * FINE_ONE));
    assert_eq!(fine_sum(u128::MAX, 0), Some(u128::MAX));
    assert_eq!(fine_sum(u128::MAX, 1), None);
}

#[test]
fn fine_mean_rounds_once() {
    assert_eq!(fine_mean(10 * FINE_ONE, 4), Some(5 * ONE / 2));
    assert_eq!(fine_mean(FINE_ONE - 1, 1), Some(ONE - 1));
    assert_eq!(fine_mean(3 * 6148914691236517205, 1), Some(ONE - 1));
    assert_eq!(fine_mean(3 * 6148914691236517205 + 1, 1), Some(ONE));
    assert_eq!(fine_mean(7, 2), Some(0));
    assert_eq!(fine_mean(FINE_ONE, 0), None);
    assert_eq!(fine_mean(0, 0), None);
    assert_eq!(fine_mean(u128::MAX, 1), None);
    assert_eq!(fine_mean(u128::MAX, 1 << 32), Some(u64::MAX));
}

#[test]
fn square_fraction_is_the_share_of_exact_squares() {
    // 4.5^2 / (4.5^2 + 10^2) = 81 / 481
    assert_eq!(square_fraction(9 * ONE / 2, 10 * ONE), quotient(81, 481));
    assert_eq!(square_fraction(ONE, ONE), Some(ONE / 2));
    assert_eq!(square_fraction(1, 0), Some(ONE));
    assert_eq!(square_fraction(0, 1), Some(0));
    assert_eq!(square_fraction(1, 1), Some(ONE / 2));
    assert_eq!(square_fraction(0, 0), None);
    assert_eq!(square_fraction(1 << 48, 1), None);
    assert_eq!(square_fraction(1, 1 << 48), None);
    assert_eq!(square_fraction((1 << 48) - 1, (1 << 48) - 1), Some(ONE / 2));
}

#[test]
fn square_fraction_is_more_extreme_than_the_fraction() {
    assert_eq!(square_fraction(1048577, 1048576), Some(2147485695));
    assert_eq!(fraction(1048577, 1048576), Some(2147484671));
    let pairs = [(1u64, 2u64), (ONE, 3 * ONE), (7, 7), (1048577, 1048576), (0, 9), (12345, 98765)];
    for (a, b) in pairs {
        let (large, small) = if a >= b { (a, b) } else { (b, a) };
        assert!(square_fraction(large, small).unwrap() >= fraction(large, small).unwrap());
        assert!(square_fraction(small, large).unwrap() <= fraction(small, large).unwrap());
        let together = square_fraction(a, b).unwrap() + square_fraction(b, a).unwrap();
        assert!(together == ONE || together == ONE - 1);
    }
}

#[test]
fn scaled_multiplies_by_a_count() {
    assert_eq!(scaled(9, ONE / 2), Some(9 * ONE / 2));
    assert_eq!(scaled(0, u64::MAX), Some(0));
    assert_eq!(scaled(2, u64::MAX), None);
    assert_eq!(scaled(1, u64::MAX), Some(u64::MAX));
}

#[test]
fn fraction_is_the_share_in_the_whole() {
    assert_eq!(fraction(ONE, ONE), Some(ONE / 2));
    assert_eq!(fraction(ONE, 0), Some(ONE));
    assert_eq!(fraction(0, ONE), Some(0));
    assert_eq!(fraction(1, 2), Some(1431655765));
    assert_eq!(fraction(0, 0), None);
    assert_eq!(fraction(u64::MAX, u64::MAX), Some(ONE / 2));
}

#[test]
fn two_fractions_of_a_whole_add_up_to_one_less_a_unit_at_most() {
    let pairs = [(1u64, 2u64), (ONE, 3 * ONE), (7, 7), (u64::MAX, 1), (0, 9), (123456789, 987654321)];
    for (a, b) in pairs {
        let together = fraction(a, b).unwrap() + fraction(b, a).unwrap();
        assert!(together == ONE || together == ONE - 1);
    }
    assert_eq!(fraction(1, 2).unwrap() + fraction(2, 1).unwrap(), ONE - 1);
    assert_eq!(fraction(ONE, 3 * ONE).unwrap() + fraction(3 * ONE, ONE).unwrap(), ONE);
}
