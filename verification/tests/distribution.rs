use montecarlo::fixed::quotient;
use montecarlo::fixed::ONE;
use montecarlo::pdf_lemmas::ROUND_TRIP_DENSITY;
use montecarlo::rng::Rng;
use montecarlo::step_pdf::ConstructionError;
use montecarlo::step_pdf::DiscretePdf;
use montecarlo::step_pdf::InversionError;

fn ratio(n: u64, d: u64) -> u64 {
    quotient(n, d).unwrap()
}

fn to_float(v: u64) -> f64 {
    v as f64 / 4294967296.0
}

/// Densities 0.1, 9.1 and 0.1 on [0, 0.45), [0.45, 0.55) and [0.55, 1).
fn peaked() -> DiscretePdf {
    DiscretePdf::new(
        0,
        vec![ratio(45, 100), ratio(55, 100), ONE],
        vec![ratio(1, 10), ratio(91, 10), ratio(1, 10)],
    )
    .unwrap()
}

/// Half of the mass on the single unit of position at zero.
fn jump() -> DiscretePdf {
    DiscretePdf::new(0, vec![1, ONE], vec![1 << 63, ONE / 2]).unwrap()
}

#[test]
fn pdf() {
    let c = peaked();
    for x in 0..100 {
        let expected = if x < 45 || x >= 55 { ratio(1, 10) } else { ratio(91, 10) };
        assert_eq!(c.pdf(ratio(x, 100)), expected, "at {}", x);
    }
}

#[test]
fn pdf_of_the_peaked_distribution() {
    let c = peaked();
    assert_eq!(c.pdf(ratio(1, 2)), ratio(91, 10));
    assert_eq!(c.pdf(ratio(3, 10)), ratio(1, 10));
    assert_eq!(to_float(c.pdf(ratio(1, 2))), to_float(39084202393));
    assert!((to_float(c.pdf(ratio(1, 2))) - 9.1).abs() < 1e-9);
    assert!((to_float(c.pdf(ratio(3, 10))) - 0.1).abs() < 1e-9);
}

#[test]
fn pdf_is_left_closed_and_right_open() {
    let c = peaked();
    assert_eq!(c.pdf(0), ratio(1, 10));
    assert_eq!(c.pdf(ratio(45, 100) - 1), ratio(1, 10));
    assert_eq!(c.pdf(ratio(45, 100)), ratio(91, 10));
    assert_eq!(c.pdf(ratio(55, 100) - 1), ratio(91, 10));
    assert_eq!(c.pdf(ratio(55, 100)), ratio(1, 10));
    assert_eq!(c.pdf(ONE - 1), ratio(1, 10));
}

#[test]
fn pdf_is_zero_outside_the_domain() {
    let c = peaked();
    assert_eq!(c.pdf(ONE), 0);
    assert_eq!(c.pdf(ONE + 1), 0);
    assert_eq!(c.pdf(u64::MAX), 0);

    let shifted = DiscretePdf::new(ratio(1, 4), vec![ONE], vec![ONE]).unwrap();
    assert_eq!(shifted.pdf(0), 0);
    assert_eq!(shifted.pdf(ratio(1, 4) - 1), 0);
    assert_eq!(shifted.pdf(ratio(1, 4)), ONE);
    assert_eq!(shifted.pdf(ONE - 1), ONE);
    assert_eq!(shifted.pdf(ONE), 0);
}

#[test]
fn cumulative_pdf() {
    let c = peaked();
    let mut before = 0;
    for x in 0..100 {
        let (cdf, pdf) = c.cdf(ratio(x, 100));
        let at = x as f64 / 100.0;
        let expected = if x < 45 {
            0.1 * at
        } else if x < 55 {
            0.045 + 9.1 * (at - 0.45)
        } else {
            0.955 + 0.1 * (at - 0.55)
        };
        assert!((to_float(cdf) - expected).abs() < 1e-7, "at {}", x);
        assert_eq!(pdf, c.pdf(ratio(x, 100)));
        assert!(before <= cdf);
        before = cdf;
    }
}

#[test]
fn cdf_of_the_peaked_distribution() {
    let c = peaked();
    assert_eq!(c.cdf(ratio(45, 100)), (193273528, ratio(91, 10)));
    assert!((to_float(c.cdf(ratio(45, 100)).0) - 0.045).abs() < 1e-9);
    assert_eq!(c.cdf(ONE), (4294967290, 0));
    assert!((to_float(c.cdf(ONE).0) - 1.0).abs() < 1e-6);
    assert_eq!(c.cdf(ratio(1, 2)), (2147483649, ratio(91, 10)));
    assert_eq!(c.cdf(0), (0, ratio(1, 10)));
}

#[test]
fn cdf_at_the_end_of_the_domain_is_one_to_a_millionth() {
    let fixtures = [
        peaked(),
        jump(),
        DiscretePdf::new(0, vec![ONE], vec![ONE]).unwrap(),
        DiscretePdf::new(0, vec![ONE], vec![ONE + 4294]).unwrap(),
        DiscretePdf::new(0, vec![ONE], vec![ONE - 4294]).unwrap(),
        DiscretePdf::new(0, vec![ratio(1, 2)], vec![2 * ONE]).unwrap(),
    ];
    for (i, p) in fixtures.iter().enumerate() {
        let end = if i == 5 { ratio(1, 2) } else { ONE };
        let (cdf, pdf) = p.cdf(end);
        assert!((to_float(cdf) - 1.0).abs() <= 1e-6 + 1.0 / 4294967296.0, "fixture {}", i);
        assert_eq!(pdf, 0);
        assert_eq!(p.cdf(end + 12345), (cdf, 0));
        assert_eq!(p.cdf(u64::MAX), (cdf, 0));
    }
}

#[test]
fn inv_cumulative_pdf() {
    let c = peaked();
    for x in 0..100 {
        let y = ratio(x, 100);
        let (at, pdf) = c.inv_cdf(y).unwrap();
        let (found, density) = c.cdf(at);
        assert!((to_float(found) - to_float(y)).abs() < 1e-4, "at {}", x);
        assert_eq!(pdf, density);
        assert!(at < ONE);
    }
}

#[test]
fn inv_cdf_stops_at_the_first_midpoint_that_is_close_enough() {
    let c = peaked();
    assert_eq!(c.inv_cdf(0), Ok((4194304, ratio(1, 10))));
    assert_eq!(c.inv_cdf(ratio(1, 4)), Ok((2029518848, ratio(91, 10))));
    assert_eq!(c.inv_cdf(ratio(1, 2)), Ok((ratio(1, 2), ratio(91, 10))));
    assert_eq!(c.inv_cdf(ratio(3, 4)), Ok((2265448448, ratio(91, 10))));
    assert_eq!(c.inv_cdf(ONE), Ok((4290772992, ratio(1, 10))));
}

#[test]
fn inv_cdf_of_a_probability_above_one_is_a_domain_error() {
    let c = peaked();
    assert_eq!(c.inv_cdf(ONE + 1), Err(InversionError::DomainError));
    assert_eq!(c.inv_cdf(u64::MAX), Err(InversionError::DomainError));
    assert!(c.inv_cdf(ONE).is_ok());
}

#[test]
fn inv_cdf_inside_a_jump_stops_at_the_jump() {
    let j = jump();
    assert_eq!(j.cdf(0), (0, 1 << 63));
    assert_eq!(j.cdf(1), (ONE / 2, ONE / 2));
    assert_eq!(j.inv_cdf(ratio(1, 4)), Ok((0, 1 << 63)));
    assert_eq!(j.inv_cdf(ratio(3, 4)), Ok((ONE / 2, ONE / 2)));
}

#[test]
fn inv_cdf_converges_on_a_density_of_a_million() {
    // a million on the first unit of position, and the rest of the mass on
    // the rest of the unit interval
    let steep = DiscretePdf::new(0, vec![1, ONE], vec![1000000 * ONE, ratio(999767, 1000000)])
        .unwrap();
    assert_eq!(steep.cdf(0), (0, 1000000 * ONE));
    assert_eq!(steep.cdf(1), (1000000, 4293966568));
    assert_eq!(steep.inv_cdf(500000), Ok((0, 1000000 * ONE)));
    for y in 0..=1000 {
        let (x, density) = steep.inv_cdf(ratio(y, 1000)).unwrap();
        assert!(x < ONE);
        assert_eq!(density, steep.pdf(x));
    }
}

#[test]
fn inv_cdf_beyond_the_mass_of_the_unit_interval_does_not_converge() {
    // half of the mass lies above one, where the bisection does not look
    let wide = DiscretePdf::new(0, vec![2 * ONE], vec![ONE / 2]).unwrap();
    assert_eq!(wide.cdf(ONE), (ONE / 2, ONE / 2));
    assert_eq!(wide.inv_cdf(ratio(9, 10)), Err(InversionError::ConvergenceError));
    assert_eq!(wide.inv_cdf(ratio(1, 4)), Ok((ONE / 2, ONE / 2)));
}

#[test]
fn inv_cdf_gives_a_position_back_to_within_a_thousandth() {
    let steep = DiscretePdf::new(0, vec![ratio(1, 2), ONE], vec![ratio(1, 5), ratio(9, 5)]).unwrap();
    assert!(ratio(1, 5) >= ROUND_TRIP_DENSITY);
    for x in 0..1000 {
        let at = ratio(x, 1000);
        let (back, _) = steep.inv_cdf(steep.cdf(at).0).unwrap();
        let gap = if back > at { back - at } else { at - back };
        assert!(gap * 1000 < ONE, "at {}", x);
    }
}

#[test]
fn inv_cdf_gives_a_position_back_to_within_the_tolerance_over_the_least_density() {
    let c = peaked();
    let least = ratio(1, 10) as u128;
    let one = ONE as u128;
    for x in 0..1000 {
        let at = ratio(x, 1000);
        let (back, _) = c.inv_cdf(c.cdf(at).0).unwrap();
        let gap = if back > at { back - at } else { at - back } as u128;
        assert!(gap * least * 10000 < one * (one + 10000) + 10000 * least, "at {}", x);
        assert!(gap * 1000 <= one, "at {}", x);
    }
    let (back, _) = c.inv_cdf(c.cdf(ratio(1, 10)).0).unwrap();
    assert_eq!(back, 427819008);
    let (back, _) = c.inv_cdf(c.cdf(ratio(47, 100)).0).unwrap();
    assert_eq!(back, 2018639872);
    let (back, _) = c.inv_cdf(c.cdf(ratio(874, 1000)).0).unwrap();
    assert_eq!(back, 3749707776);
}

#[test]
fn inv_cdf_gives_a_position_back_in_a_domain_that_ends_before_one() {
    // twice the density on the first half of the unit interval
    let narrow = DiscretePdf::new(0, vec![ratio(1, 2)], vec![2 * ONE]).unwrap();
    for x in 0..500 {
        let at = ratio(x, 1000);
        let (back, _) = narrow.inv_cdf(narrow.cdf(at).0).unwrap();
        let gap = if back > at { back - at } else { at - back };
        assert!(gap * 1000 <= ONE, "at {}", x);
    }
    // a probability within the tolerance of the total mass is met beyond the
    // domain, where the first midpoint lies
    let at = ratio(49999, 100000);
    assert_eq!(narrow.inv_cdf(narrow.cdf(at).0), Ok((ratio(1, 2), 0)));
}

#[test]
fn sample_pdf() {
    let c = peaked();
    let mut rng = Rng::new().unwrap();
    let mut in_peak = 0;
    for _ in 0..8000 {
        let (x, pdf) = c.sample(&mut rng).unwrap();
        assert!(x < ONE);
        assert_eq!(pdf, c.pdf(x));
        if pdf == ratio(91, 10) {
            in_peak += 1;
        }
    }
    assert!(in_peak > 6800 && in_peak < 7700, "{} draws in the peak", in_peak);
}

#[test]
fn sample_inverts_the_next_draw() {
    let c = peaked();
    let mut rng = Rng::from_seed(1);
    assert_eq!(c.sample(&mut rng), Ok((2052718592, ratio(91, 10))));
    let mut twin = Rng::from_seed(1);
    let u = twin.next();
    assert_eq!(u, 1284865838);
    assert_eq!(rng.next(), twin.next());
    assert_eq!(c.inv_cdf(u), Ok((2052718592, ratio(91, 10))));
}

#[test]
fn sample_lies_in_the_domain() {
    let c = peaked();
    assert_eq!(c.min_x(), 0);
    assert_eq!(c.max_x(), ONE);
    let mut rng = Rng::from_seed(2024);
    for _ in 0..20000 {
        let (x, pdf) = c.sample(&mut rng).unwrap();
        assert!(c.min_x() <= x && x < c.max_x());
        assert_eq!(pdf, c.pdf(x));
        assert!(pdf > 0);
    }
}

#[test]
fn sample_may_leave_a_domain_that_is_not_the_unit_interval() {
    // a domain that ends before one: a target near one stops at the end
    let narrow = DiscretePdf::new(0, vec![ratio(1, 2)], vec![2 * ONE]).unwrap();
    assert_eq!(narrow.max_x(), ratio(1, 2));
    assert_eq!(narrow.inv_cdf(ONE - 1), Ok((ratio(1, 2), 0)));
    // a domain that starts after zero: a low target stops before the start
    let shifted = DiscretePdf::new(ratio(1, 4), vec![ONE], vec![ONE]).unwrap();
    assert_eq!(shifted.min_x(), ratio(1, 4));
    let (x, density) = shifted.inv_cdf(ratio(1, 10)).unwrap();
    assert!(x < shifted.min_x());
    assert_eq!(density, ONE);
    assert_eq!(shifted.pdf(x), 0);
}

#[test]
fn new_with_lists_of_different_length_is_a_length_mismatch() {
    assert_eq!(
        DiscretePdf::new(0, vec![ratio(1, 2), ONE], vec![ONE]).err(),
        Some(ConstructionError::LengthMismatch)
    );
    assert_eq!(
        DiscretePdf::new(0, vec![], vec![ONE]).err(),
        Some(ConstructionError::LengthMismatch)
    );
    assert_eq!(
        DiscretePdf::new(0, vec![ONE], vec![]).err(),
        Some(ConstructionError::LengthMismatch)
    );
}

#[test]
fn new_with_a_mass_of_one_and_a_half_is_not_normalized() {
    assert_eq!(
        DiscretePdf::new(0, vec![ratio(1, 2), ONE], vec![ONE, 2 * ONE]).err(),
        Some(ConstructionError::NotNormalized)
    );
    assert_eq!(
        DiscretePdf::new(0, vec![ratio(1, 2), ONE], vec![ONE / 2, ONE]).err(),
        Some(ConstructionError::NotNormalized)
    );
}

#[test]
fn new_with_equal_densities_on_two_halves_is_the_uniform_distribution() {
    let halves = DiscretePdf::new(0, vec![ratio(1, 2), ONE], vec![ONE, ONE]).unwrap();
    assert_eq!(halves.cdf(ONE), (ONE, 0));
    assert_eq!(halves.cdf(ratio(1, 4)), (ratio(1, 4), ONE));
    assert_eq!(halves.pdf(ratio(3, 4)), ONE);
}

#[test]
fn new_accepts_a_mass_within_a_millionth_of_one_and_no_other() {
    assert!(DiscretePdf::new(0, vec![ONE], vec![ONE + 4294]).is_ok());
    assert_eq!(
        DiscretePdf::new(0, vec![ONE], vec![ONE + 4295]).err(),
        Some(ConstructionError::NotNormalized)
    );
    assert!(DiscretePdf::new(0, vec![ONE], vec![ONE - 4294]).is_ok());
    assert_eq!(
        DiscretePdf::new(0, vec![ONE], vec![ONE - 4295]).err(),
        Some(ConstructionError::NotNormalized)
    );
}

#[test]
fn new_without_intervals_or_with_a_huge_mass_is_not_normalized() {
    assert_eq!(DiscretePdf::new(0, vec![], vec![]).err(), Some(ConstructionError::NotNormalized));
    assert_eq!(
        DiscretePdf::new(0, vec![u64::MAX - 1, u64::MAX], vec![u64::MAX, u64::MAX]).err(),
        Some(ConstructionError::NotNormalized)
    );
}

#[test]
fn a_clone_is_the_same_distribution() {
    let c = peaked();
    let d = c.clone();
    for x in 0..100 {
        assert_eq!(c.cdf(ratio(x, 100)), d.cdf(ratio(x, 100)));
        assert_eq!(c.pdf(ratio(x, 100)), d.pdf(ratio(x, 100)));
    }
}
