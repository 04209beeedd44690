//! Fixed-point numbers: a `u64` that counts units of `2^-32`.
//!
//! Positions, densities, probabilities and estimates are all carried in this
//! form, so that every result is an exact function of its inputs. An
//! operation whose result is not a number of this form (a quotient by zero, a
//! value of `2^32` or more) yields `None`.
//!
//! What an estimator adds up is carried finer, as a `u128` that counts units
//! of `2^-64`, and rounded once, when the mean is taken.

use vstd::prelude::*;

verus! {

/// The number one: `2^32` units.
pub const ONE: u64 = 0x1_0000_0000;

/// The product of two numbers, rounded down, or `None` where it does not fit.
pub open spec fn spec_product(a: u64, b: u64) -> Option<u64> {
    let p = (a * b) / (ONE as int);
    if p <= u64::MAX {
        Some(p as u64)
    } else {
        None
    }
}

/// The quotient of two numbers, rounded down, or `None` where the divisor is
/// zero or the quotient does not fit.
pub open spec fn spec_quotient(a: u64, b: u64) -> Option<u64> {
    if b == 0 {
        None
    } else {
        let q = (a * ONE) / (b as int);
        if q <= u64::MAX {
            Some(q as u64)
        } else {
            None
        }
    }
}

/// A number taken `n` times, or `None` where the result does not fit.
pub open spec fn spec_scaled(n: usize, a: u64) -> Option<u64> {
    if n * a <= u64::MAX {
        Some((n * a) as u64)
    } else {
        None
    }
}

/// The share that `part` has in `part` and `rest` together, rounded down, or
/// `None` where both are zero. It is at most one.
pub open spec fn spec_fraction(part: u64, rest: u64) -> Option<u64> {
    if part + rest == 0 {
        None
    } else {
        Some(((part * ONE) / (part + rest)) as u64)
    }
}

/// The number one in fine units: `2^64` units of `2^-64`.
pub const FINE_ONE: u128 = 0x1_0000_0000_0000_0000;

/// The largest number whose square can be weighed against another: squares
/// are taken of numbers below `2^16`.
pub const SQUARE_LIMIT: u64 = 0x1_0000_0000_0000;

/// The quotient of two numbers in fine units, rounded down, or `None` where
/// the divisor is zero.
pub open spec fn spec_fine_quotient(a: u64, b: u64) -> Option<u128> {
    if b == 0 {
        None
    } else {
        Some(((a * FINE_ONE) / (b as int)) as u128)
    }
}

/// The sum of two numbers in fine units, or `None` where it does not fit.
pub open spec fn spec_fine_sum(a: u128, b: u128) -> Option<u128> {
    if a + b <= u128::MAX {
        Some((a + b) as u128)
    } else {
        None
    }
}

/// The mean of a total in fine units over `n`, rounded down to a number, or
/// `None` where `n` is zero or the mean does not fit.
pub open spec fn spec_fine_mean(total: u128, n: usize) -> Option<u64> {
    if n == 0 {
        None
    } else {
        let m = (total as int) / (n * ONE);
        if m <= u64::MAX {
            Some(m as u64)
        } else {
            None
        }
    }
}

/// The share that the square of `part` has in the squares of `part` and
/// `rest` together, rounded down. The squares are exact. It is `None` where
/// both numbers are zero, or one of them is `2^16` or more.
pub open spec fn spec_square_fraction(part: u64, rest: u64) -> Option<u64> {
    if part >= SQUARE_LIMIT || rest >= SQUARE_LIMIT || part + rest == 0 {
        None
    } else {
        Some(((part * part * ONE) / (part * part + rest * rest)) as u64)
    }
}

/// Multiplies two numbers.
pub fn product(a: u64, b: u64) -> (r: Option<u64>)
    ensures
        r == spec_product(a, b),
{
    assert(a * b <= u64::MAX * u64::MAX) by (nonlinear_arith)
        requires
            a <= u64::MAX,
            b <= u64::MAX,
    ;
    let wide: u128 = (a as u128) * (b as u128);
    let p: u128 = wide / (ONE as u128);
    if p <= u64::MAX as u128 {
        Some(p as u64)
    } else {
        None
    }
}

/// Divides `a` by `b`. Of two whole numbers of units it gives their ratio
/// as a fixed-point number: `quotient(45, 100)` is `0.45`.
pub fn quotient(a: u64, b: u64) -> (r: Option<u64>)
    ensures
        r == spec_quotient(a, b),
{
    if b == 0 {
        return None;
    }
    assert(a * ONE <= u64::MAX * 0x1_0000_0000) by (nonlinear_arith)
        requires
            a <= u64::MAX,
            ONE == 0x1_0000_0000,
    ;
    let wide: u128 = (a as u128) * (ONE as u128);
    let q: u128 = wide / (b as u128);
    if q <= u64::MAX as u128 {
        Some(q as u64)
    } else {
        None
    }
}

/// Multiplies a number by a count.
pub fn scaled(n: usize, a: u64) -> (r: Option<u64>)
    ensures
        r == spec_scaled(n, a),
{
    assert(n * a <= u64::MAX * u64::MAX) by (nonlinear_arith)
        requires
            n <= u64::MAX,
            a <= u64::MAX,
    ;
    let wide: u128 = (n as u128) * (a as u128);
    if wide <= u64::MAX as u128 {
        Some(wide as u64)
    } else {
        None
    }
}

/// The share of `part` in `part` and `rest` together.
pub fn fraction(part: u64, rest: u64) -> (r: Option<u64>)
    ensures
        r == spec_fraction(part, rest),
{
    let whole: u128 = (part as u128) + (rest as u128);
    if whole == 0 {
        return None;
    }
    assert(part * ONE <= u64::MAX * 0x1_0000_0000) by (nonlinear_arith)
        requires
            part <= u64::MAX,
            ONE == 0x1_0000_0000,
    ;
    let wide: u128 = (part as u128) * (ONE as u128);
    let q: u128 = wide / whole;
    assert(q <= ONE) by (nonlinear_arith)
        requires
            q == (part * ONE) / (whole as int),
            0 < whole,
            part <= whole,
            0 <= part,
            ONE == 0x1_0000_0000,
    ;
    Some(q as u64)
}

/// Divides `a` by `b`, in fine units.
pub fn fine_quotient(a: u64, b: u64) -> (r: Option<u128>)
    ensures
        r == spec_fine_quotient(a, b),
{
    if b == 0 {
        return None;
    }
    assert(a * FINE_ONE <= 0xffff_ffff_ffff_ffff * 0x1_0000_0000_0000_0000) by (nonlinear_arith)
        requires
            a <= 0xffff_ffff_ffff_ffff,
            FINE_ONE == 0x1_0000_0000_0000_0000,
    ;
    let wide: u128 = (a as u128) * FINE_ONE;
    Some(wide / (b as u128))
}

/// Adds two numbers in fine units.
pub fn fine_sum(a: u128, b: u128) -> (r: Option<u128>)
    ensures
        r == spec_fine_sum(a, b),
{
    a.checked_add(b)
}

/// The mean of a total in fine units over `n`.
pub fn fine_mean(total: u128, n: usize) -> (r: Option<u64>)
    ensures
        r == spec_fine_mean(total, n),
{
    if n == 0 {
        return None;
    }
    assert(n * ONE <= 0xffff_ffff_ffff_ffff * 0x1_0000_0000) by (nonlinear_arith)
        requires
            n <= 0xffff_ffff_ffff_ffff,
            ONE == 0x1_0000_0000,
    ;
    assert(n * ONE > 0) by (nonlinear_arith)
        requires
            n > 0,
            ONE == 0x1_0000_0000,
    ;
    let parts: u128 = (n as u128) * (ONE as u128);
    let m: u128 = total / parts;
    if m <= u64::MAX as u128 {
        Some(m as u64)
    } else {
        None
    }
}

/// The share of the square of `part` in the squares of `part` and `rest`.
pub fn square_fraction(part: u64, rest: u64) -> (r: Option<u64>)
    ensures
        r == spec_square_fraction(part, rest),
{
    if part >= SQUARE_LIMIT || rest >= SQUARE_LIMIT || (part == 0 && rest == 0) {
        return None;
    }
    assert(part * part < 0x1_0000_0000_0000 * 0x1_0000_0000_0000 && rest * rest
        < 0x1_0000_0000_0000 * 0x1_0000_0000_0000) by (nonlinear_arith)
        requires
            0 <= part < 0x1_0000_0000_0000,
            0 <= rest < 0x1_0000_0000_0000,
    ;
    let own: u128 = (part as u128) * (part as u128);
    let other: u128 = (rest as u128) * (rest as u128);
    assert(own + other > 0) by (nonlinear_arith)
        requires
            own == part * part,
            other == rest * rest,
            part + rest > 0,
            0 <= part,
            0 <= rest,
    ;
    assert(own * ONE < 0x1_0000_0000_0000_0000_0000_0000 * 0x1_0000_0000) by (nonlinear_arith)
        requires
            own < 0x1_0000_0000_0000_0000_0000_0000,
            ONE == 0x1_0000_0000,
    ;
    let q: u128 = (own * (ONE as u128)) / (own + other);
    assert(q <= ONE) by (nonlinear_arith)
        requires
            q == (own * ONE) / ((own + other) as int),
            0 < own + other,
            0 <= own,
            0 <= other,
            ONE == 0x1_0000_0000,
    ;
    Some(q as u64)
}

/// A fine quotient times its divisor gives the dividend back, less what the
/// rounding took: less than one divisor.
pub proof fn lemma_fine_quotient_times_divisor(a: u64, b: u64)
    ensures
        spec_fine_quotient(a, b) matches Some(q) ==> q * b <= a * FINE_ONE < (q + 1) * b,
{
    if b > 0 {
        let q = (a * FINE_ONE) / (b as int);
        assert(q * b <= a * FINE_ONE < (q + 1) * b) by (nonlinear_arith)
            requires
                q == (a * FINE_ONE) / (b as int),
                b > 0,
        ;
        assert(0 <= q <= a * FINE_ONE) by (nonlinear_arith)
            requires
                q == (a * FINE_ONE) / (b as int),
                b > 0,
                a >= 0,
                FINE_ONE == 0x1_0000_0000_0000_0000,
        ;
        assert(a * FINE_ONE <= 0xffff_ffff_ffff_ffff * 0x1_0000_0000_0000_0000)
            by (nonlinear_arith)
            requires
                a <= 0xffff_ffff_ffff_ffff,
                FINE_ONE == 0x1_0000_0000_0000_0000,
        ;
    }
}

/// A mean times the count gives the total back, less what the rounding took:
/// less than the count, in units of numbers.
pub proof fn lemma_fine_mean_times_count(total: u128, n: usize)
    ensures
        spec_fine_mean(total, n) matches Some(m) ==> m * (n * ONE) <= total < (m + 1) * (n * ONE),
{
    if n > 0 {
        let parts = n * ONE;
        let m = (total as int) / parts;
        assert(m * parts <= total < (m + 1) * parts) by (nonlinear_arith)
            requires
                m == (total as int) / parts,
                parts > 0,
        ;
    }
}

/// The share of a square is at most one, and it is the more extreme share:
/// of the larger of two numbers it is at least the share of the number
/// itself, of the smaller at most.
pub proof fn lemma_square_fraction_is_more_extreme(part: u64, rest: u64)
    ensures
        spec_square_fraction(part, rest) matches Some(squared) ==> {
            &&& squared <= ONE
            &&& spec_fraction(part, rest) matches Some(plain)
            &&& part >= rest ==> squared >= plain
            &&& part <= rest ==> squared <= plain
        },
{
    if let Some(squared) = spec_square_fraction(part, rest) {
        lemma_fraction_at_most_one(part, rest);
        let plain = spec_fraction(part, rest)->0;
        let own = part * part;
        let other = rest * rest;
        assert(own + other > 0 && own >= 0 && other >= 0) by (nonlinear_arith)
            requires
                own == part * part,
                other == rest * rest,
                part + rest > 0,
                0 <= part,
                0 <= rest,
        ;
        let q = (own * ONE) / (own + other);
        assert(0 <= q <= ONE) by (nonlinear_arith)
            requires
                q == (own * ONE) / (own + other),
                0 < own + other,
                0 <= own,
                0 <= other,
                ONE == 0x1_0000_0000,
        ;
        assert(squared == q);
        // own / (own + other) against part / (part + rest), cross-multiplied
        let cross_squared = (own * ONE) * (part + rest);
        let cross_plain = (part * ONE) * (own + other);
        assert(part >= rest ==> cross_squared >= cross_plain) by (nonlinear_arith)
            requires
                cross_squared == (part * part * ONE) * (part + rest),
                cross_plain == (part * ONE) * (part * part + rest * rest),
                0 <= part,
                0 <= rest,
                ONE == 0x1_0000_0000,
        ;
        assert(part <= rest ==> cross_squared <= cross_plain) by (nonlinear_arith)
            requires
                cross_squared == (part * part * ONE) * (part + rest),
                cross_plain == (part * ONE) * (part * part + rest * rest),
                0 <= part,
                0 <= rest,
                ONE == 0x1_0000_0000,
        ;
        assert(0 <= part * ONE && 0 <= own * ONE) by (nonlinear_arith)
            requires
                0 <= part,
                0 <= own,
                ONE == 0x1_0000_0000,
        ;
        if part >= rest {
            lemma_quotients_in_order(part * ONE, part + rest, own * ONE, own + other);
        }
        if part <= rest {
            lemma_quotients_in_order(own * ONE, own + other, part * ONE, part + rest);
        }
    }
}

/// Of two ratios the larger has the larger quotient, rounded down.
pub proof fn lemma_quotients_in_order(a: int, b: int, c: int, d: int)
    requires
        0 <= a,
        0 <= c,
        0 < b,
        0 < d,
        a * d <= c * b,
    ensures
        a / b <= c / d,
{
    let p = a / b;
    let q = c / d;
    assert(p <= q) by (nonlinear_arith)
        requires
            p == a / b,
            q == c / d,
            0 <= a,
            0 <= c,
            0 < b,
            0 < d,
            a * d <= c * b,
    {
        assert(p * b <= a < (p + 1) * b);
        assert(q * d <= c < (q + 1) * d);
        if p > q {
            assert(p >= q + 1);
            assert((q + 1) * b <= p * b);
            assert(a >= (q + 1) * b);
            assert(a * d >= (q + 1) * b * d);
            assert(c * b < (q + 1) * d * b);
            assert((q + 1) * b * d == (q + 1) * d * b);
        }
    }
}

/// The shares of the squares of two numbers add up to one, less at most one
/// unit that the rounding takes.
pub proof fn lemma_square_fractions_sum_to_one(a: u64, b: u64)
    ensures
        spec_square_fraction(a, b) is Some <==> spec_square_fraction(b, a) is Some,
        spec_square_fraction(a, b) matches Some(wa) ==> ONE - 1 <= wa + spec_square_fraction(
            b,
            a,
        )->0 <= ONE,
{
    if spec_square_fraction(a, b) is Some {
        let own = a * a;
        let other = b * b;
        assert(own + other > 0 && own >= 0 && other >= 0) by (nonlinear_arith)
            requires
                own == a * a,
                other == b * b,
                a + b > 0,
                0 <= a,
                0 <= b,
        ;
        let whole = own + other;
        let qa = (own * ONE) / whole;
        let qb = (other * ONE) / whole;
        assert(ONE - 1 <= qa + qb <= ONE && 0 <= qa <= ONE && 0 <= qb <= ONE) by (nonlinear_arith)
            requires
                qa == (own * ONE) / whole,
                qb == (other * ONE) / whole,
                whole == own + other,
                0 < whole,
                0 <= own,
                0 <= other,
                ONE == 0x1_0000_0000,
        {
            let ra = (own * ONE) % whole;
            let rb = (other * ONE) % whole;
            assert(own * ONE == whole * qa + ra);
            assert(other * ONE == whole * qb + rb);
            assert(0 <= ra < whole && 0 <= rb < whole);
            assert(own * ONE + other * ONE == whole * ONE);
            assert(whole * (qa + qb) == whole * qa + whole * qb);
            assert(whole * (ONE - qa - qb) == ra + rb);
            assert(0 <= whole * (ONE - qa - qb) < 2 * whole);
        }
        assert(b * b + a * a == whole);
    }
}

/// A quotient times its divisor gives the dividend back, less what the
/// rounding took: less than one divisor.
pub proof fn lemma_quotient_times_divisor(a: u64, b: u64)
    ensures
        spec_quotient(a, b) matches Some(q) ==> q * b <= a * ONE < (q + 1) * b,
{
    if b > 0 {
        let q = (a * ONE) / (b as int);
        assert(q * b <= a * ONE < (q + 1) * b) by (nonlinear_arith)
            requires
                q == (a * ONE) / (b as int),
                b > 0,
        ;
    }
}

/// A product times one is the product of the factors, less what the
/// rounding took: less than one.
pub proof fn lemma_product_times_one(a: u64, b: u64)
    ensures
        spec_product(a, b) matches Some(p) ==> p * ONE <= a * b < (p + 1) * ONE,
{
    let p = (a * b) / (ONE as int);
    assert(p * ONE <= a * b < (p + 1) * ONE) by (nonlinear_arith)
        requires
            p == (a * b) / (ONE as int),
            ONE == 0x1_0000_0000,
    ;
}

/// Nothing has no share: beside a number that is not zero, the share of
/// zero, and of its square, is zero.
pub proof fn lemma_fraction_of_nothing(rest: u64)
    requires
        rest > 0,
    ensures
        spec_fraction(0, rest) == Some(0u64),
        rest < SQUARE_LIMIT ==> spec_square_fraction(0, rest) == Some(0u64),
{
    assert((0 * ONE) / (0 + rest) == 0) by (nonlinear_arith)
        requires
            rest > 0,
    ;
    assert((0 * 0 * ONE) / (0 * 0 + rest * rest) == 0) by (nonlinear_arith)
        requires
            rest > 0,
    ;
}

/// A fraction is at most one.
pub proof fn lemma_fraction_at_most_one(part: u64, rest: u64)
    ensures
        spec_fraction(part, rest) matches Some(f) ==> f <= ONE && f == (part * ONE) / (part
            + rest),
{
    if part + rest > 0 {
        let whole = part + rest;
        let q = (part * ONE) / whole;
        assert(0 <= q <= ONE) by (nonlinear_arith)
            requires
                q == (part * ONE) / whole,
                0 < whole,
                part <= whole,
                0 <= part,
                ONE == 0x1_0000_0000,
        ;
    }
}

/// The fractions of two numbers in their sum add up to one, less at most
/// one unit that the rounding takes.
pub proof fn lemma_fractions_sum_to_one(a: u64, b: u64)
    requires
        a + b > 0,
    ensures
        spec_fraction(a, b) is Some,
        spec_fraction(b, a) is Some,
        ONE - 1 <= spec_fraction(a, b)->0 + spec_fraction(b, a)->0 <= ONE,
{
    lemma_fraction_at_most_one(a, b);
    lemma_fraction_at_most_one(b, a);
    let whole = a + b;
    let qa = (a * ONE) / whole;
    let qb = (b * ONE) / whole;
    assert(ONE - 1 <= qa + qb <= ONE) by (nonlinear_arith)
        requires
            qa == (a * ONE) / whole,
            qb == (b * ONE) / whole,
            whole == a + b,
            0 < whole,
            0 <= a,
            0 <= b,
    {
        let ra = (a * ONE) % whole;
        let rb = (b * ONE) % whole;
        assert(a * ONE == whole * qa + ra);
        assert(b * ONE == whole * qb + rb);
        assert(0 <= ra < whole && 0 <= rb < whole);
        assert(a * ONE + b * ONE == whole * ONE);
        assert(whole * (qa + qb) == whole * qa + whole * qb);
        assert(whole * (ONE - qa - qb) == ra + rb);
        assert(0 <= whole * (ONE - qa - qb) < 2 * whole);
    }
}

} // verus!
