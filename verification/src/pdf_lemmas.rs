//! What holds of every well-formed distribution: its total probability, the
//! growth of its cumulative mass, and where inversion ends.

use crate::fixed::ONE;
use crate::rng::lcg_step;
use crate::step_pdf::close_enough;
use crate::step_pdf::InversionError;
use crate::step_pdf::PdfView;
use crate::step_pdf::FINE_UNIT_MASS;
use crate::step_pdf::MAX_BISECTIONS;
use crate::step_pdf::UNIT_MASS;
use vstd::arithmetic::power2::lemma2_to64;
use vstd::arithmetic::power2::lemma_pow2_unfold;
use vstd::arithmetic::power2::pow2;
use vstd::prelude::*;

verus! {

/// The least density for which inverting a cumulative probability gives
/// back its position to within a thousandth: a tenth and three ten-millionths.
pub const ROUND_TRIP_DENSITY: u64 = 429498000;

/// The density of a tenth, rounded up to the unit.
pub const TENTH: u64 = 429496730;

/// Whether every interval has at least the density `floor`.
pub open spec fn density_at_least(p: PdfView, floor: int) -> bool {
    forall|i: int| 0 <= i < p.len() ==> p.density(i) >= floor
}

/// Whether no interval has more than the density `ceiling`.
pub open spec fn density_at_most(p: PdfView, ceiling: int) -> bool {
    forall|i: int| 0 <= i < p.len() ==> p.density(i) <= ceiling
}

/// The distance of two numbers.
pub open spec fn distance(a: int, b: int) -> int {
    if a >= b {
        a - b
    } else {
        b - a
    }
}

/// The mass of the first intervals grows with their number.
pub proof fn lemma_mass_upto_monotone(p: PdfView, i: int, j: int)
    requires
        p.ascending(),
        0 <= i <= j <= p.len(),
    ensures
        0 <= p.mass_upto(i) <= p.mass_upto(j),
    decreases j,
{
    if j > 0 {
        if j > 1 {
            assert(p.upper(j - 2) < p.upper(j - 1));
        }
        assert(0 <= (p.upper(j - 1) - p.lower(j - 1)) * p.density(j - 1)) by (nonlinear_arith)
            requires
                0 <= p.upper(j - 1) - p.lower(j - 1),
                0 <= p.density(j - 1),
        ;
        if i < j {
            lemma_mass_upto_monotone(p, i, j - 1);
        } else {
            lemma_mass_upto_monotone(p, i - 1, j - 1);
        }
    }
}

/// What `first_exceeding` finds: no interval before it, from `from` on,
/// has an upper bound above `x`, and its own upper bound is above `x`.
pub proof fn lemma_first_exceeding(p: PdfView, x: int, from: int)
    requires
        0 <= from <= p.len(),
    ensures
        from <= p.first_exceeding(x, from) <= p.len(),
        forall|i: int| from <= i < p.first_exceeding(x, from) ==> p.upper(i) <= x,
        p.first_exceeding(x, from) < p.len() ==> x < p.upper(p.first_exceeding(x, from)),
    decreases p.len() - from,
{
    if from < p.len() && x >= p.upper(from) {
        lemma_first_exceeding(p, x, from + 1);
    }
}

/// The interval that `x` falls in contains `x`.
pub proof fn lemma_segment(p: PdfView, x: int)
    requires
        p.ascending(),
        0 <= x,
    ensures
        0 <= p.segment(x) <= p.len(),
        p.segment(x) < p.len() ==> p.lower(p.segment(x)) <= x < p.upper(p.segment(x)),
        p.segment(x) == p.len() <==> x >= p.max_x(),
{
    lemma_first_exceeding(p, x, 0);
    let k = p.segment(x);
    if k < p.len() {
        if k < p.len() - 1 {
            assert(p.upper(k) < p.upper(p.len() - 1));
        }
        if k > 0 {
            assert(p.upper(k - 1) <= x);
        }
    } else if p.len() > 0 {
        assert(p.upper(p.len() - 1) <= x);
    }
}

/// The intervals do not overlap: an interval that contains `x` is the
/// interval that `x` falls in.
pub proof fn lemma_segment_unique(p: PdfView, x: int, i: int)
    requires
        p.ascending(),
        0 <= i < p.len(),
        p.lower(i) <= x < p.upper(i),
    ensures
        p.segment(x) == i,
{
    lemma_first_exceeding(p, x, 0);
    let k = p.segment(x);
    if k < i {
        // the interval of `x` ends above `x`, and at or before the start of
        // interval `i`
        if k < i - 1 {
            assert(p.upper(k) < p.upper(i - 1));
        }
    } else if k > i {
        assert(p.upper(i) <= x);
    }
}

/// A distribution whose mass is normalized has at least one interval.
pub proof fn lemma_normalized_nonempty(p: PdfView)
    requires
        p.normalized(),
    ensures
        p.len() > 0,
{
}

/// At the upper end of the domain and beyond it, the mass below is the total
/// mass, which is one to within a millionth. The cumulative probability, its
/// fixed-point value rounded down, is one to within a millionth and one unit.
pub proof fn lemma_total_probability(p: PdfView, x: int)
    requires
        p.wf(),
        x >= p.max_x(),
    ensures
        p.mass_below(x) == p.total_mass(),
        (p.mass_below(x) - UNIT_MASS) * 1000000 <= UNIT_MASS,
        (UNIT_MASS - p.mass_below(x)) * 1000000 <= UNIT_MASS,
        (p.cumulative(x) - ONE) * 1000000 <= ONE,
        (ONE - p.cumulative(x)) * 1000000 < ONE + 1000000,
{
    lemma_segment(p, x);
}

/// Between two ends of intervals the mass grows as the distance times a
/// density between the least and the largest.
pub proof fn lemma_mass_upto_growth(p: PdfView, i: int, j: int, floor: int, ceiling: int)
    requires
        p.ascending(),
        0 <= i <= j <= p.len(),
        0 <= floor,
        density_at_least(p, floor),
        density_at_most(p, ceiling),
    ensures
        p.lower(i) <= p.lower(j),
        floor * (p.lower(j) - p.lower(i)) <= p.mass_upto(j) - p.mass_upto(i),
        p.mass_upto(j) - p.mass_upto(i) <= ceiling * (p.lower(j) - p.lower(i)),
    decreases j - i,
{
    if i < j {
        lemma_mass_upto_growth(p, i, j - 1, floor, ceiling);
        let width = p.upper(j - 1) - p.lower(j - 1);
        let density = p.density(j - 1);
        let before = p.lower(j - 1) - p.lower(i);
        if j > 1 {
            assert(p.upper(j - 2) < p.upper(j - 1));
        }
        assert(floor * width <= width * density <= ceiling * width) by (nonlinear_arith)
            requires
                0 <= width,
                0 <= floor <= density <= ceiling,
        ;
        assert(floor * before + floor * width == floor * (before + width)) by (nonlinear_arith);
        assert(ceiling * before + ceiling * width == ceiling * (before + width))
            by (nonlinear_arith);
    } else {
        assert(floor * (p.lower(j) - p.lower(i)) == 0) by (nonlinear_arith)
            requires
                p.lower(j) - p.lower(i) == 0,
        ;
        assert(ceiling * (p.lower(j) - p.lower(i)) == 0) by (nonlinear_arith)
            requires
                p.lower(j) - p.lower(i) == 0,
        ;
    }
}

/// The mass below a position, split at the lower bound of its interval. At
/// the upper end of the domain the interval is the empty one that follows
/// the last.
pub proof fn lemma_mass_below_split(p: PdfView, x: int)
    requires
        p.ascending(),
        0 <= x <= p.max_x(),
    ensures
        0 <= p.segment(x) <= p.len(),
        p.lower(p.segment(x)) <= x,
        p.segment(x) < p.len() ==> x < p.upper(p.segment(x)),
        p.segment(x) == p.len() ==> x == p.lower(p.segment(x)),
        p.segment(x) < p.len() ==> p.mass_below(x) == p.mass_upto(p.segment(x)) + (x - p.lower(
            p.segment(x),
        )) * p.density(p.segment(x)),
        p.segment(x) == p.len() ==> p.mass_below(x) == p.mass_upto(p.segment(x)),
{
    lemma_segment(p, x);
}

/// Between two positions of the domain the mass below grows as the distance
/// times a density between the least and the largest.
pub proof fn lemma_mass_below_growth(p: PdfView, x1: int, x2: int, floor: int, ceiling: int)
    requires
        p.ascending(),
        0 <= x1 <= x2 <= p.max_x(),
        0 <= floor,
        density_at_least(p, floor),
        density_at_most(p, ceiling),
    ensures
        floor * (x2 - x1) <= p.mass_below(x2) - p.mass_below(x1),
        p.mass_below(x2) - p.mass_below(x1) <= ceiling * (x2 - x1),
{
    lemma_mass_below_split(p, x1);
    lemma_mass_below_split(p, x2);
    let k1 = p.segment(x1);
    let k2 = p.segment(x2);
    lemma_first_exceeding(p, x1, 0);
    lemma_first_exceeding(p, x2, 0);
    if k1 > k2 {
        // The interval of `x2` ends above `x2`, so above `x1`, and comes
        // before the interval of `x1`.
        assert(p.upper(k2) <= x1);
        assert(false);
    }
    if k1 == k2 {
        if k1 < p.len() {
            let d = p.density(k1);
            let l = p.lower(k1);
            assert(floor * (x2 - x1) <= (x2 - l) * d - (x1 - l) * d <= ceiling * (x2 - x1))
                by (nonlinear_arith)
                requires
                    x1 <= x2,
                    0 <= floor <= d <= ceiling,
            ;
        } else {
            assert(floor * (x2 - x1) == 0 && ceiling * (x2 - x1) == 0) by (nonlinear_arith)
                requires
                    x2 - x1 == 0,
            ;
        }
    } else {
        // k1 < k2: the rest of the interval of `x1`, whole intervals, and
        // the part of the interval of `x2` below `x2`.
        let d1 = p.density(k1);
        let u1 = p.upper(k1);
        let l1 = p.lower(k1);
        lemma_mass_upto_growth(p, k1 + 1, k2, floor, ceiling);
        assert(p.lower(k1 + 1) == u1);
        assert(p.mass_upto(k1 + 1) == p.mass_upto(k1) + (u1 - l1) * d1);
        let head = (u1 - l1) * d1 - (x1 - l1) * d1;
        assert(floor * (u1 - x1) <= head <= ceiling * (u1 - x1)) by (nonlinear_arith)
            requires
                head == (u1 - l1) * d1 - (x1 - l1) * d1,
                x1 <= u1,
                0 <= floor <= d1 <= ceiling,
        ;
        let l2 = p.lower(k2);
        let tail = p.mass_below(x2) - p.mass_upto(k2);
        assert(floor * (x2 - l2) <= tail <= ceiling * (x2 - l2)) by {
            if k2 < p.len() {
                let d2 = p.density(k2);
                assert(floor * (x2 - l2) <= (x2 - l2) * d2 <= ceiling * (x2 - l2))
                    by (nonlinear_arith)
                    requires
                        l2 <= x2,
                        0 <= floor <= d2 <= ceiling,
                ;
            } else {
                assert(floor * (x2 - l2) == 0 && ceiling * (x2 - l2) == 0) by (nonlinear_arith)
                    requires
                        x2 - l2 == 0,
                ;
            }
        }
        assert(floor * (u1 - x1) + floor * (l2 - u1) + floor * (x2 - l2) == floor * (x2 - x1))
            by (nonlinear_arith);
        assert(ceiling * (u1 - x1) + ceiling * (l2 - u1) + ceiling * (x2 - l2) == ceiling * (x2
            - x1)) by (nonlinear_arith);
    }
}

/// The cumulative distribution is the sum of the density: it starts at zero,
/// and over one unit of position the mass below grows by the density of the
/// interval that the position falls in.
pub proof fn lemma_mass_below_sums_density(p: PdfView, x: int)
    requires
        p.ascending(),
        0 <= x,
    ensures
        p.mass_below(0) == 0,
        p.mass_below(x + 1) - p.mass_below(x) == p.local_density(x),
{
    assert(p.mass_below(0) == 0) by {
        lemma_segment(p, 0);
        let k = p.segment(0);
        assert(density_at_least(p, 0));
        assert(density_at_most(p, u64::MAX as int));
        lemma_mass_upto_growth(p, 0, k, 0, u64::MAX as int);
        if k < p.len() {
            assert((0 - p.lower(k)) * p.density(k) == 0) by (nonlinear_arith)
                requires
                    0 - p.lower(k) == 0,
            ;
        }
    }
    lemma_segment(p, x);
    lemma_segment(p, x + 1);
    let k = p.segment(x);
    if k < p.len() {
        let d = p.density(k);
        let l = p.lower(k);
        assert((x + 1 - l) * d == (x - l) * d + d) by (nonlinear_arith);
        if x + 1 < p.upper(k) {
            lemma_segment_unique(p, x + 1, k);
        } else {
            // `x + 1` is the upper bound of the interval: the mass below it
            // is that of the intervals up to this one
            let next = p.segment(x + 1);
            lemma_first_exceeding(p, x + 1, 0);
            if next <= k {
                assert(false);
            }
            assert(density_at_least(p, 0));
            assert(density_at_most(p, u64::MAX as int));
            lemma_mass_upto_growth(p, k + 1, next, 0, u64::MAX as int);
            // every interval between the two ends at `x + 1`: it is empty
            assert(p.lower(next) <= x + 1);
            assert(p.lower(k + 1) == x + 1);
            if next < p.len() {
                assert((x + 1 - p.lower(next)) * p.density(next) == 0) by (nonlinear_arith)
                    requires
                        x + 1 - p.lower(next) == 0,
                ;
            }
        }
    }
}

/// The mass below any position lies between zero and the total mass.
pub proof fn lemma_mass_bounds(p: PdfView, x: int)
    requires
        p.ascending(),
        0 <= x,
    ensures
        0 <= p.mass_below(x) <= p.total_mass(),
{
    lemma_segment(p, x);
    let k = p.segment(x);
    lemma_mass_upto_monotone(p, k, p.len());
    if k < p.len() {
        lemma_mass_upto_monotone(p, k + 1, p.len());
        let d = p.density(k);
        let l = p.lower(k);
        let u = p.upper(k);
        assert(0 <= (x - l) * d <= (u - l) * d) by (nonlinear_arith)
            requires
                l <= x < u,
                0 <= d,
        ;
    }
}

/// The cumulative distribution starts at zero and never decreases.
pub proof fn lemma_cumulative_monotone(p: PdfView, x1: int, x2: int)
    requires
        p.wf(),
        0 <= x1 <= x2,
    ensures
        p.mass_below(0) == 0,
        p.mass_below(x1) <= p.mass_below(x2),
        p.cumulative(x1) <= p.cumulative(x2),
{
    lemma_mass_bounds(p, x1);
    lemma_mass_bounds(p, x2);
    assert(density_at_least(p, 0));
    assert(density_at_most(p, u64::MAX as int));
    if x2 <= p.max_x() {
        lemma_mass_below_growth(p, x1, x2, 0, u64::MAX as int);
    } else {
        lemma_segment(p, x2);
        if x1 <= p.max_x() {
            lemma_mass_below_growth(p, x1, p.max_x(), 0, u64::MAX as int);
            lemma_segment(p, p.max_x());
        } else {
            lemma_segment(p, x1);
        }
    }
    lemma_mass_below_sums_density(p, 0);
}

/// Over one fine position the mass below grows by the density of the
/// interval that the position falls in.
pub proof fn lemma_fine_mass_step(p: PdfView, at: int)
    requires
        p.ascending(),
        0 <= at,
    ensures
        p.fine_mass(0) == 0,
        p.fine_mass(at + 1) - p.fine_mass(at) == p.local_density(at / (ONE as int)),
{
    let x = at / (ONE as int);
    let rest = at % (ONE as int);
    lemma_mass_below_sums_density(p, x);
    lemma_mass_below_sums_density(p, 0);
    let d = p.local_density(x) as int;
    assert(p.fine_mass(at) == p.mass_below(x) * ONE + rest * d);
    assert(p.fine_mass(0) == 0) by {
        assert(0int / (ONE as int) == 0 && 0int % (ONE as int) == 0);
        assert(p.mass_below(0) * ONE + 0 * p.local_density(0) == 0) by (nonlinear_arith)
            requires
                p.mass_below(0) == 0,
        ;
    }
    if rest + 1 < ONE {
        assert((at + 1) / (ONE as int) == x && (at + 1) % (ONE as int) == rest + 1);
        assert(p.fine_mass(at + 1) == p.mass_below(x) * ONE + (rest + 1) * d);
        assert((rest + 1) * d == rest * d + d) by (nonlinear_arith);
    } else {
        assert((at + 1) / (ONE as int) == x + 1 && (at + 1) % (ONE as int) == 0);
        let next = p.local_density(x + 1) as int;
        assert(p.fine_mass(at + 1) == p.mass_below(x + 1) * ONE + 0 * next);
        assert(0 * next == 0) by (nonlinear_arith);
        assert((p.mass_below(x) + d) * ONE == p.mass_below(x) * ONE + d * ONE)
            by (nonlinear_arith);
        assert(d * ONE == rest * d + d) by (nonlinear_arith)
            requires
                rest + 1 == ONE,
        ;
    }
}

/// Between two fine positions of the domain the mass below grows as the
/// distance times a density between the least and the largest.
pub proof fn lemma_fine_mass_growth(p: PdfView, from: int, to: int, floor: int, ceiling: int)
    requires
        p.ascending(),
        0 <= from <= to <= p.max_x() * ONE,
        0 <= floor,
        density_at_least(p, floor),
        density_at_most(p, ceiling),
    ensures
        floor * (to - from) <= p.fine_mass(to) - p.fine_mass(from) <= ceiling * (to - from),
    decreases to - from,
{
    if from < to {
        lemma_fine_mass_growth(p, from, to - 1, floor, ceiling);
        lemma_fine_mass_step(p, to - 1);
        let x = (to - 1) / (ONE as int);
        assert(x < p.max_x());
        lemma_segment(p, x);
        assert(floor <= p.local_density(x) <= ceiling);
        assert(floor * (to - from) == floor * (to - 1 - from) + floor) by (nonlinear_arith);
        assert(ceiling * (to - from) == ceiling * (to - 1 - from) + ceiling) by (nonlinear_arith);
    } else {
        assert(floor * (to - from) == 0 && ceiling * (to - from) == 0) by (nonlinear_arith)
            requires
                to - from == 0,
        ;
    }
}

/// The mass below a fine position never shrinks as the position grows.
pub proof fn lemma_fine_mass_monotone(p: PdfView, from: int, to: int)
    requires
        p.ascending(),
        0 <= from <= to,
    ensures
        0 <= p.fine_mass(from) <= p.fine_mass(to),
    decreases to,
{
    lemma_fine_mass_step(p, from);
    if from < to {
        lemma_fine_mass_monotone(p, from, to - 1);
        lemma_fine_mass_step(p, to - 1);
    } else if from > 0 {
        lemma_fine_mass_monotone(p, from - 1, from - 1);
        lemma_fine_mass_step(p, from - 1);
    }
}

/// A bisection that ends has stopped inside its bracket and below one, at a
/// fine position below which the mass is close enough to the target.
pub proof fn lemma_bisect_result(p: PdfView, y: u64, lo: int, hi: int, budget: nat)
    requires
        0 <= lo <= hi <= UNIT_MASS,
        lo < UNIT_MASS,
    ensures
        p.bisect(y, lo, hi, budget) matches Some(at) ==> {
            &&& lo <= at <= hi
            &&& at < UNIT_MASS
            &&& close_enough(y, p.fine_mass(at))
        },
    decreases budget,
{
    if budget > 0 {
        let at = (lo + hi) / 2;
        lemma_bisect_result(p, y, lo, at, (budget - 1) as nat);
        lemma_bisect_result(p, y, at, hi, (budget - 1) as nat);
    }
}

/// An inversion that succeeds gives a position below one and the density of
/// its interval: the bisection ended at a fine position within that unit of
/// position, below which the mass is close enough to the target.
pub proof fn lemma_inverse_result(p: PdfView, y: u64)
    ensures
        p.inverse(y) matches Ok((x, density)) ==> {
            &&& y <= ONE
            &&& x < ONE
            &&& density == p.local_density(x as int)
            &&& p.fine_inverse(y) matches Some(at)
            &&& x == at / (ONE as int)
            &&& close_enough(y, p.fine_mass(at))
        },
        p.inverse(y) == Err::<(u64, u64), _>(InversionError::DomainError) <==> y > ONE,
{
    lemma_bisect_result(p, y, 0, UNIT_MASS as int, MAX_BISECTIONS as nat);
}

/// A draw lies in the domain: where the domain starts at zero and reaches
/// one, whatever the generator's state, the position that comes back is at
/// least `min_x` and below `max_x`, and its density is the density there.
pub proof fn lemma_sample_in_domain(p: PdfView, state: u64)
    requires
        p.wf(),
        p.min_x == 0,
        p.max_x() >= ONE,
    ensures
        p.inverse(lcg_step(state)) matches Ok((x, density)) ==> {
            &&& p.min_x <= x < p.max_x()
            &&& density == p.density_at(x as int)
        },
{
    lemma_inverse_result(p, lcg_step(state));
}

/// Two neighbouring fine positions that bracket the target: the mass below
/// the lower one is close enough. It holds where the domain ends at one or
/// before it, whatever the densities.
proof fn lemma_neighbours_close(p: PdfView, y: u64, lo: int)
    requires
        p.wf(),
        p.max_x() <= ONE,
        y <= ONE,
        0 <= lo < UNIT_MASS,
        p.fine_mass(lo) <= y * UNIT_MASS,
        lo + 1 == UNIT_MASS || y * UNIT_MASS < p.fine_mass(lo + 1),
    ensures
        close_enough(y, p.fine_mass(lo)),
{
    lemma_fine_mass_step(p, lo);
    if lo + 1 == UNIT_MASS {
        lemma_total_probability(p, ONE as int);
        assert((lo + 1) / (ONE as int) == ONE && (lo + 1) % (ONE as int) == 0);
        assert(p.fine_mass(lo + 1) == p.total_mass() * ONE);
        assert(y * UNIT_MASS <= ONE * UNIT_MASS) by (nonlinear_arith)
            requires
                y <= ONE,
        ;
    }
}

/// A bisection whose bracket holds the target ends, given one midpoint more
/// than it takes to halve the bracket down to neighbours.
proof fn lemma_bisect_converges(p: PdfView, y: u64, lo: int, hi: int, budget: nat, halvings: nat)
    requires
        p.wf(),
        p.max_x() <= ONE,
        y <= ONE,
        0 <= lo < hi <= UNIT_MASS,
        p.fine_mass(lo) <= y * UNIT_MASS,
        hi == UNIT_MASS || y * UNIT_MASS < p.fine_mass(hi),
        hi - lo <= pow2(halvings),
        budget > halvings,
    ensures
        p.bisect(y, lo, hi, budget) is Some,
    decreases halvings,
{
    let at = (lo + hi) / 2;
    let found = p.fine_mass(at);
    if !close_enough(y, found) {
        if hi - lo == 1 {
            lemma_neighbours_close(p, y, lo);
        } else {
            if halvings == 0 {
                lemma2_to64();
            } else {
                lemma_pow2_unfold(halvings);
            }
            if y * UNIT_MASS < found {
                lemma_bisect_converges(p, y, lo, at, (budget - 1) as nat, (halvings - 1) as nat);
            } else {
                lemma_bisect_converges(p, y, at, hi, (budget - 1) as nat, (halvings - 1) as nat);
            }
        }
    }
}

/// Inversion succeeds on every probability up to one, where the domain ends
/// at one or before it: whatever the densities, sixty-five midpoints reach
/// two neighbouring fine positions, between which the mass grows by less
/// than the tolerance.
pub proof fn lemma_inverse_succeeds(p: PdfView, y: u64)
    requires
        p.wf(),
        p.max_x() <= ONE,
        y <= ONE,
    ensures
        p.inverse(y) is Ok,
{
    lemma2_to64();
    lemma_fine_mass_step(p, 0);
    lemma_bisect_converges(p, y, 0, UNIT_MASS as int, MAX_BISECTIONS as nat, 64);
}

/// Every draw succeeds and lies in the domain, where the domain is `[0, 1)`:
/// whatever the generator's state and the densities, the position that
/// comes back is at least `min_x` and below `max_x`, and its density is the
/// density there.
pub proof fn lemma_sample_succeeds_in_domain(p: PdfView, state: u64)
    requires
        p.wf(),
        p.min_x == 0,
        p.max_x() == ONE,
    ensures
        p.inverse(lcg_step(state)) matches Ok((x, density)) && p.min_x <= x < p.max_x() && density
            == p.density_at(x as int),
{
    lemma_inverse_succeeds(p, lcg_step(state));
    lemma_sample_in_domain(p, state);
}

/// Inverting the cumulative probability of a position gives the position
/// back: where the domain starts at zero and ends at one, or ends before one
/// and the probability lies the tolerance below the total mass, and every
/// density is at least `floor`, the inversion succeeds, and the distance
/// times `floor` stays below the tolerance, one unit of probability and one
/// unit of position, in units of mass. (In a domain that ends before one, a
/// probability within the tolerance of the total mass is met by positions
/// beyond the domain too.) With every density at least [`ROUND_TRIP_DENSITY`], the distance is
/// at most a thousandth; with every density at least a tenth, a thousandth
/// and eleven units, which the rounding of the probability and of the
/// position may take.
pub proof fn lemma_round_trip(p: PdfView, x: u64, floor: u64)
    requires
        p.wf(),
        p.max_x() <= ONE,
        x < p.max_x(),
        p.cumulative(x as int) <= ONE,
        p.max_x() == ONE || (p.total_mass() * ONE - p.cumulative(x as int) * UNIT_MASS) * 10000
            >= FINE_UNIT_MASS,
        density_at_least(p, floor as int),
    ensures
        p.inverse(p.cumulative(x as int)) matches Ok((back, _)) && {
            &&& distance(back as int, x as int) * floor * 10000 < ONE * (ONE + 10000) + 10000
                * floor
            &&& floor >= ROUND_TRIP_DENSITY ==> distance(back as int, x as int) * 1000 <= ONE
            &&& floor >= TENTH ==> distance(back as int, x as int) * 1000 <= ONE + 11000
        },
{
    let y = p.cumulative(x as int);
    lemma_mass_bounds(p, x as int);
    lemma_total_probability(p, ONE as int);
    lemma_inverse_succeeds(p, y);
    lemma_inverse_result(p, y);
    let at = p.fine_inverse(y)->0;
    let back = at / (ONE as int);
    let here = x * ONE;
    assert(here / (ONE as int) == x && here % (ONE as int) == 0) by (nonlinear_arith)
        requires
            here == x * ONE,
            ONE == 0x1_0000_0000,
    ;
    let m = p.fine_mass(here);
    let n = p.fine_mass(at);
    assert(m == p.mass_below(x as int) * ONE);
    // the probability is the mass rounded down: less than a unit is lost
    assert(y * ONE <= p.mass_below(x as int) < y * ONE + ONE);
    assert(y * UNIT_MASS <= m < y * UNIT_MASS + UNIT_MASS) by (nonlinear_arith)
        requires
            y * ONE <= p.mass_below(x as int) < y * ONE + ONE,
            m == p.mass_below(x as int) * ONE,
            UNIT_MASS == ONE * ONE,
    ;
    let gap = distance(at, here);
    assert(density_at_most(p, u64::MAX as int));
    let end = p.max_x() * ONE;
    assert(here < end && (p.max_x() == ONE ==> end == UNIT_MASS)) by (nonlinear_arith)
        requires
            here == x * ONE,
            end == p.max_x() * ONE,
            x < p.max_x(),
            ONE == 0x1_0000_0000,
            UNIT_MASS == 0x1_0000_0000_0000_0000,
    ;
    if at > end {
        // beyond the domain the mass below is the total mass
        let beyond = at / (ONE as int);
        assert(beyond >= p.max_x()) by (nonlinear_arith)
            requires
                beyond == at / (ONE as int),
                at > p.max_x() * ONE,
                ONE == 0x1_0000_0000,
        ;
        lemma_segment(p, beyond);
        assert((at % (ONE as int)) * p.local_density(beyond) == 0) by (nonlinear_arith)
            requires
                p.local_density(beyond) == 0,
        ;
        assert(n == p.total_mass() * ONE);
        assert(false);
    }
    if at >= here {
        lemma_fine_mass_growth(p, here, at, floor as int, u64::MAX as int);
    } else {
        lemma_fine_mass_growth(p, at, here, floor as int, u64::MAX as int);
    }
    assert(floor * gap <= distance(m, n));
    assert(distance(m, n) * 10000 < FINE_UNIT_MASS + 10000 * UNIT_MASS);
    // a fine position lies less than a unit of position above its rounding
    let coarse = distance(back, x as int);
    assert(coarse * ONE <= gap + ONE);
    assert(coarse * floor * 10000 < ONE * (ONE + 10000) + 10000 * floor) by (nonlinear_arith)
        requires
            coarse * ONE <= gap + ONE,
            floor * gap * 10000 < 0x1_0000_0000_0000_0000_0000_0000 + 10000
                * 0x1_0000_0000_0000_0000,
            ONE == 0x1_0000_0000,
            0 <= coarse,
            0 <= gap,
            0 <= floor,
    ;
    if floor >= TENTH {
        assert(coarse * 1000 <= ONE + 11000) by (nonlinear_arith)
            requires
                coarse * floor * 10000 < ONE * (ONE + 10000) + 10000 * floor,
                floor >= 429496730,
                ONE == 0x1_0000_0000,
                0 <= coarse,
        ;
    }
    if floor >= ROUND_TRIP_DENSITY {
        assert(coarse * 1000 <= ONE) by (nonlinear_arith)
            requires
                coarse * floor * 10000 < ONE * (ONE + 10000) + 10000 * floor,
                floor >= 429498000,
                ONE == 0x1_0000_0000,
                0 <= coarse,
        ;
    }
}

} // verus!
