//! A piecewise-constant probability density on half-open intervals, with its
//! cumulative distribution and sampling by inversion.
//!
//! Positions, densities and probabilities are fixed-point numbers (see
//! [`crate::fixed`]). The mass of an interval, a width times a density, is
//! held exactly, in units of `2^-64`.

use crate::fixed::ONE;
use crate::pdf_lemmas::lemma_inverse_result;
use crate::pdf_lemmas::lemma_mass_upto_monotone;
use crate::rng::lcg_step;
use crate::rng::Rng;
use vstd::prelude::*;

verus! {

/// The mass one, in units of `2^-64`.
pub const UNIT_MASS: u128 = 0x1_0000_0000_0000_0000;

/// The largest distance of a total mass from one that still counts as
/// normalized: a millionth, rounded down to the unit of mass.
pub const MASS_SLACK: u128 = 18446744073709;

/// How many times `inv_cdf` halves its bracket before it gives up.
pub const MAX_BISECTIONS: usize = 1000;

/// The mass one in the units in which a bisection measures it: `2^-96`, a
/// unit of position of `2^-64` times a unit of density.
pub const FINE_UNIT_MASS: u128 = 0x1_0000_0000_0000_0000_0000_0000;

/// Whether the mass `found` below a position, in units of `2^-96`, is close
/// enough to the target probability `y` for the bisection to stop: they
/// differ by less than a ten-thousandth.
pub open spec fn close_enough(y: u64, found: int) -> bool {
    let target = y * UNIT_MASS;
    if target >= found {
        (target - found) * 10000 < FINE_UNIT_MASS
    } else {
        (found - target) * 10000 < FINE_UNIT_MASS
    }
}

/// Breakpoints and densities, paired position by position.
pub open spec fn pair_up(steps: Seq<u64>, pdfs: Seq<u64>) -> Seq<(u64, u64)> {
    Seq::new(steps.len(), |i: int| (steps[i], pdfs[i]))
}

/// Whether each breakpoint is larger than the one before it.
pub open spec fn strictly_ascending(steps: Seq<u64>) -> bool {
    forall|i: int, j: int| 0 <= i < j < steps.len() ==> steps[i] < steps[j]
}

/// What a distribution is: the lower end of its domain, and for each
/// interval its upper bound and its density. The first interval starts at
/// zero, each later one where the one before it ends.
pub struct PdfView {
    pub min_x: u64,
    pub steps: Seq<(u64, u64)>,
}

impl PdfView {
    /// The number of intervals.
    pub open spec fn len(self) -> int {
        self.steps.len() as int
    }

    /// The upper bound of interval `i`, which the interval does not contain.
    pub open spec fn upper(self, i: int) -> int {
        self.steps[i].0 as int
    }

    /// The lower bound of interval `i`, which the interval contains.
    pub open spec fn lower(self, i: int) -> int {
        if i <= 0 {
            0
        } else {
            self.steps[i - 1].0 as int
        }
    }

    /// The density on interval `i`.
    pub open spec fn density(self, i: int) -> int {
        self.steps[i].1 as int
    }

    /// The upper end of the domain: the last upper bound.
    pub open spec fn max_x(self) -> int {
        if self.len() == 0 {
            0
        } else {
            self.upper(self.len() - 1)
        }
    }

    /// Whether each interval ends after the one before it.
    pub open spec fn ascending(self) -> bool {
        forall|i: int, j: int| 0 <= i < j < self.len() ==> self.upper(i) < self.upper(j)
    }

    /// The mass of the first `k` intervals.
    pub open spec fn mass_upto(self, k: int) -> int
        decreases k,
    {
        if k <= 0 {
            0
        } else {
            self.mass_upto(k - 1) + (self.upper(k - 1) - self.lower(k - 1)) * self.density(k - 1)
        }
    }

    /// The mass of all intervals.
    pub open spec fn total_mass(self) -> int {
        self.mass_upto(self.len())
    }

    /// Whether the total mass is one, to within a millionth.
    pub open spec fn normalized(self) -> bool {
        &&& (self.total_mass() - UNIT_MASS) * 1000000 <= UNIT_MASS
        &&& (UNIT_MASS - self.total_mass()) * 1000000 <= UNIT_MASS
    }

    /// The invariant of a distribution: its intervals follow each other in
    /// ascending order and its total mass is one.
    pub open spec fn wf(self) -> bool {
        &&& self.ascending()
        &&& self.normalized()
    }

    /// The first interval from `from` on whose upper bound exceeds `x`, or
    /// `len()` where there is none.
    pub open spec fn first_exceeding(self, x: int, from: int) -> int
        decreases self.len() - from,
    {
        if from >= self.len() {
            self.len()
        } else if x < self.upper(from) {
            from
        } else {
            self.first_exceeding(x, from + 1)
        }
    }

    /// The interval that `x` falls in: the first whose upper bound exceeds
    /// `x`. It is `len()` for an `x` at or beyond the end of the domain.
    pub open spec fn segment(self, x: int) -> int {
        self.first_exceeding(x, 0)
    }

    /// The density of the interval that `x` falls in, and zero beyond the
    /// last interval.
    pub open spec fn local_density(self, x: int) -> u64 {
        let k = self.segment(x);
        if k < self.len() {
            self.steps[k].1
        } else {
            0
        }
    }

    /// The density at `x`: zero outside `[min_x, max_x)`.
    pub open spec fn density_at(self, x: int) -> u64 {
        if x < self.min_x || x >= self.max_x() {
            0
        } else {
            self.local_density(x)
        }
    }

    /// The mass below `x`: that of the intervals that end at or before `x`,
    /// and of the part below `x` of the interval that `x` falls in.
    pub open spec fn mass_below(self, x: int) -> int {
        let k = self.segment(x);
        if k < self.len() {
            self.mass_upto(k) + (x - self.lower(k)) * self.density(k)
        } else {
            self.total_mass()
        }
    }

    /// The cumulative probability at `x` as a fixed-point number: the mass
    /// below `x`, rounded down.
    pub open spec fn cumulative(self, x: int) -> u64 {
        (self.mass_below(x) / (ONE as int)) as u64
    }

    /// The mass below the fine position `at`, in units of `2^-96`. A fine
    /// position counts units of `2^-64`: `2^32` of them make one unit of
    /// position, and within one unit of position the density does not change.
    pub open spec fn fine_mass(self, at: int) -> int {
        let x = at / (ONE as int);
        self.mass_below(x) * ONE + (at % (ONE as int)) * self.local_density(x)
    }

    /// Where a bisection for the target `y` ends that starts from the bracket
    /// `[lo, hi]` of fine positions and may still try `budget` midpoints: at
    /// the first midpoint below which the mass is close enough to `y`. The
    /// bracket's upper half is dropped where the mass below the midpoint
    /// exceeds the target, its lower half otherwise.
    pub open spec fn bisect(self, y: u64, lo: int, hi: int, budget: nat) -> Option<int>
        decreases budget,
    {
        if budget == 0 {
            None
        } else {
            let at = (lo + hi) / 2;
            let found = self.fine_mass(at);
            if close_enough(y, found) {
                Some(at)
            } else if y * UNIT_MASS < found {
                self.bisect(y, lo, at, (budget - 1) as nat)
            } else {
                self.bisect(y, at, hi, (budget - 1) as nat)
            }
        }
    }

    /// The fine position at which the bisection of `[0, 1]` for the target
    /// `y` ends, if it ends.
    pub open spec fn fine_inverse(self, y: u64) -> Option<int> {
        self.bisect(y, 0, UNIT_MASS as int, MAX_BISECTIONS as nat)
    }

    /// The position whose cumulative probability is `y`, with the density
    /// there: the fine position found by bisecting `[0, 1]`, rounded down to
    /// a unit of position.
    pub open spec fn inverse(self, y: u64) -> Result<(u64, u64), InversionError> {
        if y > ONE {
            Err(InversionError::DomainError)
        } else {
            match self.fine_inverse(y) {
                Some(at) => Ok(
                    ((at / (ONE as int)) as u64, self.local_density(at / (ONE as int))),
                ),
                None => Err(InversionError::ConvergenceError),
            }
        }
    }
}

/// Why a distribution could not be built.
#[derive(Debug, Clone, Copy, PartialEq, Eq, Structural)]
pub enum ConstructionError {
    /// There are not as many densities as breakpoints.
    LengthMismatch,
    /// The total mass differs from one by more than a millionth.
    NotNormalized,
}

/// Why a cumulative probability could not be inverted.
#[derive(Debug, Clone, Copy, PartialEq, Eq, Structural)]
pub enum InversionError {
    /// The probability is larger than one.
    DomainError,
    /// No midpoint came close enough to the probability.
    ConvergenceError,
}

/// A probability density that is constant on each of a row of half-open
/// intervals which start at zero and follow each other without a gap. It is
/// validated when it is built and never changes.
#[derive(Debug)]
pub struct DiscretePdf {
    steps: Vec<(u64, u64)>,
    min_x: u64,
}

impl View for DiscretePdf {
    type V = PdfView;

    closed spec fn view(&self) -> PdfView {
        PdfView { min_x: self.min_x, steps: self.steps@ }
    }
}

impl Clone for DiscretePdf {
    /// A copy of the distribution.
    fn clone(&self) -> (copy: Self)
        ensures
            copy@ == self@,
    {
        proof {
            use_type_invariant(self);
        }
        let n = self.steps.len();
        let mut steps: Vec<(u64, u64)> = Vec::new();
        let mut i: usize = 0;
        while i < n
            invariant
                n == self.steps.len(),
                0 <= i <= n,
                steps@ == self.steps@.subrange(0, i as int),
            decreases n - i,
        {
            steps.push(self.steps[i]);
            assert(steps@ == self.steps@.subrange(0, i + 1));
            i += 1;
        }
        assert(steps@ == self.steps@);
        DiscretePdf { steps, min_x: self.min_x }
    }
}

impl DiscretePdf {
    #[verifier::type_invariant]
    spec fn well_formed(&self) -> bool {
        self@.wf()
    }

    /// Builds the distribution whose interval `i` ends at `steps[i]` and has
    /// the density `pdfs[i]`. The breakpoints are given in ascending order.
    /// It fails where the two lists differ in length, and where the total
    /// mass is not one to within a millionth.
    pub fn new(min_x: u64, steps: Vec<u64>, pdfs: Vec<u64>) -> (r: Result<
        DiscretePdf,
        ConstructionError,
    >)
        requires
            strictly_ascending(steps@),
        ensures
            match r {
                Ok(p) => {
                    &&& steps.len() == pdfs.len()
                    &&& p@ == (PdfView { min_x, steps: pair_up(steps@, pdfs@) })
                    &&& p@.wf()
                },
                Err(ConstructionError::LengthMismatch) => steps.len() != pdfs.len(),
                Err(ConstructionError::NotNormalized) => {
                    &&& steps.len() == pdfs.len()
                    &&& !(PdfView { min_x, steps: pair_up(steps@, pdfs@) }).normalized()
                },
            },
    {
        if steps.len() != pdfs.len() {
            return Err(ConstructionError::LengthMismatch);
        }
        let n = steps.len();
        let ghost model = PdfView { min_x, steps: pair_up(steps@, pdfs@) };
        assert(model.ascending());
        let mut pairs: Vec<(u64, u64)> = Vec::new();
        let mut total: u128 = 0;
        let mut last: u64 = 0;
        let mut i: usize = 0;
        while i < n
            invariant
                n == steps.len(),
                n == pdfs.len(),
                model == (PdfView { min_x, steps: pair_up(steps@, pdfs@) }),
                model.ascending(),
                0 <= i <= n,
                pairs@ == model.steps.subrange(0, i as int),
                last == model.lower(i as int),
                total == model.mass_upto(i as int),
                total <= UNIT_MASS + MASS_SLACK,
            decreases n - i,
        {
            let upper = steps[i];
            let density = pdfs[i];
            assert(model.steps[i as int] == (upper, density));
            assert(last <= upper) by {
                if i > 0 {
                    assert(model.upper(i - 1) < model.upper(i as int));
                }
            }
            let width = upper - last;
            assert(width * density <= u64::MAX * u64::MAX) by (nonlinear_arith)
                requires
                    width <= u64::MAX,
                    density <= u64::MAX,
            ;
            let term: u128 = (width as u128) * (density as u128);
            let grown: u128 = total + term;
            assert(grown == model.mass_upto(i + 1));
            if grown > UNIT_MASS + MASS_SLACK {
                proof {
                    lemma_mass_upto_monotone(model, i + 1, n as int);
                }
                return Err(ConstructionError::NotNormalized);
            }
            pairs.push((upper, density));
            assert(pairs@ == model.steps.subrange(0, i + 1));
            total = grown;
            last = upper;
            i += 1;
        }
        assert(pairs@ == model.steps);
        if total < UNIT_MASS - MASS_SLACK {
            return Err(ConstructionError::NotNormalized);
        }
        assert((PdfView { min_x, steps: pairs@ }) == model);
        assert(model.normalized());
        Ok(DiscretePdf { steps: pairs, min_x })
    }

    /// The lower end of the domain.
    pub fn min_x(&self) -> (bound: u64)
        ensures
            bound == self@.min_x,
    {
        self.min_x
    }

    /// The upper end of the domain, which the domain does not contain.
    pub fn max_x(&self) -> (bound: u64)
        ensures
            self@.wf(),
            bound == self@.max_x(),
    {
        proof {
            use_type_invariant(self);
        }
        self.steps[self.steps.len() - 1].0
    }

    /// The density at `x`.
    pub fn pdf(&self, x: u64) -> (density: u64)
        ensures
            self@.wf(),
            density == self@.density_at(x as int),
    {
        proof {
            use_type_invariant(self);
        }
        let n = self.steps.len();
        if x < self.min_x {
            return 0;
        }
        if x >= self.steps[n - 1].0 {
            return 0;
        }
        let mut i: usize = 0;
        while i < n
            invariant
                self@.wf(),
                n == self.steps.len(),
                0 <= i <= n,
                self.min_x <= x < self@.max_x(),
                self@.segment(x as int) == self@.first_exceeding(x as int, i as int),
            decreases n - i,
        {
            if x < self.steps[i].0 {
                return self.steps[i].1;
            }
            i += 1;
        }
        0
    }

    /// The mass below `x`, in units of `2^-64`, with the density of the
    /// interval that `x` falls in.
    pub fn mass(&self, x: u64) -> (r: (u128, u64))
        ensures
            self@.wf(),
            r.0 == self@.mass_below(x as int),
            r.0 <= UNIT_MASS + MASS_SLACK,
            r.1 == self@.local_density(x as int),
    {
        proof {
            use_type_invariant(self);
        }
        let n = self.steps.len();
        let mut cum: u128 = 0;
        let mut last: u64 = 0;
        let mut i: usize = 0;
        while i < n
            invariant
                n == self.steps.len(),
                self@.wf(),
                0 <= i <= n,
                self@.segment(x as int) == self@.first_exceeding(x as int, i as int),
                last == self@.lower(i as int),
                last <= x,
                cum == self@.mass_upto(i as int),
            decreases n - i,
        {
            let upper = self.steps[i].0;
            let density = self.steps[i].1;
            proof {
                lemma_mass_upto_monotone(self@, i + 1, n as int);
                lemma_mass_upto_monotone(self@, i as int, i + 1);
            }
            if x < upper {
                assert(0 <= (x - last) * density <= (upper - last) * density) by (nonlinear_arith)
                    requires
                        last <= x < upper,
                        0 <= density,
                ;
                let part: u128 = ((x - last) as u128) * (density as u128);
                let below: u128 = cum + part;
                assert(below == self@.mass_below(x as int));
                return (below, density);
            }
            assert(last <= upper) by {
                if i > 0 {
                    assert(self@.upper(i - 1) < self@.upper(i as int));
                }
            }
            assert(0 <= (upper - last) * density) by (nonlinear_arith)
                requires
                    last <= upper,
                    0 <= density,
            ;
            cum = cum + ((upper - last) as u128) * (density as u128);
            last = upper;
            i += 1;
        }
        assert(cum == self@.mass_below(x as int));
        (cum, 0)
    }

    /// The cumulative probability at `x`, with the density of the interval
    /// that `x` falls in.
    pub fn cdf(&self, x: u64) -> (r: (u64, u64))
        ensures
            self@.wf(),
            r.0 == self@.cumulative(x as int),
            r.1 == self@.local_density(x as int),
    {
        let (below, density) = self.mass(x);
        ((below / (ONE as u128)) as u64, density)
    }

    /// The position whose cumulative probability is `y`, with the density
    /// there. The position is sought by bisection among fine positions, in
    /// units of `2^-64`, and rounded down.
    pub fn inv_cdf(&self, y: u64) -> (r: Result<(u64, u64), InversionError>)
        ensures
            self@.wf(),
            r == self@.inverse(y),
            r matches Ok((x, density)) ==> {
                &&& x < ONE
                &&& density == self@.local_density(x as int)
                &&& self@.fine_inverse(y) matches Some(at)
                &&& x == at / (ONE as int)
                &&& close_enough(y, self@.fine_mass(at))
            },
    {
        proof {
            use_type_invariant(self);
        }
        if y > ONE {
            return Err(InversionError::DomainError);
        }
        let target: u128 = (y as u128) * UNIT_MASS;
        let mut count: usize = 0;
        let mut lo: u128 = 0;
        let mut hi: u128 = UNIT_MASS;
        loop
            invariant
                self@.wf(),
                y <= ONE,
                target == y * UNIT_MASS,
                count <= MAX_BISECTIONS,
                lo <= hi <= UNIT_MASS,
                lo < UNIT_MASS,
                self@.fine_inverse(y) == self@.bisect(
                    y,
                    lo as int,
                    hi as int,
                    (MAX_BISECTIONS - count) as nat,
                ),
            decreases MAX_BISECTIONS - count,
        {
            proof {
                lemma_inverse_result(self@, y);
            }
            if count >= MAX_BISECTIONS {
                return Err(InversionError::ConvergenceError);
            }
            count += 1;
            let at: u128 = (lo + hi) / 2;
            let x: u64 = (at / (ONE as u128)) as u64;
            let rest: u128 = at % (ONE as u128);
            let (below, density) = self.mass(x);
            assert(rest * density <= 0x1_0000_0000 * 0xffff_ffff_ffff_ffff) by (nonlinear_arith)
                requires
                    0 <= rest < 0x1_0000_0000,
                    0 <= density <= 0xffff_ffff_ffff_ffff,
            ;
            let found: u128 = below * (ONE as u128) + rest * (density as u128);
            assert(found == self@.fine_mass(at as int));
            let err: u128 = if target >= found {
                target - found
            } else {
                found - target
            };
            if err * 10000 < FINE_UNIT_MASS {
                return Ok((x, density));
            }
            if target < found {
                hi = at;
            } else {
                lo = at;
            }
        }
    }

    /// Draws a position from the distribution, with the density there: the
    /// inverse of the cumulative distribution at the generator's next
    /// fraction.
    pub fn sample(&self, rng: &mut Rng) -> (r: Result<(u64, u64), InversionError>)
        ensures
            self@.wf(),
            final(rng)@ == lcg_step(old(rng)@),
            r == self@.inverse(lcg_step(old(rng)@)),
            r matches Ok((x, density)) ==> x < ONE && density == self@.local_density(x as int),
            r != Err::<(u64, u64), _>(InversionError::DomainError),
    {
        let u = rng.next();
        self.inv_cdf(u)
    }
}

} // verus!
