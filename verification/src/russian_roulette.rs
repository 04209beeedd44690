//! Importance sampling with Russian roulette: a draw is evaluated only with
//! the probability that its point survives, and an evaluated draw counts for
//! the ones that were skipped.

use crate::fixed::fine_mean;
use crate::fixed::fine_quotient;
use crate::fixed::fine_sum;
use crate::fixed::lemma_fine_quotient_times_divisor;
use crate::fixed::product;
use crate::fixed::quotient;
use crate::fixed::spec_fine_quotient;
use crate::fixed::spec_fine_sum;
use crate::fixed::spec_product;
use crate::fixed::spec_quotient;
use crate::fixed::FINE_ONE;
use crate::fixed::ONE;
use crate::montecarlo_integrable::lemma_failure_stays;
use crate::montecarlo_integrable::mean;
use crate::montecarlo_integrable::repeat;
use crate::montecarlo_integrable::EstimateError;
use crate::montecarlo_integrable::Progress;
use crate::montecarlo_integrable::Step;
use crate::pdf_lemmas::density_at_most;
use crate::pdf_lemmas::lemma_first_exceeding;
use crate::rng::lcg_step;
use crate::rng::Rng;
use crate::step_pdf::DiscretePdf;
use crate::step_pdf::InversionError;
use crate::step_pdf::PdfView;
use vstd::prelude::*;

verus! {

/// What a roulette estimator is: the two densities whose product is
/// integrated, the distribution that points are drawn from, whether the
/// roulette is played, and the largest density of `a`.
pub struct Roulette {
    pub a: PdfView,
    pub b: PdfView,
    pub sampling: PdfView,
    pub roulette: bool,
    pub a_max: u64,
}

impl Roulette {
    /// The integrand: the product of the two densities.
    pub open spec fn value(self, x: u64) -> Option<u64> {
        spec_product(self.a.density_at(x as int), self.b.density_at(x as int))
    }

    /// The probability with which the point `x` is evaluated: the density of
    /// `a` there over its largest density, and one where no roulette is
    /// played. A draw is skipped with the probability that is left to one.
    pub open spec fn survival(self, x: u64) -> Option<u64> {
        if self.roulette {
            spec_quotient(self.a.density_at(x as int), self.a_max)
        } else {
            Some(ONE)
        }
    }

    /// One turn: a point is drawn, then a threshold. Where the threshold
    /// exceeds the probability of skipping the point, the integrand over the
    /// probability of survival is added to the total; else nothing is.
    #[verifier::opaque]
    pub open spec fn turn(self, total: u128, state: u64) -> Progress {
        match self.sampling.inverse(lcg_step(state)) {
            Err(err) => Err(EstimateError::Sampling(err)),
            Ok((x, _)) => {
                let threshold = lcg_step(lcg_step(state));
                match self.survival(x) {
                    None => Err(EstimateError::Degenerate),
                    Some(survival) => if threshold > ONE - survival {
                        match self.value(x) {
                            None => Err(EstimateError::Degenerate),
                            Some(value) => match spec_fine_quotient(value, survival) {
                                None => Err(EstimateError::Degenerate),
                                Some(part) => match spec_fine_sum(total, part) {
                                    None => Err(EstimateError::Degenerate),
                                    Some(grown) => Ok((grown, threshold)),
                                },
                            },
                        }
                    } else {
                        Ok((total, threshold))
                    },
                }
            },
        }
    }

    /// `turn` as a step.
    pub open spec fn turn_step(self) -> Step {
        |total: u128, state: u64| self.turn(total, state)
    }

    /// The estimate from `n` turns by a generator that starts in `state`.
    pub open spec fn estimate(self, n: usize, state: u64) -> Result<u64, EstimateError> {
        mean(repeat(self.turn_step(), n as nat, (0, state)), n)
    }
}

/// What an evaluated draw adds, taken with the probability of its survival,
/// is the integrand: less than one unit of probability, in fine units, is
/// lost to rounding. This is why the roulette leaves the expectation of the
/// estimate as it is.
pub proof fn lemma_survivor_stands_for_skipped(value: u64, survival: u64)
    ensures
        spec_fine_quotient(value, survival) matches Some(part) ==> part * survival <= value
            * FINE_ONE < (part + 1) * survival,
{
    lemma_fine_quotient_times_divisor(value, survival);
}

/// With the largest density of `a` for `a_max`, the survival of every point
/// is a probability: it is defined and at most one.
pub proof fn lemma_survival_is_a_probability(model: Roulette, x: u64)
    requires
        model.a_max > 0,
        density_at_most(model.a, model.a_max as int),
    ensures
        model.survival(x) matches Some(survival) && survival <= ONE,
{
    let density = model.a.density_at(x as int);
    assert(density <= model.a_max) by {
        let k = model.a.segment(x as int);
        lemma_first_exceeding(model.a, x as int, 0);
        if k < model.a.len() {
            assert(model.a.density(k) <= model.a_max);
        }
    }
    assert((density * ONE) / (model.a_max as int) <= ONE) by (nonlinear_arith)
        requires
            0 <= density <= model.a_max,
            model.a_max > 0,
            ONE == 0x1_0000_0000,
    ;
}

/// Without roulette every point survives, and an evaluated draw adds the
/// integrand itself.
pub proof fn lemma_no_roulette_adds_the_value(model: Roulette, x: u64)
    requires
        !model.roulette,
    ensures
        model.survival(x) == Some(ONE),
        model.value(x) matches Some(value) ==> spec_fine_quotient(value, ONE) == Some(
            (value * ONE) as u128,
        ),
{
    if let Some(value) = model.value(x) {
        assert((value * FINE_ONE) / (ONE as int) == value * ONE) by (nonlinear_arith)
            requires
                ONE == 0x1_0000_0000,
                FINE_ONE == 0x1_0000_0000_0000_0000,
        ;
    }
}

/// Importance sampling of the product of the densities of `a` and `b`, with
/// every point drawn from `sampling`, and with or without Russian roulette:
/// a point is then evaluated with a probability that grows with the density
/// of `a` there.
#[derive(Debug, Clone)]
pub struct MIS {
    pub a: DiscretePdf,
    pub b: DiscretePdf,
    pub sampling: DiscretePdf,
    /// Whether the roulette is played.
    pub roulette: bool,
    /// The largest density of `a`: a point of that density always survives.
    pub a_max: u64,
}

impl MIS {
    /// The estimator as a roulette.
    pub open spec fn model(&self) -> Roulette {
        Roulette {
            a: self.a@,
            b: self.b@,
            sampling: self.sampling@,
            roulette: self.roulette,
            a_max: self.a_max,
        }
    }

    /// The first factor of the integrand: the density of `a` at `x`.
    pub fn a(&self, x: u64) -> (density: u64)
        ensures
            density == self.a@.density_at(x as int),
    {
        self.a.pdf(x)
    }

    /// The second factor of the integrand: the density of `b` at `x`.
    pub fn b(&self, x: u64) -> (density: u64)
        ensures
            density == self.b@.density_at(x as int),
    {
        self.b.pdf(x)
    }

    /// Draws a point from the sampling distribution, with its density.
    pub fn sample(&self, rng: &mut Rng) -> (r: Result<(u64, u64), InversionError>)
        ensures
            final(rng)@ == lcg_step(old(rng)@),
            r == self.sampling@.inverse(lcg_step(old(rng)@)),
    {
        self.sampling.sample(rng)
    }

    /// The integrand at `x`: the product of the two densities.
    pub fn eval(&self, x: u64) -> (value: Option<u64>)
        ensures
            value == self.model().value(x),
    {
        product(self.a(x), self.b(x))
    }

    /// Estimates the integral from `n` turns.
    pub fn integrate(&self, n: usize, rng: Rng) -> (r: Result<u64, EstimateError>)
        ensures
            r == self.model().estimate(n, rng@),
    {
        let ghost model = self.model();
        let ghost step = model.turn_step();
        let ghost start = (0u128, rng@);
        let mut source = rng;
        let mut total: u128 = 0;
        let mut i: usize = 0;
        while i < n
            invariant
                0 <= i <= n,
                model == self.model(),
                step == model.turn_step(),
                start == (0u128, rng@),
                repeat(step, i as nat, start) == Ok::<_, EstimateError>((total, source@)),
            decreases n - i,
        {
            proof {
                lemma_failure_stays(step, (i + 1) as nat, n as nat, start);
                assert(repeat(step, (i + 1) as nat, start) == model.turn(total, source@));
                reveal(Roulette::turn);
            }
            let (x, _density) = match self.sample(&mut source) {
                Ok(drawn) => drawn,
                Err(e) => {
                    return Err(EstimateError::Sampling(e));
                },
            };
            let threshold = source.next();
            let survival = if self.roulette {
                match quotient(self.a(x), self.a_max) {
                    Some(survival) => survival,
                    None => {
                        return Err(EstimateError::Degenerate);
                    },
                }
            } else {
                ONE
            };
            if threshold as u128 + survival as u128 > ONE as u128 {
                let value = match self.eval(x) {
                    Some(value) => value,
                    None => {
                        return Err(EstimateError::Degenerate);
                    },
                };
                let part = match fine_quotient(value, survival) {
                    Some(part) => part,
                    None => {
                        return Err(EstimateError::Degenerate);
                    },
                };
                total = match fine_sum(total, part) {
                    Some(grown) => grown,
                    None => {
                        return Err(EstimateError::Degenerate);
                    },
                };
            }
            i += 1;
        }
        match fine_mean(total, n) {
            Some(mean) => Ok(mean),
            None => Err(EstimateError::Degenerate),
        }
    }
}

} // verus!
