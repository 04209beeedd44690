//! Estimators of the integral of the product of two densities: importance
//! sampling from one distribution, and multiple importance sampling from
//! both, weighted by the balance or the power heuristic.

use crate::fixed::fine_mean;
use crate::fixed::fine_sum;
use crate::fixed::fraction;
use crate::fixed::lemma_fraction_at_most_one;
use crate::fixed::lemma_fractions_sum_to_one;
use crate::fixed::lemma_square_fraction_is_more_extreme;
use crate::fixed::lemma_square_fractions_sum_to_one;
use crate::fixed::product;
use crate::fixed::scaled;
use crate::fixed::spec_fine_sum;
use crate::fixed::spec_fraction;
use crate::fixed::spec_product;
use crate::fixed::spec_scaled;
use crate::fixed::spec_square_fraction;
use crate::fixed::square_fraction;
use crate::fixed::FINE_ONE;
use crate::fixed::ONE;
use crate::montecarlo_integrable::lemma_failure_stays;
use crate::montecarlo_integrable::mean;
use crate::montecarlo_integrable::repeat;
use crate::montecarlo_integrable::EstimateError;
use crate::montecarlo_integrable::MontecarloIntegrable;
use crate::montecarlo_integrable::Progress;
use crate::montecarlo_integrable::Sampler;
use crate::montecarlo_integrable::Step;
use crate::rng::lcg_step;
use crate::rng::Rng;
use crate::step_pdf::DiscretePdf;
use crate::step_pdf::InversionError;
use crate::step_pdf::PdfView;
use vstd::prelude::*;

verus! {

/// How the draws of two techniques are weighted against each other.
#[derive(Debug, Clone, Copy, PartialEq, Eq, Structural)]
pub enum Heuristic {
    /// Each technique counts by its share of the draws expected at a point.
    Balance,
    /// Each technique counts by the share of the square of that number.
    Power,
}

/// The weight of a technique that makes `ni` draws with the density `pi`,
/// beside one that makes `nj` draws with the density `pj`, by the balance
/// heuristic: `ni pi / (ni pi + nj pj)`.
pub open spec fn balance_weight(ni: usize, pi: u64, nj: usize, pj: u64) -> Option<u64> {
    match (spec_scaled(ni, pi), spec_scaled(nj, pj)) {
        (Some(own), Some(other)) => spec_fraction(own, other),
        _ => None,
    }
}

/// The same weight by the power heuristic with the exponent two:
/// `(ni pi)^2 / ((ni pi)^2 + (nj pj)^2)`, of exact squares.
pub open spec fn power_weight(ni: usize, pi: u64, nj: usize, pj: u64) -> Option<u64> {
    match (spec_scaled(ni, pi), spec_scaled(nj, pj)) {
        (Some(own), Some(other)) => spec_square_fraction(own, other),
        _ => None,
    }
}

/// The weight by the given heuristic.
pub open spec fn spec_weight(
    heuristic: Heuristic,
    ni: usize,
    pi: u64,
    nj: usize,
    pj: u64,
) -> Option<u64> {
    match heuristic {
        Heuristic::Balance => balance_weight(ni, pi, nj, pj),
        Heuristic::Power => power_weight(ni, pi, nj, pj),
    }
}

/// What a draw adds to the total, in fine units of `2^-64`: the weighted
/// integrand over the density of the draw and over the draws of its
/// technique, rounded down once. It is `None` where the density or the
/// number of draws is zero, or the weighted integrand is too large to hold.
pub open spec fn spec_contribution(weight: u64, value: u64, density: u64, draws: usize) -> Option<
    u128,
> {
    if density * draws == 0 || weight * value * ONE > u128::MAX {
        None
    } else {
        Some(((weight * value * ONE) / (density * draws)) as u128)
    }
}

/// The weight by the balance heuristic.
pub fn balance(ni: usize, pi: u64, nj: usize, pj: u64) -> (w: Option<u64>)
    ensures
        w == balance_weight(ni, pi, nj, pj),
{
    let own = match scaled(ni, pi) {
        Some(own) => own,
        None => {
            return None;
        },
    };
    let other = match scaled(nj, pj) {
        Some(other) => other,
        None => {
            return None;
        },
    };
    fraction(own, other)
}

/// The weight by the power heuristic.
pub fn power(ni: usize, pi: u64, nj: usize, pj: u64) -> (w: Option<u64>)
    ensures
        w == power_weight(ni, pi, nj, pj),
{
    let own = match scaled(ni, pi) {
        Some(own) => own,
        None => {
            return None;
        },
    };
    let other = match scaled(nj, pj) {
        Some(other) => other,
        None => {
            return None;
        },
    };
    square_fraction(own, other)
}

/// The weight by the given heuristic.
pub fn weight(heuristic: Heuristic, ni: usize, pi: u64, nj: usize, pj: u64) -> (w: Option<u64>)
    ensures
        w == spec_weight(heuristic, ni, pi, nj, pj),
{
    match heuristic {
        Heuristic::Balance => balance(ni, pi, nj, pj),
        Heuristic::Power => power(ni, pi, nj, pj),
    }
}

/// What a draw adds to the total.
pub fn contribution(weight: u64, value: u64, density: u64, draws: usize) -> (c: Option<u128>)
    ensures
        c == spec_contribution(weight, value, density, draws),
{
    assert(weight * value <= 0xffff_ffff_ffff_ffff * 0xffff_ffff_ffff_ffff && density * draws
        <= 0xffff_ffff_ffff_ffff * 0xffff_ffff_ffff_ffff) by (nonlinear_arith)
        requires
            0 <= weight <= 0xffff_ffff_ffff_ffff,
            0 <= value <= 0xffff_ffff_ffff_ffff,
            0 <= density <= 0xffff_ffff_ffff_ffff,
            0 <= draws <= 0xffff_ffff_ffff_ffff,
    ;
    let parts: u128 = (density as u128) * (draws as u128);
    if parts == 0 {
        return None;
    }
    let weighted: u128 = (weight as u128) * (value as u128);
    assert(weight * value * ONE == (weight * value) * 0x1_0000_0000) by (nonlinear_arith)
        requires
            ONE == 0x1_0000_0000,
    ;
    match weighted.checked_mul(ONE as u128) {
        Some(wide) => Some(wide / parts),
        None => None,
    }
}

/// The weights of two techniques at one point add up to one, less at most
/// one unit that the rounding takes: by either heuristic, wherever both
/// weights are defined. Both are defined, or neither.
pub proof fn lemma_weights_sum_to_one(
    heuristic: Heuristic,
    na: usize,
    pa: u64,
    nb: usize,
    pb: u64,
)
    ensures
        spec_weight(heuristic, na, pa, nb, pb) is Some <==> spec_weight(heuristic, nb, pb, na, pa)
            is Some,
        spec_weight(heuristic, na, pa, nb, pb) matches Some(wa) ==> {
            &&& wa <= ONE
            &&& ONE - 1 <= wa + spec_weight(heuristic, nb, pb, na, pa)->0 <= ONE
        },
{
    match (spec_scaled(na, pa), spec_scaled(nb, pb)) {
        (Some(a), Some(b)) => {
            match heuristic {
                Heuristic::Balance => {
                    if a + b > 0 {
                        lemma_fractions_sum_to_one(a, b);
                        lemma_fraction_at_most_one(a, b);
                    }
                },
                Heuristic::Power => {
                    lemma_square_fractions_sum_to_one(a, b);
                    lemma_square_fraction_is_more_extreme(a, b);
                },
            }
        },
        _ => {},
    }
}

/// The power heuristic gives the more extreme weight: to the technique that
/// is expected to draw more often at a point it gives at least the weight of
/// the balance heuristic, to the other at most.
pub proof fn lemma_power_is_more_extreme(na: usize, pa: u64, nb: usize, pb: u64)
    ensures
        power_weight(na, pa, nb, pb) matches Some(squared) ==> {
            &&& balance_weight(na, pa, nb, pb) matches Some(plain)
            &&& na * pa >= nb * pb ==> squared >= plain
            &&& na * pa <= nb * pb ==> squared <= plain
        },
{
    match (spec_scaled(na, pa), spec_scaled(nb, pb)) {
        (Some(a), Some(b)) => {
            lemma_square_fraction_is_more_extreme(a, b);
        },
        _ => {},
    }
}

/// A contribution, taken as often as its technique is expected to draw at
/// the point, is the weighted integrand, less what the one rounding takes:
/// less than the density times the draws, in units of `2^-96`.
pub proof fn lemma_contribution_bounds(weight: u64, value: u64, density: u64, draws: usize)
    ensures
        spec_contribution(weight, value, density, draws) matches Some(part) ==> {
            &&& draws * density * part <= weight * value * ONE
            &&& weight * value * ONE < draws * density * part + draws * density
        },
{
    if let Some(part) = spec_contribution(weight, value, density, draws) {
        let whole = weight * value * ONE;
        let parts = density * draws;
        let q = whole / parts;
        assert(parts > 0 && whole >= 0) by (nonlinear_arith)
            requires
                parts == density * draws,
                parts != 0,
                whole == weight * value * ONE,
                0 <= density,
                0 <= draws,
                0 <= weight,
                0 <= value,
                ONE == 0x1_0000_0000,
        ;
        assert(q * parts <= whole < (q + 1) * parts && 0 <= q <= whole) by (nonlinear_arith)
            requires
                q == whole / parts,
                parts > 0,
                whole >= 0,
        ;
        assert(part == q);
        assert(draws * density * part == q * parts && (q + 1) * parts == draws * density * part
            + draws * density) by (nonlinear_arith)
            requires
                part == q,
                parts == density * draws,
        ;
    }
}

/// The contributions of the two techniques at one point, each taken as often
/// as its technique is expected to draw there, add up to the integrand. This
/// is why the combined estimate has the expectation of a single one. In
/// fixed point the sum falls short of the integrand by what the rounding of
/// the weights and of the contributions takes, and never exceeds it.
pub proof fn lemma_contributions_add_up(
    heuristic: Heuristic,
    na: usize,
    pa: u64,
    nb: usize,
    pb: u64,
    value: u64,
)
    ensures
        spec_weight(heuristic, na, pa, nb, pb) matches Some(wa) ==> {
            &&& spec_weight(heuristic, nb, pb, na, pa) matches Some(wb)
            &&& spec_contribution(wa, value, pa, na) matches Some(ca) ==> (spec_contribution(
                wb,
                value,
                pb,
                nb,
            ) matches Some(cb) ==> {
                let expected = na * pa * ca + nb * pb * cb;
                let lost = value * ONE + na * pa + nb * pb;
                value * FINE_ONE - lost < expected <= value * FINE_ONE
            })
        },
{
    lemma_weights_sum_to_one(heuristic, na, pa, nb, pb);
    if let Some(wa) = spec_weight(heuristic, na, pa, nb, pb) {
        let wb = spec_weight(heuristic, nb, pb, na, pa)->0;
        if let Some(ca) = spec_contribution(wa, value, pa, na) {
            if let Some(cb) = spec_contribution(wb, value, pb, nb) {
                lemma_contribution_bounds(wa, value, pa, na);
                lemma_contribution_bounds(wb, value, pb, nb);
                assert(wa * value * ONE + wb * value * ONE == (wa + wb) * (value * ONE))
                    by (nonlinear_arith);
                assert((ONE - 1) * (value * ONE) <= (wa + wb) * (value * ONE) <= ONE * (value
                    * ONE)) by (nonlinear_arith)
                    requires
                        ONE - 1 <= wa + wb <= ONE,
                        0 <= value,
                        ONE == 0x1_0000_0000,
                ;
                assert(ONE * (value * ONE) == value * FINE_ONE) by (nonlinear_arith)
                    requires
                        ONE == 0x1_0000_0000,
                        FINE_ONE == 0x1_0000_0000_0000_0000,
                ;
                assert((ONE - 1) * (value * ONE) == value * FINE_ONE - value * ONE)
                    by (nonlinear_arith)
                    requires
                        ONE == 0x1_0000_0000,
                        FINE_ONE == 0x1_0000_0000_0000_0000,
                ;
            }
        }
    }
}

/// What a combined estimator is: two distributions, the draws that each
/// makes in a round, and the heuristic that weights them.
pub struct Combiner {
    pub a: PdfView,
    pub b: PdfView,
    pub na: usize,
    pub nb: usize,
    pub heuristic: Heuristic,
}

impl Combiner {
    /// The integrand: the product of the two densities.
    pub open spec fn value(self, x: u64) -> Option<u64> {
        spec_product(self.a.density_at(x as int), self.b.density_at(x as int))
    }

    /// One draw, from `a` or from `b`: the point is drawn from the one with
    /// its density there, weighted against the density of the other, and its
    /// contribution added to the total.
    #[verifier::opaque]
    pub open spec fn draw(self, from_a: bool, total: u128, state: u64) -> Progress {
        let own = if from_a {
            self.a
        } else {
            self.b
        };
        let other = if from_a {
            self.b
        } else {
            self.a
        };
        let own_draws = if from_a {
            self.na
        } else {
            self.nb
        };
        let other_draws = if from_a {
            self.nb
        } else {
            self.na
        };
        match own.inverse(lcg_step(state)) {
            Err(err) => Err(EstimateError::Sampling(err)),
            Ok((x, density)) => match (
                spec_weight(
                    self.heuristic,
                    own_draws,
                    density,
                    other_draws,
                    other.density_at(x as int),
                ),
                self.value(x),
            ) {
                (Some(weight), Some(value)) => match spec_contribution(
                    weight,
                    value,
                    density,
                    own_draws,
                ) {
                    None => Err(EstimateError::Degenerate),
                    Some(part) => match spec_fine_sum(total, part) {
                        None => Err(EstimateError::Degenerate),
                        Some(grown) => Ok((grown, lcg_step(state))),
                    },
                },
                _ => Err(EstimateError::Degenerate),
            },
        }
    }

    /// `draw` as a step.
    pub open spec fn draw_step(self, from_a: bool) -> Step {
        |total: u128, state: u64| self.draw(from_a, total, state)
    }

    /// One round: `na` draws from `a`, then `nb` draws from `b`.
    pub open spec fn round(self, total: u128, state: u64) -> Progress {
        match repeat(self.draw_step(true), self.na as nat, (total, state)) {
            Err(err) => Err(err),
            Ok(halfway) => repeat(self.draw_step(false), self.nb as nat, halfway),
        }
    }

    /// `round` as a step.
    pub open spec fn round_step(self) -> Step {
        |total: u128, state: u64| self.round(total, state)
    }

    /// The estimate from `n` rounds by a generator that starts in `state`:
    /// the total of all contributions over `n`.
    pub open spec fn estimate(self, n: usize, state: u64) -> Result<u64, EstimateError> {
        mean(repeat(self.round_step(), n as nat, (0, state)), n)
    }
}

/// Makes one draw and adds its contribution to the total.
fn draw(
    a: &DiscretePdf,
    b: &DiscretePdf,
    na: usize,
    nb: usize,
    heuristic: Heuristic,
    from_a: bool,
    total: u128,
    rng: &mut Rng,
) -> (r: Result<u128, EstimateError>)
    ensures
        match (Combiner { a: a@, b: b@, na, nb, heuristic }).draw(from_a, total, old(rng)@) {
            Ok((grown, state)) => r == Ok::<u128, EstimateError>(grown) && final(rng)@ == state,
            Err(err) => r == Err::<u128, _>(err),
        },
{
    proof {
        reveal(Combiner::draw);
    }
    let (own, other, own_draws, other_draws) = if from_a {
        (a, b, na, nb)
    } else {
        (b, a, nb, na)
    };
    let (x, density) = match own.sample(rng) {
        Ok(drawn) => drawn,
        Err(e) => {
            return Err(EstimateError::Sampling(e));
        },
    };
    let beside = other.pdf(x);
    let weight = weight(heuristic, own_draws, density, other_draws, beside);
    let value = product(a.pdf(x), b.pdf(x));
    let part = match (weight, value) {
        (Some(weight), Some(value)) => contribution(weight, value, density, own_draws),
        _ => None,
    };
    let grown = match part {
        Some(part) => fine_sum(total, part),
        None => None,
    };
    match grown {
        Some(grown) => Ok(grown),
        None => Err(EstimateError::Degenerate),
    }
}

/// Makes `count` draws from one of the two distributions.
fn draws(
    a: &DiscretePdf,
    b: &DiscretePdf,
    na: usize,
    nb: usize,
    heuristic: Heuristic,
    from_a: bool,
    count: usize,
    total: u128,
    rng: &mut Rng,
) -> (r: Result<u128, EstimateError>)
    ensures
        match repeat(
            (Combiner { a: a@, b: b@, na, nb, heuristic }).draw_step(from_a),
            count as nat,
            (total, old(rng)@),
        ) {
            Ok((grown, state)) => r == Ok::<u128, EstimateError>(grown) && final(rng)@ == state,
            Err(err) => r == Err::<u128, _>(err),
        },
{
    let ghost combiner = Combiner { a: a@, b: b@, na, nb, heuristic };
    let ghost step = combiner.draw_step(from_a);
    let ghost start = (total, rng@);
    let mut running = total;
    let mut i: usize = 0;
    while i < count
        invariant
            0 <= i <= count,
            combiner == (Combiner { a: a@, b: b@, na, nb, heuristic }),
            step == combiner.draw_step(from_a),
            start == (total, old(rng)@),
            repeat(step, i as nat, start) == Ok::<_, EstimateError>((running, rng@)),
        decreases count - i,
    {
        proof {
            lemma_failure_stays(step, (i + 1) as nat, count as nat, start);
            assert(repeat(step, (i + 1) as nat, start) == combiner.draw(from_a, running, rng@));
        }
        running = match draw(a, b, na, nb, heuristic, from_a, running, rng) {
            Ok(grown) => grown,
            Err(e) => {
                return Err(e);
            },
        };
        i += 1;
    }
    Ok(running)
}

/// Estimates the integral of the product of the densities of `a` and `b`
/// from `n` rounds of `na` draws from `a` and `nb` draws from `b`.
pub fn combine(
    a: &DiscretePdf,
    b: &DiscretePdf,
    na: usize,
    nb: usize,
    heuristic: Heuristic,
    n: usize,
    rng: Rng,
) -> (r: Result<u64, EstimateError>)
    ensures
        r == (Combiner { a: a@, b: b@, na, nb, heuristic }).estimate(n, rng@),
{
    let ghost combiner = Combiner { a: a@, b: b@, na, nb, heuristic };
    let ghost step = combiner.round_step();
    let ghost start = (0u128, rng@);
    let mut source = rng;
    let mut total: u128 = 0;
    let mut i: usize = 0;
    while i < n
        invariant
            0 <= i <= n,
            combiner == (Combiner { a: a@, b: b@, na, nb, heuristic }),
            step == combiner.round_step(),
            start == (0u128, rng@),
            repeat(step, i as nat, start) == Ok::<_, EstimateError>((total, source@)),
        decreases n - i,
    {
        proof {
            lemma_failure_stays(step, (i + 1) as nat, n as nat, start);
            assert(repeat(step, (i + 1) as nat, start) == combiner.round(total, source@));
        }
        let halfway = match draws(a, b, na, nb, heuristic, true, na, total, &mut source) {
            Ok(halfway) => halfway,
            Err(e) => {
                return Err(e);
            },
        };
        total = match draws(a, b, na, nb, heuristic, false, nb, halfway, &mut source) {
            Ok(grown) => grown,
            Err(e) => {
                return Err(e);
            },
        };
        i += 1;
    }
    match fine_mean(total, n) {
        Some(mean) => Ok(mean),
        None => Err(EstimateError::Degenerate),
    }
}

/// Importance sampling of the product of the densities of `a` and `b`, with
/// every point drawn from `sampling`.
#[derive(Debug, Clone)]
pub struct ABPdfSingle {
    pub a: DiscretePdf,
    pub b: DiscretePdf,
    pub sampling: DiscretePdf,
}

impl MontecarloIntegrable for ABPdfSingle {
    type T = u64;

    open spec fn model(&self) -> Sampler<u64> {
        Sampler {
            sampled: |state: u64| self.sampling@.inverse(lcg_step(state)),
            state_after: |state: u64| lcg_step(state),
            value: |x: u64|
                spec_product(self.a@.density_at(x as int), self.b@.density_at(x as int)),
        }
    }

    fn sample(&self, rng: &mut Rng) -> (r: Result<(u64, u64), InversionError>) {
        self.sampling.sample(rng)
    }

    fn eval(&self, x: u64) -> (r: Option<u64>) {
        product(self.a.pdf(x), self.b.pdf(x))
    }
}

/// Multiple importance sampling of the product of the densities of `a` and
/// `b` by the balance heuristic: in each round `na` points are drawn from
/// `a` and `nb` from `b`.
#[derive(Debug, Clone)]
pub struct BalancedPdf {
    pub a: DiscretePdf,
    pub b: DiscretePdf,
    pub na: usize,
    pub nb: usize,
}

impl BalancedPdf {
    /// The estimator as a combiner.
    pub open spec fn combiner(&self) -> Combiner {
        Combiner {
            a: self.a@,
            b: self.b@,
            na: self.na,
            nb: self.nb,
            heuristic: Heuristic::Balance,
        }
    }

    /// The weight of a technique that makes `na` draws with the density
    /// `pdfa`, beside one that makes `nb` draws with the density `pdfb`.
    pub fn w(&self, na: usize, pdfa: u64, nb: usize, pdfb: u64) -> (weight: Option<u64>)
        ensures
            weight == balance_weight(na, pdfa, nb, pdfb),
    {
        balance(na, pdfa, nb, pdfb)
    }

    /// The integrand: the product of the two densities.
    pub fn eval(&self, x: u64) -> (value: Option<u64>)
        ensures
            value == self.combiner().value(x),
    {
        product(self.a.pdf(x), self.b.pdf(x))
    }

    /// Estimates the integral from `n` rounds.
    pub fn integrate(&self, n: usize, rng: Rng) -> (r: Result<u64, EstimateError>)
        ensures
            r == self.combiner().estimate(n, rng@),
    {
        combine(&self.a, &self.b, self.na, self.nb, Heuristic::Balance, n, rng)
    }
}

/// Multiple importance sampling of the product of the densities of `a` and
/// `b` by the power heuristic: in each round `na` points are drawn from `a`
/// and `nb` from `b`.
#[derive(Debug, Clone)]
pub struct PowerPdf {
    pub a: DiscretePdf,
    pub b: DiscretePdf,
    pub na: usize,
    pub nb: usize,
}

impl PowerPdf {
    /// The estimator as a combiner.
    pub open spec fn combiner(&self) -> Combiner {
        Combiner {
            a: self.a@,
            b: self.b@,
            na: self.na,
            nb: self.nb,
            heuristic: Heuristic::Power,
        }
    }

    /// The weight of a technique that makes `na` draws with the density
    /// `pdfa`, beside one that makes `nb` draws with the density `pdfb`.
    pub fn w(&self, na: usize, pdfa: u64, nb: usize, pdfb: u64) -> (weight: Option<u64>)
        ensures
            weight == power_weight(na, pdfa, nb, pdfb),
    {
        power(na, pdfa, nb, pdfb)
    }

    /// The integrand: the product of the two densities.
    pub fn eval(&self, x: u64) -> (value: Option<u64>)
        ensures
            value == self.combiner().value(x),
    {
        product(self.a.pdf(x), self.b.pdf(x))
    }

    /// Estimates the integral from `n` rounds.
    pub fn integrate(&self, n: usize, rng: Rng) -> (r: Result<u64, EstimateError>)
        ensures
            r == self.combiner().estimate(n, rng@),
    {
        combine(&self.a, &self.b, self.na, self.nb, Heuristic::Power, n, rng)
    }
}

} // verus!
