//! The estimator that every integrator shares: draw a point with its
//! density, evaluate the integrand there, and average the ratios.

use crate::fixed::fine_mean;
use crate::fixed::fine_quotient;
use crate::fixed::fine_sum;
use crate::fixed::spec_fine_mean;
use crate::fixed::spec_fine_quotient;
use crate::fixed::spec_fine_sum;
use crate::rng::Rng;
use crate::step_pdf::InversionError;
use vstd::prelude::*;

verus! {

/// Why an estimate could not be given.
#[derive(Debug, Clone, Copy, PartialEq, Eq, Structural)]
pub enum EstimateError {
    /// A draw failed.
    Sampling(InversionError),
    /// A value on the way is no number: a ratio over a zero density, a mean
    /// over no draws, a number too large to hold.
    Degenerate,
}

/// A running total, in fine units of `2^-64`, with the generator's state; or
/// the failure that ended the run.
pub type Progress = Result<(u128, u64), EstimateError>;

/// What one step of an estimator makes of a running total and the
/// generator's state.
pub type Step = spec_fn(u128, u64) -> Progress;

/// The progress made by `k` steps from `start`: each step takes up where the
/// one before it ended, and the first failure ends the run.
pub open spec fn repeat(step: Step, k: nat, start: (u128, u64)) -> Progress
    decreases k,
{
    if k == 0 {
        Ok(start)
    } else {
        match repeat(step, (k - 1) as nat, start) {
            Err(err) => Err(err),
            Ok((total, state)) => step(total, state),
        }
    }
}

/// The mean over `n` of the total that a run ended with, rounded down to a
/// number: the one rounding of an estimate.
pub open spec fn mean(run: Progress, n: usize) -> Result<u64, EstimateError> {
    match run {
        Err(err) => Err(err),
        Ok((total, _)) => match spec_fine_mean(total, n) {
            None => Err(EstimateError::Degenerate),
            Some(mean) => Ok(mean),
        },
    }
}

/// A failure among the first steps is the failure of any longer run.
pub proof fn lemma_failure_stays(step: Step, k: nat, n: nat, start: (u128, u64))
    requires
        k <= n,
    ensures
        repeat(step, k, start) matches Err(err) ==> repeat(step, n, start) == Err::<
            (u128, u64),
            _,
        >(err),
    decreases n,
{
    if k < n {
        lemma_failure_stays(step, k, (n - 1) as nat, start);
    }
}

/// Whether every step that succeeds adds at least `least` and at most `most`
/// to the total.
pub open spec fn adds_between(step: Step, least: int, most: int) -> bool {
    forall|total: u128, state: u64|
        (#[trigger] step(total, state)) matches Ok((grown, _)) ==> total + least <= grown
            <= total + most
}

/// A run of `k` steps that each add between `least` and `most` ends with a
/// total between `k` times the one and `k` times the other. With the loss of
/// each step for `least` and `most`, this is the loss of the run.
pub proof fn lemma_repeat_bounds(
    step: Step,
    k: nat,
    start: (u128, u64),
    least: int,
    most: int,
)
    requires
        adds_between(step, least, most),
    ensures
        repeat(step, k, start) matches Ok((total, _)) ==> start.0 + k * least <= total <= start.0
            + k * most,
    decreases k,
{
    if k > 0 {
        lemma_repeat_bounds(step, (k - 1) as nat, start, least, most);
        if let Ok((before, state)) = repeat(step, (k - 1) as nat, start) {
            assert(repeat(step, k, start) == step(before, state));
            assert(k * least == (k - 1) * least + least && k * most == (k - 1) * most + most)
                by (nonlinear_arith);
        }
    } else {
        assert(k * least == 0 && k * most == 0) by (nonlinear_arith)
            requires
                k == 0,
        ;
    }
}

/// What an integrator does, as functions of the generator's state and of a
/// point.
#[verifier::reject_recursive_types(T)]
pub struct Sampler<T> {
    /// What `sample` returns on a generator in a given state: a point with
    /// the density of having drawn it.
    pub sampled: spec_fn(u64) -> Result<(T, u64), InversionError>,
    /// The state in which `sample` leaves a generator that was in a given
    /// state.
    pub state_after: spec_fn(u64) -> u64,
    /// The integrand at a point, or `None` where it is no fixed-point
    /// number.
    pub value: spec_fn(T) -> Option<u64>,
}

impl<T> Sampler<T> {
    /// One more draw: the total grows by the integrand over the density at
    /// the point drawn, and the generator moves on.
    pub open spec fn add_ratio(self, total: u128, state: u64) -> Progress {
        match (self.sampled)(state) {
            Err(err) => Err(EstimateError::Sampling(err)),
            Ok((x, density)) => match (self.value)(x) {
                None => Err(EstimateError::Degenerate),
                Some(value) => match spec_fine_quotient(value, density) {
                    None => Err(EstimateError::Degenerate),
                    Some(ratio) => match spec_fine_sum(total, ratio) {
                        None => Err(EstimateError::Degenerate),
                        Some(grown) => Ok((grown, (self.state_after)(state))),
                    },
                },
            },
        }
    }

    /// `add_ratio` as a step.
    pub open spec fn ratio_step(self) -> Step {
        |total: u128, state: u64| self.add_ratio(total, state)
    }

    /// The mean of the ratios of `n` draws by a generator that starts in
    /// `state`.
    pub open spec fn mean_of_ratios(self, n: usize, state: u64) -> Result<u64, EstimateError> {
        mean(repeat(self.ratio_step(), n as nat, (0, state)), n)
    }
}

/// Something that can be integrated by sampling: it draws points with their
/// densities and evaluates the integrand at a point.
pub trait MontecarloIntegrable {
    type T;

    /// The invariant under which the integrator works. An integrator that
    /// states none has none.
    open spec fn wf(&self) -> bool {
        true
    }

    /// What the integrator draws and evaluates. An integrator that does not
    /// say so leaves it open.
    open spec fn model(&self) -> Sampler<Self::T> {
        arbitrary()
    }

    /// Draws a point, and returns it with its density.
    fn sample(&self, rng: &mut Rng) -> (r: Result<(Self::T, u64), InversionError>)
        requires
            self.wf(),
        ensures
            r == (self.model().sampled)(old(rng)@),
            final(rng)@ == (self.model().state_after)(old(rng)@),
    ;

    /// Evaluates the integrand.
    fn eval(&self, x: Self::T) -> (r: Option<u64>)
        requires
            self.wf(),
        ensures
            r == (self.model().value)(x),
    ;

    /// Estimates the integral from `n` draws: the mean of the integrand over
    /// the density at each point drawn.
    fn integrate(&self, n: usize, rng: Rng) -> (r: Result<u64, EstimateError>)
        requires
            self.wf(),
        default_ensures
            r == self.model().mean_of_ratios(n, rng@),
    {
        let ghost start = (0u128, rng@);
        let ghost step = self.model().ratio_step();
        let mut source = rng;
        let mut total: u128 = 0;
        let mut i: usize = 0;
        while i < n
            invariant
                self.wf(),
                0 <= i <= n,
                start == (0u128, rng@),
                step == self.model().ratio_step(),
                repeat(step, i as nat, start) == Ok::<_, EstimateError>((total, source@)),
            decreases n - i,
        {
            proof {
                lemma_failure_stays(step, (i + 1) as nat, n as nat, start);
                assert(repeat(step, (i + 1) as nat, start) == self.model().add_ratio(
                    total,
                    source@,
                ));
            }
            let (x, density) = match self.sample(&mut source) {
                Ok(drawn) => drawn,
                Err(e) => {
                    return Err(EstimateError::Sampling(e));
                },
            };
            let value = match self.eval(x) {
                Some(value) => value,
                None => {
                    return Err(EstimateError::Degenerate);
                },
            };
            let ratio = match fine_quotient(value, density) {
                Some(ratio) => ratio,
                None => {
                    return Err(EstimateError::Degenerate);
                },
            };
            total = match fine_sum(total, ratio) {
                Some(grown) => grown,
                None => {
                    return Err(EstimateError::Degenerate);
                },
            };
            i += 1;
        }
        match fine_mean(total, n) {
            Some(mean) => Ok(mean),
            None => Err(EstimateError::Degenerate),
        }
    }
}

} // verus!
