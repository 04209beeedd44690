//! Monte Carlo integration of one-dimensional functions, with every result
//! specified and proved.
//!
//! Integrals are estimated by sampling: uniformly, from a piecewise-constant
//! distribution (importance sampling), from two such distributions at once
//! (multiple importance sampling, by the balance or the power heuristic), and
//! with Russian roulette, which skips evaluations at random and lets the
//! evaluated draws stand for the skipped ones.
//!
//! All numbers are fixed-point numbers of 32 fractional bits (see [`fixed`]),
//! and the generator is a linear congruential one (see [`rng`]). What is
//! rounded more than once on the way is carried finer: the total of an
//! estimate and the positions of a bisection have 64 fractional bits. An
//! estimate is therefore an exact function of the estimator, the number of
//! draws and the generator's state, and the contract of each estimator says
//! which. A value that fixed point cannot hold ends an estimate with an
//! error instead of spoiling it silently.
//!
//! - [`fixed`]: the arithmetic, each operation with its rounding
//! - [`rng`]: the generator of uniform fractions
//! - [`step_pdf`]: the piecewise-constant distribution, with its density, its
//!   cumulative distribution and sampling by inversion
//! - [`pdf_lemmas`]: what holds of every such distribution
//! - [`montecarlo_integrable`]: what an integrator is, and the mean of ratios
//!   that it computes unless it says otherwise
//! - [`multiple_importance`]: single and combined importance sampling of the
//!   product of two densities
//! - [`russian_roulette`]: importance sampling with roulette
//! - [`uniform_case`]: the estimate of an integral that is known, and what
//!   fixed point loses of it

pub mod fixed;
pub mod rng;
pub mod step_pdf;
pub mod pdf_lemmas;
pub mod montecarlo_integrable;
pub mod multiple_importance;
pub mod russian_roulette;
pub mod uniform_case;
