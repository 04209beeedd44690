//! A linear congruential generator of uniform fractions.

use std::time::Duration;
use std::time::SystemTime;
use std::time::SystemTimeError;
use vstd::prelude::*;

verus! {

/// `std::time::SystemTime`, a reading of the system clock. Nothing is known
/// of what a value holds.
#[verifier::external_type_specification]
#[verifier::external_body]
pub struct ExSystemTime(SystemTime);

/// `std::time::SystemTimeError`, returned when one clock reading lies before
/// another. Nothing is known of what a value holds.
#[verifier::external_type_specification]
#[verifier::external_body]
pub struct ExSystemTimeError(SystemTimeError);

/// `SystemTime::now` reads the clock. Nothing is claimed of the reading.
pub assume_specification[ SystemTime::now ]() -> (now: SystemTime)
;

/// `SystemTime::duration_since` measures the time from `earlier` to `later`,
/// or fails when `earlier` is the later of the two. Nothing is claimed of
/// which it does.
pub assume_specification[ SystemTime::duration_since ](
    later: &SystemTime,
    earlier: SystemTime,
) -> (elapsed: Result<Duration, SystemTimeError>)
;

/// `Duration::as_nanos` gives the duration in whole nanoseconds. Nothing is
/// claimed of the number.
pub assume_specification[ Duration::as_nanos ](duration: &Duration) -> (nanos: u128)
;

/// The constant `std::time::UNIX_EPOCH`, the instant from which clock
/// readings are counted.
#[verifier::external_body]
fn unix_epoch() -> (epoch: SystemTime) {
    std::time::UNIX_EPOCH
}

/// Multiplier of the recurrence.
pub const MULTIPLIER: u64 = 6364136223846793005;

/// Increment of the recurrence.
pub const INCREMENT: u64 = 1;

/// Modulus of the recurrence, `2^32`. A state `s` stands for the fraction
/// `s / MODULUS`, which lies in `[0, 1)`.
pub const MODULUS: u64 = 0x1_0000_0000;

/// The state that follows `state`.
pub open spec fn lcg_step(state: u64) -> u64 {
    ((MULTIPLIER * state + INCREMENT) % (MODULUS as int)) as u64
}

/// Why the clock gave no seed.
#[derive(Debug, Clone, Copy, PartialEq, Eq, Structural)]
pub enum ClockError {
    /// The clock reads earlier than the Unix epoch.
    BeforeEpoch,
}

/// A generator of uniform fractions. What it holds is its state; its view is
/// that state.
pub struct Rng {
    seed: u64,
}

impl View for Rng {
    type V = u64;

    closed spec fn view(&self) -> u64 {
        self.seed
    }
}

impl Rng {
    /// A generator seeded from the system clock: the nanoseconds since the
    /// Unix epoch, reduced to 64 bits. It fails where the clock reads earlier
    /// than the epoch. Two calls need not give the same generator.
    pub fn new() -> (r: Result<Rng, ClockError>) {
        let now = SystemTime::now();
        let reading: Option<u128> = match now.duration_since(unix_epoch()) {
            Ok(elapsed) => Some(elapsed.as_nanos()),
            Err(_) => None,
        };
        Rng::from_clock(reading)
    }

    /// A generator seeded from a reading of the clock: the nanoseconds since
    /// the Unix epoch, or `None` where the clock reads earlier than the epoch.
    pub fn from_clock(reading: Option<u128>) -> (r: Result<Rng, ClockError>)
        ensures
            match clock_seed(reading) {
                Some(seed) => r matches Ok(rng) && rng@ == seed,
                None => r matches Err(ClockError::BeforeEpoch),
            },
    {
        match reading {
            Some(nanos) => Ok(Rng::from_seed((nanos % 0x1_0000_0000_0000_0000u128) as u64)),
            None => Err(ClockError::BeforeEpoch),
        }
    }

    /// A generator that starts from the given state.
    pub fn from_seed(seed: u64) -> (rng: Rng)
        ensures
            rng@ == seed,
    {
        Rng { seed }
    }

    /// Advances the generator once and returns the new state.
    pub fn next(&mut self) -> (out: u64)
        ensures
            final(self)@ == lcg_step(old(self)@),
            out == final(self)@,
            out < MODULUS,
    {
        assert(MULTIPLIER * self.seed + INCREMENT <= u128::MAX) by (nonlinear_arith)
            requires
                MULTIPLIER == 6364136223846793005,
                INCREMENT == 1,
                self.seed <= u64::MAX,
        ;
        let wide: u128 = (MULTIPLIER as u128) * (self.seed as u128) + (INCREMENT as u128);
        let reduced: u128 = wide % (MODULUS as u128);
        self.seed = reduced as u64;
        self.seed
    }
}

/// The seed that a reading of the clock gives: the nanoseconds since the
/// Unix epoch reduced to 64 bits, and none where there is no such number.
pub open spec fn clock_seed(reading: Option<u128>) -> Option<u64> {
    match reading {
        Some(nanos) => Some((nanos % 0x1_0000_0000_0000_0000) as u64),
        None => None,
    }
}

} // verus!
