//! The one nondeterministic ingredient: a fair coin for measurement.
//!
//! Measurement logic is verified for every value the coin can take; the
//! deterministic variants of the measurement routines accept the coin as
//! an argument, so tests can fix outcomes.

use vstd::prelude::*;

verus! {

/// Relies on rand::random_ratio: a draw from the thread-local generator
/// with probability 1/2; with numerator 1 and denominator 2 it cannot
/// panic.  Nothing is promised of the result: callers are verified for
/// both outcomes.
#[verifier::external_body]
pub fn coin_flip() -> bool {
    rand::random_ratio(1, 2)
}

} // verus!
