//! Trusted access to the process RNG for mask and key generation.

use vstd::prelude::*;

verus! {

/// Relies on rand::random: draws a value from the standard distribution.
/// Nothing is promised of the result; callers state what holds of every
/// outcome.
pub assume_specification<T>[ rand::random::<T> ]() -> (r: T)
    where
        rand::distr::StandardUniform: rand::distr::Distribution<T>,
;

} // verus!
