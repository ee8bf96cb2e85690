//! What a distribution is to the sampler. The distributions themselves
//! (Bernoulli, Poisson, and whatever a model imports) are written by their
//! users: the sampler asks only that one can be drawn from.

use vstd::prelude::*;

verus! {

/// A distribution over `Domain` from which a value can be drawn with a random
/// source of type `R`.
///
/// Nothing is claimed of the value drawn: it is the distribution's own affair,
/// and chance's.
pub trait Distribution<R: ?Sized> {
    type Domain;

    /// Draws one value, using `rng` as the source of randomness.
    fn sample(&self, rng: &mut R) -> Self::Domain;
}

} // verus!
