//! The crate's single tie to the random number generator.

use vstd::prelude::*;

verus! {

/// Relies on `rand::random`: draws one value of `T` from the thread-local
/// generator. Nothing is promised of the result — every caller must cope with
/// any value of the type, which is exactly what randomized construction needs.
pub assume_specification<T>[ rand::random::<T> ]() -> (r: T)
    where
        rand::distributions::Standard: rand::distributions::Distribution<T>,
;

} // verus!
