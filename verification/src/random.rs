//! The stack's source of randomness.

use vstd::prelude::*;

verus! {

/// Draws a number with `rand::random::<u32>`.
///
/// Nothing is claimed of the result: each call may return any number. The
/// outside function fails only where the operating system gives it no seed,
/// on which it panics.
#[verifier::external_body]
pub(crate) fn random_u32() -> (draw: u32) {
    rand::random()
}

} // verus!
