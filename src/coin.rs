//! The source of the coin flips that seed a new universe.
use vstd::prelude::*;

verus! {

/// Relies on `rand::random::<bool>`, a fair coin drawn from the thread's
/// generator, which the operating system seeds. Nothing is known of the
/// value drawn.
#[verifier::external_body]
pub(crate) fn random_bool() -> (r: bool) {
    rand::random::<bool>()
}

} // verus!
