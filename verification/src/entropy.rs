//! The source of random bytes.
//!
//! Everything here is taken on trust from the `rand` crate. Nothing is claimed about the bytes
//! that come back: the random instruction is specified for every byte.
use rand::rngs::ThreadRng;
use rand::Rng;
use vstd::prelude::*;

verus! {

/// `rand::rngs::ThreadRng`, carried as an opaque value.
#[verifier::external_type_specification]
#[verifier::external_body]
pub struct ExThreadRng(ThreadRng);

/// `rand::rng`: a handle to the generator of the current thread. Nothing is claimed of it. The
/// call fails only where the operating system cannot seed the generator.
#[verifier::external_body]
pub(crate) fn thread_rng() -> (rng: ThreadRng) {
    rand::rng()
}

/// `Rng::random::<u8>`: the next byte of the generator. Nothing is claimed of its value.
#[verifier::external_body]
pub(crate) fn random_byte(rng: &mut ThreadRng) -> (byte: u8) {
    rng.random()
}

} // verus!
