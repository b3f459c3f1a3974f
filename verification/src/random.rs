//! Random nonces, drawn from the `rand` crate's thread-local generator.

use rand::Rng;
use vstd::prelude::*;

verus! {

/// The handle to the thread-local generator. Nothing is known of its state.
#[verifier::external_type_specification]
#[verifier::external_body]
pub struct ExThreadRng(rand::rngs::ThreadRng);

/// `rand::rng`: a handle to the thread-local generator. Nothing is promised
/// of it. The generator is seeded from the operating system at a thread's
/// first call, which fails only where the system has no entropy source.
pub assume_specification[ rand::rng ]() -> (rng: rand::rngs::ThreadRng)
;

/// `Rng::fill` on a 16-byte block: 16 bytes from the generator. Which bytes
/// come is a matter of chance, so nothing is promised of them.
#[verifier::external_body]
pub(crate) fn draw_nonce(rng: &mut rand::rngs::ThreadRng) -> (nonce: [u8; 16])
{
    let mut nonce = [0u8; 16];
    rng.fill(&mut nonce);
    nonce
}

} // verus!
