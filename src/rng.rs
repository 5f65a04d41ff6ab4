use vstd::prelude::*;
use rand_chacha::ChaCha20Rng;
use rand_core::SeedableRng;
use ark_ff::PrimeField;
use ark_std::UniformRand;
use ark_bls12_381::Fr;
use crate::field::{modulus, Scalar};

verus! {

#[verifier::external_type_specification]
#[verifier::external_body]
pub struct ExChaCha20Rng(ChaCha20Rng);

/// The `k`-th scalar that `UniformRand::rand` draws from a ChaCha20 stream
/// keyed by `seed`.
pub uninterp spec fn scalar_draw_of(seed: Seq<u8>, k: int) -> int;

/// A cryptographically secure random source, ChaCha20 keyed by a 32-byte
/// seed. The caller draws the seed from the operating system; a fixed seed
/// belongs in tests only. It is modelled by its seed and the number of
/// scalars drawn so far.
pub struct SecureRng {
    inner: ChaCha20Rng,
    seed: Ghost<Seq<u8>>,
    pos: Ghost<int>,
}

/// Relies on `SeedableRng::from_seed` for `ChaCha20Rng`.
#[verifier::external_body]
fn chacha_from_seed(seed: [u8; 32]) -> (r: ChaCha20Rng) {
    ChaCha20Rng::from_seed(seed)
}

impl SecureRng {
    /// The seed that keys the stream.
    pub closed spec fn seed(&self) -> Seq<u8> {
        self.seed@
    }

    /// The number of scalars drawn so far.
    pub closed spec fn pos(&self) -> int {
        self.pos@
    }

    pub fn from_seed(seed: [u8; 32]) -> (r: SecureRng)
        ensures
            r.seed() == seed@,
            r.pos() == 0,
    {
        SecureRng { inner: chacha_from_seed(seed), seed: Ghost(seed@), pos: Ghost(0) }
    }

    /// Relies on `UniformRand::rand` for `Fr`: a uniform field element. A
    /// ChaCha20 stream is a function of its seed, and every draw from a
    /// `SecureRng` goes through here, so the draw is the one at the
    /// generator's position in the stream of its seed.
    #[verifier::external_body]
    pub fn next_scalar(&mut self) -> (r: Scalar)
        ensures
            0 <= r@ < modulus(),
            r@ == scalar_draw_of(old(self).seed(), old(self).pos()),
            final(self).seed() == old(self).seed(),
            final(self).pos() == old(self).pos() + 1,
    {
        Scalar { limbs: Fr::rand(&mut self.inner).into_bigint().0 }
    }
}

} // verus!
