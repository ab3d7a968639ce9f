//! The pseudo-random source: a seedable ChaCha stream from the `rand_chacha`
//! crate, reached through a small trusted surface.
//!
//! ChaCha is a deterministic, portable stream cipher: for a fixed seed the
//! sequence of draws — and with it a whole generation run that consumes
//! them in a fixed order — is reproducible on every machine.

use vstd::prelude::*;
use rand::Rng;
use rand::SeedableRng;
use rand_chacha::ChaCha8Rng;

verus! {

/// Declares `rand_chacha::ChaCha8Rng` so generator values can flow through
/// verified code. The generator's state is opaque to verification; nothing
/// is assumed about the values it produces beyond the ranges stated on the
/// draws below.
#[verifier::external_type_specification]
#[verifier::external_body]
pub struct ExChaCha8Rng(ChaCha8Rng);

/// Relies on rand_core's `SeedableRng::seed_from_u64`: builds a generator
/// from a 64-bit seed. The construction never fails.
#[verifier::external_body]
pub(crate) fn rng_from_seed(seed: u64) -> ChaCha8Rng {
    ChaCha8Rng::seed_from_u64(seed)
}

/// Relies on rand's `Rng::gen_range` over the half-open range `lo..hi`: it
/// returns a value of that range, and panics only when the range is empty,
/// which the precondition excludes.
#[verifier::external_body]
pub(crate) fn gen_range_i32(rng: &mut ChaCha8Rng, lo: i32, hi: i32) -> (v: i32)
    requires
        lo < hi,
    ensures
        lo <= v < hi,
{
    rng.gen_range(lo..hi)
}

} // verus!
