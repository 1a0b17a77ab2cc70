//! Random identifiers for a new RTP session.
//!
//! The generator is `rand`'s `StdRng`. Nothing here is proved: the items
//! below are the boundary to that crate.
use rand::rngs::{OsRng, StdRng};
use rand::{Rng, SeedableRng};
use vstd::prelude::*;

verus! {

/// `rand::rngs::StdRng`, carried through without looking inside.
#[verifier::external_type_specification]
#[verifier::external_body]
pub struct ExStdRng(StdRng);

/// The sequence number and the SSRC that a `StdRng` seeded with `seed` hands
/// out, in that order, as its first two values. The generator is that of the
/// version of `rand` that the crate is built with; another version may hand
/// out other values.
pub uninterp spec fn seeded_identifiers(seed: u64) -> (u16, u32);

/// Seeds `rand::rngs::StdRng` through `SeedableRng::seed_from_u64` and draws a
/// `u16` and then a `u32` from it with `Rng::gen`.
///
/// The generator is deterministic: the contract only gives the pair a name, so
/// that equal seeds are known to give equal pairs.
#[verifier::external_body]
pub(crate) fn draw_seeded(seed: u64) -> (ids: (u16, u32))
    ensures
        ids == seeded_identifiers(seed),
{
    let mut rng = StdRng::seed_from_u64(seed);
    let sequence_number: u16 = rng.gen();
    let ssrc: u32 = rng.gen();
    (sequence_number, ssrc)
}

/// Seeds `rand::rngs::StdRng` from the operating system through
/// `SeedableRng::from_rng` with `rand::rngs::OsRng`. That call reports a
/// source without randomness as an error, which comes back here as `None`.
/// Nothing is promised of when it succeeds.
#[verifier::external_body]
pub(crate) fn entropy_rng() -> (rng: Option<StdRng>) {
    match StdRng::from_rng(OsRng) {
        Ok(rng) => Some(rng),
        Err(_) => None,
    }
}

/// Draws a `u16` and then a `u32` from a generator with `Rng::gen`. Nothing
/// is promised of the pair.
#[verifier::external_body]
pub(crate) fn draw_identifiers(rng: StdRng) -> (ids: (u16, u32)) {
    let mut rng = rng;
    let sequence_number: u16 = rng.gen();
    let ssrc: u32 = rng.gen();
    (sequence_number, ssrc)
}

} // verus!
