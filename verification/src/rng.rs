//! Trusted boundary to the `rand` crate: the engine's random generator.
//!
//! Everything random in the library flows through the two wrappers here, so
//! the verified code never depends on *which* values come out — only on the
//! two documented edge cases of a ratio of zero or one.
use vstd::prelude::*;
use rand::Rng;
use rand::SeedableRng;
use rand::rngs::SmallRng;

verus! {

/// Declares rand's `SmallRng` so that it can stand in fields and signatures;
/// its values are opaque to the verifier.
#[verifier::external_type_specification]
#[verifier::external_body]
pub struct ExSmallRng(SmallRng);

/// Relies on rand's `SmallRng::from_entropy`: a fresh generator seeded from
/// the operating system. Nothing is promised of the values it will yield.
#[verifier::external_body]
pub(crate) fn rng_from_entropy() -> SmallRng {
    SmallRng::from_entropy()
}

/// Relies on rand's `Rng::gen_ratio`: true with probability
/// `numerator / denominator`; its documentation guarantees `true` whenever
/// the ratio is one and `false` whenever the numerator is zero, and a panic
/// for a zero denominator or a ratio above one, which the precondition
/// rules out.
#[verifier::external_body]
pub(crate) fn coin(rng: &mut SmallRng, numerator: u32, denominator: u32) -> (alive: bool)
    requires
        0 < denominator,
        numerator <= denominator,
    ensures
        numerator == denominator ==> alive,
        numerator == 0 ==> !alive,
{
    rng.gen_ratio(numerator, denominator)
}

} // verus!
