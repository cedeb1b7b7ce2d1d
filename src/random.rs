use rand::rngs::StdRng;
use rand::{Rng, SeedableRng};
use vstd::prelude::*;

verus! {

/// The seeded generator that initial boards are drawn from.
#[verifier::external_type_specification]
#[verifier::external_body]
pub struct ExStdRng(StdRng);

/// Relies on rand's `SeedableRng::seed_from_u64` for `StdRng`: a generator
/// whose whole stream is fixed by the seed. Nothing is stated of the stream.
#[verifier::external_body]
pub(crate) fn seeded_rng(seed: u64) -> (r: StdRng) {
    StdRng::seed_from_u64(seed)
}

/// Relies on rand's `Rng::gen_range(0, n)`: a value in `[0, n)`, which
/// panics unless `0 < n`.
#[verifier::external_body]
pub(crate) fn draw_below(rng: &mut StdRng, n: i32) -> (r: i32)
    requires
        0 < n,
    ensures
        0 <= r < n,
{
    rng.gen_range(0, n)
}

} // verus!
