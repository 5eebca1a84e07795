//! The seeded generator that faults are drawn from.

use rand::rngs::StdRng;
use rand::{Rng, SeedableRng};

use vstd::prelude::*;

verus! {

#[verifier::external_type_specification]
#[verifier::external_body]
pub struct ExStdRng(StdRng);

/// The bytes of a generator's state: all that its next draws depend on.
pub uninterp spec fn rng_state(rng: StdRng) -> Seq<u8>;

/// The state that `StdRng::seed_from_u64` starts from.
pub uninterp spec fn rng_seeded(seed: u64) -> Seq<u8>;

/// What `gen_range` over the `i32` range from zero to `bound` draws from a
/// state, and the state that it leaves.
pub uninterp spec fn rng_draw_i32(state: Seq<u8>, bound: i32) -> (i32, Seq<u8>);

/// What `gen_range` over the `usize` range from zero to `bound` draws from a
/// state, and the state that it leaves, on a machine whose words have
/// `word_bits` bits.
pub uninterp spec fn rng_draw_usize(state: Seq<u8>, bound: usize, word_bits: u32) -> (
    usize,
    Seq<u8>,
);

/// `SeedableRng::seed_from_u64` of `StdRng`: a generator whose state is a
/// function of the seed alone.
#[verifier::external_body]
pub(crate) fn seeded_rng(seed: u64) -> (res: StdRng)
    ensures
        rng_state(res) == rng_seeded(seed),
{
    StdRng::seed_from_u64(seed)
}

/// `Rng::gen_range` over `0..bound` in `i32`: a value of that range. It and
/// the state that the generator is left in are functions of the state before
/// and the bound.
#[verifier::external_body]
pub(crate) fn draw_i32(rng: &mut StdRng, bound: i32) -> (res: i32)
    requires
        0 < bound,
    ensures
        0 <= res < bound,
        (res, rng_state(*final(rng))) == rng_draw_i32(rng_state(*old(rng)), bound),
{
    rng.gen_range(0..bound)
}

/// `Rng::gen_range` over `0..bound` in `usize`: a value of that range. It and
/// the state that the generator is left in are functions of the state before,
/// the bound and the machine's word size, which decides how many bits are
/// drawn.
#[verifier::external_body]
pub(crate) fn draw_usize(rng: &mut StdRng, bound: usize) -> (res: usize)
    requires
        0 < bound,
    ensures
        0 <= res < bound,
        (res, rng_state(*final(rng))) == rng_draw_usize(
            rng_state(*old(rng)),
            bound,
            usize::BITS,
        ),
{
    rng.gen_range(0..bound)
}

} // verus!
