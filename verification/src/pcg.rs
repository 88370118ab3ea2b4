//! Expansion of a 64-bit scalar into a stream of well-mixed 32-bit words.
//!
//! Seeding an engine through its full-width byte path from a single 64-bit
//! value needs more seed material than the value itself supplies. The words
//! are drawn from a PCG32 generator stepped from the scalar, the convention
//! that `rand_core::SeedableRng::seed_from_u64` uses, so engines seeded here
//! agree with that ecosystem for the same scalar.

use vstd::prelude::*;
use vstd::wrapping::u64_specs;

verus! {

/// The multiplier of the PCG32 linear step.
pub const PCG_MUL: u64 = 6364136223846793005;

/// The increment of the PCG32 linear step.
pub const PCG_INC: u64 = 11634580027462260723;

/// `x` rotated right by `r` bits.
pub open spec fn rotr32(x: u32, r: u32) -> u32
    recommends
        r < 32,
{
    if r == 0 {
        x
    } else {
        (x >> r) | (x << ((32 - r) as u32))
    }
}

/// One linear step of the PCG32 state.
pub open spec fn pcg_advance(state: u64) -> u64 {
    u64_specs::wrapping_add(u64_specs::wrapping_mul(state, PCG_MUL), PCG_INC)
}

/// The output word of a PCG32 state: an xorshift followed by a
/// state-dependent rotation.
pub open spec fn pcg_output(state: u64) -> u32 {
    rotr32(((((state >> 18) ^ state) >> 27) & 0xffff_ffff) as u32, (state >> 59) as u32)
}

/// The PCG32 state after `i` linear steps from `seed`.
pub open spec fn pcg_state(seed: u64, i: nat) -> u64
    decreases i,
{
    if i == 0 {
        seed
    } else {
        pcg_advance(pcg_state(seed, (i - 1) as nat))
    }
}

/// The `i`-th word drawn from `seed`. The state advances before the first
/// output, so word `i` is the output of state `i + 1`.
pub open spec fn pcg_word(seed: u64, i: nat) -> u32 {
    pcg_output(pcg_state(seed, i + 1))
}

/// Advances the PCG32 state once and returns the output word of the new
/// state.
pub(crate) fn pcg_next(state: &mut u64) -> (w: u32)
    ensures
        *final(state) == pcg_advance(*old(state)),
        w == pcg_output(*final(state)),
{
    let s: u64 = (*state).wrapping_mul(PCG_MUL).wrapping_add(PCG_INC);
    *state = s;
    let xorshifted: u64 = ((s >> 18u64) ^ s) >> 27u64;
    assert((xorshifted & 0xffff_ffff) < 0x1_0000_0000) by (bit_vector);
    let lo: u32 = (xorshifted & 0xffff_ffff) as u32;
    assert((s >> 59u64) < 32) by (bit_vector);
    let rot: u32 = (s >> 59u64) as u32;
    if rot == 0 {
        lo
    } else {
        (lo >> rot) | (lo << (32u32 - rot))
    }
}

} // verus!
