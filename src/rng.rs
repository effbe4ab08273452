use vstd::prelude::*;

verus! {

/// The state a generator starts from: the seed of a default `WyRng`.
pub const DEFAULT_SEED: u64 = 0;

/// The constant added to the state on every step.
pub const STEP: u64 = 0xa076_1d64_78bd_642f;

/// The constant mixed into the state to form an output.
pub const MIX: u64 = 0xe703_7ed1_a0b4_28db;

/// The state after one step: `state + STEP`, wrapping.
pub open spec fn rng_advance(state: u64) -> u64 {
    ((state as int + STEP as int) % 0x1_0000_0000_0000_0000) as u64
}

/// The high and low halves of the 128-bit product `a * b`, xored together.
pub open spec fn mum(a: u64, b: u64) -> u64 {
    let r = a as int * b as int;
    ((r / 0x1_0000_0000_0000_0000) as u64) ^ ((r % 0x1_0000_0000_0000_0000) as u64)
}

/// The output of the step that reached `state`.
pub open spec fn rng_output(state: u64) -> u64 {
    mum(state ^ MIX, state)
}

/// The 32-bit number drawn from a generator in `state`: the low half of the
/// next output.
pub open spec fn draw_of(state: u64) -> u32 {
    (rng_output(rng_advance(state)) % 0x1_0000_0000) as u32
}

/// Relies on wyhash::wyrng: it adds `STEP` to the state, wrapping, and
/// returns `wymum(state ^ MIX, state)` of the new state, where `wymum` xors
/// the two halves of the 128-bit product.
#[verifier::external_body]
fn wyrng_step(state: &mut u64) -> (r: u64)
    ensures
        *final(state) == rng_advance(*old(state)),
        r == rng_output(*final(state)),
{
    wyhash::wyrng(state)
}

/// Draw the next 32-bit number, as `WyRng::next_u32` does: the low half of
/// the next 64-bit output.
pub fn next_u32(state: &mut u64) -> (r: u32)
    ensures
        *final(state) == rng_advance(*old(state)),
        r == draw_of(*old(state)),
{
    let output = wyrng_step(state);
    (output % 0x1_0000_0000) as u32
}

} // verus!
