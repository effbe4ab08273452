use vstd::prelude::*;

pub mod board;
pub mod codec;
pub mod colour;
pub mod game_board;
pub mod rng;
pub mod score_board;

verus! {

/// Adds one to `n`.
pub fn add_one(n: i32) -> (r: i32)
    requires
        n < i32::MAX,
    ensures
        r == n + 1,
{
    n + 1
}

} // verus!
