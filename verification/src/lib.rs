//! Exhaustive, depth-limited minimax search for two-player, zero-sum,
//! perfect-information games.

use vstd::prelude::*;

pub mod game_tree;
pub mod policy;
pub mod theorems;
pub mod tic_tac_toe;

verus! {

/// Adds two machine-sized integers whose sum is representable.
pub fn add(left: usize, right: usize) -> (sum: usize)
    requires
        left + right <= usize::MAX,
    ensures
        sum == left + right,
{
    left + right
}

} // verus!
