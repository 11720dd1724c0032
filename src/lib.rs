//! Tic-tac-toe: the game state with its placement and retraction primitives,
//! and an exhaustive negamax search that picks the best move for the side to move.
use vstd::prelude::*;

pub mod game;
pub mod search;

verus! {

} // verus!
