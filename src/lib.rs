//! Two gravity-fed connection board games, four-in-a-row and the letter game
//! TOOT and OTTO, with a depth-limited minimax opponent for each.
use vstd::prelude::*;

pub mod con4_ai;
pub mod connect4;
pub mod opponent;
pub mod policy;
mod random;
pub mod report;
pub mod scores;
pub mod toot_ai;
pub mod toot_and_otto;
pub mod window;

verus! {

} // verus!
