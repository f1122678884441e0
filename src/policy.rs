//! How a difficulty level mixes the searched move with a random one.
use vstd::prelude::*;

verus! {

/// Out of `ROLL_RANGE` equally likely rolls, those below `EXPLORE_BELOW`
/// make the normal level play a random move: three times in ten.
pub const ROLL_RANGE: u32 = 100;

pub const EXPLORE_BELOW: u32 = 30;

/// Level 1 always plays the random move, level 2 plays it when the roll is
/// below `EXPLORE_BELOW`, every other level plays the searched move.
pub open spec fn plays_random(difficulty: usize, roll: u32) -> bool {
    difficulty == 1 || (difficulty == 2 && roll < EXPLORE_BELOW)
}

pub fn select_move<M>(difficulty: usize, random_move: M, best_move: M, roll: u32) -> (r: M)
    ensures
        r == if plays_random(difficulty, roll) {
            random_move
        } else {
            best_move
        },
{
    if difficulty == 1 {
        random_move
    } else if difficulty == 2 && roll < EXPLORE_BELOW {
        random_move
    } else {
        best_move
    }
}

} // verus!
