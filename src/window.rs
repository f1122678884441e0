//! The scoring policy shared by both games' evaluators: the value of one
//! four-cell window, from the counts of what the window holds.
use vstd::prelude::*;

verus! {

/// Score of a window that holds `own` cells for the scoring side, `opp`
/// cells against it, `empty` empty cells that can be played now or are
/// already supported, and `below` empty cells that still wait for support.
pub open spec fn window_value(own: int, opp: int, empty: int, below: int) -> int {
    if own > 0 && opp > 0 {
        0
    } else if own == 4 {
        1000000
    } else if own == 3 {
        50
    } else if own == 2 {
        2
    } else if opp == 3 && empty == 1 && own == 0 {
        -1000000
    } else if opp == 3 && below == 1 && own == 0 {
        -100
    } else if opp == 2 && own == 0 {
        -10
    } else {
        0
    }
}

/// Largest absolute value of one window's score.
pub const WINDOW_BOUND: i32 = 1000000;

pub fn window_score(own: u32, opp: u32, empty: u32, below: u32) -> (r: i32)
    ensures
        r == window_value(own as int, opp as int, empty as int, below as int),
        -WINDOW_BOUND <= r <= WINDOW_BOUND,
{
    if own > 0 && opp > 0 {
        0
    } else if own == 4 {
        1000000
    } else if own == 3 {
        50
    } else if own == 2 {
        2
    } else if opp == 3 && empty == 1 && own == 0 {
        -1000000
    } else if opp == 3 && below == 1 && own == 0 {
        -100
    } else if opp == 2 && own == 0 {
        -10
    } else {
        0
    }
}

/// A window that holds pieces of both sides is worth nothing to either.
pub proof fn lemma_mixed_window_is_zero(own: int, opp: int, empty: int, below: int)
    requires
        own > 0,
        opp > 0,
    ensures
        window_value(own, opp, empty, below) == 0,
        window_value(opp, own, empty, below) == 0,
{
}

/// Seen from the two sides, a window holding at most one piece scores as
/// the negation of itself. (A window with two or more pieces of one side
/// does not: two own pieces give 2, two opposing ones give -10.)
pub proof fn lemma_sparse_window_antisymmetric(own: int, opp: int, empty: int, below: int)
    requires
        0 <= own,
        0 <= opp,
        own + opp <= 1,
    ensures
        window_value(own, opp, empty, below) == -window_value(opp, own, empty, below),
{
}

} // verus!
