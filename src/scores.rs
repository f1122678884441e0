//! How a finished game changes a player's stored statistics: which counter
//! grows, and by how much the score and the rank move.
use vstd::prelude::*;
use crate::report::{MODE_CONNECT4, MODE_TOOT, RESULT_LOSS, RESULT_WIN};

verus! {

/// Largest rank that a stored record may hold; a rank outside `1..=RANK_LIMIT`
/// is read as 1.
pub const RANK_LIMIT: i32 = 100000;

/// Rank given to a new player.
pub const START_RANK: i32 = 100000;

/// Increments to apply to one game's statistics of a player.
#[derive(Copy, Clone, Debug, PartialEq, Eq, Structural)]
pub struct ScoreDelta {
    pub win_count: i32,
    pub lose_count: i32,
    pub tie_count: i32,
    pub score: i32,
    pub rank: i32,
}

/// What a reported game does to the stored statistics.
#[derive(Copy, Clone, Debug, PartialEq, Eq, Structural)]
pub enum ScoreAction {
    /// A game between two people leaves the statistics alone.
    Skip,
    /// The report names no known game.
    UnknownMode,
    /// Add the delta to the statistics of game `mode`.
    Apply(u8, ScoreDelta),
}

/// A win counts one win, +5 score, -5 rank; a loss one loss, -3 score, -1
/// rank; anything else one tie, +2 score, -2 rank.
pub open spec fn delta_of(result: u8) -> ScoreDelta {
    if result == RESULT_WIN {
        ScoreDelta { win_count: 1, lose_count: 0, tie_count: 0, score: 5, rank: -5i32 }
    } else if result == RESULT_LOSS {
        ScoreDelta { win_count: 0, lose_count: 1, tie_count: 0, score: -3i32, rank: -1i32 }
    } else {
        ScoreDelta { win_count: 0, lose_count: 0, tie_count: 1, score: 2, rank: -2i32 }
    }
}

pub fn score_delta(result: u8) -> (r: ScoreDelta)
    ensures
        r == delta_of(result),
{
    if result == RESULT_WIN {
        ScoreDelta { win_count: 1, lose_count: 0, tie_count: 0, score: 5, rank: -5 }
    } else if result == RESULT_LOSS {
        ScoreDelta { win_count: 0, lose_count: 1, tie_count: 0, score: -3, rank: -1 }
    } else {
        ScoreDelta { win_count: 0, lose_count: 0, tie_count: 1, score: 2, rank: -2 }
    }
}

/// The change that a report `(mode, result, human_flag)` asks for: none for
/// a game against a person (`human_flag` 1), none for an unknown game kind,
/// else the delta of the result for that game.
pub fn score_action(mode: u8, result: u8, human_flag: u8) -> (r: ScoreAction)
    ensures
        human_flag == 1 ==> r == ScoreAction::Skip,
        human_flag != 1 && mode != MODE_CONNECT4 && mode != MODE_TOOT ==> r == ScoreAction::UnknownMode,
        human_flag != 1 && (mode == MODE_CONNECT4 || mode == MODE_TOOT) ==> r == ScoreAction::Apply(
            mode,
            delta_of(result),
        ),
{
    if human_flag == 1 {
        ScoreAction::Skip
    } else if mode == MODE_CONNECT4 || mode == MODE_TOOT {
        ScoreAction::Apply(mode, score_delta(result))
    } else {
        ScoreAction::UnknownMode
    }
}

/// The rank to show for a stored rank, and whether the stored value must be
/// rewritten: ranks outside `1..=RANK_LIMIT` become 1.
pub fn normalized_rank(stored: i32) -> (r: (i32, bool))
    ensures
        r.1 == (stored <= 0 || stored > RANK_LIMIT),
        r.0 == if r.1 { 1 } else { stored },
{
    if stored <= 0 || stored > RANK_LIMIT {
        (1, true)
    } else {
        (stored, false)
    }
}

} // verus!
