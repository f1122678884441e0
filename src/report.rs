//! The record of a finished game that is handed to whoever keeps the
//! scores, and the credentials of a player.
use vstd::prelude::*;
use crate::connect4::{C4Piece, Connect4};
use crate::opponent::{level, Opponent};
use crate::toot_and_otto::{Player, TootAndOtto};

verus! {

/// Game kind of a four-in-a-row game.
pub const MODE_CONNECT4: u8 = 0;

/// Game kind of a TOOT and OTTO game.
pub const MODE_TOOT: u8 = 1;

/// Outcomes, seen from the person who plays the first side.
pub const RESULT_LOSS: u8 = 0;

pub const RESULT_WIN: u8 = 1;

pub const RESULT_TIE: u8 = 2;

/// A finished game: who played it, which game (`MODE_*`), how it ended for
/// the first side (`RESULT_*`), and `human_flag` 1 where the second side was
/// a person, 0 where it was the computer.
#[derive(Debug)]
pub struct ScoreUpdate {
    pub username: String,
    pub mode: u8,
    pub result: u8,
    pub human_flag: u8,
}

#[derive(Debug)]
pub struct User {
    pub username: String,
    pub password: String,
}

/// Outcome of a four-in-a-row game for the first side; `None` while it runs.
pub open spec fn connect4_outcome(over: bool, winner: Option<C4Piece>) -> Option<u8> {
    if !over {
        None
    } else {
        match winner {
            Some(C4Piece::P1) => Some(RESULT_WIN),
            Some(C4Piece::P2) => Some(RESULT_LOSS),
            None => Some(RESULT_TIE),
        }
    }
}

/// Outcome of a TOOT and OTTO game for side TOOT; `None` while it runs.
pub open spec fn toot_outcome(over: bool, winner: Option<Player>) -> Option<u8> {
    if !over {
        None
    } else {
        match winner {
            Some(Player::TOOT) => Some(RESULT_WIN),
            Some(Player::OTTO) => Some(RESULT_LOSS),
            None => Some(RESULT_TIE),
        }
    }
}

fn human_flag_of(opponent: Opponent) -> (r: u8)
    ensures
        r == if level(opponent) == 0 { 1u8 } else { 0u8 },
{
    match opponent {
        Opponent::Human => 1,
        _ => 0,
    }
}

/// The record of a finished four-in-a-row game; `None` while it runs.
pub fn connect4_report(username: String, game: &Connect4, opponent: Opponent) -> (r: Option<ScoreUpdate>)
    ensures
        r.is_some() == game.termination,
        r matches Some(u) ==> {
            &&& u.username == username
            &&& u.mode == MODE_CONNECT4
            &&& Some(u.result) == connect4_outcome(game.termination, game.winner)
            &&& u.human_flag == if level(opponent) == 0 { 1u8 } else { 0u8 }
        },
{
    if !game.termination {
        return None;
    }
    let result = match game.winner {
        Some(C4Piece::P1) => RESULT_WIN,
        Some(C4Piece::P2) => RESULT_LOSS,
        None => RESULT_TIE,
    };
    Some(ScoreUpdate { username, mode: MODE_CONNECT4, result, human_flag: human_flag_of(opponent) })
}

/// The record of a finished TOOT and OTTO game; `None` while it runs.
pub fn toot_report(username: String, game: &TootAndOtto, opponent: Opponent) -> (r: Option<ScoreUpdate>)
    ensures
        r.is_some() == game.termination,
        r matches Some(u) ==> {
            &&& u.username == username
            &&& u.mode == MODE_TOOT
            &&& Some(u.result) == toot_outcome(game.termination, game.winner)
            &&& u.human_flag == if level(opponent) == 0 { 1u8 } else { 0u8 }
        },
{
    if !game.termination {
        return None;
    }
    let result = match game.winner {
        Some(Player::TOOT) => RESULT_WIN,
        Some(Player::OTTO) => RESULT_LOSS,
        None => RESULT_TIE,
    };
    Some(ScoreUpdate { username, mode: MODE_TOOT, result, human_flag: human_flag_of(opponent) })
}

} // verus!
