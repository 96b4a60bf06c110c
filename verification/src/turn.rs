use vstd::prelude::*;

use crate::player::Player;

verus! {

/// The outcome of a finished game: a winner with both final scores, or a draw.
#[derive(Debug, PartialEq, Eq, Structural, Clone, Copy)]
pub enum GameResult {
    Winner { player: Player, score_a: u32, score_b: u32 },
    Draw { score: u32 },
}

/// Whose move is next, or the result of a finished game.
#[derive(Debug, PartialEq, Eq, Structural, Clone, Copy)]
pub enum Turn {
    Player(Player),
    Finished(GameResult),
}

impl Turn {
    /// The result a finished game reports for the given final bank totals:
    /// the higher total wins, equal totals draw.
    pub open spec fn spec_game_result(score_a: u32, score_b: u32) -> GameResult {
        if score_a > score_b {
            GameResult::Winner { player: Player::A, score_a, score_b }
        } else if score_b > score_a {
            GameResult::Winner { player: Player::B, score_a, score_b }
        } else {
            GameResult::Draw { score: score_a }
        }
    }

    /// Build the terminal turn for the given final bank totals.
    pub fn new_finished(score_a: u32, score_b: u32) -> (r: Turn)
        ensures
            r == (Turn::Finished(Turn::spec_game_result(score_a, score_b))),
    {
        let game_result = if score_a > score_b {
            GameResult::Winner { player: Player::A, score_a, score_b }
        } else if score_b > score_a {
            GameResult::Winner { player: Player::B, score_a, score_b }
        } else {
            GameResult::Draw { score: score_a }
        };
        Turn::Finished(game_result)
    }

    /// Whether the game has ended.
    pub open spec fn spec_is_finished(&self) -> bool {
        match self {
            Turn::Player(_) => false,
            Turn::Finished(_) => true,
        }
    }

    /// Whether the game has ended.
    #[verifier::when_used_as_spec(spec_is_finished)]
    pub fn is_finished(&self) -> (r: bool)
        ensures
            r == self.spec_is_finished(),
    {
        match *self {
            Turn::Player(_) => false,
            Turn::Finished(_) => true,
        }
    }

    /// The player to move; callers must first check that the game still runs.
    pub fn player(&self) -> (r: &Player)
        requires
            !self.spec_is_finished(),
        ensures
            *self == (Turn::Player(*r)),
    {
        match self {
            Turn::Player(player) => player,
            Turn::Finished(_) => vstd::pervasive::unreached(),
        }
    }

    /// The result of the game; callers must first check that it has finished.
    pub fn game_result(&self) -> (r: &GameResult)
        requires
            self.spec_is_finished(),
        ensures
            *self == (Turn::Finished(*r)),
    {
        match self {
            Turn::Player(_) => vstd::pervasive::unreached(),
            Turn::Finished(game_result) => game_result,
        }
    }
}

} // verus!
