use vstd::prelude::*;

use crate::board::{
    spec_bank_idx, spec_choose_counts, spec_choose_finished, spec_choose_turn, spec_initial_counts,
    spec_pool_idx, spec_row_total, spec_total, spec_valid_move, Board,
};
use crate::error::Error;
use crate::player::Player;
use crate::turn::{GameResult, Turn};

verus! {

/// One running game: a board plus whose turn is next.
#[derive(Debug, Clone, Copy)]
pub struct Kalaha {
    pub board: Board,
    pub turn: Turn,
}

impl Kalaha {
    /// Well-formedness: the board has the right shape, and while the game
    /// runs neither row is empty, so the player to move has a valid move.
    pub open spec fn wf(&self) -> bool {
        &&& self.board.wf()
        &&& (self.turn matches Turn::Player(_) ==> spec_row_total(self.board.counts(), Player::A)
            > 0 && spec_row_total(self.board.counts(), Player::B) > 0)
    }

    /// The model of this game's board: its 14 seed counts.
    pub open spec fn counts(&self) -> Seq<int> {
        self.board.counts()
    }

    /// A fresh game: the initial board, player A to move.
    pub fn new() -> (r: Kalaha)
        ensures
            r.wf(),
            r.counts() == spec_initial_counts(),
            r.turn == (Turn::Player(Player::A)),
            spec_total(r.counts()) == 72,
    {
        let r = Kalaha { board: Board::new(), turn: Turn::Player(Player::A) };
        proof {
            assert(spec_row_total(r.counts(), Player::A) == 36);
            assert(spec_row_total(r.counts(), Player::B) == 36);
        }
        r
    }

    /// The game-level move check: a finished game rejects every move; then
    /// the board rejects an index outside the row, then an empty pond.
    pub fn valid_move(&self, pond: usize) -> (r: Result<(), Error>)
        ensures
            self.turn.spec_is_finished() ==> r == Err::<(), Error>(Error::GameFinished),
            self.turn matches Turn::Player(pl) && pond >= 6 ==> r == Err::<(), Error>(
                Error::InvalidIndex,
            ),
            self.turn matches Turn::Player(pl) && pond < 6 && self.counts()[spec_pool_idx(
                pl,
                pond as int,
            )] == 0 ==> r == Err::<(), Error>(Error::EmptyPool),
            r is Ok <==> (self.turn matches Turn::Player(pl) && spec_valid_move(
                self.counts(),
                pl,
                pond as int,
            )),
    {
        match self.turn {
            Turn::Finished(_) => Err(Error::GameFinished),
            Turn::Player(player) => self.board.valid_move(&player, pond),
        }
    }

    /// Seeds in `player`'s bank.
    pub fn bank(&self, player: &Player) -> (r: u32)
        ensures
            r as int == self.counts()[spec_bank_idx(*player)],
    {
        self.board.bank_count(player)
    }

    /// The six pond counts of `player`'s row, in row order.
    pub fn ponds(&self, player: &Player) -> (r: [u32; 6])
        ensures
            forall|j: int| 0 <= j < 6 ==> #[trigger] r[j] as int == self.counts()[spec_pool_idx(
                *player,
                j,
            )],
    {
        let base: usize = match *player {
            Player::A => 0,
            Player::B => 7,
        };
        [
            self.board.pools[base].count(),
            self.board.pools[base + 1].count(),
            self.board.pools[base + 2].count(),
            self.board.pools[base + 3].count(),
            self.board.pools[base + 4].count(),
            self.board.pools[base + 5].count(),
        ]
    }

    /// The player to move; the game must still be running.
    pub fn current_player(&self) -> (r: &Player)
        requires
            !self.turn.spec_is_finished(),
        ensures
            self.turn == (Turn::Player(*r)),
    {
        self.turn.player()
    }

    /// Whether the game has ended.
    pub fn is_finished(&self) -> (r: bool)
        ensures
            r == self.turn.spec_is_finished(),
    {
        self.turn.is_finished()
    }

    /// The result of the game; it must have finished.
    pub fn game_result(&self) -> (r: &GameResult)
        requires
            self.turn.spec_is_finished(),
        ensures
            self.turn == (Turn::Finished(*r)),
    {
        self.turn.game_result()
    }

    /// Play `pond` for the player to move and store the turn that results.
    /// Callers must have validated the move first.
    pub fn choose_pond(&mut self, pond: usize)
        requires
            old(self).wf(),
            old(self).turn matches Turn::Player(pl) && spec_valid_move(
                old(self).counts(),
                pl,
                pond as int,
            ),
            spec_total(old(self).counts()) <= u32::MAX,
        ensures
            final(self).wf(),
            spec_total(final(self).counts()) == spec_total(old(self).counts()),
            old(self).turn matches Turn::Player(pl) ==> final(self).counts()
                == spec_choose_counts(old(self).counts(), pl, pond as int) && final(self).turn
                == spec_choose_turn(old(self).counts(), pl, pond as int) && (final(self)
                .turn.spec_is_finished() <==> spec_choose_finished(
                old(self).counts(),
                pl,
                pond as int,
            )),
    {
        let player: Player = match self.turn {
            Turn::Player(pl) => pl,
            Turn::Finished(_) => vstd::pervasive::unreached(),
        };
        let t = self.board.choose_pond(&player, pond);
        self.turn = t;
    }
}

} // verus!
