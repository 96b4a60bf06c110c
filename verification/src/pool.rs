use vstd::prelude::*;

use crate::player::Player;
use crate::INIT_COUNT;

verus! {

/// A seed-holding cell in a player's row.
#[derive(Debug, PartialEq, Eq, Structural, Clone, Copy)]
pub struct Pond {
    pub player: Player,
    pub count: u32,
}

/// A player's scoring pit; seeds placed here only accumulate.
#[derive(Debug, PartialEq, Eq, Structural, Clone, Copy)]
pub struct Bank {
    pub player: Player,
    pub count: u32,
}

/// A cell of the board: either a pond or a bank.
#[derive(Debug, PartialEq, Eq, Structural, Clone, Copy)]
pub enum Pool {
    Pond(Pond),
    Bank(Bank),
}

impl Pond {
    /// Empty the pond, returning the seeds it held.
    pub fn take(&mut self) -> (r: u32)
        ensures
            r == old(self).count,
            final(self).count == 0,
            final(self).player == old(self).player,
    {
        let count = self.count;
        self.count = 0;
        count
    }
}

impl Pool {
    /// The player that owns this pool.
    pub open spec fn spec_player(&self) -> Player {
        match self {
            Pool::Pond(pond) => pond.player,
            Pool::Bank(bank) => bank.player,
        }
    }

    /// The seeds this pool currently holds.
    pub open spec fn spec_count(&self) -> u32 {
        match self {
            Pool::Pond(pond) => pond.count,
            Pool::Bank(bank) => bank.count,
        }
    }

    /// A fresh pond for `player`, holding the starting seed count.
    pub fn new_pond(player: Player) -> (r: Pool)
        ensures
            r == (Pool::Pond(Pond { player, count: INIT_COUNT })),
    {
        Pool::Pond(Pond { player, count: INIT_COUNT })
    }

    /// A fresh, empty bank for `player`.
    pub fn new_bank(player: Player) -> (r: Pool)
        ensures
            r == (Pool::Bank(Bank { player, count: 0 })),
    {
        Pool::Bank(Bank { player, count: 0 })
    }

    /// The seeds this pool currently holds.
    #[verifier::when_used_as_spec(spec_count)]
    pub fn count(&self) -> (r: u32)
        ensures
            r == self.spec_count(),
    {
        match *self {
            Pool::Pond(ref x) => x.count,
            Pool::Bank(ref x) => x.count,
        }
    }

    /// Empty the pool, returning the seeds it held.
    /// Only a pond may be emptied: banks are never sown from or captured.
    pub fn take(&mut self) -> (r: u32)
        requires
            *old(self) is Pond,
        ensures
            r == old(self).spec_count(),
            *final(self) == (Pool::Pond(Pond { player: old(self).spec_player(), count: 0 })),
    {
        match *self {
            Pool::Pond(pond) => {
                let mut pond = pond;
                let r = pond.take();
                *self = Pool::Pond(pond);
                r
            }
            Pool::Bank(_) => vstd::pervasive::unreached(),
        }
    }
}

} // verus!
