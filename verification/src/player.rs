use vstd::prelude::*;

verus! {

/// One of the two players, `A` or `B`.
#[derive(Debug, PartialEq, Eq, Structural, Clone, Copy)]
pub enum Player {
    A,
    B,
}

impl Player {
    /// The opponent of this player.
    pub open spec fn spec_next(&self) -> Player {
        match self {
            Player::A => Player::B,
            Player::B => Player::A,
        }
    }

    /// The opponent of this player: `A` and `B` map to each other.
    #[verifier::when_used_as_spec(spec_next)]
    pub fn next(&self) -> (r: Player)
        ensures
            r == self.spec_next(),
    {
        match *self {
            Player::A => Player::B,
            Player::B => Player::A,
        }
    }
}

} // verus!
