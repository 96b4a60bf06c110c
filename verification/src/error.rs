use vstd::prelude::*;

verus! {

/// A recoverable fault reported by move validation.
#[derive(Debug, PartialEq, Eq, Structural, Clone, Copy)]
pub enum Error {
    /// The chosen pond holds no seeds.
    EmptyPool,
    /// The pond index lies outside a player's row.
    InvalidIndex,
    /// A move was attempted after the game reached a terminal state.
    GameFinished,
    /// A requested operation has no implementation.
    NotImplemented,
}

} // verus!
