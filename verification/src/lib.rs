pub mod ai;
pub mod board;
pub mod error;
pub mod kalaha;
pub mod player;
pub mod pool;
pub mod turn;

pub use crate::kalaha::Kalaha;

use vstd::prelude::*;

verus! {

/// Seeds in each pond at the start of a game.
pub const INIT_COUNT: u32 = 6;

/// Ponds in each player's row.
pub const PONDS_PER_PLAYER: usize = 6;

/// Pools on the board: two rows of six ponds and the two banks.
pub const TOTAL_POOLS: usize = 14;

} // verus!
