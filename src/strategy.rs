//! Various strategies for playing Mancala
use vstd::prelude::*;

pub mod heuristic;
pub mod naive;
pub mod tree;

pub use self::heuristic::{Heuristic, Value};
pub use self::naive::{First, Random};
pub use self::tree::{AlphaBeta, MinMax, MonteCarlo};

use crate::game::{Bowl, Position};

verus! {

/// A strategy for playing Mancala
pub trait Strategy {
    /// Return the play for this position: a bowl of the player to move that holds stones.
    /// Nothing is returned only when there is no such bowl.
    fn play(&mut self, position: &Position) -> (r: Option<Bowl>)
        requires
            position.wf(),
        ensures
            r matches Some(b) ==> position@.playable(b as int),
            position@.options().len() > 0 ==> r is Some,
    ;
}

} // verus!
