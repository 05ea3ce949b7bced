//! The Monte Carlo strategy: for now it searches the game tree as the alpha-beta strategy
//! does, with a depth budget and a heuristic.
//!
//! ```
//! use mancala::strategy::tree::{MonteCarlo, Depth};
//! use mancala::strategy::tree::mcts::delta;
//!
//! let strategy = MonteCarlo::strategy().limited_to(Depth::Limit(5)).with_heuristic(delta()).build();
//! ```
use vstd::prelude::*;

use super::alphabeta::{lemma_alpha_beta_plays, pruned};
use super::{Depth, DepthLimitedSearch};
use crate::game::{Bowl, Position};
use crate::strategy::heuristic::{Heuristic, Value};
use crate::strategy::Strategy;

pub use super::alphabeta::alpha_beta;
pub use crate::strategy::heuristic::{delta, Delta};

verus! {

/// Build MonteCarlo strategy instances
pub struct MonteCarloBuilder<H: Heuristic> {
    search_depth: Depth,
    heuristic: H,
}

impl<H: Heuristic> MonteCarloBuilder<H> {
    /// The depth budget the strategy will have.
    pub closed spec fn depth(&self) -> Depth {
        self.search_depth
    }

    /// The heuristic the strategy will use.
    pub closed spec fn rule(&self) -> H {
        self.heuristic
    }

    /// Build a MonteCarlo strategy
    pub fn build(self) -> (r: MonteCarlo<H>)
        ensures
            r.depth() == self.depth(),
            r.rule() == self.rule(),
    {
        MonteCarlo { search_depth: self.search_depth, heuristic: self.heuristic }
    }

    /// limited to a certain search depth
    pub fn limited_to(self, search_depth: Depth) -> (r: MonteCarloBuilder<H>)
        ensures
            r.depth() == search_depth,
            r.rule() == self.rule(),
    {
        MonteCarloBuilder { search_depth, heuristic: self.heuristic }
    }

    /// with a certain heuristic
    pub fn with_heuristic<G: Heuristic>(self, heuristic: G) -> (r: MonteCarloBuilder<G>)
        ensures
            r.depth() == self.depth(),
            r.rule() == heuristic,
    {
        MonteCarloBuilder { search_depth: self.search_depth, heuristic }
    }
}

/// Pick the option that maximizes wins.
pub struct MonteCarlo<H: Heuristic> {
    search_depth: Depth,
    heuristic: H,
}

impl<H: Heuristic> MonteCarlo<H> {
    /// The depth budget of the search.
    pub closed spec fn depth(&self) -> Depth {
        self.search_depth
    }

    /// The heuristic the search uses where the budget runs out.
    pub closed spec fn rule(&self) -> H {
        self.heuristic
    }
}

impl MonteCarlo<Delta> {
    /// Create a default MonteCarloBuilder
    ///
    /// It has an unlimited search depth and the Delta heuristic.
    pub fn strategy() -> (r: MonteCarloBuilder<Delta>)
        ensures
            r.depth() == Depth::Infinite,
    {
        MonteCarloBuilder { search_depth: Depth::Infinite, heuristic: delta() }
    }
}

impl<H: Heuristic> Strategy for MonteCarlo<H> {
    fn play(&mut self, position: &Position) -> (r: Option<Bowl>)
        ensures
            r == pruned(
                position@,
                Value::NegativeInfinity,
                Value::PositiveInfinity,
                old(self).depth().at_least_one(),
                old(self).rule(),
            ).0,
            final(self).depth() == old(self).depth(),
            final(self).rule() == old(self).rule(),
    {
        // a spent budget still searches one ply, so that a play is always found
        let search_depth = if self.search_depth.is_zero() {
            Depth::Limit(1)
        } else {
            self.search_depth
        };
        proof {
            position@.lemma_has_options();
        }
        let (bowl, _) = self.search(position, &search_depth);
        bowl
    }
}

impl<H: Heuristic> DepthLimitedSearch for MonteCarlo<H> {
    fn search(&mut self, position: &Position, search_depth: &Depth) -> (r: (Option<Bowl>, Value))
        ensures
            r == pruned(
                position@,
                Value::NegativeInfinity,
                Value::PositiveInfinity,
                *search_depth,
                old(self).rule(),
            ),
            final(self).depth() == old(self).depth(),
            final(self).rule() == old(self).rule(),
    {
        proof {
            if !position@.finished() && !search_depth.spec_is_zero() {
                lemma_alpha_beta_plays(position@, *search_depth, self.heuristic);
            }
        }
        alpha_beta(
            position,
            Value::NegativeInfinity,
            Value::PositiveInfinity,
            search_depth,
            &self.heuristic,
        )
    }
}

} // verus!
