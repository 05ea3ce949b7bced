//! The iterative deepening search strategy: a depth-limited search run again and again with
//! growing depth limits.
use vstd::prelude::*;

use super::{Depth, DepthLimitedSearch};
use crate::game::{Bowl, Position};
use crate::strategy::heuristic::Value;
use crate::strategy::Strategy;

verus! {

/// Runs a depth-limited search for every depth from one up to a maximum, and keeps the
/// bowl of the first search that found the best value. A maximum of zero still searches one
/// ply, and without a maximum the unlimited search runs once.
pub struct IterativeDeepeningSearch<S: DepthLimitedSearch> {
    max_depth: Depth,
    searcher: S,
}

impl<S: DepthLimitedSearch> IterativeDeepeningSearch<S> {
    /// The deepest search it runs.
    pub closed spec fn max_depth(&self) -> Depth {
        self.max_depth
    }

    /// Search with every depth from one up to `max_depth`.
    pub fn new(max_depth: Depth, searcher: S) -> (r: IterativeDeepeningSearch<S>)
        ensures
            r.max_depth() == max_depth,
    {
        IterativeDeepeningSearch { max_depth, searcher }
    }
}

impl<S: DepthLimitedSearch> Strategy for IterativeDeepeningSearch<S> {
    fn play(&mut self, position: &Position) -> (r: Option<Bowl>)
        ensures
            final(self).max_depth() == old(self).max_depth(),
    {
        proof {
            position@.lemma_has_options();
        }
        if self.max_depth == Depth::Infinite {
            // deepening without end settles on the unlimited search
            let (bowl, _) = self.searcher.search(position, &Depth::Infinite);
            return bowl;
        }
        let (mut best_bowl, mut best_value): (Option<Bowl>, Value) = (None, Value::NegativeInfinity);
        // one ply is always searched; the last depth has no successor to step to, so the
        // search stops one short of it
        let max_depth = match self.max_depth {
            Depth::Limit(limit) => if limit == 0 {
                Depth::Limit(1)
            } else if limit == usize::MAX {
                Depth::Limit(usize::MAX - 1)
            } else {
                Depth::Limit(limit)
            },
            Depth::Infinite => Depth::Limit(1),
        };
        let ghost last = max_depth->Limit_0;
        let mut depths = Depth::Limit(1).to(max_depth);
        loop
            invariant
                position.wf(),
                position@.options().len() > 0 <==> !position@.finished(),
                max_depth == Depth::Limit(last),
                1 <= last < usize::MAX,
                self.max_depth == old(self).max_depth,
                depths.limit() == max_depth,
                depths.current() is Limit,
                1 <= depths.current().rank() <= last + 1,
                depths.current().rank() == 1 ==> best_value == Value::NegativeInfinity,
                depths.current().rank() >= 2 && !position@.finished() ==> best_bowl is Some,
                depths.current().rank() >= 2 && !position@.finished() ==> best_value is Actual,
                best_bowl matches Some(b) ==> position@.playable(b as int),
            ensures
                position@.options().len() > 0 ==> best_bowl is Some,
                best_bowl matches Some(b) ==> position@.playable(b as int),
            decreases last + 1 - depths.current().rank(),
        {
            match depths.next() {
                Some(current_depth) => {
                    let (candidate_bowl, candidate_value) = self.searcher.search(
                        position,
                        &current_depth,
                    );
                    if candidate_value > best_value {
                        best_bowl = candidate_bowl;
                        best_value = candidate_value;
                    }
                },
                None => break,
            }
        }
        best_bowl
    }
}

} // verus!
