//! Various tree strategies for playing Mancala
use vstd::prelude::*;

pub mod alphabeta;
pub mod ids;
pub mod mcts;
pub mod minmax;

pub use self::alphabeta::AlphaBeta;
pub use self::mcts::MonteCarlo;
pub use self::minmax::MinMax;

use crate::game::{Bowl, Position};
use crate::strategy::heuristic::Value;
use core::cmp::Ordering;

verus! {

/// Determine the search depth of tree algorithms
///
/// Depths are ordered with `Infinite` first, then the limits by their count.
#[derive(Clone, Copy, Debug, PartialEq, Eq, Structural)]
pub enum Depth {
    /// No limit on the search depth
    Infinite,
    /// Limit the search depth
    Limit(usize),
}

impl Depth {
    /// Where the depth stands in the order of depths.
    pub open spec fn rank(self) -> int {
        match self {
            Depth::Infinite => -1,
            Depth::Limit(depth) => depth as int,
        }
    }

    pub open spec fn spec_is_zero(&self) -> bool {
        self == Depth::Limit(0)
    }

    pub open spec fn spec_decrement(&self) -> Depth {
        match self {
            Depth::Infinite => Depth::Infinite,
            Depth::Limit(depth) => if depth == 0 {
                Depth::Limit(0)
            } else {
                Depth::Limit((depth - 1) as usize)
            },
        }
    }

    pub open spec fn spec_increment(&self) -> Depth {
        match self {
            Depth::Infinite => Depth::Infinite,
            Depth::Limit(depth) => Depth::Limit((depth + 1) as usize),
        }
    }

    /// Determine if we can go any deeper.
    #[verifier::when_used_as_spec(spec_is_zero)]
    pub fn is_zero(&self) -> (r: bool)
        ensures
            r == self.spec_is_zero(),
    {
        match self {
            Depth::Infinite => false,
            Depth::Limit(depth) => *depth == 0usize,
        }
    }

    /// Return preceding depth.
    #[verifier::when_used_as_spec(spec_decrement)]
    pub fn decrement(&self) -> (r: Depth)
        ensures
            r == self.spec_decrement(),
    {
        match self {
            Depth::Infinite => Depth::Infinite,
            Depth::Limit(depth) => {
                if *depth == 0 {
                    Depth::Limit(0)
                } else {
                    Depth::Limit(depth - 1)
                }
            },
        }
    }

    /// Return succeding depth.
    #[verifier::when_used_as_spec(spec_increment)]
    pub fn increment(&self) -> (r: Depth)
        requires
            *self != Depth::Limit(usize::MAX),
        ensures
            r == self.spec_increment(),
    {
        match self {
            Depth::Infinite => Depth::Infinite,
            Depth::Limit(depth) => Depth::Limit(depth + 1),
        }
    }

    /// The depth a strategy searches with when given this budget: at least one ply.
    pub open spec fn at_least_one(self) -> Depth {
        if self.spec_is_zero() {
            Depth::Limit(1)
        } else {
            self
        }
    }

    /// The depths that `to` visits from `self` up to `limit`, when there are finitely many.
    pub open spec fn span(self, limit: Depth) -> Seq<Depth> {
        match (self, limit) {
            (Depth::Limit(from), Depth::Limit(to)) => if from <= to {
                Seq::new((to - from + 1) as nat, |i: int| Depth::Limit((from + i) as usize))
            } else {
                Seq::empty()
            },
            _ => Seq::empty(),
        }
    }

    /// Return an iterator that will visit every depth between self and limit (inclusive).
    pub fn to(&self, limit: Depth) -> (r: DepthIterator)
        ensures
            r.current() == *self,
            r.limit() == limit,
    {
        DepthIterator { current: *self, limit }
    }
}

impl PartialOrd for Depth {
    fn partial_cmp(&self, other: &Depth) -> (r: Option<Ordering>) {
        match (self, other) {
            (Depth::Infinite, Depth::Infinite) => Some(Ordering::Equal),
            (Depth::Infinite, Depth::Limit(_)) => Some(Ordering::Less),
            (Depth::Limit(_), Depth::Infinite) => Some(Ordering::Greater),
            (Depth::Limit(a), Depth::Limit(b)) => if a < b {
                Some(Ordering::Less)
            } else if a > b {
                Some(Ordering::Greater)
            } else {
                Some(Ordering::Equal)
            },
        }
    }
}

impl vstd::std_specs::cmp::PartialOrdSpecImpl for Depth {
    open spec fn obeys_partial_cmp_spec() -> bool {
        true
    }

    open spec fn partial_cmp_spec(&self, other: &Depth) -> Option<Ordering> {
        if self.rank() < other.rank() {
            Some(Ordering::Less)
        } else if self.rank() > other.rank() {
            Some(Ordering::Greater)
        } else {
            Some(Ordering::Equal)
        }
    }
}

/// Walks over the depths from a start up to a limit, both inclusive.
pub struct DepthIterator {
    current: Depth,
    limit: Depth,
}

impl DepthIterator {
    /// The next depth to hand out.
    pub closed spec fn current(&self) -> Depth {
        self.current
    }

    /// The last depth to hand out.
    pub closed spec fn limit(&self) -> Depth {
        self.limit
    }

    /// The depth after `current`, or nothing once the limit is passed.
    pub fn next(&mut self) -> (r: Option<Depth>)
        requires
            old(self).current().rank() <= old(self).limit().rank() ==> old(self).current()
                != Depth::Limit(usize::MAX),
        ensures
            final(self).limit() == old(self).limit(),
            old(self).current().rank() <= old(self).limit().rank() ==> r == Some(
                old(self).current(),
            ) && final(self).current() == old(self).current().spec_increment(),
            old(self).current().rank() > old(self).limit().rank() ==> r is None
                && final(self).current() == old(self).current(),
    {
        if self.current <= self.limit {
            let current = self.current;
            self.current = current.increment();
            Some(current)
        } else {
            None
        }
    }

    /// Every depth that is left, in order.
    pub fn collect(self) -> (r: Vec<Depth>)
        requires
            self.current() is Limit,
            self.limit() is Limit ==> self.limit()->Limit_0 < usize::MAX,
        ensures
            r@ == self.current().span(self.limit()),
    {
        let ghost start = self.current;
        let mut it = self;
        let mut r: Vec<Depth> = Vec::new();
        let ghost all = start.span(it.limit);
        loop
            invariant
                it.limit == self.limit,
                it.current is Limit,
                all == start.span(it.limit),
                start is Limit,
                self.limit is Limit ==> self.limit->Limit_0 < usize::MAX,
                start.rank() <= it.current.rank(),
                it.current.rank() <= it.limit.rank() + 1 || r@.len() == 0,
                r@.len() == it.current.rank() - start.rank(),
                r@.len() <= all.len(),
                it.current.rank() <= it.limit.rank() ==> r@ =~= all.subrange(0, r@.len() as int),
                it.current.rank() > it.limit.rank() ==> r@ =~= all,
            ensures
                r@ == all,
            decreases (if it.limit is Limit {
                it.limit->Limit_0 + 1
            } else {
                0
            }) - it.current.rank(),
        {
            match it.next() {
                Some(depth) => r.push(depth),
                None => break,
            }
        }
        r
    }
}

/// A search strategy that can be limited by depth
pub trait DepthLimitedSearch {
    /// Search up to `search_depth` levels: the best bowl found and its value for the player
    /// to move.
    fn search(&mut self, start: &Position, search_depth: &Depth) -> (r: (Option<Bowl>, Value))
        requires
            start.wf(),
        ensures
            r.0 matches Some(b) ==> start@.playable(b as int),
            !start@.finished() && !search_depth.spec_is_zero() ==> r.0 is Some && r.1 is Actual,
    ;
}

} // verus!
