//! Estimate a value for a position.
use vstd::prelude::*;

use crate::game::board::{lemma_sum_nonneg, Board};
use crate::game::{Position, Score};
use core::cmp::Ordering;

verus! {

/// Positions can have a value `v`
///
/// It ranges from -∞ and ∞
#[derive(Debug, Clone, Copy, PartialEq, Eq, Structural)]
pub enum Value {
    /// Represent the lowest possible value for a position
    NegativeInfinity,
    /// Actual value or an estimate of the actual value of a position
    Actual(Score),
    /// Represent the highest possible value for a position
    PositiveInfinity,
}

impl Value {
    /// Where the value stands on the integer line: the infinities lie beyond every score.
    pub open spec fn rank(self) -> int {
        match self {
            Value::NegativeInfinity => -256,
            Value::Actual(score) => score as int,
            Value::PositiveInfinity => 256,
        }
    }

    /// The value has an opposite: it is not the one score whose negation leaves `Score`.
    pub open spec fn negatable(self) -> bool {
        !(self matches Value::Actual(score) && score == Score::MIN)
    }

    pub open spec fn spec_opposite(self) -> Value {
        match self {
            Value::NegativeInfinity => Value::PositiveInfinity,
            Value::Actual(score) => Value::Actual((-score) as Score),
            Value::PositiveInfinity => Value::NegativeInfinity,
        }
    }

    /// The larger of two values.
    pub open spec fn max(self, other: Value) -> Value {
        if other.rank() > self.rank() {
            other
        } else {
            self
        }
    }

    /// Determine the opposite of a Value
    /// -∞ → ∞
    ///  s → -s
    ///  ∞ → -∞
    #[verifier::when_used_as_spec(spec_opposite)]
    pub fn opposite(self) -> (r: Value)
        requires
            self.negatable(),
        ensures
            r == self.spec_opposite(),
            r.rank() == -self.rank(),
            r.negatable(),
    {
        match self {
            Value::NegativeInfinity => Value::PositiveInfinity,
            Value::Actual(score) => Value::Actual(-score),
            Value::PositiveInfinity => Value::NegativeInfinity,
        }
    }

    fn key(&self) -> (r: i16)
        ensures
            r == self.rank(),
    {
        match self {
            Value::NegativeInfinity => -256,
            Value::Actual(score) => *score as i16,
            Value::PositiveInfinity => 256,
        }
    }
}

/// Negation is its own inverse.
pub proof fn lemma_opposite_involutive(v: Value)
    requires
        v.negatable(),
    ensures
        v.spec_opposite().negatable(),
        v.spec_opposite().spec_opposite() == v,
        v.spec_opposite().rank() == -v.rank(),
{
}

impl PartialOrd for Value {
    fn partial_cmp(&self, other: &Value) -> (r: Option<Ordering>) {
        let (a, b) = (self.key(), other.key());
        if a < b {
            Some(Ordering::Less)
        } else if a > b {
            Some(Ordering::Greater)
        } else {
            Some(Ordering::Equal)
        }
    }
}

impl vstd::std_specs::cmp::PartialOrdSpecImpl for Value {
    open spec fn obeys_partial_cmp_spec() -> bool {
        true
    }

    open spec fn partial_cmp_spec(&self, other: &Value) -> Option<Ordering> {
        if self.rank() < other.rank() {
            Some(Ordering::Less)
        } else if self.rank() > other.rank() {
            Some(Ordering::Greater)
        } else {
            Some(Ordering::Equal)
        }
    }
}

/// A way to evaluate a position without full knowledge of the game tree
pub trait Heuristic {
    /// The value this heuristic gives a board.
    spec fn estimate(&self, board: Board) -> Value;

    /// The estimate of a well-formed board is a score, and it has an opposite.
    proof fn lemma_estimate_negatable(&self, board: Board)
        requires
            board.wf(),
        ensures
            self.estimate(board) is Actual,
            self.estimate(board).negatable(),
    ;

    /// Return the heuristic value for this position
    fn evaluate(&self, position: &Position) -> (r: Value)
        requires
            position.wf(),
        ensures
            r == self.estimate(position@),
    ;
}

/// A simple heuristic that looks at the difference between the captured stones.
pub struct Delta {}

/// create a delta heuristic
pub fn delta() -> (r: Delta) {
    Delta {}
}

impl Heuristic for Delta {
    open spec fn estimate(&self, board: Board) -> Value {
        Value::Actual(board.delta() as Score)
    }

    proof fn lemma_estimate_negatable(&self, board: Board) {
        lemma_sum_nonneg(board.bowls);
    }

    fn evaluate(&self, position: &Position) -> (r: Value) {
        Value::Actual(position.delta())
    }
}

} // verus!
