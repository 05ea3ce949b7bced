//! The minmax strategy for playing Mancala: every move is searched to the end of the game.
use vstd::prelude::*;

use crate::game::board::Board;
use crate::game::{Bowl, Position, Score};
use super::alphabeta::{lemma_negamax_plays, lemma_unbounded_negamax};
use super::Depth;
use crate::strategy::heuristic::{Delta, Value};
use crate::strategy::Strategy;
use std::collections::HashMap;

verus! {

broadcast use vstd::std_specs::hash::group_hash_axioms;

/// What a move is worth to the player who makes it: the value of the position it leads
/// to, negated when the turn passes to the other player.
pub open spec fn seen_from(board: Board, child: Board, value: Value) -> Value {
    if child.player == board.player {
        value
    } else {
        value.spec_opposite()
    }
}

/// The exhaustive search of `board`: the best bowl and its value for the player to move.
/// A finished board has no bowl and is worth its score.
pub open spec fn minimax(board: Board) -> (Option<usize>, Value)
    decreases board.rank(), board.size + 1,
    when board.wf()
{
    if board.finished() {
        (None, Value::Actual(board.score() as Score))
    } else {
        minimax_scan(board, board.size)
    }
}

/// The best of the first `k` bowls of `board`: a bowl replaces the best so far only when
/// its value is strictly greater, so the lowest of equal bowls is kept.
pub open spec fn minimax_scan(board: Board, k: nat) -> (Option<usize>, Value)
    decreases board.rank(), k,
    when board.wf() && k <= board.size
{
    if k == 0 {
        (None, Value::NegativeInfinity)
    } else {
        let prev = minimax_scan(board, (k - 1) as nat);
        let bowl = k - 1;
        if board.bowls[bowl] > 0 {
            proof {
                board.lemma_play_lowers_rank(bowl);
            }
            let child = board.play(bowl);
            let v = seen_from(board, child, minimax(child).1);
            if v.rank() > prev.1.rank() {
                (Some(bowl as usize), v)
            } else {
                prev
            }
        } else {
            prev
        }
    }
}

/// The positions the exhaustive search visits from `board`, `board` itself counted.
pub open spec fn minimax_nodes(board: Board) -> nat
    decreases board.rank(), board.size + 1,
    when board.wf()
{
    if board.finished() {
        1
    } else {
        1 + minimax_nodes_scan(board, board.size)
    }
}

/// The positions the exhaustive search visits below the first `k` bowls of `board`.
pub open spec fn minimax_nodes_scan(board: Board, k: nat) -> nat
    decreases board.rank(), k,
    when board.wf() && k <= board.size
{
    if k == 0 {
        0
    } else if board.bowls[k - 1] > 0 {
        proof {
            board.lemma_play_lowers_rank(k - 1);
        }
        minimax_nodes_scan(board, (k - 1) as nat) + minimax_nodes(board.play(k - 1))
    } else {
        minimax_nodes_scan(board, (k - 1) as nat)
    }
}

/// Pick the option that maximizes the minimum win.
pub struct MinMax {
    /// An Analyzer that keeps track of various statistics.
    pub analyzer: Analyzer,
}

impl MinMax {
    /// Create a default MinMax strategy
    pub fn new() -> (r: MinMax)
        ensures
            r.analyzer.counts() == Map::<u64, u64>::empty(),
            r.analyzer.depth() == 0,
            r.analyzer.total() == 0,
    {
        MinMax { analyzer: Analyzer::new() }
    }
}

impl Default for MinMax {
    fn default() -> (r: MinMax)
        ensures
            r.analyzer.counts() == Map::<u64, u64>::empty(),
            r.analyzer.depth() == 0,
    {
        MinMax::new()
    }
}

impl Strategy for MinMax {
    fn play(&mut self, position: &Position) -> (r: Option<Bowl>)
        ensures
            r == minimax(position@).0,
    {
        proof {
            position@.lemma_has_options();
            lemma_unbounded_negamax(position@, Delta {});
            lemma_negamax_plays(position@, Depth::Infinite, Delta {});
        }
        let (bowl, _) = minmax(&mut self.analyzer, position);
        bowl
    }
}

/// The positions of the exhaustive search tree of `board` that lie `ply` moves below it.
pub open spec fn nodes_at_ply(board: Board, ply: nat) -> nat
    decreases board.rank(), board.size + 1,
    when board.wf()
{
    if ply == 0 {
        1
    } else if board.finished() {
        0
    } else {
        ply_scan(board, (ply - 1) as nat, board.size)
    }
}

/// The positions `ply` moves below the children of the first `k` bowls of `board`.
pub open spec fn ply_scan(board: Board, ply: nat, k: nat) -> nat
    decreases board.rank(), k,
    when board.wf() && k <= board.size
{
    if k == 0 {
        0
    } else if board.bowls[k - 1] > 0 {
        proof {
            board.lemma_play_lowers_rank(k - 1);
        }
        ply_scan(board, ply, (k - 1) as nat) + nodes_at_ply(board.play(k - 1), ply)
    } else {
        ply_scan(board, ply, (k - 1) as nat)
    }
}

/// How many moves the longest line of play from `board` lasts.
pub open spec fn height(board: Board) -> nat
    decreases board.rank(), board.size + 1,
    when board.wf()
{
    if board.finished() {
        0
    } else {
        height_scan(board, board.size)
    }
}

/// The longest line of play from `board` that starts with one of its first `k` bowls.
pub open spec fn height_scan(board: Board, k: nat) -> nat
    decreases board.rank(), k,
    when board.wf() && k <= board.size
{
    if k == 0 {
        0
    } else if board.bowls[k - 1] > 0 {
        proof {
            board.lemma_play_lowers_rank(k - 1);
        }
        let through = 1 + height(board.play(k - 1));
        let others = height_scan(board, (k - 1) as nat);
        if through > others {
            through
        } else {
            others
        }
    } else {
        height_scan(board, (k - 1) as nat)
    }
}

/// `count` raised by `n`, stopping at `u64::MAX`.
pub open spec fn add_sat(count: u64, n: nat) -> u64 {
    if count + n <= u64::MAX {
        (count + n) as u64
    } else {
        u64::MAX
    }
}

proof fn lemma_scans_step(board: Board, ply: nat, k: nat)
    requires
        board.wf(),
        0 < k <= board.size,
    ensures
        ply_scan(board, ply, k) == ply_scan(board, ply, (k - 1) as nat) + if board.bowls[k - 1]
            > 0 {
            nodes_at_ply(board.play(k - 1), ply)
        } else {
            0
        },
        minimax_nodes_scan(board, k) == minimax_nodes_scan(board, (k - 1) as nat) + if board.bowls[k
            - 1] > 0 {
            minimax_nodes(board.play(k - 1))
        } else {
            0
        },
        height_scan(board, k) == if board.bowls[k - 1] > 0 && 1 + height(board.play(k - 1))
            > height_scan(board, (k - 1) as nat) {
            1 + height(board.play(k - 1))
        } else {
            height_scan(board, (k - 1) as nat)
        },
{
    if board.bowls[k - 1] > 0 {
        board.lemma_play_conserves(k - 1);
    }
}

/// No line of play lasts longer than the rank of the board it starts from.
pub proof fn lemma_height_bound(board: Board)
    requires
        board.wf(),
    ensures
        height(board) <= board.rank(),
    decreases board.rank(), board.size + 1,
{
    if !board.finished() {
        lemma_height_scan_bound(board, board.size);
    }
}

proof fn lemma_height_scan_bound(board: Board, k: nat)
    requires
        board.wf(),
        k <= board.size,
    ensures
        height_scan(board, k) <= board.rank(),
    decreases board.rank(), k,
{
    if k > 0 {
        lemma_height_scan_bound(board, (k - 1) as nat);
        lemma_scans_step(board, 0, k);
        if board.bowls[k - 1] > 0 {
            board.lemma_play_lowers_rank(k - 1);
            board.lemma_play_conserves(k - 1);
            lemma_height_bound(board.play(k - 1));
        }
    }
}

/// Search every move to the end of the game. Returns the best bowl (the lowest of equally
/// good ones; none when the position is finished) and its value for the player to move.
///
/// The analyzer counts every position visited: its total grows by the size of the game
/// tree, and, as long as its depth cannot overflow, the count at `k` plies below its
/// current depth grows by the positions `k` moves below `position`, and its deepest depth
/// reaches the end of the longest line of play. All counts stop at `u64::MAX`.
pub fn minmax(analyzer: &mut Analyzer, position: &Position) -> (r: (Option<Bowl>, Value))
    requires
        position.wf(),
    ensures
        r == minimax(position@),
        r.1.negatable(),
        r.0 matches Some(b) ==> position@.playable(b as int),
        final(analyzer).depth() == old(analyzer).depth(),
        final(analyzer).total() == add_sat(old(analyzer).total(), minimax_nodes(position@)),
        old(analyzer).depth() + position@.rank() < u64::MAX ==> forall|d: u64|
            #[trigger] final(analyzer).count_at(d) == add_sat(
                old(analyzer).count_at(d),
                if d < old(analyzer).depth() {
                    0
                } else {
                    nodes_at_ply(position@, (d - old(analyzer).depth()) as nat)
                },
            ),
        old(analyzer).depth() + position@.rank() < u64::MAX ==> final(analyzer).deepest() == if old(
            analyzer,
        ).deepest() > old(analyzer).depth() + height(position@) {
            old(analyzer).deepest()
        } else {
            (old(analyzer).depth() + height(position@)) as u64
        },
    decreases position@.rank(),
{
    let ghost board = position@;
    let ghost before = *analyzer;
    analyzer.count();
    if position.finished() {
        let score = position.score();
        match score {
            Some(s) => (None, Value::Actual(s)),
            None => (None, Value::NegativeInfinity),
        }
    } else {
        let depth = analyzer.current_depth;
        let ghost fits = depth + board.rank() < u64::MAX;
        let mut best_bowl: Option<Bowl> = None;
        let mut best_value = Value::NegativeInfinity;
        let mut bowl: usize = 0;
        let size = position.size();
        while bowl < size
            invariant
                position.wf(),
                board == position@,
                size == board.size,
                bowl <= size,
                (best_bowl, best_value) == minimax_scan(board, bowl as nat),
                best_value.negatable(),
                best_bowl matches Some(b) ==> board.playable(b as int),
                analyzer.depth() == depth,
                depth == before.depth(),
                fits == (depth + board.rank() < u64::MAX),
                analyzer.total() == add_sat(before.total(), 1 + minimax_nodes_scan(board, bowl as nat)),
                fits ==> forall|d: u64|
                    #[trigger] analyzer.count_at(d) == add_sat(
                        before.count_at(d),
                        if d < depth {
                            0
                        } else if d == depth {
                            1
                        } else {
                            ply_scan(board, (d - depth - 1) as nat, bowl as nat)
                        },
                    ),
                fits ==> analyzer.deepest() == if before.deepest() > depth + height_scan(board, bowl as nat) {
                    before.deepest()
                } else {
                    (depth + height_scan(board, bowl as nat)) as u64
                },
            decreases size - bowl,
        {
            proof {
                lemma_scans_step(board, 0, (bowl + 1) as nat);
                assert forall|p: nat| #[trigger] ply_scan(board, p, (bowl + 1) as nat) == ply_scan(board, p, bowl as nat) + if board.bowls[bowl as int] > 0 {
                    nodes_at_ply(board.play(bowl as int), p)
                } else {
                    0
                } by {
                    lemma_scans_step(board, p, (bowl + 1) as nat);
                }
            }
            match position.play(bowl) {
                Some(candidate) => {
                    proof {
                        board.lemma_play_lowers_rank(bowl as int);
                    }
                    let ghost outer = *analyzer;
                    proof {
                        lemma_height_bound(candidate@);
                        lemma_height_scan_bound(board, bowl as nat);
                    }
                    analyzer.increment_depth();
                    let (_, mut value) = minmax(analyzer, &candidate);
                    let ghost after = *analyzer;
                    analyzer.return_to(depth);
                    proof {
                        if fits {
                            assert forall|d: u64| #[trigger] analyzer.count_at(d) == add_sat(
                                before.count_at(d),
                                if d < depth {
                                    0
                                } else if d == depth {
                                    1
                                } else {
                                    ply_scan(board, (d - depth - 1) as nat, (bowl + 1) as nat)
                                },
                            ) by {
                                assert(after.count_at(d) == analyzer.count_at(d));
                                assert(outer.count_at(d) == add_sat(
                                    before.count_at(d),
                                    if d < depth {
                                        0
                                    } else if d == depth {
                                        1
                                    } else {
                                        ply_scan(board, (d - depth - 1) as nat, bowl as nat)
                                    },
                                ));
                                if d > depth {
                                    assert(ply_scan(board, (d - depth - 1) as nat, (bowl + 1) as nat)
                                        == ply_scan(board, (d - depth - 1) as nat, bowl as nat)
                                        + nodes_at_ply(candidate@, (d - depth - 1) as nat));
                                }
                            }
                        }
                    }
                    if candidate.turn() != position.turn() {
                        value = value.opposite();
                    }
                    if value > best_value {
                        best_bowl = Some(bowl);
                        best_value = value;
                    }
                },
                None => {
                    proof {
                        if fits {
                            assert forall|d: u64| #[trigger] analyzer.count_at(d) == add_sat(
                                before.count_at(d),
                                if d < depth {
                                    0
                                } else if d == depth {
                                    1
                                } else {
                                    ply_scan(board, (d - depth - 1) as nat, (bowl + 1) as nat)
                                },
                            ) by {
                                if d > depth {
                                    assert(ply_scan(board, (d - depth - 1) as nat, (bowl + 1) as nat)
                                        == ply_scan(board, (d - depth - 1) as nat, bowl as nat));
                                }
                            }
                        }
                    }
                },
            }
            bowl += 1;
        }
        (best_bowl, best_value)
    }
}

/// Analyzes game trees: how many positions were visited, in all and at each depth, and the
/// deepest depth at which one was.
pub struct Analyzer {
    depth_counter: HashMap<u64, u64>,
    current_depth: u64,
    nodes: u64,
    deepest: u64,
}

impl Analyzer {
    /// Positions counted, by depth.
    pub closed spec fn counts(&self) -> Map<u64, u64> {
        self.depth_counter@
    }

    /// The depth at which the next position is counted.
    pub closed spec fn depth(&self) -> u64 {
        self.current_depth
    }

    /// Positions counted in all.
    pub closed spec fn total(&self) -> u64 {
        self.nodes
    }

    /// The deepest depth at which a position was counted (0 when none was).
    pub closed spec fn deepest(&self) -> u64 {
        self.deepest
    }

    /// Positions counted at `depth`.
    pub open spec fn count_at(&self, depth: u64) -> u64 {
        if self.counts().contains_key(depth) {
            self.counts()[depth]
        } else {
            0
        }
    }

    /// Create an analyzer with the node count set to zero.
    pub fn new() -> (r: Analyzer)
        ensures
            r.counts() == Map::<u64, u64>::empty(),
            r.depth() == 0,
            r.total() == 0,
            r.deepest() == 0,
    {
        Analyzer { depth_counter: HashMap::new(), current_depth: 0, nodes: 0, deepest: 0 }
    }

    /// Count one more position at the current depth; counts stop at `u64::MAX`.
    pub(crate) fn count(&mut self)
        ensures
            final(self).depth() == old(self).depth(),
            final(self).counts() == old(self).counts().insert(
                old(self).depth(),
                add_sat(old(self).count_at(old(self).depth()), 1),
            ),
            final(self).total() == add_sat(old(self).total(), 1),
            final(self).deepest() == if old(self).deepest() > old(self).depth() {
                old(self).deepest()
            } else {
                old(self).depth()
            },
    {
        let count = match self.depth_counter.get(&self.current_depth) {
            Some(c) => *c,
            None => 0,
        };
        self.depth_counter.insert(self.current_depth, count.saturating_add(1));
        self.nodes = self.nodes.saturating_add(1);
        if self.current_depth > self.deepest {
            self.deepest = self.current_depth;
        }
    }

    /// Go one level deeper; the depth stops at `u64::MAX`.
    pub(crate) fn increment_depth(&mut self)
        ensures
            final(self).counts() == old(self).counts(),
            final(self).total() == old(self).total(),
            final(self).deepest() == old(self).deepest(),
            final(self).depth() == if old(self).depth() < u64::MAX {
                (old(self).depth() + 1) as u64
            } else {
                old(self).depth()
            },
    {
        self.current_depth = self.current_depth.saturating_add(1);
    }

    /// Go back to `depth`, once the positions below it are counted.
    pub(crate) fn return_to(&mut self, depth: u64)
        ensures
            final(self).counts() == old(self).counts(),
            final(self).total() == old(self).total(),
            final(self).deepest() == old(self).deepest(),
            final(self).depth() == depth,
    {
        self.current_depth = depth;
    }

    /// The depth at which the next position is counted.
    pub fn current_depth(&self) -> (r: u64)
        ensures
            r == self.depth(),
    {
        self.current_depth
    }

    /// Positions counted at `depth`.
    pub fn nodes_at(&self, depth: u64) -> (r: u64)
        ensures
            r == self.count_at(depth),
    {
        match self.depth_counter.get(&depth) {
            Some(c) => *c,
            None => 0,
        }
    }

    /// Positions counted in all.
    pub fn node_count(&self) -> (r: u64)
        ensures
            r == self.total(),
    {
        self.nodes
    }

    /// The deepest depth at which a position was counted.
    pub fn max_depth(&self) -> (r: u64)
        ensures
            r == self.deepest(),
    {
        self.deepest
    }
}

impl Default for Analyzer {
    fn default() -> (r: Analyzer)
        ensures
            r.counts() == Map::<u64, u64>::empty(),
            r.depth() == 0,
            r.total() == 0,
            r.deepest() == 0,
    {
        Analyzer::new()
    }
}

} // verus!
