//! The alpha-beta pruning strategy: the minmax search with a depth budget and a heuristic,
//! that skips the moves which cannot change the outcome.
//!
//! ```
//! use mancala::strategy::tree::{AlphaBeta, Depth};
//! use mancala::strategy::tree::alphabeta::delta;
//!
//! let strategy = AlphaBeta::strategy().limited_to(Depth::Limit(5)).with_heuristic(delta()).build();
//! ```
use vstd::prelude::*;

use super::minmax::{add_sat, Analyzer, minimax, minimax_nodes, minimax_nodes_scan, minimax_scan, seen_from};
use super::{Depth, DepthLimitedSearch};
use crate::game::board::Board;
use crate::game::{Bowl, Position, Score};
use crate::strategy::heuristic::{Heuristic, Value};
use crate::strategy::Strategy;

pub use crate::strategy::heuristic::{delta, Delta};

verus! {

/// The search of `board` that looks `depth` moves ahead and asks the heuristic beyond
/// that: the best bowl and its value for the player to move. A finished board is worth its
/// score, whatever the depth.
pub open spec fn negamax<H: Heuristic>(board: Board, depth: Depth, heuristic: H) -> (
    Option<usize>,
    Value,
)
    decreases board.rank(), board.size + 1,
    when board.wf()
{
    if board.finished() {
        (None, Value::Actual(board.score() as Score))
    } else if depth.spec_is_zero() {
        (None, heuristic.estimate(board))
    } else {
        negamax_scan(board, depth, heuristic, board.size)
    }
}

/// The best of the first `k` bowls, as `negamax` weighs them.
pub open spec fn negamax_scan<H: Heuristic>(board: Board, depth: Depth, heuristic: H, k: nat) -> (
    Option<usize>,
    Value,
)
    decreases board.rank(), k,
    when board.wf() && k <= board.size
{
    if k == 0 {
        (None, Value::NegativeInfinity)
    } else {
        let prev = negamax_scan(board, depth, heuristic, (k - 1) as nat);
        let bowl = k - 1;
        if board.bowls[bowl] > 0 {
            proof {
                board.lemma_play_lowers_rank(bowl);
            }
            let child = board.play(bowl);
            let v = seen_from(board, child, negamax(child, depth.spec_decrement(), heuristic).1);
            if v.rank() > prev.1.rank() {
                (Some(bowl as usize), v)
            } else {
                prev
            }
        } else {
            prev
        }
    }
}

/// What `alpha_beta` returns for `board` and the window `(alpha, beta)`.
pub open spec fn pruned<H: Heuristic>(
    board: Board,
    alpha: Value,
    beta: Value,
    depth: Depth,
    heuristic: H,
) -> (Option<usize>, Value)
    decreases board.rank(), board.size + 1,
    when board.wf()
{
    if board.finished() {
        (None, Value::Actual(board.score() as Score))
    } else if depth.spec_is_zero() {
        (None, heuristic.estimate(board))
    } else {
        let s = pruned_scan(board, alpha, beta, depth, heuristic, board.size);
        (s.0, s.1)
    }
}

/// What the child at `bowl` is worth to the player to move of `board`, searched with the
/// window `(low, beta)` turned to the child's side.
pub open spec fn pruned_child<H: Heuristic>(
    board: Board,
    bowl: int,
    low: Value,
    beta: Value,
    depth: Depth,
    heuristic: H,
) -> Value {
    let child = board.play(bowl);
    if child.player == board.player {
        pruned(child, low, beta, depth.spec_decrement(), heuristic).1
    } else {
        pruned(
            child,
            beta.spec_opposite(),
            low.spec_opposite(),
            depth.spec_decrement(),
            heuristic,
        ).1.spec_opposite()
    }
}

/// The state of the search of `board` after its first `k` bowls: the best bowl, its value,
/// the raised lower bound, and whether the bound has reached `beta` and the search stopped.
pub open spec fn pruned_scan<H: Heuristic>(
    board: Board,
    alpha: Value,
    beta: Value,
    depth: Depth,
    heuristic: H,
    k: nat,
) -> (Option<usize>, Value, Value, bool)
    decreases board.rank(), k,
    when board.wf() && k <= board.size
{
    if k == 0 {
        (None, Value::NegativeInfinity, alpha, false)
    } else {
        let prev = pruned_scan(board, alpha, beta, depth, heuristic, (k - 1) as nat);
        let bowl = k - 1;
        if prev.3 || board.bowls[bowl] == 0 {
            prev
        } else {
            proof {
                board.lemma_play_lowers_rank(bowl);
            }
            let child = board.play(bowl);
            let v = if child.player == board.player {
                pruned(child, prev.2, beta, depth.spec_decrement(), heuristic).1
            } else {
                pruned(
                    child,
                    beta.spec_opposite(),
                    prev.2.spec_opposite(),
                    depth.spec_decrement(),
                    heuristic,
                ).1.spec_opposite()
            };
            let raised = prev.2.max(v);
            let stop = raised.rank() >= beta.rank();
            if v.rank() > prev.1.rank() {
                (Some(bowl as usize), v, raised, stop)
            } else {
                (prev.0, prev.1, raised, stop)
            }
        }
    }
}

/// Once the search has stopped, the bowls that are left change nothing.
pub proof fn lemma_stopped_scan<H: Heuristic>(
    board: Board,
    alpha: Value,
    beta: Value,
    depth: Depth,
    heuristic: H,
    k: nat,
    l: nat,
)
    requires
        board.wf(),
        k <= l <= board.size,
        pruned_scan(board, alpha, beta, depth, heuristic, k).3,
    ensures
        pruned_scan(board, alpha, beta, depth, heuristic, l) == pruned_scan(
            board,
            alpha,
            beta,
            depth,
            heuristic,
            k,
        ),
    decreases l - k,
{
    if l > k {
        lemma_stopped_scan(board, alpha, beta, depth, heuristic, k, (l - 1) as nat);
    }
}

/// Search `position` up to `search_depth` moves ahead, with the window `(alpha_prime, beta)`.
/// Returns the best bowl found (none when the position is finished or the depth is spent)
/// and its value for the player to move.
pub fn alpha_beta<H: Heuristic>(
    position: &Position,
    alpha_prime: Value,
    beta: Value,
    search_depth: &Depth,
    heuristic: &H,
) -> (r: (Option<Bowl>, Value))
    requires
        position.wf(),
        alpha_prime.negatable(),
        beta.negatable(),
    ensures
        r == pruned(position@, alpha_prime, beta, *search_depth, *heuristic),
        r.1.negatable(),
        r.0 matches Some(b) ==> position@.playable(b as int),
{
    let mut analyzer = Analyzer::new();
    alpha_beta_counted(position, alpha_prime, beta, search_depth, heuristic, &mut analyzer)
}

/// `alpha_beta`, counting in `analyzer` every position it evaluates: the analyzer's total
/// grows by `pruned_nodes`.
pub fn alpha_beta_counted<H: Heuristic>(
    position: &Position,
    alpha_prime: Value,
    beta: Value,
    search_depth: &Depth,
    heuristic: &H,
    analyzer: &mut Analyzer,
) -> (r: (Option<Bowl>, Value))
    requires
        position.wf(),
        alpha_prime.negatable(),
        beta.negatable(),
    ensures
        r == pruned(position@, alpha_prime, beta, *search_depth, *heuristic),
        r.1.negatable(),
        r.0 matches Some(b) ==> position@.playable(b as int),
        final(analyzer).depth() == old(analyzer).depth(),
        final(analyzer).total() == add_sat(
            old(analyzer).total(),
            pruned_nodes(position@, alpha_prime, beta, *search_depth, *heuristic),
        ),
    decreases position@.rank(),
{
    let ghost board = position@;
    let ghost first = *analyzer;
    analyzer.count();
    let mut alpha = alpha_prime;
    if position.finished() || search_depth.is_zero() {
        if position.finished() {
            match position.score() {
                Some(s) => (None, Value::Actual(s)),
                None => (None, Value::NegativeInfinity),
            }
        } else {
            proof {
                heuristic.lemma_estimate_negatable(board);
            }
            (None, heuristic.evaluate(position))
        }
    } else {
        let mut best_bowl: Option<Bowl> = None;
        let mut best_value = Value::NegativeInfinity;
        let next_depth = search_depth.decrement();
        let size = position.size();
        let mut stopped = false;
        let mut bowl: usize = 0;
        while bowl < size && !stopped
            invariant
                position.wf(),
                board == position@,
                size == board.size,
                bowl <= size,
                next_depth == search_depth.spec_decrement(),
                alpha_prime.negatable(),
                beta.negatable(),
                (best_bowl, best_value, alpha, stopped) == pruned_scan(
                    board,
                    alpha_prime,
                    beta,
                    *search_depth,
                    *heuristic,
                    bowl as nat,
                ),
                best_value.negatable(),
                alpha.negatable(),
                best_bowl matches Some(b) ==> board.playable(b as int),
                analyzer.depth() == first.depth(),
                analyzer.total() == add_sat(
                    first.total(),
                    1 + pruned_nodes_scan(
                        board,
                        alpha_prime,
                        beta,
                        *search_depth,
                        *heuristic,
                        bowl as nat,
                    ),
                ),
            decreases size - bowl,
        {
            match position.play(bowl) {
                Some(candidate) => {
                    proof {
                        board.lemma_play_lowers_rank(bowl as int);
                    }
                    let ghost before = alpha;
                    let depth = analyzer.current_depth();
                    analyzer.increment_depth();
                    let value = if candidate.turn() == position.turn() {
                        alpha_beta_counted(
                            &candidate,
                            alpha,
                            beta,
                            &next_depth,
                            heuristic,
                            analyzer,
                        ).1
                    } else {
                        alpha_beta_counted(
                            &candidate,
                            beta.opposite(),
                            alpha.opposite(),
                            &next_depth,
                            heuristic,
                            analyzer,
                        ).1.opposite()
                    };
                    analyzer.return_to(depth);
                    assert(value == pruned_child(
                        board,
                        bowl as int,
                        before,
                        beta,
                        *search_depth,
                        *heuristic,
                    ));
                    if value > best_value {
                        best_bowl = Some(bowl);
                        best_value = value;
                    }
                    if value > alpha {
                        alpha = value;
                    }
                    if alpha >= beta {
                        stopped = true;
                    }
                },
                None => {},
            }
            bowl += 1;
        }
        proof {
            if stopped {
                lemma_stopped_nodes(
                    board,
                    alpha_prime,
                    beta,
                    *search_depth,
                    *heuristic,
                    bowl as nat,
                    size as nat,
                );
                lemma_stopped_scan(
                    board,
                    alpha_prime,
                    beta,
                    *search_depth,
                    *heuristic,
                    bowl as nat,
                    size as nat,
                );
            }
        }
        (best_bowl, best_value)
    }
}

/// Once the search has stopped, the bowls that are left add no positions.
proof fn lemma_stopped_nodes<H: Heuristic>(
    board: Board,
    alpha: Value,
    beta: Value,
    depth: Depth,
    heuristic: H,
    k: nat,
    l: nat,
)
    requires
        board.wf(),
        k <= l <= board.size,
        pruned_scan(board, alpha, beta, depth, heuristic, k).3,
    ensures
        pruned_nodes_scan(board, alpha, beta, depth, heuristic, l) == pruned_nodes_scan(
            board,
            alpha,
            beta,
            depth,
            heuristic,
            k,
        ),
    decreases l - k,
{
    if l > k {
        lemma_stopped_nodes(board, alpha, beta, depth, heuristic, k, (l - 1) as nat);
        lemma_stopped_scan(board, alpha, beta, depth, heuristic, k, (l - 1) as nat);
    }
}

/// `r`, the result of a search with the window `(a, b)`, stands in the right relation to
/// `v`, the value the full search finds: it is exact strictly inside the window, an upper
/// bound at or below `a`, and a lower bound at or above `b`.
pub open spec fn bounded_by(r: Value, v: Value, a: Value, b: Value) -> bool {
    &&& r.rank() <= a.rank() ==> v.rank() <= r.rank()
    &&& r.rank() >= b.rank() ==> v.rank() >= r.rank()
    &&& a.rank() < r.rank() < b.rank() ==> v == r
}

proof fn lemma_bounded_by_flip(r: Value, v: Value, a: Value, b: Value)
    requires
        r.negatable(),
        v.negatable(),
        a.negatable(),
        b.negatable(),
        bounded_by(r, v, b.spec_opposite(), a.spec_opposite()),
    ensures
        bounded_by(r.spec_opposite(), v.spec_opposite(), a, b),
{
}

/// Every value the depth-limited search gives a well-formed board has an opposite.
pub proof fn lemma_negamax_negatable<H: Heuristic>(board: Board, depth: Depth, heuristic: H)
    requires
        board.wf(),
    ensures
        negamax(board, depth, heuristic).1.negatable(),
    decreases board.rank(), board.size + 1,
{
    if board.finished() {
        board.lemma_score_bounds();
    } else if depth.spec_is_zero() {
        heuristic.lemma_estimate_negatable(board);
    } else {
        lemma_negamax_scan_negatable(board, depth, heuristic, board.size);
    }
}

proof fn lemma_negamax_scan_negatable<H: Heuristic>(
    board: Board,
    depth: Depth,
    heuristic: H,
    k: nat,
)
    requires
        board.wf(),
        k <= board.size,
    ensures
        negamax_scan(board, depth, heuristic, k).1.negatable(),
    decreases board.rank(), k,
{
    if k > 0 {
        lemma_negamax_scan_negatable(board, depth, heuristic, (k - 1) as nat);
        let bowl = k - 1;
        if board.bowls[bowl] > 0 {
            board.lemma_play_lowers_rank(bowl);
            board.lemma_play_conserves(bowl);
            lemma_negamax_negatable(board.play(bowl), depth.spec_decrement(), heuristic);
        }
    }
}

/// Every value `alpha_beta` gives a well-formed board has an opposite.
pub proof fn lemma_pruned_negatable<H: Heuristic>(
    board: Board,
    alpha: Value,
    beta: Value,
    depth: Depth,
    heuristic: H,
)
    requires
        board.wf(),
        alpha.negatable(),
        beta.negatable(),
    ensures
        pruned(board, alpha, beta, depth, heuristic).1.negatable(),
    decreases board.rank(), board.size + 1,
{
    if board.finished() {
        board.lemma_score_bounds();
    } else if depth.spec_is_zero() {
        heuristic.lemma_estimate_negatable(board);
    } else {
        lemma_pruned_scan_negatable(board, alpha, beta, depth, heuristic, board.size);
    }
}

proof fn lemma_pruned_scan_negatable<H: Heuristic>(
    board: Board,
    alpha: Value,
    beta: Value,
    depth: Depth,
    heuristic: H,
    k: nat,
)
    requires
        board.wf(),
        alpha.negatable(),
        beta.negatable(),
        k <= board.size,
    ensures
        pruned_scan(board, alpha, beta, depth, heuristic, k).1.negatable(),
        pruned_scan(board, alpha, beta, depth, heuristic, k).2.negatable(),
    decreases board.rank(), k,
{
    if k > 0 {
        lemma_pruned_scan_negatable(board, alpha, beta, depth, heuristic, (k - 1) as nat);
        let prev = pruned_scan(board, alpha, beta, depth, heuristic, (k - 1) as nat);
        let bowl = k - 1;
        if !prev.3 && board.bowls[bowl] > 0 {
            board.lemma_play_lowers_rank(bowl);
            board.lemma_play_conserves(bowl);
            let child = board.play(bowl);
            let d = depth.spec_decrement();
            if child.player == board.player {
                lemma_pruned_negatable(child, prev.2, beta, d, heuristic);
            } else {
                lemma_pruned_negatable(
                    child,
                    beta.spec_opposite(),
                    prev.2.spec_opposite(),
                    d,
                    heuristic,
                );
            }
        }
    }
}

/// The search without pruning values every well-formed board with a score, and picks a bowl
/// that can be played whenever the player to move has stones and the depth is not spent.
pub proof fn lemma_negamax_plays<H: Heuristic>(board: Board, depth: Depth, heuristic: H)
    requires
        board.wf(),
    ensures
        negamax(board, depth, heuristic).1 is Actual,
        negamax(board, depth, heuristic).0 matches Some(b) ==> board.playable(b as int),
        !board.finished() && !depth.spec_is_zero() ==> negamax(board, depth, heuristic).0 is Some,
    decreases board.rank(), board.size + 1,
{
    if board.finished() {
    } else if depth.spec_is_zero() {
        heuristic.lemma_estimate_negatable(board);
    } else {
        lemma_negamax_scan_plays(board, depth, heuristic, board.size);
        let b = choose|b: int| 0 <= b < board.size && board.bowls[b] != 0;
        assert(board.bowls[b] >= 0);
    }
}

proof fn lemma_negamax_scan_plays<H: Heuristic>(board: Board, depth: Depth, heuristic: H, k: nat)
    requires
        board.wf(),
        k <= board.size,
    ensures
        ({
            let s = negamax_scan(board, depth, heuristic, k);
            &&& s.1 is Actual <==> s.0 is Some
            &&& s.1 is Actual || s.1 == Value::NegativeInfinity
            &&& s.0 matches Some(b) ==> board.playable(b as int)
            &&& forall|b: int| 0 <= b < k && board.bowls[b] > 0 ==> s.1 is Actual
        }),
    decreases board.rank(), k,
{
    if k > 0 {
        let j = (k - 1) as nat;
        lemma_negamax_scan_plays(board, depth, heuristic, j);
        lemma_negamax_scan_step(board, depth, heuristic, k);
        let bowl = k - 1;
        if board.bowls[bowl] > 0 {
            board.lemma_play_lowers_rank(bowl);
            board.lemma_play_conserves(bowl);
            let child = board.play(bowl);
            lemma_negamax_plays(child, depth.spec_decrement(), heuristic);
            lemma_negamax_negatable(child, depth.spec_decrement(), heuristic);
        }
    }
}

/// With the full window and a depth that is not spent, `alpha_beta` picks a bowl that can be
/// played on every board whose player to move has stones, and values it with a score.
pub proof fn lemma_alpha_beta_plays<H: Heuristic>(board: Board, depth: Depth, heuristic: H)
    requires
        board.wf(),
        !board.finished(),
        !depth.spec_is_zero(),
    ensures
        ({
            let r = pruned(board, Value::NegativeInfinity, Value::PositiveInfinity, depth, heuristic);
            &&& r.0 matches Some(b) && board.playable(b as int)
            &&& r.1 is Actual
        }),
{
    lemma_alpha_beta_matches_negamax(board, depth, heuristic);
    lemma_negamax_plays(board, depth, heuristic);
}

/// The value `alpha_beta` finds with the window `(alpha, beta)` stands in the relation
/// `bounded_by` to the value of the depth-limited search without pruning.
pub proof fn lemma_window<H: Heuristic>(
    board: Board,
    alpha: Value,
    beta: Value,
    depth: Depth,
    heuristic: H,
)
    requires
        board.wf(),
        alpha.negatable(),
        beta.negatable(),
        alpha.rank() < beta.rank(),
    ensures
        bounded_by(
            pruned(board, alpha, beta, depth, heuristic).1,
            negamax(board, depth, heuristic).1,
            alpha,
            beta,
        ),
    decreases board.rank(), board.size + 1,
{
    if !board.finished() && !depth.spec_is_zero() {
        lemma_window_scan(board, alpha, beta, depth, heuristic, board.size);
    }
}

/// The child searched at `bowl` with the lower bound `low` gives, in the parent's frame, a
/// value bounded by the window `(low, beta)` against the child's full value.
proof fn lemma_child_window<H: Heuristic>(
    board: Board,
    bowl: int,
    low: Value,
    beta: Value,
    depth: Depth,
    heuristic: H,
)
    requires
        board.wf(),
        board.playable(bowl),
        low.negatable(),
        beta.negatable(),
        low.rank() < beta.rank(),
    ensures
        ({
            let child = board.play(bowl);
            let v = pruned_child(board, bowl, low, beta, depth, heuristic);
            let w = seen_from(board, child, negamax(child, depth.spec_decrement(), heuristic).1);
            &&& bounded_by(v, w, low, beta)
            &&& v.negatable()
            &&& w.negatable()
        }),
    decreases board.rank(), 0nat,
{
    board.lemma_play_lowers_rank(bowl);
    board.lemma_play_conserves(bowl);
    let child = board.play(bowl);
    let d = depth.spec_decrement();
    lemma_negamax_negatable(child, d, heuristic);
    if child.player == board.player {
        lemma_window(child, low, beta, d, heuristic);
        lemma_pruned_negatable(child, low, beta, d, heuristic);
    } else {
        lemma_window(child, beta.spec_opposite(), low.spec_opposite(), d, heuristic);
        lemma_pruned_negatable(child, beta.spec_opposite(), low.spec_opposite(), d, heuristic);
        lemma_bounded_by_flip(
            pruned(child, beta.spec_opposite(), low.spec_opposite(), d, heuristic).1,
            negamax(child, d, heuristic).1,
            low,
            beta,
        );
    }
}

proof fn lemma_negamax_scan_step<H: Heuristic>(board: Board, depth: Depth, heuristic: H, k: nat)
    requires
        board.wf(),
        0 < k <= board.size,
    ensures
        ({
            let bowl = k - 1;
            let prev = negamax_scan(board, depth, heuristic, (k - 1) as nat);
            let child = board.play(bowl);
            let w = seen_from(board, child, negamax(child, depth.spec_decrement(), heuristic).1);
            negamax_scan(board, depth, heuristic, k) == if board.bowls[bowl] > 0 && w.rank()
                > prev.1.rank() {
                (Some(bowl as usize), w)
            } else {
                prev
            }
        }),
{
    if board.bowls[k - 1] > 0 {
        board.lemma_play_conserves(k - 1);
    }
}

proof fn lemma_pruned_scan_step<H: Heuristic>(
    board: Board,
    alpha: Value,
    beta: Value,
    depth: Depth,
    heuristic: H,
    k: nat,
)
    requires
        board.wf(),
        0 < k <= board.size,
    ensures
        ({
            let bowl = k - 1;
            let prev = pruned_scan(board, alpha, beta, depth, heuristic, (k - 1) as nat);
            let v = pruned_child(board, bowl, prev.2, beta, depth, heuristic);
            let raised = prev.2.max(v);
            pruned_scan(board, alpha, beta, depth, heuristic, k) == if prev.3 || board.bowls[bowl]
                == 0 {
                prev
            } else if v.rank() > prev.1.rank() {
                (Some(bowl as usize), v, raised, raised.rank() >= beta.rank())
            } else {
                (prev.0, prev.1, raised, raised.rank() >= beta.rank())
            }
        }),
{
    if board.bowls[k - 1] > 0 {
        board.lemma_play_conserves(k - 1);
    }
}

proof fn lemma_window_scan<H: Heuristic>(
    board: Board,
    alpha: Value,
    beta: Value,
    depth: Depth,
    heuristic: H,
    k: nat,
)
    requires
        board.wf(),
        alpha.negatable(),
        beta.negatable(),
        alpha.rank() < beta.rank(),
        k <= board.size,
    ensures
        ({
            let p = pruned_scan(board, alpha, beta, depth, heuristic, k);
            let n = negamax_scan(board, depth, heuristic, k);
            &&& p.2.rank() >= alpha.rank()
            &&& p.2.rank() >= p.1.rank()
            &&& (p.2.rank() == alpha.rank() || p.2.rank() == p.1.rank())
            &&& !p.3 ==> p.2.rank() < beta.rank() && n.1.rank() <= p.1.rank() && (p.1.rank()
                > alpha.rank() ==> n.1 == p.1)
            &&& p.3 ==> p.1.rank() >= beta.rank() && n.1.rank() >= p.1.rank()
        }),
    decreases board.rank(), k,
{
    if k > 0 {
        let j = (k - 1) as nat;
        lemma_window_scan(board, alpha, beta, depth, heuristic, j);
        lemma_pruned_scan_negatable(board, alpha, beta, depth, heuristic, j);
        let prev = pruned_scan(board, alpha, beta, depth, heuristic, j);
        let nprev = negamax_scan(board, depth, heuristic, j);
        let p = pruned_scan(board, alpha, beta, depth, heuristic, k);
        let n = negamax_scan(board, depth, heuristic, k);
        let bowl = k - 1;
        lemma_negamax_scan_step(board, depth, heuristic, k);
        lemma_pruned_scan_step(board, alpha, beta, depth, heuristic, k);
        if board.bowls[bowl] > 0 && !prev.3 {
            lemma_child_window(board, bowl, prev.2, beta, depth, heuristic);
        }
    }
}

/// With the full window, pruning keeps the best bowl and its value: the state of
/// `alpha_beta` after the first `k` bowls is that of the search without pruning.
proof fn lemma_root_scan<H: Heuristic>(board: Board, depth: Depth, heuristic: H, k: nat)
    requires
        board.wf(),
        k <= board.size,
    ensures
        ({
            let p = pruned_scan(
                board,
                Value::NegativeInfinity,
                Value::PositiveInfinity,
                depth,
                heuristic,
                k,
            );
            let n = negamax_scan(board, depth, heuristic, k);
            &&& p.2 == p.1
            &&& p.0 == n.0
            &&& p.1 == n.1
            &&& p.3 ==> p.1 == Value::PositiveInfinity
        }),
    decreases k,
{
    let lo = Value::NegativeInfinity;
    let hi = Value::PositiveInfinity;
    if k > 0 {
        let j = (k - 1) as nat;
        lemma_root_scan(board, depth, heuristic, j);
        lemma_window_scan(board, lo, hi, depth, heuristic, j);
        lemma_pruned_scan_negatable(board, lo, hi, depth, heuristic, j);
        let prev = pruned_scan(board, lo, hi, depth, heuristic, j);
        let bowl = k - 1;
        lemma_negamax_scan_step(board, depth, heuristic, k);
        lemma_pruned_scan_step(board, lo, hi, depth, heuristic, k);
        if board.bowls[bowl] > 0 {
            if !prev.3 {
                lemma_child_window(board, bowl, prev.2, hi, depth, heuristic);
            }
        }
    }
}

/// Pruning never changes the outcome: with the full window, `alpha_beta` picks the same
/// bowl and finds the same value as the search of the same depth without pruning.
pub proof fn lemma_alpha_beta_matches_negamax<H: Heuristic>(
    board: Board,
    depth: Depth,
    heuristic: H,
)
    requires
        board.wf(),
    ensures
        pruned(board, Value::NegativeInfinity, Value::PositiveInfinity, depth, heuristic)
            == negamax(board, depth, heuristic),
{
    if !board.finished() && !depth.spec_is_zero() {
        lemma_root_scan(board, depth, heuristic, board.size);
    }
}

/// Without a depth limit the heuristic is never asked: the search is the exhaustive one.
pub proof fn lemma_unbounded_negamax<H: Heuristic>(board: Board, heuristic: H)
    requires
        board.wf(),
    ensures
        negamax(board, Depth::Infinite, heuristic) == minimax(board),
    decreases board.rank(), board.size + 1,
{
    if !board.finished() {
        lemma_unbounded_negamax_scan(board, heuristic, board.size);
    }
}

proof fn lemma_unbounded_negamax_scan<H: Heuristic>(board: Board, heuristic: H, k: nat)
    requires
        board.wf(),
        k <= board.size,
    ensures
        negamax_scan(board, Depth::Infinite, heuristic, k) == minimax_scan(board, k),
    decreases board.rank(), k,
{
    if k > 0 {
        lemma_unbounded_negamax_scan(board, heuristic, (k - 1) as nat);
        let bowl = k - 1;
        if board.bowls[bowl] > 0 {
            board.lemma_play_lowers_rank(bowl);
            board.lemma_play_conserves(bowl);
            lemma_unbounded_negamax(board.play(bowl), heuristic);
        }
    }
}

/// An unlimited alpha-beta search, whatever its heuristic, selects the bowl that the
/// exhaustive minmax search selects, with the same value.
pub proof fn lemma_alpha_beta_matches_minmax<H: Heuristic>(board: Board, heuristic: H)
    requires
        board.wf(),
    ensures
        pruned(
            board,
            Value::NegativeInfinity,
            Value::PositiveInfinity,
            Depth::Infinite,
            heuristic,
        ) == minimax(board),
{
    lemma_alpha_beta_matches_negamax(board, Depth::Infinite, heuristic);
    lemma_unbounded_negamax(board, heuristic);
}

/// The positions `alpha_beta` evaluates for `board` and the window `(alpha, beta)`,
/// `board` itself counted.
pub open spec fn pruned_nodes<H: Heuristic>(
    board: Board,
    alpha: Value,
    beta: Value,
    depth: Depth,
    heuristic: H,
) -> nat
    decreases board.rank(), board.size + 1,
    when board.wf()
{
    if board.finished() || depth.spec_is_zero() {
        1
    } else {
        1 + pruned_nodes_scan(board, alpha, beta, depth, heuristic, board.size)
    }
}

/// The positions `alpha_beta` evaluates below the first `k` bowls of `board`: none below
/// the bowls that come after the search stopped.
pub open spec fn pruned_nodes_scan<H: Heuristic>(
    board: Board,
    alpha: Value,
    beta: Value,
    depth: Depth,
    heuristic: H,
    k: nat,
) -> nat
    decreases board.rank(), k,
    when board.wf() && k <= board.size
{
    if k == 0 {
        0
    } else {
        let before = pruned_nodes_scan(board, alpha, beta, depth, heuristic, (k - 1) as nat);
        let prev = pruned_scan(board, alpha, beta, depth, heuristic, (k - 1) as nat);
        let bowl = k - 1;
        if prev.3 || board.bowls[bowl] == 0 {
            before
        } else {
            proof {
                board.lemma_play_lowers_rank(bowl);
            }
            let child = board.play(bowl);
            before + if child.player == board.player {
                pruned_nodes(child, prev.2, beta, depth.spec_decrement(), heuristic)
            } else {
                pruned_nodes(
                    child,
                    beta.spec_opposite(),
                    prev.2.spec_opposite(),
                    depth.spec_decrement(),
                    heuristic,
                )
            }
        }
    }
}

/// Pruning only saves work: whatever its window, depth and heuristic, `alpha_beta`
/// evaluates no more positions than the exhaustive minmax search visits.
pub proof fn lemma_pruning_visits_fewer<H: Heuristic>(
    board: Board,
    alpha: Value,
    beta: Value,
    depth: Depth,
    heuristic: H,
)
    requires
        board.wf(),
    ensures
        pruned_nodes(board, alpha, beta, depth, heuristic) <= minimax_nodes(board),
    decreases board.rank(), board.size + 1,
{
    if !board.finished() && !depth.spec_is_zero() {
        lemma_pruning_visits_fewer_scan(board, alpha, beta, depth, heuristic, board.size);
    }
}

proof fn lemma_pruning_visits_fewer_scan<H: Heuristic>(
    board: Board,
    alpha: Value,
    beta: Value,
    depth: Depth,
    heuristic: H,
    k: nat,
)
    requires
        board.wf(),
        k <= board.size,
    ensures
        pruned_nodes_scan(board, alpha, beta, depth, heuristic, k) <= minimax_nodes_scan(board, k),
    decreases board.rank(), k,
{
    if k > 0 {
        let j = (k - 1) as nat;
        lemma_pruning_visits_fewer_scan(board, alpha, beta, depth, heuristic, j);
        let bowl = k - 1;
        let prev = pruned_scan(board, alpha, beta, depth, heuristic, j);
        if board.bowls[bowl] > 0 {
            board.lemma_play_lowers_rank(bowl);
            board.lemma_play_conserves(bowl);
            let child = board.play(bowl);
            let d = depth.spec_decrement();
            if child.player == board.player {
                lemma_pruning_visits_fewer(child, prev.2, beta, d, heuristic);
            } else {
                lemma_pruning_visits_fewer(
                    child,
                    beta.spec_opposite(),
                    prev.2.spec_opposite(),
                    d,
                    heuristic,
                );
            }
        }
    }
}

/// Pruning only saves work, as the analyzers count it: from the same count, an analyzer
/// given to `alpha_beta_counted` ends at or below one given to `minmax` for the same board.
pub proof fn lemma_pruning_counts_fewer<H: Heuristic>(
    board: Board,
    alpha: Value,
    beta: Value,
    depth: Depth,
    heuristic: H,
    count: u64,
)
    requires
        board.wf(),
    ensures
        add_sat(count, pruned_nodes(board, alpha, beta, depth, heuristic)) <= add_sat(
            count,
            minimax_nodes(board),
        ),
{
    lemma_pruning_visits_fewer(board, alpha, beta, depth, heuristic);
}

/// Build AlphaBeta strategy instances
pub struct AlphaBetaBuilder<H: Heuristic> {
    search_depth: Depth,
    heuristic: H,
}

impl<H: Heuristic> AlphaBetaBuilder<H> {
    /// The depth budget the strategy will have.
    pub closed spec fn depth(&self) -> Depth {
        self.search_depth
    }

    /// The heuristic the strategy will use.
    pub closed spec fn rule(&self) -> H {
        self.heuristic
    }

    /// Build an Alpha Beta strategy
    pub fn build(self) -> (r: AlphaBeta<H>)
        ensures
            r.depth() == self.depth(),
            r.rule() == self.rule(),
    {
        AlphaBeta { search_depth: self.search_depth, heuristic: self.heuristic }
    }

    /// limited to a certain search depth
    pub fn limited_to(self, search_depth: Depth) -> (r: AlphaBetaBuilder<H>)
        ensures
            r.depth() == search_depth,
            r.rule() == self.rule(),
    {
        AlphaBetaBuilder { search_depth, heuristic: self.heuristic }
    }

    /// with a certain heuristic
    pub fn with_heuristic<G: Heuristic>(self, heuristic: G) -> (r: AlphaBetaBuilder<G>)
        ensures
            r.depth() == self.depth(),
            r.rule() == heuristic,
    {
        AlphaBetaBuilder { search_depth: self.search_depth, heuristic }
    }
}

/// Pick the option that maximizes the minimum win, pruning sub-trees along the way.
pub struct AlphaBeta<H: Heuristic> {
    search_depth: Depth,
    heuristic: H,
}

impl<H: Heuristic> AlphaBeta<H> {
    /// The depth budget of the search.
    pub closed spec fn depth(&self) -> Depth {
        self.search_depth
    }

    /// The heuristic the search uses where the budget runs out.
    pub closed spec fn rule(&self) -> H {
        self.heuristic
    }
}

impl AlphaBeta<Delta> {
    /// Create a default AlphaBetaBuilder
    ///
    /// It has an unlimited search depth and the Delta heuristic.
    pub fn strategy() -> (r: AlphaBetaBuilder<Delta>)
        ensures
            r.depth() == Depth::Infinite,
    {
        AlphaBetaBuilder { search_depth: Depth::Infinite, heuristic: delta() }
    }
}

impl<H: Heuristic> Strategy for AlphaBeta<H> {
    fn play(&mut self, position: &Position) -> (r: Option<Bowl>)
        ensures
            r == pruned(
                position@,
                Value::NegativeInfinity,
                Value::PositiveInfinity,
                old(self).depth().at_least_one(),
                old(self).rule(),
            ).0,
            final(self).depth() == old(self).depth(),
            final(self).rule() == old(self).rule(),
    {
        // a spent budget still searches one ply, so that a play is always found
        let search_depth = if self.search_depth.is_zero() {
            Depth::Limit(1)
        } else {
            self.search_depth
        };
        proof {
            position@.lemma_has_options();
        }
        let (bowl, _) = self.search(position, &search_depth);
        bowl
    }
}

impl<H: Heuristic> DepthLimitedSearch for AlphaBeta<H> {
    fn search(&mut self, position: &Position, search_depth: &Depth) -> (r: (Option<Bowl>, Value))
        ensures
            r == pruned(
                position@,
                Value::NegativeInfinity,
                Value::PositiveInfinity,
                *search_depth,
                old(self).rule(),
            ),
            final(self).depth() == old(self).depth(),
            final(self).rule() == old(self).rule(),
    {
        proof {
            if !position@.finished() && !search_depth.spec_is_zero() {
                lemma_alpha_beta_plays(position@, *search_depth, self.heuristic);
            }
        }
        alpha_beta(
            position,
            Value::NegativeInfinity,
            Value::PositiveInfinity,
            search_depth,
            &self.heuristic,
        )
    }
}

} // verus!
