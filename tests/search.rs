use mancala::game::{GameBuilder, Position};
use mancala::strategy::heuristic::{delta, Delta, Heuristic, Value};
use mancala::strategy::tree::alphabeta::{alpha_beta, alpha_beta_counted};
use mancala::strategy::tree::ids::IterativeDeepeningSearch;
use mancala::strategy::tree::minmax::{minmax, Analyzer};
use mancala::strategy::tree::{mcts, AlphaBeta, Depth, MinMax, MonteCarlo};
use mancala::strategy::{First, Random, Strategy};

#[test]
fn values_compare_correctly() {
    assert!(Value::NegativeInfinity < Value::Actual(0));
    assert!(Value::NegativeInfinity < Value::PositiveInfinity);
    assert!(Value::Actual(0) > Value::NegativeInfinity);
    assert!(Value::Actual(0) < Value::PositiveInfinity);
    assert!(Value::PositiveInfinity > Value::NegativeInfinity);
    assert!(Value::PositiveInfinity > Value::Actual(0));
}

#[test]
fn opposite_undoes_itself() {
    for value in [
        Value::NegativeInfinity,
        Value::Actual(-127),
        Value::Actual(-3),
        Value::Actual(0),
        Value::Actual(42),
        Value::Actual(127),
        Value::PositiveInfinity,
    ] {
        assert_eq!(value.opposite().opposite(), value);
    }
    assert_eq!(Value::NegativeInfinity.opposite(), Value::PositiveInfinity);
    assert_eq!(Value::Actual(5).opposite(), Value::Actual(-5));
    assert!(Value::Actual(-2) < Value::Actual(3));
}

#[test]
fn delta_heuristic_reads_the_stores() {
    let position = Position::from((7, 2, [1, 0, 0, 1]));
    assert_eq!(delta().evaluate(&position), Value::Actual(5));
}

#[test]
fn minmax_finished_games_are_scored() {
    let position = Position::from((5, 0, [0, 0, 2, 2]));
    let mut analyzer = Analyzer::new();

    let (bowl, value) = minmax(&mut analyzer, &position);

    assert_eq!(value, Value::Actual(1));
    assert_eq!(bowl, None);
}

#[test]
fn minmax_only_bowl_is_selected() {
    let position = Position::from([1, 0, 1, 0]);
    let mut analyzer = Analyzer::new();

    let result = minmax(&mut analyzer, &position);

    assert_eq!(result, (Some(0), Value::Actual(2)));
}

#[test]
fn minmax_best_bowl_is_selected() {
    let position = Position::from([1, 2, 1, 0, 2, 1]);
    let mut analyzer = Analyzer::new();

    let (_, value) = minmax(&mut analyzer, &position);

    assert_eq!(value, Value::Actual(5));
}

#[test]
fn alphabeta_finished_games_are_scored() {
    let position = Position::from((5, 0, [0, 0, 2, 2]));
    let heuristic = Delta {};

    let (bowl, value) = alpha_beta(
        &position,
        Value::NegativeInfinity,
        Value::PositiveInfinity,
        &Depth::Infinite,
        &heuristic,
    );

    assert_eq!(value, Value::Actual(1));
    assert_eq!(bowl, None);
}

#[test]
fn alphabeta_only_bowl_is_selected() {
    let position = Position::from([1, 0, 1, 0]);
    let heuristic = Delta {};

    let result = alpha_beta(
        &position,
        Value::NegativeInfinity,
        Value::PositiveInfinity,
        &Depth::Infinite,
        &heuristic,
    );

    assert_eq!(result, (Some(0), Value::Actual(2)));
}

#[test]
fn alphabeta_best_bowl_is_selected() {
    let position = Position::from([1, 2, 1, 0, 2, 1]);
    let heuristic = Delta {};

    let (_, value) = alpha_beta(
        &position,
        Value::NegativeInfinity,
        Value::PositiveInfinity,
        &Depth::Infinite,
        &heuristic,
    );

    assert_eq!(value, Value::Actual(5));
}

#[test]
fn mcts_finished_games_are_scored() {
    let position = Position::from((5, 0, [0, 0, 2, 2]));
    let heuristic = mcts::Delta {};

    let (bowl, value) = mcts::alpha_beta(
        &position,
        Value::NegativeInfinity,
        Value::PositiveInfinity,
        &Depth::Infinite,
        &heuristic,
    );

    assert_eq!(value, Value::Actual(1));
    assert_eq!(bowl, None);
}

#[test]
fn mcts_only_bowl_is_selected() {
    let position = Position::from([1, 0, 1, 0]);
    let heuristic = mcts::Delta {};

    let result = mcts::alpha_beta(
        &position,
        Value::NegativeInfinity,
        Value::PositiveInfinity,
        &Depth::Infinite,
        &heuristic,
    );

    assert_eq!(result, (Some(0), Value::Actual(2)));
}

#[test]
fn mcts_best_bowl_is_selected() {
    let position = Position::from([1, 2, 1, 0, 2, 1]);
    let heuristic = mcts::Delta {};

    let (_, value) = mcts::alpha_beta(
        &position,
        Value::NegativeInfinity,
        Value::PositiveInfinity,
        &Depth::Infinite,
        &heuristic,
    );

    assert_eq!(value, Value::Actual(5));
}

#[test]
fn pruning_agrees_with_minmax() {
    let positions = vec![
        Position::from([1, 2, 1, 0, 2, 1]),
        Position::from([3, 1, 2, 2, 0, 1]),
        Position::from((2, 1, [2, 0, 3, 1, 1, 2])),
        Position::from([2, 2, 2, 2]),
        Position::from([1, 1, 1, 1, 1, 1, 1, 1]),
    ];
    for position in positions {
        let mut analyzer = Analyzer::new();
        let expected = minmax(&mut analyzer, &position);
        let actual = alpha_beta(
            &position,
            Value::NegativeInfinity,
            Value::PositiveInfinity,
            &Depth::Infinite,
            &Delta {},
        );
        assert_eq!(actual, expected);
        let mut strategy = AlphaBeta::strategy().build();
        let mut exhaustive = MinMax::new();
        assert_eq!(strategy.play(&position), exhaustive.play(&position));
    }
}

#[test]
fn depth_limit_zero_asks_the_heuristic() {
    let position = Position::from((4, 1, [1, 2, 1, 0, 2, 1]));
    let result = alpha_beta(
        &position,
        Value::NegativeInfinity,
        Value::PositiveInfinity,
        &Depth::Limit(0),
        &Delta {},
    );
    assert_eq!(result, (None, Value::Actual(3)));
    let mut limited = MonteCarlo::strategy().limited_to(Depth::Limit(1)).with_heuristic(delta()).build();
    assert!(limited.play(&position).is_some());
}

#[test]
fn analyzer_counts_the_root_once() {
    let position = Position::from([1, 0, 1, 0]);
    let mut strategy = MinMax::default();
    assert_eq!(strategy.play(&position), Some(0));
    assert_eq!(strategy.analyzer.nodes_at(0), 1);
    assert!(strategy.analyzer.nodes_at(1) >= 1);
    assert_eq!(Analyzer::default().nodes_at(0), 0);
}

#[test]
fn first_takes_the_lowest_option() {
    let mut strategy = First::new();
    assert_eq!(strategy.play(&Position::from([0, 3, 1, 1, 0, 0])), Some(1));
    assert_eq!(strategy.play(&Position::from([0, 0, 1, 1])), None);
}

#[test]
fn random_picks_an_option() {
    let mut strategy = Random::new(rand::thread_rng());
    let position = Position::from([0, 3, 0, 1, 1, 1, 0, 0]);
    for _ in 0..20 {
        let bowl = strategy.play(&position);
        assert!(bowl == Some(1) || bowl == Some(3));
    }
    assert_eq!(strategy.play(&Position::from([0, 0, 1, 1])), None);
}

#[test]
fn iterative_deepening_finds_a_play() {
    let searcher = AlphaBeta::strategy().build();
    let mut strategy = IterativeDeepeningSearch::new(Depth::Limit(3), searcher);
    assert_eq!(strategy.play(&Position::from([1, 0, 1, 0])), Some(0));
    let mut unbounded = IterativeDeepeningSearch::new(Depth::Infinite, AlphaBeta::strategy().build());
    assert_eq!(unbounded.play(&Position::from([1, 0, 1, 0])), Some(0));
    let mut spent = IterativeDeepeningSearch::new(Depth::Limit(0), AlphaBeta::strategy().build());
    assert_eq!(spent.play(&Position::from([0, 2, 1, 1])), Some(1));
}

#[test]
fn a_spent_budget_still_plays() {
    let position = Position::from((4, 1, [1, 2, 1, 0, 2, 1]));
    let mut strategy = AlphaBeta::strategy().limited_to(Depth::Limit(0)).build();
    let bowl = strategy.play(&position);
    assert!(bowl.is_some());
    let mut monte = MonteCarlo::strategy().limited_to(Depth::Limit(0)).build();
    assert_eq!(monte.play(&position), bowl);
}

#[test]
fn analyzer_counts_the_whole_tree() {
    // Red plays bowl 0 and captures; the game is then over: two positions, one ply deep.
    let position = Position::from([1, 0, 1, 0]);
    let mut analyzer = Analyzer::new();
    minmax(&mut analyzer, &position);
    assert_eq!(analyzer.node_count(), 2);
    assert_eq!(analyzer.max_depth(), 1);
    assert_eq!(analyzer.nodes_at(0), 1);
    assert_eq!(analyzer.nodes_at(1), 1);
    assert_eq!(analyzer.nodes_at(2), 0);
    assert_eq!(analyzer.current_depth(), 0);
}

#[test]
fn pruning_counts_no_more_than_minmax() {
    let positions = vec![
        Position::from([1, 2, 1, 0, 2, 1]),
        Position::from([3, 1, 2, 2, 0, 1]),
        Position::from([2, 2, 2, 2, 2, 2]),
    ];
    for position in positions {
        let mut full = Analyzer::new();
        let expected = minmax(&mut full, &position);
        let mut pruned = Analyzer::new();
        let actual = alpha_beta_counted(
            &position,
            Value::NegativeInfinity,
            Value::PositiveInfinity,
            &Depth::Infinite,
            &Delta {},
            &mut pruned,
        );
        assert_eq!(actual, expected);
        assert!(pruned.node_count() <= full.node_count());
        assert!(pruned.node_count() >= 1);
        let per_depth: u64 = (0..=full.max_depth()).map(|d| full.nodes_at(d)).sum();
        assert_eq!(per_depth, full.node_count());
    }
}
