use std::time::{Duration, SystemTime};

use mancala::bout::{apply_choice, Bout, Problem};
use mancala::game::{Bowl, FoulPlay, GameBuilder, Player, Position};
use mancala::strategy::{AlphaBeta, First, Strategy};

const MAXIMUM_ALLOWED_DURATION: Duration = Duration::from_millis(2000);

#[test]
fn calculating_end_games_should_be_quick() {
    let mut red_strategy = AlphaBeta::strategy().build();
    let mut blue_strategy = AlphaBeta::strategy().build();
    let mut bout = Bout::new(&mut red_strategy, &mut blue_strategy, &|_| {});

    let start_time = SystemTime::now();
    for stones in 1..15 {
        let game = GameBuilder::new().bowls(2).stones(stones).build();
        let _result = bout.start(game).expect("a finished game with score");
    }
    let finish_time = SystemTime::now();
    let duration = finish_time.duration_since(start_time).expect("a duration");

    assert!(duration < MAXIMUM_ALLOWED_DURATION);
}

struct Silent;

impl Strategy for Silent {
    fn play(&mut self, _position: &Position) -> Option<Bowl> {
        None
    }
}

struct Stubborn;

impl Strategy for Stubborn {
    fn play(&mut self, _position: &Position) -> Option<Bowl> {
        Some(0)
    }
}

#[test]
fn bout_plays_to_the_end() {
    let mut red = First::new();
    let mut blue = First::new();
    let plays = std::cell::Cell::new(0);
    let count = |_: Bowl| plays.set(plays.get() + 1);
    let mut bout = Bout::new(&mut red, &mut blue, &count);
    let game = bout.start(GameBuilder::new().bowls(3).stones(2).build()).unwrap();
    assert!(game.finished());
    assert_eq!(game.history().len(), plays.get());
    assert!(plays.get() > 0);
}

#[test]
fn bout_on_a_finished_game_is_a_problem() {
    let mut red = First::new();
    let mut blue = First::new();
    let mut bout = Bout::new(&mut red, &mut blue, &|_| {});
    let game = GameBuilder::new().bowls(2).stones(0).build();
    assert!(matches!(bout.start(game), Err(Problem::RightOutOfTheGate)));
}

#[test]
fn bout_without_a_play_is_a_problem() {
    let mut red = Silent;
    let mut blue = First::new();
    let mut bout = Bout::new(&mut red, &mut blue, &|_| {});
    let game = GameBuilder::new().bowls(2).stones(1).build();
    assert!(matches!(bout.start(game), Err(Problem::NoPlay(Player::Red))));
}

#[test]
fn bout_with_an_empty_bowl_is_a_problem() {
    let mut red = Stubborn;
    let mut blue = First::new();
    let mut bout = Bout::new(&mut red, &mut blue, &|_| {});
    // Red's two stones in bowl 0 end in Red's store, so Red plays again, and bowl 0 is empty.
    let game = GameBuilder::new().bowls(2).stones(2).build();
    let result = bout.start(game);
    assert!(matches!(
        result,
        Err(Problem::IllegalPlay(Player::Red, FoulPlay::NoStonesInBowl))
    ));
}

#[test]
fn one_ply_applies_the_choice_or_names_the_mover() {
    let mut game = GameBuilder::new().bowls(2).stones(1).build();
    assert_eq!(apply_choice(&mut game, None), Err(Problem::NoPlay(Player::Red)));
    assert!(game.history().is_empty());
    assert_eq!(apply_choice(&mut game, Some(0)), Ok(()));
    assert_eq!(game.history(), &vec![(Player::Red, 0)]);
    assert_eq!(game.current, Position::from((Player::Blue, [1, 1, 0, 2])));
    assert_eq!(apply_choice(&mut game, Some(0)), Ok(()));
    // Red is to move again with bowl 0 empty
    assert_eq!(
        apply_choice(&mut game, Some(0)),
        Err(Problem::IllegalPlay(Player::Red, FoulPlay::NoStonesInBowl))
    );
    assert_eq!(game.history().len(), 2);
}
