use mancala::game::{FoulPlay, GameBuilder, Player, Position};

#[test]
fn fresh_game_is_not_finished() {
    let game = GameBuilder::new().bowls(6).stones(4).build();

    assert!(!game.finished());
}

#[test]
fn game_knows_options_to_play() {
    let game = GameBuilder::new().bowls(3).stones(2).build();

    let options = game.options();

    assert_eq!(options, vec!(0, 1, 2));
}

#[test]
fn game_records_history_of_what_is_played() -> Result<(), FoulPlay> {
    let mut actual = GameBuilder::new().bowls(3).stones(2).build();

    actual.play(0)?;

    let expected = Position::from((Player::Blue, [2, 2, 2, 0, 3, 3]));
    assert_eq!(actual.current, expected);
    assert_eq!(actual.history(), &vec![(Player::Red, 0)]);
    Ok(())
}

#[test]
fn play_that_goes_over_store_should_capture_stone() {
    let start = Position::from([2, 2, 2, 2]);

    let actual = start.play(1);

    let expected = Position::from((Player::Blue, 0, 1, [3, 2, 2, 0]));
    assert_eq!(actual, Some(expected))
}

#[test]
fn play_that_cycles_should_start_over() {
    let start = Position::from([6, 6, 6, 6]);

    let actual = start.play(0);

    let expected = Position::from((Player::Blue, 0, 1, [7, 7, 1, 8]));
    assert_eq!(actual, Some(expected))
}

#[test]
fn play_into_your_store_allows_an_other_turn() {
    let start = Position::from([2, 2, 2, 2, 2, 2]);

    let actual = start.play(1);

    let expected = Position::from((1, 0, [2, 0, 3, 2, 2, 2]));
    assert_eq!(actual, Some(expected))
}

#[test]
fn play_into_empty_bowl_captures_opposite_bowl() {
    let start = Position::from([2, 2, 0, 2, 2, 2, 2, 2]);

    let actual = start.play(0);

    let expected = Position::from((Player::Blue, 0, 2, [2, 0, 2, 2, 0, 3, 1, 2]));
    assert_eq!(actual, Some(expected))
}

#[test]
fn positions_with_no_stones_on_one_side_is_finished() {
    let start = Position::from([0, 0, 2, 2]);

    assert!(start.finished());
    assert_eq!(start.score(), Some(-4));
}

#[test]
fn play_changes_player() {
    let start = Position::from([1, 0, 1, 0]);

    let actual = start.play(0).unwrap();

    let expected = Position::from((Player::Blue, 0, 1, [0, 0, 0, 1]));
    assert_eq!(actual, expected);
    assert_eq!(expected.score(), Some(-2));
}

#[test]
fn playing_an_empty_bowl_is_foul_play() {
    let mut game = GameBuilder::new().bowls(3).stones(2).build();
    game.play(0).unwrap();
    // Blue's side after the turn is [2, 2, 2]; Red's old bowl 0 is now at index 3.
    let before = Position::from((Player::Blue, [2, 2, 2, 0, 3, 3]));
    assert_eq!(game.current, before);
    let mut empty = GameBuilder::new().bowls(2).stones(1).build();
    empty.play(0).unwrap();
    empty.play(0).unwrap();
    assert_eq!(empty.current.play(0), None);
    let history_before = empty.history().clone();
    assert_eq!(empty.play(0), Err(FoulPlay::NoStonesInBowl));
    assert_eq!(empty.history(), &history_before);
}

#[test]
fn empty_bowl_gives_no_position() {
    let start = Position::from([0, 3, 1, 1]);
    assert_eq!(start.play(0), None);
}

#[test]
fn default_game_has_six_bowls_of_four() {
    let game = GameBuilder::default().build();
    assert_eq!(game.options(), vec![0, 1, 2, 3, 4, 5]);
    assert_eq!(game.current.total(), 48);
    assert_eq!(game.turn(), Player::Red);
    assert_eq!(game.score(), None);
}

#[test]
fn plays_keep_every_stone() {
    let mut position = Position::from((3, 5, [1, 4, 0, 2, 7, 3, 0, 6]));
    let total = position.total();
    assert_eq!(total, 31);
    let mut plays = 0;
    while !position.finished() {
        let options = position.options();
        let bowl = options[plays % options.len()];
        position = position.play(bowl).unwrap();
        assert_eq!(position.total(), total);
        plays += 1;
    }
    assert!(plays > 0);
}

#[test]
fn a_full_lap_feeds_the_own_store_and_every_bowl() {
    // five stones on a board of two bowls a side: one full lap, nothing left over
    let start = Position::from([5, 0, 0, 0]);

    let actual = start.play(0).unwrap();

    // the lap refills bowl 0 with one stone, which captures the facing bowl
    let expected = Position::from((Player::Blue, 0, 2, [1, 0, 1, 1]));
    assert_eq!(actual, expected);
}

#[test]
fn last_stone_in_own_store_keeps_the_turn_in_a_game() {
    let mut game = GameBuilder::new().bowls(3).stones(1).build();
    game.play(2).unwrap();
    assert_eq!(game.turn(), Player::Red);
    game.play(1).unwrap();
    assert_eq!(game.turn(), Player::Blue);
}

#[test]
fn delta_is_the_difference_of_the_stores() {
    let position = Position::from((Player::Blue, 5, 9, [1, 0, 0, 1]));
    assert_eq!(position.delta(), -4);
    assert_eq!(position.active_player(), Player::Blue);
    assert_eq!(position.size(), 2);
}

#[test]
fn players_alternate() {
    assert_eq!(Player::Red.other(), Player::Blue);
    assert_eq!(Player::Blue.other(), Player::Red);
}

#[test]
fn new_position_has_stones_everywhere() {
    let position = Position::new(2, 3);
    assert_eq!(position, Position::from([3, 3, 3, 3]));
    assert_eq!(position.options(), vec![0, 1]);
}
