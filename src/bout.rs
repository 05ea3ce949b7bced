//! Coordination of a bout between strategies.
use vstd::prelude::*;

use crate::game::board::Board;
use crate::game::{Bowl, FoulPlay, Game, Player};
use crate::strategy::Strategy;

verus! {

/// Trait to display the play made by a strategy.
pub trait DisplayPlay {
    /// Whether `display` may be called with this bowl.
    spec fn accepts(&self, bowl_played: Bowl) -> bool;

    /// Receive the bowl played so that it can be displayed.
    fn display(&self, bowl_played: Bowl)
        requires
            self.accepts(bowl_played),
    ;
}

impl<F: Fn(Bowl)> DisplayPlay for F {
    open spec fn accepts(&self, bowl_played: Bowl) -> bool {
        self.requires((bowl_played,))
    }

    fn display(&self, bowl_played: Bowl) {
        self(bowl_played)
    }
}

/// Problems that can occur during a bout
#[derive(Debug, Clone, Copy, PartialEq, Eq, Structural)]
pub enum Problem {
    /// The game was over before any play was made
    RightOutOfTheGate,
    /// A player played an illegal move
    IllegalPlay(Player, FoulPlay),
    /// A player did not make a play
    NoPlay(Player),
}

/// Whether `plays` can be made one after the other from `board`: each by the player to
/// move, on a bowl of that player that holds stones.
pub open spec fn legal_plays(board: Board, plays: Seq<(Player, Bowl)>) -> bool
    decreases plays.len(),
{
    if plays.len() == 0 {
        true
    } else {
        let before = after_plays(board, plays.drop_last());
        &&& legal_plays(board, plays.drop_last())
        &&& plays.last().0 == before.player
        &&& before.playable(plays.last().1 as int)
    }
}

/// The board after `plays` are made one after the other from `board`.
pub open spec fn after_plays(board: Board, plays: Seq<(Player, Bowl)>) -> Board
    decreases plays.len(),
{
    if plays.len() == 0 {
        board
    } else {
        after_plays(board, plays.drop_last()).play(plays.last().1 as int)
    }
}

/// One ply of a bout: apply the bowl the player to move chose, or report why the bout cannot
/// go on. No choice is `NoPlay`, an empty bowl is `IllegalPlay`; both name the player to
/// move and leave the game as it was.
pub fn apply_choice(game: &mut Game, choice: Option<Bowl>) -> (r: Result<(), Problem>)
    requires
        old(game).wf(),
        choice matches Some(b) ==> b < old(game).board().size,
    ensures
        final(game).wf(),
        choice is None ==> r == Err::<(), Problem>(Problem::NoPlay(old(game).board().player))
            && *final(game) == *old(game),
        choice matches Some(b) ==> (old(game).board().bowls[b as int] == 0 <==> r == Err::<
            (),
            Problem,
        >(Problem::IllegalPlay(old(game).board().player, FoulPlay::NoStonesInBowl))),
        choice matches Some(b) ==> (old(game).board().bowls[b as int] != 0 <==> r is Ok),
        r is Err ==> *final(game) == *old(game),
        r is Ok ==> (choice matches Some(b) && final(game).board() == old(game).board().play(
            b as int,
        ) && final(game).played() == old(game).played().push((old(game).board().player, b))),
{
    match choice {
        Some(bowl) => {
            let turn = game.turn();
            match game.play(bowl) {
                Ok(()) => Ok(()),
                Err(foul_play) => Err(Problem::IllegalPlay(turn, foul_play)),
            }
        },
        None => Err(Problem::NoPlay(game.turn())),
    }
}

/// Representation of the bout
pub struct Bout<'a, R: Strategy, B: Strategy, D: DisplayPlay> {
    displayer: &'a D,
    red_strategy: &'a mut R,
    blue_strategy: &'a mut B,
}

impl<'a, R: Strategy, B: Strategy, D: DisplayPlay> Bout<'a, R, B, D> {
    /// The displayer that is shown every play.
    pub closed spec fn shown_to(&self) -> D {
        *self.displayer
    }

    /// Create a bout between strategies.
    pub fn new(red_strategy: &'a mut R, blue_strategy: &'a mut B, displayer: &'a D) -> (r: Self)
        ensures
            r.shown_to() == *displayer,
    {
        Bout { displayer, red_strategy, blue_strategy }
    }

    /// Start the bout. The strategy of the player to move picks the bowl to play, which is
    /// shown and applied, until the game is finished. Returns the finished game, or the
    /// problem that stopped the bout: a game that was over before any play is
    /// `RightOutOfTheGate`. Since every strategy plays whenever it can, a game that is not
    /// over always ends well.
    pub fn start(&mut self, game: Game) -> (r: Result<Game, Problem>)
        requires
            game.wf(),
            forall|b: Bowl| #[trigger] old(self).shown_to().accepts(b),
        ensures
            final(self).shown_to() == old(self).shown_to(),
            game.board().finished() <==> r == Err::<Game, Problem>(Problem::RightOutOfTheGate),
            !game.board().finished() ==> r is Ok,
            r matches Ok(g) ==> g.wf() && g.board().finished() && exists|plays: Seq<(Player, Bowl)>|
                plays.len() > 0 && legal_plays(game.board(), plays) && g.board() == after_plays(
                    game.board(),
                    plays,
                ) && g.played() == game.played() + plays,
    {
        let ghost start = game;
        let ghost mut plays: Seq<(Player, Bowl)> = Seq::empty();
        let mut game = game;
        let mut result: Result<(), Problem> = Err(Problem::RightOutOfTheGate);
        let mut failed = false;
        proof {
            assert(game.played() =~= start.played() + plays);
        }
        while !failed && !game.finished()
            invariant
                game.wf(),
                !failed,
                self.shown_to() == old(self).shown_to(),
                forall|b: Bowl| #[trigger] self.shown_to().accepts(b),
                legal_plays(start.board(), plays),
                game.board() == after_plays(start.board(), plays),
                game.played() == start.played() + plays,
                result is Ok <==> plays.len() > 0,
                plays.len() > 0 ==> !start.board().finished(),
                result is Err ==> result == Err::<(), Problem>(Problem::RightOutOfTheGate),
            decreases game.board().rank(),
        {
            let choice = match game.turn() {
                Player::Red => self.red_strategy.play(game.position()),
                Player::Blue => self.blue_strategy.play(game.position()),
            };
            proof {
                game.board().lemma_has_options();
            }
            let ghost before = game;
            if let Some(bowl) = choice {
                self.displayer.display(bowl);
            }
            result = apply_choice(&mut game, choice);
            proof {
                let bowl = choice->Some_0;
                before.board().lemma_play_lowers_rank(bowl as int);
                let next = plays.push((before.board().player, bowl));
                assert(next.drop_last() =~= plays);
                assert(game.played() =~= start.played() + next);
                plays = next;
            }
            failed = result.is_err();
        }
        match result {
            Ok(()) => Ok(game),
            Err(problem) => Err(problem),
        }
    }
}

} // verus!
