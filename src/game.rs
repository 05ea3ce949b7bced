//! Mancala positions and games.
//!
//! The board has `size` bowls per side and one store per player. The bowls of the player
//! to move always come first; after a turn passes, the board is turned so that this
//! remains true.
use vstd::prelude::*;

pub mod board;

use self::board::{
    half_turn, ints, lemma_spread_step, lemma_sum_bounds, lemma_sum_constant, lemma_sum_nonneg,
    lemma_sum_split, spread, sum, Board, MAX_BOWLS, MAX_STONES,
};

verus! {

/// Representation of a Bowl
pub type Bowl = usize;

/// Representation of a number of stones in a bowl
pub type Stones = u8;

/// Score a finished game;
pub type Score = i8;

/// The names for the players.
#[derive(Debug, Clone, Copy, PartialEq, Eq, Structural)]
pub enum Player {
    /// The starting player
    Red,
    /// The other player
    Blue,
}

impl Player {
    pub open spec fn spec_other(self) -> Player {
        match self {
            Player::Red => Player::Blue,
            Player::Blue => Player::Red,
        }
    }

    /// The opposite player
    #[verifier::when_used_as_spec(spec_other)]
    pub fn other(self) -> (r: Player)
        ensures
            r == self.spec_other(),
            r != self,
    {
        match self {
            Player::Red => Player::Blue,
            Player::Blue => Player::Red,
        }
    }
}

/// GameBuilder is used to create a Mancala game.
pub struct GameBuilder {
    bowls: u8,
    stones: Stones,
}

impl GameBuilder {
    /// The number of bowls per side the game will have.
    pub closed spec fn bowl_count(&self) -> u8 {
        self.bowls
    }

    /// The number of stones each bowl will start with.
    pub closed spec fn stone_count(&self) -> Stones {
        self.stones
    }

    /// Creates a new GameBuilder
    ///
    /// The default number of bowls is 6 and the default number of stones per bowl is 4.
    pub fn new() -> (r: GameBuilder)
        ensures
            r.bowl_count() == 6,
            r.stone_count() == 4,
    {
        GameBuilder { bowls: 6, stones: 4 }
    }

    /// Sets the number of bowls for this GameBuilder
    pub fn bowls(self, bowls: u8) -> (r: GameBuilder)
        ensures
            r.bowl_count() == bowls,
            r.stone_count() == self.stone_count(),
    {
        GameBuilder { bowls, stones: self.stones }
    }

    /// Sets the number of stones for this GameBuilder
    pub fn stones(self, stones: Stones) -> (r: GameBuilder)
        ensures
            r.bowl_count() == self.bowl_count(),
            r.stone_count() == stones,
    {
        GameBuilder { bowls: self.bowls, stones }
    }

    /// Creates a Game with the required number of bowls and stones per bowl
    pub fn build(self) -> (r: Game)
        requires
            1 <= self.bowl_count(),
            2 * self.bowl_count() * self.stone_count() <= MAX_STONES,
        ensures
            r.board() == (Board {
                player: Player::Red,
                size: self.bowl_count() as nat,
                bowls: Seq::new(2 * self.bowl_count() as nat, |i: int| self.stone_count() as int),
                mine: 0,
                theirs: 0,
            }),
            r.wf(),
            r.played() == Seq::<(Player, Bowl)>::empty(),
    {
        let current = Position::new(self.bowls, self.stones);
        Game { current, history: Vec::new() }
    }
}

impl Default for GameBuilder {
    fn default() -> (r: GameBuilder)
        ensures
            r.bowl_count() == 6,
            r.stone_count() == 4,
    {
        GameBuilder::new()
    }
}

/// Game is a sequence of Positions.
///
/// A Game is created with a GameBuilder.
#[derive(Debug, PartialEq)]
pub struct Game {
    /// The current position of this game
    pub current: Position,
    history: Vec<(Player, Bowl)>,
}

impl Game {
    /// The current position, as a board.
    pub closed spec fn board(&self) -> Board {
        self.current@
    }

    /// The plays made so far, with the player who made each.
    pub closed spec fn played(&self) -> Seq<(Player, Bowl)> {
        self.history@
    }

    /// The game's position is well formed.
    pub open spec fn wf(&self) -> bool {
        self.board().wf()
    }

    /// The current position.
    pub fn position(&self) -> (r: &Position)
        ensures
            r@ == self.board(),
            self.wf() ==> r.wf(),
    {
        &self.current
    }

    /// The plays made so far, with the player who made each.
    pub fn history(&self) -> (r: &Vec<(Player, Bowl)>)
        ensures
            r@ == self.played(),
    {
        &self.history
    }

    /// Determine if this game is finished
    pub fn finished(&self) -> (r: bool)
        requires
            self.wf(),
        ensures
            r == self.board().finished(),
    {
        self.current.finished()
    }

    /// Determine which bowls are playable.
    pub fn options(&self) -> (r: Vec<Bowl>)
        requires
            self.wf(),
        ensures
            r@.map_values(|b: Bowl| b as int) == self.board().options(),
    {
        self.current.options()
    }

    /// Play a certain bowl.
    ///
    /// Fails if the bowl does not contain any stones.
    pub fn play(&mut self, bowl: Bowl) -> (r: Result<(), FoulPlay>)
        requires
            old(self).wf(),
            bowl < old(self).board().size,
        ensures
            final(self).wf(),
            old(self).board().bowls[bowl as int] == 0 <==> r == Err::<(), FoulPlay>(
                FoulPlay::NoStonesInBowl,
            ),
            r is Err ==> *final(self) == *old(self),
            r is Ok ==> final(self).board() == old(self).board().play(bowl as int)
                && final(self).played() == old(self).played().push(
                (old(self).board().player, bowl),
            ),
    {
        match self.current.play(bowl) {
            Some(position) => {
                self.history.push((self.current.turn(), bowl));
                self.current = position;
                Ok(())
            },
            None => Err(FoulPlay::NoStonesInBowl),
        }
    }

    /// Determine the score of a game.
    ///
    /// None if the game is not finished
    pub fn score(&self) -> (r: Option<Score>)
        requires
            self.wf(),
        ensures
            r is Some <==> self.board().finished(),
            r matches Some(s) ==> s as int == self.board().score(),
    {
        self.current.score()
    }

    /// Return which players turn it is
    pub fn turn(&self) -> (r: Player)
        ensures
            r == self.board().player,
    {
        self.current.turn()
    }
}

/// Discriminates between all the ways a play can go wrong.
#[derive(Debug, Clone, Copy, PartialEq, Eq, Structural)]
pub enum FoulPlay {
    /// Playing a bowl when there are no stones in the bowl, is foul play.
    NoStonesInBowl,
}

/// Position is an instance of the board.
#[derive(Debug, PartialEq)]
pub struct Position {
    player: Player,
    size: usize,
    capture: [Stones; 2],
    bowls: Vec<Stones>,
}

impl View for Position {
    type V = Board;

    closed spec fn view(&self) -> Board {
        Board {
            player: self.player,
            size: self.size as nat,
            bowls: ints(self.bowls@),
            mine: self.capture@[0] as int,
            theirs: self.capture@[1] as int,
        }
    }
}

impl Position {
    /// The position holds a board of the documented shape and within the stone bound.
    pub open spec fn wf(&self) -> bool {
        self@.wf()
    }

    proof fn lemma_view(&self)
        ensures
            self@.size == self.size,
            self@.bowls.len() == self.bowls@.len(),
            forall|i: int| 0 <= i < self.bowls@.len() ==> #[trigger] self@.bowls[i] == self.bowls@[i] as int,
            self@.mine == self.capture@[0] as int,
            self@.theirs == self.capture@[1] as int,
            self@.player == self.player,
    {
    }

    /// Create a position with a number of bowls and a number of stones per bowl.
    ///
    /// The board may hold at most `MAX_STONES` stones, so that every score fits a `Score`.
    pub fn new(bowls: u8, stones: Stones) -> (r: Position)
        requires
            1 <= bowls,
            2 * bowls * stones <= MAX_STONES,
        ensures
            r@ == (Board {
                player: Player::Red,
                size: bowls as nat,
                bowls: Seq::new(2 * bowls as nat, |i: int| stones as int),
                mine: 0,
                theirs: 0,
            }),
            r.wf(),
    {
        let size = bowls as usize;
        let mut all: Vec<Stones> = Vec::new();
        while all.len() < 2 * size
            invariant
                size == bowls,
                all@.len() <= 2 * size,
                forall|i: int| 0 <= i < all@.len() ==> #[trigger] all@[i] == stones,
            decreases 2 * size - all.len(),
        {
            all.push(stones);
        }
        let r = Position { player: Player::Red, size, capture: [0, 0], bowls: all };
        proof {
            assert(r@.bowls =~= Seq::new(2 * bowls as nat, |i: int| stones as int));
            lemma_sum_constant(2 * bowls as nat, stones as int);
        }
        r
    }

    /// A position with the given player to move, stores and bowls; the first half of
    /// `bowls` belongs to the player to move. The position is well formed when `bowls` has
    /// an even, non-zero length and the board holds at most `MAX_STONES` stones.
    pub fn with_parts(player: Player, mine: Stones, theirs: Stones, bowls: &[Stones]) -> (r:
        Position)
        ensures
            r@ == (Board {
                player,
                size: (bowls@.len() / 2) as nat,
                bowls: ints(bowls@),
                mine: mine as int,
                theirs: theirs as int,
            }),
    {
        let mut all: Vec<Stones> = Vec::new();
        let mut i: usize = 0;
        while i < bowls.len()
            invariant
                i <= bowls@.len(),
                all@ =~= bowls@.subrange(0, i as int),
            decreases bowls.len() - i,
        {
            all.push(bowls[i]);
            i += 1;
        }
        let r = Position { player, size: bowls.len() / 2, capture: [mine, theirs], bowls: all };
        proof {
            assert(all@ =~= bowls@);
        }
        r
    }

    /// Determine which bowls are playable.
    pub fn options(&self) -> (r: Vec<Bowl>)
        requires
            self.wf(),
        ensures
            r@.map_values(|b: Bowl| b as int) == self@.options(),
    {
        proof {
            self.lemma_view();
        }
        let mut r: Vec<Bowl> = Vec::new();
        let mut i: usize = 0;
        while i < self.size
            invariant
                self.wf(),
                i <= self.size,
                r@.map_values(|b: Bowl| b as int) =~= self@.options_below(i as int),
            decreases self.size - i,
        {
            proof {
                self.lemma_view();
            }
            if self.bowls[i] > 0 {
                r.push(i);
            }
            i += 1;
        }
        r
    }

    /// Play a certain bowl of the player to move.
    ///
    /// If the bowl is empty, returns nothing.
    pub fn play(&self, bowl: Bowl) -> (r: Option<Position>)
        requires
            self.wf(),
            bowl < self@.size,
        ensures
            r is None <==> self@.bowls[bowl as int] == 0,
            r matches Some(p) ==> p@ == self@.play(bowl as int) && p.wf() && p@.total()
                == self@.total(),
    {
        proof {
            self.lemma_view();
        }
        if self.bowls[bowl] > 0 {
            proof {
                self@.lemma_play_conserves(bowl as int);
            }
            Some(self.sow(bowl))
        } else {
            None
        }
    }

    fn sow(&self, bowl: Bowl) -> (r: Position)
        requires
            self.wf(),
            self@.playable(bowl as int),
        ensures
            r@ == self@.play(bowl as int),
    {
        let ghost b = self@;
        let ghost bw = bowl as int;
        proof {
            self.lemma_view();
            b.lemma_sowing_facts(bw);
            b.lemma_bowl_bounds();
            b.lemma_play_conserves(bw);
        }
        let n = self.size;
        let len = 2 * n;
        let ghost laps = b.laps(bw);
        let ghost drops = b.bowl_drops(bw);
        let ghost full = b.spread_bowls(bw);
        proof {
            lemma_sum_nonneg(full);
            assert forall|j: int| 0 <= j < len implies #[trigger] full[j] <= MAX_STONES by {
                lemma_sum_bounds(full, j);
            }
        }
        let mut bowls = self.bowls.clone();
        proof {
            assert(bowls@ =~= self.bowls@);
        }
        let stones = bowls[bowl];
        bowls.set(bowl, 0);
        let tour = 2 * n + 1;
        let all_gain = stones as usize / tour;
        let mut i: usize = 0;
        while i < len
            invariant
                n == self.size,
                len == 2 * n,
                b == self@,
                b.wf(),
                b.bowls.len() == len,
                n <= MAX_BOWLS,
                bw == bowl,
                laps == all_gain,
                full == spread(b.bowls, bw, laps, drops),
                0 <= drops,
                bowls@.len() == len,
                i <= len,
                forall|j: int| 0 <= j < len ==> #[trigger] full[j] <= MAX_STONES,
                forall|j: int|
                    0 <= j < i ==> #[trigger] bowls@[j] == (if j == bw {
                        0
                    } else {
                        b.bowls[j]
                    }) + laps,
                forall|j: int|
                    i <= j < len ==> #[trigger] bowls@[j] == (if j == bw {
                        0
                    } else {
                        b.bowls[j]
                    }),
            decreases len - i,
        {
            assert(bowls@[i as int] + all_gain <= full[i as int]);
            bowls.set(i, bowls[i] + all_gain as u8);
            i += 1;
        }
        let extra = stones as usize % tour;
        let final_index = bowl + extra;
        let bowl_drops = if final_index >= n {
            extra - 1
        } else {
            extra
        };
        let mut c: usize = 0;
        while c < bowl_drops
            invariant
                n == self.size,
                len == 2 * n,
                b == self@,
                b.wf(),
                b.bowls.len() == len,
                n <= MAX_BOWLS,
                bw == bowl,
                bowl < n,
                drops == bowl_drops,
                bowl_drops < len,
                full == spread(b.bowls, bw, laps, drops),
                bowls@.len() == len,
                c <= bowl_drops,
                forall|j: int| 0 <= j < len ==> #[trigger] full[j] <= MAX_STONES,
                forall|j: int|
                    0 <= j < len ==> #[trigger] bowls@[j] == spread(b.bowls, bw, laps, c as int)[j],
            decreases bowl_drops - c,
        {
            let t = if bowl + c + 1 < len {
                bowl + c + 1
            } else {
                bowl + c + 1 - len
            };
            proof {
                lemma_spread_step(b.bowls, bw, laps, c as int);
                assert(spread(b.bowls, bw, laps, c + 1)[t as int] <= full[t as int]);
            }
            bowls.set(t, bowls[t] + 1);
            c += 1;
            proof {
                assert forall|j: int| 0 <= j < len implies #[trigger] bowls@[j] == spread(
                    b.bowls,
                    bw,
                    laps,
                    c as int,
                )[j] by {
                    if j == t {
                    } else {
                    }
                }
            }
        }
        proof {
            assert(ints(bowls@) =~= full);
        }
        let mut captured: Stones = 0;
        if final_index < n && bowls[final_index] == 1 {
            let index = len - 1 - final_index;
            captured = bowls[index];
            bowls.set(index, 0);
        }
        proof {
            assert(ints(bowls@) =~= b.sown_bowls(bw));
        }
        let gain = all_gain as u8 + captured + if final_index >= n {
            1
        } else {
            0
        };
        let mine = self.capture[0] + gain;
        if final_index != n {
            let mut turned: Vec<Stones> = Vec::new();
            let mut j: usize = n;
            while j < len
                invariant
                    n <= j <= len,
                    len == 2 * n,
                    bowls@.len() == len,
                    turned@ =~= bowls@.subrange(n as int, j as int),
                decreases len - j,
            {
                turned.push(bowls[j]);
                j += 1;
            }
            let mut j: usize = 0;
            while j < n
                invariant
                    j <= n,
                    len == 2 * n,
                    bowls@.len() == len,
                    turned@ =~= bowls@.subrange(n as int, len as int) + bowls@.subrange(0, j as int),
                decreases n - j,
            {
                turned.push(bowls[j]);
                j += 1;
            }
            let r = Position {
                player: self.player.other(),
                size: n,
                capture: [self.capture[1], mine],
                bowls: turned,
            };
            proof {
                assert(ints(turned@) =~= half_turn(ints(bowls@), n as int));
            }
            r
        } else {
            Position { player: self.player, size: n, capture: [mine, self.capture[1]], bowls }
        }
    }

    /// Determine if a position is finished.
    ///
    /// A position is finished when the player to move can't make any plays.
    pub fn finished(&self) -> (r: bool)
        requires
            self.wf(),
        ensures
            r == self@.finished(),
    {
        proof {
            self.lemma_view();
        }
        let mut i: usize = 0;
        while i < self.size
            invariant
                self.wf(),
                i <= self.size,
                forall|k: int| 0 <= k < i ==> #[trigger] self@.bowls[k] == 0,
            decreases self.size - i,
        {
            proof {
                self.lemma_view();
            }
            if self.bowls[i] != 0 {
                assert(self@.bowls[i as int] != 0);
                return false;
            }
            i += 1;
        }
        true
    }

    /// Which player is allowed to make a play
    pub fn active_player(&self) -> (r: Player)
        ensures
            r == self@.player,
    {
        self.player
    }

    /// Sum of the bowls in `[from, to)`.
    fn stones_between(&self, from: usize, to: usize) -> (r: Stones)
        requires
            self.wf(),
            from <= to <= 2 * self@.size,
        ensures
            r == sum(self@.bowls.subrange(from as int, to as int)),
    {
        proof {
            self.lemma_view();
            self@.lemma_bowl_bounds();
        }
        let ghost all = self@.bowls;
        let mut total: Stones = 0;
        let mut i: usize = from;
        while i < to
            invariant
                self.wf(),
                all == self@.bowls,
                from <= i <= to,
                to <= all.len(),
                total == sum(all.subrange(from as int, i as int)),
                sum(all) <= MAX_STONES,
                forall|k: int| 0 <= k < all.len() ==> #[trigger] all[k] >= 0,
            decreases to - i,
        {
            proof {
                self.lemma_view();
                let part = all.subrange(from as int, i + 1);
                assert(part.drop_last() =~= all.subrange(from as int, i as int));
                lemma_sum_split(all, from as int);
                let tail = all.subrange(from as int, all.len() as int);
                lemma_sum_split(tail, i + 1 - from);
                assert(tail.subrange(0, i + 1 - from) =~= part);
                lemma_sum_nonneg(tail.subrange(i + 1 - from, tail.len() as int));
                lemma_sum_nonneg(all.subrange(0, from as int));
            }
            total = total + self.bowls[i];
            i += 1;
        }
        total
    }

    /// Determine the score after the game is finished.
    ///
    /// Scores are awarded to the current player. Positive scores are a win, negative scores
    /// are a loss.
    pub fn score(&self) -> (r: Option<Score>)
        requires
            self.wf(),
        ensures
            r is Some <==> self@.finished(),
            r matches Some(s) ==> s as int == self@.score(),
            -MAX_STONES <= self@.score() <= MAX_STONES,
    {
        proof {
            self.lemma_view();
            self@.lemma_bowl_bounds();
            lemma_sum_split(self@.bowls, self.size as int);
            lemma_sum_nonneg(self@.bowls.subrange(0, self.size as int));
            lemma_sum_nonneg(self@.bowls.subrange(self.size as int, 2 * self.size as int));
            assert(self@.bowls.subrange(0, 2 * self.size as int) =~= self@.bowls);
        }
        if self.finished() {
            let first = self.stones_between(0, self.size) + self.capture[0];
            let second = self.stones_between(self.size, 2 * self.size) + self.capture[1];
            Some(first as Score - second as Score)
        } else {
            None
        }
    }

    /// All stones on the board: in the bowls of both sides and in both stores.
    pub fn total(&self) -> (r: Stones)
        requires
            self.wf(),
        ensures
            r == self@.total(),
    {
        proof {
            self.lemma_view();
            self@.lemma_bowl_bounds();
            lemma_sum_split(self@.bowls, 0);
            assert(self@.bowls.subrange(0, self@.bowls.len() as int) =~= self@.bowls);
        }
        self.stones_between(0, 2 * self.size) + self.capture[0] + self.capture[1]
    }

    /// Difference between the actual captured stones
    pub fn delta(&self) -> (r: Score)
        requires
            self.wf(),
        ensures
            r as int == self@.delta(),
    {
        proof {
            self.lemma_view();
            self@.lemma_bowl_bounds();
        }
        self.capture[0] as Score - self.capture[1] as Score
    }

    /// Return which players turn it is
    pub fn turn(&self) -> (r: Player)
        ensures
            r == self@.player,
    {
        self.player
    }

    /// Stones in `bowl`; the bowls of the player to move come first.
    pub fn stones_in(&self, bowl: Bowl) -> (r: Stones)
        requires
            self.wf(),
            bowl < 2 * self@.size,
        ensures
            r == self@.bowls[bowl as int],
    {
        proof {
            self.lemma_view();
        }
        self.bowls[bowl]
    }

    /// The stores: that of the player to move, then that of the other player.
    pub fn stores(&self) -> (r: (Stones, Stones))
        ensures
            r.0 == self@.mine,
            r.1 == self@.theirs,
    {
        (self.capture[0], self.capture[1])
    }

    /// Number of bowls on one side.
    pub fn size(&self) -> (r: usize)
        ensures
            r == self@.size,
    {
        self.size
    }
}

impl<const N: usize> From<[Stones; N]> for Position {
    /// Red to move, empty stores, and the given bowls.
    fn from(data: [Stones; N]) -> (r: Position)
        ensures
            r@ == (Board {
                player: Player::Red,
                size: (N / 2) as nat,
                bowls: ints(data@),
                mine: 0 as int,
                theirs: 0 as int,
            }),
    {
        Position::with_parts(Player::Red, 0, 0, data.as_slice())
    }
}

impl<const N: usize> vstd::std_specs::convert::FromSpecImpl<[Stones; N]> for Position {
    /// A position holds a vector, which no spec function builds: what `from` returns is
    /// stated by its own `ensures`.
    open spec fn obeys_from_spec() -> bool {
        false
    }

    open spec fn from_spec(data: [Stones; N]) -> Position {
        arbitrary()
    }
}

impl<const N: usize> From<(Player, [Stones; N])> for Position {
    /// The given player to move, empty stores, and the given bowls.
    fn from(data: (Player, [Stones; N])) -> (r: Position)
        ensures
            r@ == (Board {
                player: data.0,
                size: (N / 2) as nat,
                bowls: ints(data.1@),
                mine: 0 as int,
                theirs: 0 as int,
            }),
    {
        Position::with_parts(data.0, 0, 0, data.1.as_slice())
    }
}

impl<const N: usize> vstd::std_specs::convert::FromSpecImpl<(Player, [Stones; N])> for Position {
    /// A position holds a vector, which no spec function builds: what `from` returns is
    /// stated by its own `ensures`.
    open spec fn obeys_from_spec() -> bool {
        false
    }

    open spec fn from_spec(data: (Player, [Stones; N])) -> Position {
        arbitrary()
    }
}

impl<const N: usize> From<(Stones, Stones, [Stones; N])> for Position {
    /// Red to move, the given stores (the mover's first), and the given bowls.
    fn from(data: (Stones, Stones, [Stones; N])) -> (r: Position)
        ensures
            r@ == (Board {
                player: Player::Red,
                size: (N / 2) as nat,
                bowls: ints(data.2@),
                mine: data.0 as int,
                theirs: data.1 as int,
            }),
    {
        Position::with_parts(Player::Red, data.0, data.1, data.2.as_slice())
    }
}

impl<const N: usize> vstd::std_specs::convert::FromSpecImpl<(Stones, Stones, [Stones; N])> for Position {
    /// A position holds a vector, which no spec function builds: what `from` returns is
    /// stated by its own `ensures`.
    open spec fn obeys_from_spec() -> bool {
        false
    }

    open spec fn from_spec(data: (Stones, Stones, [Stones; N])) -> Position {
        arbitrary()
    }
}

impl<const N: usize> From<(Player, Stones, Stones, [Stones; N])> for Position {
    /// The given player to move, stores (the mover's first) and bowls.
    fn from(data: (Player, Stones, Stones, [Stones; N])) -> (r: Position)
        ensures
            r@ == (Board {
                player: data.0,
                size: (N / 2) as nat,
                bowls: ints(data.3@),
                mine: data.1 as int,
                theirs: data.2 as int,
            }),
    {
        Position::with_parts(data.0, data.1, data.2, data.3.as_slice())
    }
}

impl<const N: usize> vstd::std_specs::convert::FromSpecImpl<(Player, Stones, Stones, [Stones; N])> for Position {
    /// A position holds a vector, which no spec function builds: what `from` returns is
    /// stated by its own `ensures`.
    open spec fn obeys_from_spec() -> bool {
        false
    }

    open spec fn from_spec(data: (Player, Stones, Stones, [Stones; N])) -> Position {
        arbitrary()
    }
}

} // verus!
