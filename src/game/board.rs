//! The mathematical model of a position and the sowing rule stated over it.
use vstd::prelude::*;
use vstd::arithmetic::div_mod::lemma_fundamental_div_mod;

use crate::game::Player;

verus! {

/// Most stones a board may hold: every score and store then fits a signed byte.
pub const MAX_STONES: u8 = 127;

/// Most bowls on one side of a board.
pub const MAX_BOWLS: usize = 255;

/// A sequence of stone counts read as integers.
pub open spec fn ints(s: Seq<u8>) -> Seq<int> {
    s.map_values(|x: u8| x as int)
}

/// Sum of a sequence of integers.
pub open spec fn sum(s: Seq<int>) -> int
    decreases s.len(),
{
    if s.len() == 0 {
        0
    } else {
        sum(s.drop_last()) + s.last()
    }
}

/// Sum of `s[i] * (n - i)`: each stone weighed by how far it is from the end of its side.
pub open spec fn weighted(s: Seq<int>, n: int) -> int
    decreases s.len(),
{
    if s.len() == 0 {
        0
    } else {
        weighted(s.drop_last(), n) + s.last() * (n - (s.len() - 1))
    }
}

/// The sequence turned by half its length: the far side comes first.
pub open spec fn half_turn(s: Seq<int>, n: int) -> Seq<int> {
    s.subrange(n, 2 * n) + s.subrange(0, n)
}

/// Whether slot `j` is among the first `count` bowls that follow `bowl` on a board with
/// `n` bowls per side (the mover's store is not a bowl and is skipped).
pub open spec fn dropped(bowl: int, count: int, n: int, j: int) -> bool {
    (bowl < j <= bowl + count) || (j + 2 * n <= bowl + count)
}

/// The bowls after `bowl` is emptied, every bowl gains `laps` stones, and `count` stones
/// are dropped one by one into the bowls that follow it.
pub open spec fn spread(bowls: Seq<int>, bowl: int, laps: int, count: int) -> Seq<int> {
    Seq::new(
        bowls.len(),
        |j: int|
            (if j == bowl {
                0
            } else {
                bowls[j]
            }) + laps + (if dropped(bowl, count, (bowls.len() / 2) as int, j) {
                1int
            } else {
                0int
            }),
    )
}

/// A position as numbers: the bowls of the side to move come first, then the far side.
pub struct Board {
    pub player: Player,
    pub size: nat,
    pub bowls: Seq<int>,
    /// Stones in the store of the side to move.
    pub mine: int,
    /// Stones in the store of the far side.
    pub theirs: int,
}

impl Board {
    pub open spec fn total(self) -> int {
        sum(self.bowls) + self.mine + self.theirs
    }

    pub open spec fn wf(self) -> bool {
        &&& 1 <= self.size <= MAX_BOWLS
        &&& self.bowls.len() == 2 * self.size
        &&& forall|i: int| 0 <= i < self.bowls.len() ==> #[trigger] self.bowls[i] >= 0
        &&& self.mine >= 0
        &&& self.theirs >= 0
        &&& self.total() <= MAX_STONES
    }

    /// The side to move has no stones left in its bowls.
    pub open spec fn finished(self) -> bool {
        forall|i: int| 0 <= i < self.size ==> #[trigger] self.bowls[i] == 0
    }

    /// All stones of the side to move minus all stones of the far side.
    pub open spec fn score(self) -> int {
        (sum(self.bowls.subrange(0, self.size as int)) + self.mine) - (sum(
            self.bowls.subrange(self.size as int, 2 * (self.size as int)),
        ) + self.theirs)
    }

    /// Difference between the two stores.
    pub open spec fn delta(self) -> int {
        self.mine - self.theirs
    }

    /// Bowls of the side to move that hold stones, in ascending order, among the first `k`.
    pub open spec fn options_below(self, k: int) -> Seq<int>
        decreases k,
    {
        if k <= 0 {
            Seq::empty()
        } else if self.bowls[k - 1] > 0 {
            self.options_below(k - 1).push(k - 1)
        } else {
            self.options_below(k - 1)
        }
    }

    /// Bowls of the side to move that hold stones, in ascending order.
    pub open spec fn options(self) -> Seq<int> {
        self.options_below(self.size as int)
    }

    /// Slots of one lap: every bowl and the mover's own store.
    pub open spec fn tour(self) -> int {
        2 * (self.size as int) + 1
    }

    pub open spec fn laps(self, bowl: int) -> int {
        self.bowls[bowl] / self.tour()
    }

    pub open spec fn extra(self, bowl: int) -> int {
        self.bowls[bowl] % self.tour()
    }

    /// Where the last stone lands, counting the mover's store as slot `size`.
    pub open spec fn landing(self, bowl: int) -> int {
        bowl + self.extra(bowl)
    }

    /// Stones of the last, partial lap that go into bowls rather than the store.
    pub open spec fn bowl_drops(self, bowl: int) -> int {
        if self.landing(bowl) >= self.size {
            self.extra(bowl) - 1
        } else {
            self.extra(bowl)
        }
    }

    pub open spec fn spread_bowls(self, bowl: int) -> Seq<int> {
        spread(self.bowls, bowl, self.laps(bowl), self.bowl_drops(bowl))
    }

    /// The last stone fell into an empty bowl of the mover's side.
    pub open spec fn captures(self, bowl: int) -> bool {
        self.landing(bowl) < self.size && self.spread_bowls(bowl)[self.landing(bowl)] == 1
    }

    /// The bowl that faces bowl `i`.
    pub open spec fn facing(self, i: int) -> int {
        2 * self.size - 1 - i
    }

    pub open spec fn captured(self, bowl: int) -> int {
        if self.captures(bowl) {
            self.spread_bowls(bowl)[self.facing(self.landing(bowl))]
        } else {
            0
        }
    }

    pub open spec fn sown_bowls(self, bowl: int) -> Seq<int> {
        if self.captures(bowl) {
            self.spread_bowls(bowl).update(self.facing(self.landing(bowl)), 0)
        } else {
            self.spread_bowls(bowl)
        }
    }

    /// Stones the mover's store gains: one per lap, the captured stones, and one more
    /// when the last lap reaches the store.
    pub open spec fn store_gain(self, bowl: int) -> int {
        self.laps(bowl) + self.captured(bowl) + if self.landing(bowl) >= self.size {
            1int
        } else {
            0int
        }
    }

    /// The last stone fell into the mover's own store.
    pub open spec fn keeps_turn(self, bowl: int) -> bool {
        self.landing(bowl) == self.size
    }

    /// The position after the stones of `bowl` are sown.
    pub open spec fn play(self, bowl: int) -> Board {
        if self.keeps_turn(bowl) {
            Board {
                player: self.player,
                size: self.size,
                bowls: self.sown_bowls(bowl),
                mine: self.mine + self.store_gain(bowl),
                theirs: self.theirs,
            }
        } else {
            Board {
                player: self.player.other(),
                size: self.size,
                bowls: half_turn(self.sown_bowls(bowl), self.size as int),
                mine: self.theirs,
                theirs: self.mine + self.store_gain(bowl),
            }
        }
    }

    /// A bowl that may be played: on the mover's side and not empty.
    pub open spec fn playable(self, bowl: int) -> bool {
        0 <= bowl < self.size && self.bowls[bowl] > 0
    }

    /// How far the game is from its end: stones still in bowls weigh most, then how far
    /// each stone is from the end of its side.
    pub open spec fn rank(self) -> nat {
        (sum(self.bowls) * (MAX_STONES * self.size + 1) + weighted(
            self.bowls.subrange(0, self.size as int),
            self.size as int,
        ) + weighted(self.bowls.subrange(self.size as int, 2 * (self.size as int)), self.size as int)) as nat
    }
}

pub proof fn lemma_sum_concat(a: Seq<int>, b: Seq<int>)
    ensures
        sum(a + b) == sum(a) + sum(b),
    decreases b.len(),
{
    if b.len() > 0 {
        assert((a + b).drop_last() =~= a + b.drop_last());
        lemma_sum_concat(a, b.drop_last());
    } else {
        assert(a + b =~= a);
    }
}

pub proof fn lemma_sum_update(s: Seq<int>, i: int, v: int)
    requires
        0 <= i < s.len(),
    ensures
        sum(s.update(i, v)) == sum(s) - s[i] + v,
    decreases s.len(),
{
    if i == s.len() - 1 {
        assert(s.update(i, v).drop_last() =~= s.drop_last());
    } else {
        assert(s.update(i, v).drop_last() =~= s.drop_last().update(i, v));
        lemma_sum_update(s.drop_last(), i, v);
    }
}

pub proof fn lemma_sum_nonneg(s: Seq<int>)
    requires
        forall|i: int| 0 <= i < s.len() ==> #[trigger] s[i] >= 0,
    ensures
        sum(s) >= 0,
    decreases s.len(),
{
    if s.len() > 0 {
        lemma_sum_nonneg(s.drop_last());
    }
}

/// An element of a sequence of non-negative integers is at most their sum.
pub proof fn lemma_sum_bounds(s: Seq<int>, i: int)
    requires
        forall|k: int| 0 <= k < s.len() ==> #[trigger] s[k] >= 0,
        0 <= i < s.len(),
    ensures
        0 <= s[i] <= sum(s),
{
    lemma_sum_update(s, i, 0);
    lemma_sum_nonneg(s.update(i, 0));
}

/// The sums of the two halves of a split sequence add up to the whole.
pub proof fn lemma_sum_split(s: Seq<int>, k: int)
    requires
        0 <= k <= s.len(),
    ensures
        sum(s) == sum(s.subrange(0, k)) + sum(s.subrange(k, s.len() as int)),
{
    assert(s =~= s.subrange(0, k) + s.subrange(k, s.len() as int));
    lemma_sum_concat(s.subrange(0, k), s.subrange(k, s.len() as int));
}

pub proof fn lemma_sum_shift(s: Seq<int>, c: int)
    ensures
        sum(Seq::new(s.len(), |j: int| s[j] + c)) == sum(s) + s.len() * c,
    decreases s.len(),
{
    let t = Seq::new(s.len(), |j: int| s[j] + c);
    if s.len() > 0 {
        let u = Seq::new(s.drop_last().len(), |j: int| s.drop_last()[j] + c);
        assert(t.drop_last() =~= u);
        lemma_sum_shift(s.drop_last(), c);
        assert(s.len() * c == (s.len() - 1) * c + c) by (nonlinear_arith);
    } else {
        assert(s.len() * c == 0) by (nonlinear_arith)
            requires
                s.len() == 0,
        ;
    }
}

pub proof fn lemma_sum_constant(n: nat, c: int)
    ensures
        sum(Seq::new(n, |j: int| c)) == n * c,
    decreases n,
{
    let s = Seq::new(n, |j: int| c);
    if n > 0 {
        assert(s.drop_last() =~= Seq::new((n - 1) as nat, |j: int| c));
        lemma_sum_constant((n - 1) as nat, c);
        assert(sum(s) == sum(s.drop_last()) + c);
        assert(n * c == (n - 1) * c + c) by (nonlinear_arith);
    } else {
        assert(n * c == 0) by (nonlinear_arith)
            requires
                n == 0,
        ;
    }
}

pub proof fn lemma_sum_half_turn(s: Seq<int>, n: int)
    requires
        s.len() == 2 * n,
        n >= 0,
    ensures
        sum(half_turn(s, n)) == sum(s),
        half_turn(s, n).len() == s.len(),
{
    lemma_sum_concat(s.subrange(n, 2 * n), s.subrange(0, n));
    lemma_sum_split(s, n);
}

pub proof fn lemma_weighted_update(s: Seq<int>, n: int, i: int, v: int)
    requires
        0 <= i < s.len(),
    ensures
        weighted(s.update(i, v), n) == weighted(s, n) + (v - s[i]) * (n - i),
    decreases s.len(),
{
    if i == s.len() - 1 {
        assert(s.update(i, v).drop_last() =~= s.drop_last());
        assert(v * (n - i) == s[i] * (n - i) + (v - s[i]) * (n - i)) by (nonlinear_arith);
    } else {
        assert(s.update(i, v).drop_last() =~= s.drop_last().update(i, v));
        lemma_weighted_update(s.drop_last(), n, i, v);
    }
}

/// With weights between 0 and `n`, the weighted sum lies between 0 and `n` times the sum.
pub proof fn lemma_weighted_bounds(s: Seq<int>, n: int)
    requires
        s.len() <= n,
        forall|i: int| 0 <= i < s.len() ==> #[trigger] s[i] >= 0,
    ensures
        0 <= weighted(s, n) <= n * sum(s),
    decreases s.len(),
{
    if s.len() > 0 {
        lemma_weighted_bounds(s.drop_last(), n);
        let l = s.last();
        let w = n - (s.len() - 1);
        assert(0 <= l * w <= l * n) by (nonlinear_arith)
            requires
                l >= 0,
                0 <= w <= n,
        ;
        assert(n * sum(s) == n * sum(s.drop_last()) + n * l) by (nonlinear_arith)
            requires
                sum(s) == sum(s.drop_last()) + l,
        ;
    } else {
        assert(n * sum(s) == 0) by (nonlinear_arith)
            requires
                sum(s) == 0,
        ;
    }
}

/// One more stone dropped: the slot it falls in is the only one that changes.
pub proof fn lemma_spread_step(bowls: Seq<int>, bowl: int, laps: int, count: int)
    requires
        bowls.len() % 2 == 0,
        0 <= bowl < bowls.len() / 2,
        0 <= count < bowls.len() - 1,
    ensures
        ({
            let n = bowls.len() / 2;
            let t = if bowl + count + 1 < 2 * n {
                bowl + count + 1
            } else {
                bowl + count + 1 - 2 * n
            };
            let before = spread(bowls, bowl, laps, count);
            &&& 0 <= t < bowls.len()
            &&& t != bowl
            &&& spread(bowls, bowl, laps, count + 1) =~= before.update(t, before[t] + 1)
        }),
{
}

/// The stones in the bowls after `count` drops.
pub proof fn lemma_sum_spread(bowls: Seq<int>, bowl: int, laps: int, count: int)
    requires
        bowls.len() % 2 == 0,
        0 <= bowl < bowls.len() / 2,
        0 <= count < bowls.len(),
    ensures
        sum(spread(bowls, bowl, laps, count)) == sum(bowls) - bowls[bowl] + bowls.len() * laps
            + count,
    decreases count,
{
    if count == 0 {
        let base = bowls.update(bowl, 0);
        lemma_sum_update(bowls, bowl, 0);
        lemma_sum_shift(base, laps);
        assert(spread(bowls, bowl, laps, 0) =~= Seq::new(base.len(), |j: int| base[j] + laps));
    } else {
        lemma_sum_spread(bowls, bowl, laps, count - 1);
        lemma_spread_step(bowls, bowl, laps, count - 1);
        let n = bowls.len() / 2;
        let t = if bowl + count < 2 * n {
            bowl + count
        } else {
            bowl + count - 2 * n
        };
        let before = spread(bowls, bowl, laps, count - 1);
        lemma_sum_update(before, t, before[t] + 1);
    }
}

impl Board {
    /// The options below `k` are exactly the bowls below `k` that hold stones, in ascending
    /// order.
    pub proof fn lemma_options_below(self, k: int)
        requires
            0 <= k <= self.bowls.len(),
        ensures
            forall|i: int|
                0 <= i < self.options_below(k).len() ==> 0 <= #[trigger] self.options_below(k)[i]
                    < k && self.bowls[self.options_below(k)[i]] > 0,
            forall|b: int|
                0 <= b < k && self.bowls[b] > 0 ==> #[trigger] self.options_below(k).contains(b),
            forall|i: int, j: int|
                0 <= i < j < self.options_below(k).len() ==> self.options_below(k)[i]
                    < self.options_below(k)[j],
        decreases k,
    {
        if k > 0 {
            self.lemma_options_below(k - 1);
            let prev = self.options_below(k - 1);
            if self.bowls[k - 1] > 0 {
                assert(prev.push(k - 1)[prev.len() as int] == k - 1);
                assert forall|b: int| 0 <= b < k && self.bowls[b] > 0 implies #[trigger] prev.push(
                    k - 1,
                ).contains(b) by {
                    if b < k - 1 {
                        assert(self.options_below(k - 1).contains(b));
                        let i = choose|i: int| 0 <= i < prev.len() && prev[i] == b;
                        assert(prev.push(k - 1)[i] == b);
                    }
                }
            }
        }
    }

    /// A board whose player to move still has stones has something to play.
    pub proof fn lemma_options_nonempty(self)
        requires
            self.wf(),
            !self.finished(),
        ensures
            self.options().len() > 0,
    {
        self.lemma_options_below(self.size as int);
        let b = choose|b: int| 0 <= b < self.size && self.bowls[b] != 0;
        assert(self.options().contains(b));
    }

    /// The player to move has something to play exactly when the game is not finished.
    pub proof fn lemma_has_options(self)
        requires
            self.wf(),
        ensures
            self.options().len() > 0 <==> !self.finished(),
    {
        self.lemma_options_below(self.size as int);
        if !self.finished() {
            self.lemma_options_nonempty();
        }
        if self.options().len() > 0 {
            assert(self.bowls[self.options()[0]] > 0);
        }
    }

    /// The quantities of one sowing and how they relate.
    pub proof fn lemma_sowing_facts(self, bowl: int)
        requires
            self.wf(),
            self.playable(bowl),
        ensures
            self.bowls[bowl] == self.tour() * self.laps(bowl) + self.extra(bowl),
            0 <= self.laps(bowl),
            0 <= self.extra(bowl) < self.tour(),
            0 <= self.bowl_drops(bowl) < self.bowls.len(),
            self.bowl_drops(bowl) + (if self.landing(bowl) >= self.size {
                1int
            } else {
                0int
            }) == self.extra(bowl),
            self.spread_bowls(bowl).len() == self.bowls.len(),
            sum(self.spread_bowls(bowl)) == sum(self.bowls) - self.bowls[bowl] + 2 * self.size
                * self.laps(bowl) + self.bowl_drops(bowl),
            forall|j: int|
                0 <= j < self.bowls.len() ==> #[trigger] self.spread_bowls(bowl)[j] >= 0,
    {
        lemma_fundamental_div_mod(self.bowls[bowl], self.tour());
        let laps = self.laps(bowl);
        assert(laps >= 0) by {
            vstd::arithmetic::div_mod::lemma_div_pos_is_pos(self.bowls[bowl], self.tour());
        }
        assert(0 <= self.extra(bowl) < self.tour()) by {
            vstd::arithmetic::div_mod::lemma_mod_bound(self.bowls[bowl], self.tour());
        }
        lemma_sum_spread(self.bowls, bowl, laps, self.bowl_drops(bowl));
    }

    /// The stones of a well-formed board each fit under the board's bound.
    pub proof fn lemma_bowl_bounds(self)
        requires
            self.wf(),
        ensures
            forall|i: int| 0 <= i < self.bowls.len() ==> #[trigger] self.bowls[i] <= MAX_STONES,
            0 <= sum(self.bowls) <= MAX_STONES,
    {
        lemma_sum_nonneg(self.bowls);
        assert forall|i: int| 0 <= i < self.bowls.len() implies #[trigger] self.bowls[i]
            <= MAX_STONES by {
            lemma_sum_bounds(self.bowls, i);
        }
    }

    /// The score of a well-formed board fits between the bounds of the stone count.
    pub proof fn lemma_score_bounds(self)
        requires
            self.wf(),
        ensures
            -MAX_STONES <= self.score() <= MAX_STONES,
            -MAX_STONES <= self.delta() <= MAX_STONES,
    {
        let n = self.size as int;
        lemma_sum_split(self.bowls, n);
        lemma_sum_nonneg(self.bowls.subrange(0, n));
        lemma_sum_nonneg(self.bowls.subrange(n, 2 * n));
        assert(self.bowls.subrange(n, self.bowls.len() as int) =~= self.bowls.subrange(n, 2 * n));
    }

    /// Sowing moves stones between bowls and stores and never makes or loses one.
    pub proof fn lemma_play_conserves(self, bowl: int)
        requires
            self.wf(),
            self.playable(bowl),
        ensures
            self.play(bowl).total() == self.total(),
            sum(self.play(bowl).bowls) == sum(self.bowls) - self.store_gain(bowl),
            self.play(bowl).wf(),
            sum(self.spread_bowls(bowl)) <= MAX_STONES,
            self.mine + self.store_gain(bowl) <= MAX_STONES,
    {
        self.lemma_sowing_facts(bowl);
        let sp = self.spread_bowls(bowl);
        let n = self.size as int;
        let sown = self.sown_bowls(bowl);
        if self.captures(bowl) {
            let f = self.facing(self.landing(bowl));
            lemma_sum_update(sp, f, 0);
        }
        assert(sum(sown) == sum(sp) - self.captured(bowl));
        assert(forall|j: int| 0 <= j < sown.len() ==> #[trigger] sown[j] >= 0);
        assert(self.tour() * self.laps(bowl) == 2 * n * self.laps(bowl) + self.laps(bowl))
            by (nonlinear_arith)
            requires
                self.tour() == 2 * n + 1,
        ;
        if self.captures(bowl) {
            lemma_sum_bounds(sp, self.facing(self.landing(bowl)));
        }
        if !self.keeps_turn(bowl) {
            lemma_sum_half_turn(sown, n);
            let h = half_turn(sown, n);
            assert forall|j: int| 0 <= j < h.len() implies #[trigger] h[j] >= 0 by {
                if j < n {
                    assert(h[j] == sown[j + n]);
                } else {
                    assert(h[j] == sown[j - n]);
                }
            }
        }
        lemma_sum_nonneg(self.play(bowl).bowls);
    }

    /// Every play brings the game closer to its end.
    pub proof fn lemma_play_lowers_rank(self, bowl: int)
        requires
            self.wf(),
            self.playable(bowl),
        ensures
            self.play(bowl).rank() < self.rank(),
    {
        self.lemma_sowing_facts(bowl);
        self.lemma_play_conserves(bowl);
        let n = self.size as int;
        let next = self.play(bowl);
        let k = MAX_STONES * n + 1;
        let a = self.bowls.subrange(0, n);
        let b = self.bowls.subrange(n, 2 * n);
        let a2 = next.bowls.subrange(0, n);
        let b2 = next.bowls.subrange(n, 2 * n);
        let s = sum(self.bowls);
        let s2 = sum(next.bowls);
        lemma_sum_split(self.bowls, n);
        lemma_sum_split(next.bowls, n);
        lemma_weighted_bounds(a, n);
        lemma_weighted_bounds(b, n);
        lemma_weighted_bounds(a2, n);
        lemma_weighted_bounds(b2, n);
        lemma_sum_nonneg(a);
        lemma_sum_nonneg(b);
        lemma_sum_nonneg(a2);
        lemma_sum_nonneg(b2);
        let w = weighted(a, n) + weighted(b, n);
        let w2 = weighted(a2, n) + weighted(b2, n);
        assert(n * sum(a2) + n * sum(b2) == n * s2) by (nonlinear_arith)
            requires
                s2 == sum(a2) + sum(b2),
        ;
        assert(w >= 0);
        if self.store_gain(bowl) > 0 {
            assert(s2 <= s - 1);
            assert(n * s2 <= MAX_STONES * n) by (nonlinear_arith)
                requires
                    0 <= s2 <= MAX_STONES,
                    n >= 0,
            ;
            assert(s2 * k + w2 < s * k) by (nonlinear_arith)
                requires
                    0 <= s2 <= s - 1,
                    0 <= w2 <= MAX_STONES * n,
                    k == MAX_STONES * n + 1,
            ;
        } else {
            self.lemma_quiet_play_lowers_weight(bowl);
        }
    }

    /// A play that puts nothing in a store only moves stones forward on the mover's side.
    proof fn lemma_quiet_play_lowers_weight(self, bowl: int)
        requires
            self.wf(),
            self.playable(bowl),
            self.store_gain(bowl) == 0,
        ensures
            weighted(self.play(bowl).bowls.subrange(0, self.size as int), self.size as int)
                + weighted(
                self.play(bowl).bowls.subrange(self.size as int, 2 * (self.size as int)),
                self.size as int,
            ) < weighted(self.bowls.subrange(0, self.size as int), self.size as int) + weighted(
                self.bowls.subrange(self.size as int, 2 * (self.size as int)),
                self.size as int,
            ),
    {
        self.lemma_sowing_facts(bowl);
        let n = self.size as int;
        let stones = self.bowls[bowl];
        let sp = self.spread_bowls(bowl);
        let sown = self.sown_bowls(bowl);
        let next = self.play(bowl);
        assert(self.laps(bowl) == 0);
        assert(self.landing(bowl) < n);
        assert(stones == self.extra(bowl)) by (nonlinear_arith)
            requires
                stones == self.tour() * self.laps(bowl) + self.extra(bowl),
                self.laps(bowl) == 0,
        ;
        assert(sown =~= sp) by {
            if self.captures(bowl) {
                assert(self.captured(bowl) == 0);
            }
        }
        assert(!self.keeps_turn(bowl));
        assert(next.bowls == half_turn(sown, n));
        assert(next.bowls.subrange(0, n) =~= sown.subrange(n, 2 * n));
        assert(next.bowls.subrange(n, 2 * n) =~= sown.subrange(0, n));
        assert(sown.subrange(n, 2 * n) =~= self.bowls.subrange(n, 2 * n));
        let a = self.bowls.subrange(0, n);
        self.lemma_forward_drops(bowl, stones);
        assert(sown.subrange(0, n) =~= forward(a, bowl, stones));
        assert(stones * (n - bowl) - stones * (n - bowl - 1) == stones) by (nonlinear_arith);
    }

    /// Dropping `k` stones one by one after `bowl` on the mover's own side lowers the
    /// weight of that side by at least `k`, once the bowl is emptied.
    proof fn lemma_forward_drops(self, bowl: int, k: int)
        requires
            self.wf(),
            self.playable(bowl),
            0 <= k <= self.bowls[bowl],
            bowl + self.bowls[bowl] < self.size,
        ensures
            weighted(forward(self.bowls.subrange(0, self.size as int), bowl, k), self.size as int)
                <= weighted(self.bowls.subrange(0, self.size as int), self.size as int)
                - self.bowls[bowl] * (self.size - bowl) + k * (self.size - bowl - 1),
        decreases k,
    {
        let n = self.size as int;
        let a = self.bowls.subrange(0, n);
        let s = self.bowls[bowl];
        let part = forward(a, bowl, k);
        if k == 0 {
            assert(part =~= a.update(bowl, 0));
            lemma_weighted_update(a, n, bowl, 0);
            assert((0 - s) * (n - bowl) == -(s * (n - bowl))) by (nonlinear_arith);
            assert(k * (n - bowl - 1) == 0) by (nonlinear_arith)
                requires
                    k == 0,
            ;
            assert(a[bowl] == s);
            assert(weighted(part, n) == weighted(a, n) - s * (n - bowl));
        } else {
            self.lemma_forward_drops(bowl, k - 1);
            let prev = forward(a, bowl, k - 1);
            let t = bowl + k;
            assert(part =~= prev.update(t, prev[t] + 1));
            lemma_weighted_update(prev, n, t, prev[t] + 1);
            assert((prev[t] + 1 - prev[t]) * (n - t) == n - t) by (nonlinear_arith);
            assert(weighted(part, n) == weighted(prev, n) + (n - t));
            assert((k - 1) * (n - bowl - 1) + (n - t) <= k * (n - bowl - 1)) by (nonlinear_arith)
                requires
                    t == bowl + k,
                    k >= 1,
            ;
        }
    }
}

/// The side `a` after its bowl `bowl` is emptied and one stone is dropped into each of the
/// `k` bowls that follow it.
pub open spec fn forward(a: Seq<int>, bowl: int, k: int) -> Seq<int> {
    Seq::new(
        a.len(),
        |j: int|
            if j == bowl {
                0
            } else if bowl < j <= bowl + k {
                a[j] + 1
            } else {
                a[j]
            },
    )
}

} // verus!
