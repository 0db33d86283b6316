//! Scores of plays and the rules engine that keeps a round's total.
//!
//! The standard rules:
//! - a run or a group is worth the sum of its cards' points (see
//!   `rank_points`), a discard is worth nothing;
//! - the value is doubled when at least two of the cards played have the
//!   suit of the round's lucky card;
//! - clearing a stack awards ten points for each earlier clear of the same
//!   stack in this round, so a first clear awards nothing and the bonus
//!   grows by ten with each repeat;
//! - finishing the round adds a completion bonus of one hundred points, the
//!   final total saturating at `i32::MAX`.

use crate::board::Position;
use crate::card::{rank_points, Card, Suit};
use crate::game::MoveType;
use vstd::prelude::*;

verus! {

/// How many lucky-suit cards a play needs to earn the multiplier.
pub const LUCKY_THRESHOLD: usize = 2;

/// The multiplier of a play with enough lucky-suit cards.
pub const LUCKY_MULTIPLIER: i32 = 2;

/// The bonus for each earlier clear of the stack being cleared.
pub const CLEAR_BONUS: i32 = 10;

/// The bonus for completing the round.
pub const COMPLETION_BONUS: i32 = 100;

/// The most stack clears a round can record, so that a bonus fits in `i32`.
pub const MAX_CLEARS: usize = 214748364;

/// The result of evaluating a play. The caller combines the fields as
/// `value * multiplier + bonus`.
#[derive(Debug, Clone, Copy, PartialEq, Eq, Structural)]
pub struct Score {
    /// The increase in score attained by playing this hand
    pub value: i32,
    /// A score bonus from playing this hand, such as from clearing a stack
    pub bonus: i32,
    /// Score multiplier from playing a lucky hand
    pub multiplier: i32,
}

/// One completed move.
#[derive(Debug, Clone)]
pub struct Play {
    /// Cards played
    pub cards: Vec<Card>,
    /// All positions/stacks cleared by this play
    pub cleared_positions: Vec<Position>,
    /// Type of play
    pub hand: MoveType,
}

/// The change of the running total that a score stands for.
pub open spec fn score_delta(s: Score) -> int {
    s.value * s.multiplier + s.bonus
}

/// The sum of the points of the cards.
pub open spec fn card_points(cards: Seq<Card>) -> int
    decreases cards.len(),
{
    if cards.len() == 0 {
        0
    } else {
        card_points(cards.drop_last()) + rank_points(cards.last().value)
    }
}

/// How many of the cards have the suit.
pub open spec fn suit_count(cards: Seq<Card>, suit: Suit) -> int
    decreases cards.len(),
{
    if cards.len() == 0 {
        0
    } else {
        suit_count(cards.drop_last(), suit) + if cards.last().suit == suit {
            1int
        } else {
            0int
        }
    }
}

/// How many times the position occurs in the sequence.
pub open spec fn clear_count(history: Seq<Position>, position: Position) -> int
    decreases history.len(),
{
    if history.len() == 0 {
        0
    } else {
        clear_count(history.drop_last(), position) + if history.last() == position {
            1int
        } else {
            0int
        }
    }
}

/// The base value of a play of the given kind.
pub open spec fn base_value(hand: MoveType, cards: Seq<Card>) -> int {
    match hand {
        MoveType::Discard => 0,
        _ => card_points(cards),
    }
}

/// The multiplier of a play whose cards are `cards`, in a round whose lucky
/// suit is `lucky`.
pub open spec fn multiplier_for(cards: Seq<Card>, lucky: Suit) -> int {
    if suit_count(cards, lucky) >= LUCKY_THRESHOLD {
        LUCKY_MULTIPLIER as int
    } else {
        1
    }
}

/// The bonus for clearing `position` after the clears in `history`.
pub open spec fn position_bonus(history: Seq<Position>, position: Position) -> int {
    CLEAR_BONUS * clear_count(history, position)
}

/// The bonuses for clearing each of `cleared`, after the clears in `history`.
pub open spec fn cleared_bonus(history: Seq<Position>, cleared: Seq<Position>) -> int
    decreases cleared.len(),
{
    if cleared.len() == 0 {
        0
    } else {
        cleared_bonus(history, cleared.drop_last()) + position_bonus(history, cleared.last())
    }
}

/// The decimal form of an integer: its digits, led by `-` when negative.
pub open spec fn decimal(i: int) -> Seq<char> {
    if i < 0 {
        seq!['-'] + digits((-i) as nat)
    } else {
        digits(i as nat)
    }
}

/// The decimal digits of a natural number, without leading zeros.
pub open spec fn digits(n: nat) -> Seq<char>
    decreases n,
{
    if n < 10 {
        seq![digit_char(n)]
    } else {
        digits(n / 10).push(digit_char(n % 10))
    }
}

/// The character of a decimal digit.
pub open spec fn digit_char(d: nat) -> char {
    seq!['0', '1', '2', '3', '4', '5', '6', '7', '8', '9'][d as int]
}

/// The state of a standard scorer: the lucky suit, the running total and
/// every stack cleared so far, in order.
pub struct StandardState {
    pub lucky_suit: Suit,
    pub total: int,
    pub history: Seq<Position>,
}

impl StandardState {
    /// The state at the start of a round.
    pub open spec fn start(lucky_card: Card) -> StandardState {
        StandardState { lucky_suit: lucky_card.suit, total: 0, history: Seq::empty() }
    }

    /// The bonus that clearing `position` would award now.
    pub open spec fn bonus(self, position: Position) -> int {
        position_bonus(self.history, position)
    }

    /// The base value of `play`.
    pub open spec fn value_of(self, play: Play) -> int {
        base_value(play.hand, play.cards@)
    }

    /// The multiplier of `play` in this round.
    pub open spec fn multiplier_of(self, play: Play) -> int {
        multiplier_for(play.cards@, self.lucky_suit)
    }

    /// The bonus for the stacks that `play` clears.
    pub open spec fn bonus_of(self, play: Play) -> int {
        cleared_bonus(self.history, play.cleared_positions@)
    }

    /// The change of the total that `play` brings.
    pub open spec fn delta_of(self, play: Play) -> int {
        self.value_of(play) * self.multiplier_of(play) + self.bonus_of(play)
    }

    /// The score of `play`.
    pub open spec fn score(self, play: Play) -> Score {
        Score {
            value: self.value_of(play) as i32,
            bonus: self.bonus_of(play) as i32,
            multiplier: self.multiplier_of(play) as i32,
        }
    }

    /// The state after `play` is added.
    pub open spec fn next(self, play: Play) -> StandardState {
        StandardState {
            lucky_suit: self.lucky_suit,
            total: self.total + self.delta_of(play),
            history: self.history + play.cleared_positions@,
        }
    }

    /// The final total, with the completion bonus when `completion` holds.
    pub open spec fn final_total(self, completion: bool) -> int {
        if !completion {
            self.total
        } else if self.total + COMPLETION_BONUS > i32::MAX {
            i32::MAX as int
        } else {
            self.total + COMPLETION_BONUS
        }
    }

    /// The score of `play` fits in `i32`.
    pub open spec fn can_check(self, play: Play) -> bool {
        self.delta_of(play) <= i32::MAX
    }

    /// The score of `play`, the new total and the clears recorded fit.
    pub open spec fn can_add(self, play: Play) -> bool {
        &&& self.can_check(play)
        &&& self.total + self.delta_of(play) <= i32::MAX
        &&& self.history.len() + play.cleared_positions@.len() <= MAX_CLEARS
    }

    /// The state is one that a round can reach.
    pub open spec fn wf(self) -> bool {
        &&& 0 <= self.total <= i32::MAX
        &&& self.history.len() <= MAX_CLEARS
    }
}

/// A prefix of a hand has no more points than the hand, and none below zero.
proof fn lemma_card_points_prefix(cards: Seq<Card>, i: int)
    requires
        0 <= i <= cards.len(),
    ensures
        0 <= card_points(cards.subrange(0, i)) <= card_points(cards),
    decreases cards.len(),
{
    if cards.len() > 0 {
        if i == cards.len() {
            assert(cards.subrange(0, i) =~= cards);
            lemma_card_points_prefix(cards.drop_last(), i - 1);
            assert(cards.drop_last().subrange(0, i - 1) =~= cards.drop_last());
        } else {
            lemma_card_points_prefix(cards.drop_last(), i);
            assert(cards.drop_last().subrange(0, i) =~= cards.subrange(0, i));
        }
    } else {
        assert(cards.subrange(0, i) =~= cards);
    }
}

proof fn lemma_suit_count_bounds(cards: Seq<Card>, suit: Suit)
    ensures
        0 <= suit_count(cards, suit) <= cards.len(),
    decreases cards.len(),
{
    if cards.len() > 0 {
        lemma_suit_count_bounds(cards.drop_last(), suit);
    }
}

proof fn lemma_clear_count_bounds(history: Seq<Position>, position: Position)
    ensures
        0 <= clear_count(history, position) <= history.len(),
    decreases history.len(),
{
    if history.len() > 0 {
        lemma_clear_count_bounds(history.drop_last(), position);
    }
}

/// Counting over two sequences one after the other adds the counts.
proof fn lemma_clear_count_append(a: Seq<Position>, b: Seq<Position>, position: Position)
    ensures
        clear_count(a + b, position) == clear_count(a, position) + clear_count(b, position),
    decreases b.len(),
{
    if b.len() == 0 {
        assert(a + b =~= a);
    } else {
        lemma_clear_count_append(a, b.drop_last(), position);
        assert((a + b).drop_last() =~= a + b.drop_last());
    }
}

/// A position occurs at least once exactly when the sequence contains it.
proof fn lemma_clear_count_contains(history: Seq<Position>, position: Position)
    ensures
        history.contains(position) <==> clear_count(history, position) >= 1,
    decreases history.len(),
{
    lemma_clear_count_bounds(history, position);
    if history.len() > 0 {
        let rest = history.drop_last();
        lemma_clear_count_contains(rest, position);
        lemma_clear_count_bounds(rest, position);
        if rest.contains(position) {
            let k = choose|k: int| 0 <= k < rest.len() && rest[k] == position;
            assert(history[k] == position);
        }
        if history.contains(position) {
            let k = choose|k: int| 0 <= k < history.len() && history[k] == position;
            if k < rest.len() {
                assert(rest[k] == position);
            }
        }
        if history.last() == position {
            assert(history[history.len() - 1] == position);
        }
    }
}

/// A prefix of the cleared stacks earns no more bonus than all of them, and
/// none below zero.
proof fn lemma_cleared_bonus_prefix(history: Seq<Position>, cleared: Seq<Position>, i: int)
    requires
        0 <= i <= cleared.len(),
    ensures
        0 <= cleared_bonus(history, cleared.subrange(0, i)) <= cleared_bonus(history, cleared),
    decreases cleared.len(),
{
    if cleared.len() > 0 {
        lemma_clear_count_bounds(history, cleared.last());
        if i == cleared.len() {
            assert(cleared.subrange(0, i) =~= cleared);
            lemma_cleared_bonus_prefix(history, cleared.drop_last(), i - 1);
            assert(cleared.drop_last().subrange(0, i - 1) =~= cleared.drop_last());
        } else {
            lemma_cleared_bonus_prefix(history, cleared.drop_last(), i);
            assert(cleared.drop_last().subrange(0, i) =~= cleared.subrange(0, i));
        }
    } else {
        assert(cleared.subrange(0, i) =~= cleared);
    }
}

/// The parts of a score are never negative and the multiplier is at least
/// one.
proof fn lemma_score_parts(s: StandardState, play: Play)
    ensures
        s.value_of(play) >= 0,
        1 <= s.multiplier_of(play) <= LUCKY_MULTIPLIER,
        s.bonus_of(play) >= 0,
        s.delta_of(play) >= s.value_of(play) + s.bonus_of(play),
{
    lemma_card_points_prefix(play.cards@, 0);
    lemma_cleared_bonus_prefix(s.history, play.cleared_positions@, 0);
    assert(play.cards@.subrange(0, 0) =~= Seq::<Card>::empty());
    assert(play.cleared_positions@.subrange(0, 0) =~= Seq::<Position>::empty());
    assert(s.value_of(play) * s.multiplier_of(play) >= s.value_of(play)) by (nonlinear_arith)
        requires
            s.value_of(play) >= 0,
            s.multiplier_of(play) >= 1,
    ;
}

/// The sum of the points of the cards.
fn card_points_of(cards: &Vec<Card>) -> (r: i32)
    requires
        card_points(cards@) <= i32::MAX,
    ensures
        r == card_points(cards@),
{
    let mut sum: i32 = 0;
    let mut i: usize = 0;
    while i < cards.len()
        invariant
            i <= cards@.len(),
            card_points(cards@) <= i32::MAX,
            sum == card_points(cards@.subrange(0, i as int)),
        decreases cards.len() - i,
    {
        proof {
            lemma_card_points_prefix(cards@, i + 1);
            assert(cards@.subrange(0, i + 1).drop_last() =~= cards@.subrange(0, i as int));
        }
        sum = sum + cards[i].value.points() as i32;
        i = i + 1;
    }
    assert(cards@.subrange(0, i as int) =~= cards@);
    sum
}

/// How many of the cards have the suit.
fn suit_count_of(cards: &Vec<Card>, suit: Suit) -> (r: usize)
    ensures
        r == suit_count(cards@, suit),
{
    let mut count: usize = 0;
    let mut i: usize = 0;
    while i < cards.len()
        invariant
            i <= cards@.len(),
            count == suit_count(cards@.subrange(0, i as int), suit),
        decreases cards.len() - i,
    {
        proof {
            assert(cards@.subrange(0, i + 1).drop_last() =~= cards@.subrange(0, i as int));
            lemma_suit_count_bounds(cards@.subrange(0, i as int), suit);
        }
        if cards[i].suit == suit {
            count = count + 1;
        }
        i = i + 1;
    }
    assert(cards@.subrange(0, i as int) =~= cards@);
    count
}

/// How many times the position occurs in the history.
fn clear_count_of(history: &Vec<Position>, position: Position) -> (r: usize)
    ensures
        r == clear_count(history@, position),
{
    let mut count: usize = 0;
    let mut i: usize = 0;
    while i < history.len()
        invariant
            i <= history@.len(),
            count == clear_count(history@.subrange(0, i as int), position),
        decreases history.len() - i,
    {
        proof {
            assert(history@.subrange(0, i + 1).drop_last() =~= history@.subrange(0, i as int));
            lemma_clear_count_bounds(history@.subrange(0, i as int), position);
        }
        if history[i] == position {
            count = count + 1;
        }
        i = i + 1;
    }
    assert(history@.subrange(0, i as int) =~= history@);
    count
}

/// Relies on std's `Display` for `i32`, through `format!`: the decimal
/// digits of the number, led by `-` when it is negative.
#[verifier::external_body]
fn decimal_string(value: i32) -> (r: String)
    ensures
        r@ == decimal(value as int),
{
    format!("{}", value)
}

/// A rules engine that scores the plays of one round. Speculative
/// evaluation (`check_play`) is kept apart from committing a play
/// (`add_play`), which alone changes the state.
pub trait Scorer: Sized {
    /// What the scorer knows of the round so far.
    type State;

    /// The scorer's state.
    spec fn state(&self) -> Self::State;

    /// The scorer's internal invariant.
    spec fn inv(&self) -> bool;

    /// The state at the start of a round with the given lucky card.
    spec fn start(lucky_card: Card) -> Self::State;

    /// The score of a play in a state.
    spec fn score_in(s: Self::State, play: Play) -> Score;

    /// The state after a play is added.
    spec fn next(s: Self::State, play: Play) -> Self::State;

    /// The bonus that clearing a position would award in a state.
    spec fn bonus_in(s: Self::State, position: Position) -> int;

    /// The running total of a state.
    spec fn total_in(s: Self::State) -> int;

    /// The final total of a state, with or without the completion bonus.
    spec fn final_in(s: Self::State, completion: bool) -> int;

    /// The score of the play can be computed in machine integers.
    spec fn can_check(&self, play: Play) -> bool;

    /// The play can be added without overflowing the scorer's counters.
    spec fn can_add(&self, play: Play) -> bool;

    /// Creates a new scorer. Scores may take the lucky card into account, so
    /// it is provided as a helper.
    fn new(lucky_card: Card) -> (s: Self)
        ensures
            s.inv(),
            s.state() == Self::start(lucky_card),
            Self::total_in(s.state()) == 0,
            forall|p: Position| #[trigger] Self::bonus_in(s.state(), p) == 0,
    ;

    /// Compute the score of a potential play
    fn check_play(&self, play: Play) -> (r: Score)
        requires
            self.inv(),
            self.can_check(play),
        ensures
            r == Self::score_in(self.state(), play),
            r.value >= 0,
            r.bonus >= 0,
            r.multiplier >= 1,
    ;

    /// Update the score with information about the last play
    fn add_play(&mut self, play: Play)
        requires
            old(self).inv(),
            old(self).can_add(play),
        ensures
            final(self).inv(),
            final(self).state() == Self::next(old(self).state(), play),
            Self::total_in(final(self).state()) == Self::total_in(old(self).state())
                + score_delta(Self::score_in(old(self).state(), play)),
            forall|p: Position|
                !play.cleared_positions@.contains(p) ==> #[trigger] Self::bonus_in(
                    final(self).state(),
                    p,
                ) == Self::bonus_in(old(self).state(), p),
    ;

    /// Bonus awarded for clearing a position
    fn bonus(&self, position: Position) -> (r: i32)
        requires
            self.inv(),
        ensures
            r == Self::bonus_in(self.state(), position),
            r >= 0,
    ;

    /// The in-game total score
    fn running_total(&self) -> (r: i32)
        requires
            self.inv(),
        ensures
            r == Self::total_in(self.state()),
            r >= 0,
    ;

    /// The final score including any completion bonuses or multipliers, etc
    fn final_total(&self, completion: bool) -> (r: i32)
        requires
            self.inv(),
        ensures
            r == Self::final_in(self.state(), completion),
            !completion ==> r == Self::total_in(self.state()),
            completion ==> r >= Self::total_in(self.state()),
    ;

    /// Format a value as a score
    fn format_as_score(&self, value: i32) -> (r: String)
        ensures
            r@ == decimal(value as int),
    ;
}

/// Standard (no fifteens) scoring hands, double bonus awarded for cards
/// with the lucky card's suit
pub struct StandardScorer {
    lucky_suit: Suit,
    total: i32,
    cleared: Vec<Position>,
}

impl View for StandardScorer {
    type V = StandardState;

    closed spec fn view(&self) -> StandardState {
        StandardState { lucky_suit: self.lucky_suit, total: self.total as int, history: self.cleared@ }
    }
}

impl StandardScorer {
    /// The bonus for clearing each of `cleared` now.
    fn cleared_bonus_of(&self, cleared: &Vec<Position>) -> (r: i32)
        requires
            self@.wf(),
            cleared_bonus(self@.history, cleared@) <= i32::MAX,
        ensures
            r == cleared_bonus(self@.history, cleared@),
    {
        let mut sum: i32 = 0;
        let mut i: usize = 0;
        while i < cleared.len()
            invariant
                self@.wf(),
                i <= cleared@.len(),
                cleared_bonus(self@.history, cleared@) <= i32::MAX,
                sum == cleared_bonus(self@.history, cleared@.subrange(0, i as int)),
            decreases cleared.len() - i,
        {
            proof {
                lemma_cleared_bonus_prefix(self@.history, cleared@, i + 1);
                assert(cleared@.subrange(0, i + 1).drop_last() =~= cleared@.subrange(0, i as int));
            }
            let b = self.bonus(cleared[i]);
            sum = sum + b;
            i = i + 1;
        }
        assert(cleared@.subrange(0, i as int) =~= cleared@);
        sum
    }

    /// The score of `play`, which is only read.
    fn score_of(&self, play: &Play) -> (r: Score)
        requires
            self@.wf(),
            self@.can_check(*play),
        ensures
            r == self@.score(*play),
    {
        proof {
            lemma_score_parts(self@, *play);
        }
        let value = match play.hand {
            MoveType::Discard => 0,
            _ => card_points_of(&play.cards),
        };
        let multiplier = if suit_count_of(&play.cards, self.lucky_suit) >= LUCKY_THRESHOLD {
            LUCKY_MULTIPLIER
        } else {
            1
        };
        let bonus = self.cleared_bonus_of(&play.cleared_positions);
        Score { value, bonus, multiplier }
    }
}

impl Scorer for StandardScorer {
    type State = StandardState;

    open spec fn state(&self) -> StandardState {
        self@
    }

    open spec fn inv(&self) -> bool {
        self@.wf()
    }

    open spec fn start(lucky_card: Card) -> StandardState {
        StandardState::start(lucky_card)
    }

    open spec fn score_in(s: StandardState, play: Play) -> Score {
        s.score(play)
    }

    open spec fn next(s: StandardState, play: Play) -> StandardState {
        s.next(play)
    }

    open spec fn bonus_in(s: StandardState, position: Position) -> int {
        s.bonus(position)
    }

    open spec fn total_in(s: StandardState) -> int {
        s.total
    }

    open spec fn final_in(s: StandardState, completion: bool) -> int {
        s.final_total(completion)
    }

    open spec fn can_check(&self, play: Play) -> bool {
        self@.can_check(play)
    }

    open spec fn can_add(&self, play: Play) -> bool {
        self@.can_add(play)
    }

    fn new(lucky_card: Card) -> (s: StandardScorer) {
        let s = StandardScorer { total: 0, lucky_suit: lucky_card.suit, cleared: Vec::new() };
        assert(s@.history =~= Seq::<Position>::empty());
        s
    }

    fn check_play(&self, play: Play) -> (r: Score) {
        proof {
            lemma_score_parts(self@, play);
        }
        self.score_of(&play)
    }

    fn add_play(&mut self, play: Play) {
        proof {
            lemma_score_parts(self@, play);
        }
        let score = self.score_of(&play);
        proof {
            assert(score.value * score.multiplier == self@.value_of(play) * self@.multiplier_of(play));
        }
        self.total = self.total + score.value * score.multiplier + score.bonus;
        let mut i: usize = 0;
        let ghost before = old(self)@.history;
        let ghost total = self.total;
        while i < play.cleared_positions.len()
            invariant
                self.total == total,
                self.lucky_suit == old(self).lucky_suit,
                i <= play.cleared_positions@.len(),
                before.len() + play.cleared_positions@.len() <= MAX_CLEARS,
                self.cleared@ =~= before + play.cleared_positions@.subrange(0, i as int),
            decreases play.cleared_positions.len() - i,
        {
            self.cleared.push(play.cleared_positions[i]);
            i = i + 1;
            proof {
                assert(self.cleared@ =~= before + play.cleared_positions@.subrange(0, i as int));
            }
        }
        proof {
            assert(play.cleared_positions@.subrange(0, i as int) =~= play.cleared_positions@);
            assert(self@.history =~= old(self)@.next(play).history);
            assert forall|p: Position|
                !play.cleared_positions@.contains(p) implies #[trigger] self@.bonus(p) == old(
                self,
            )@.bonus(p) by {
                lemma_clear_count_append(before, play.cleared_positions@, p);
                lemma_clear_count_contains(play.cleared_positions@, p);
                lemma_clear_count_bounds(play.cleared_positions@, p);
            }
        }
    }

    fn bonus(&self, position: Position) -> (r: i32) {
        let count = clear_count_of(&self.cleared, position);
        proof {
            lemma_clear_count_bounds(self@.history, position);
        }
        CLEAR_BONUS * count as i32
    }

    fn running_total(&self) -> (r: i32) {
        self.total
    }

    fn final_total(&self, completion: bool) -> (r: i32) {
        if !completion {
            self.total
        } else if self.total > i32::MAX - COMPLETION_BONUS {
            i32::MAX
        } else {
            self.total + COMPLETION_BONUS
        }
    }

    fn format_as_score(&self, value: i32) -> (r: String) {
        decimal_string(value)
    }
}

/// The state after the plays are added one after another, from `s`.
pub open spec fn after_plays(s: StandardState, plays: Seq<Play>) -> StandardState
    decreases plays.len(),
{
    if plays.len() == 0 {
        s
    } else {
        after_plays(s, plays.drop_last()).next(plays.last())
    }
}

/// The sum of `value * multiplier + bonus` over the scores of the plays, each
/// score taken in the state just before its play is added.
pub open spec fn sum_of_scores(s: StandardState, plays: Seq<Play>) -> int
    decreases plays.len(),
{
    if plays.len() == 0 {
        0
    } else {
        sum_of_scores(s, plays.drop_last()) + score_delta(
            after_plays(s, plays.drop_last()).score(plays.last()),
        )
    }
}

/// Every play of the sequence can be added in turn.
pub open spec fn can_add_all(s: StandardState, plays: Seq<Play>) -> bool
    decreases plays.len(),
{
    if plays.len() == 0 {
        true
    } else {
        can_add_all(s, plays.drop_last()) && after_plays(s, plays.drop_last()).can_add(
            plays.last(),
        )
    }
}

/// After any sequence of plays added to a new scorer, the running total is
/// the sum of `value * multiplier + bonus` over the scores that
/// `check_play` gives for each play just before it is added.
pub proof fn lemma_total_is_sum_of_scores(lucky_card: Card, plays: Seq<Play>)
    requires
        can_add_all(StandardState::start(lucky_card), plays),
    ensures
        after_plays(StandardState::start(lucky_card), plays).total == sum_of_scores(
            StandardState::start(lucky_card),
            plays,
        ),
        after_plays(StandardState::start(lucky_card), plays).wf(),
    decreases plays.len(),
{
    let s = StandardState::start(lucky_card);
    if plays.len() > 0 {
        lemma_total_is_sum_of_scores(lucky_card, plays.drop_last());
        let before = after_plays(s, plays.drop_last());
        lemma_score_parts(before, plays.last());
        assert(before.score(plays.last()).value * before.score(plays.last()).multiplier
            == before.value_of(plays.last()) * before.multiplier_of(plays.last()));
    }
}

/// Checking a play is a function of the scorer's state and the play's
/// contents: two plays with the same cards, cleared positions and kind get
/// the same score, however often they are checked.
pub proof fn lemma_check_play_deterministic(s: StandardState, a: Play, b: Play)
    requires
        a.cards@ == b.cards@,
        a.cleared_positions@ == b.cleared_positions@,
        a.hand == b.hand,
    ensures
        s.score(a) == s.score(b),
{
}

/// A position that no play added to a new scorer has cleared has a bonus of
/// zero.
pub proof fn lemma_uncleared_bonus_is_zero(lucky_card: Card, plays: Seq<Play>, position: Position)
    requires
        forall|i: int| 0 <= i < plays.len() ==> !(#[trigger] plays[i]).cleared_positions@.contains(position),
    ensures
        after_plays(StandardState::start(lucky_card), plays).bonus(position) == 0,
    decreases plays.len(),
{
    let s = StandardState::start(lucky_card);
    if plays.len() == 0 {
        lemma_clear_count_contains(s.history, position);
        lemma_clear_count_bounds(s.history, position);
    } else {
        let rest = plays.drop_last();
        assert forall|i: int| 0 <= i < rest.len() implies !(#[trigger] rest[i]).cleared_positions@.contains(
            position,
        ) by {
            assert(rest[i] == plays[i]);
        }
        lemma_uncleared_bonus_is_zero(lucky_card, rest, position);
        let before = after_plays(s, rest);
        let last = plays.last();
        assert(!plays[plays.len() - 1].cleared_positions@.contains(position));
        lemma_clear_count_append(before.history, last.cleared_positions@, position);
        lemma_clear_count_contains(last.cleared_positions@, position);
        lemma_clear_count_bounds(last.cleared_positions@, position);
    }
}

/// Each clear of a stack raises the bonus for clearing it again by
/// `CLEAR_BONUS`, so a repeated clear earns strictly more than the one
/// before.
pub proof fn lemma_clearing_raises_bonus(s: StandardState, play: Play, position: Position)
    requires
        play.cleared_positions@.contains(position),
    ensures
        s.next(play).bonus(position) >= s.bonus(position) + CLEAR_BONUS,
        s.next(play).bonus(position) > s.bonus(position),
{
    lemma_clear_count_append(s.history, play.cleared_positions@, position);
    lemma_clear_count_contains(play.cleared_positions@, position);
}

/// Adding a play never lowers the running total.
pub proof fn lemma_total_never_decreases(s: StandardState, play: Play)
    ensures
        s.next(play).total >= s.total,
{
    lemma_score_parts(s, play);
}

} // verus!
