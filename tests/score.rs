use libthyme::board::Position;
use libthyme::card::{Card, Suit, Value};
use libthyme::game::MoveType;
use libthyme::score::{Play, Score, Scorer, StandardScorer};

fn card(value: Value, suit: Suit) -> Card {
    Card::new(value, suit)
}

fn play(cards: Vec<Card>, cleared_positions: Vec<Position>, hand: MoveType) -> Play {
    Play { cards, cleared_positions, hand }
}

fn clubs_run() -> Play {
    play(
        vec![
            card(Value::Five, Suit::Clubs),
            card(Value::Six, Suit::Clubs),
            card(Value::Seven, Suit::Clubs),
        ],
        vec![],
        MoveType::Run,
    )
}

fn hearts_pair_clearing(position: Position) -> Play {
    play(
        vec![card(Value::Queen, Suit::Hearts), card(Value::King, Suit::Hearts)],
        vec![position],
        MoveType::Run,
    )
}

fn lucky_queen() -> StandardScorer {
    StandardScorer::new(card(Value::Queen, Suit::Hearts))
}

#[test]
fn new_scorer_has_zero_total() {
    for suit in [Suit::Spades, Suit::Hearts, Suit::Diamonds, Suit::Clubs] {
        let scorer = StandardScorer::new(card(Value::Ace, suit));
        assert_eq!(scorer.running_total(), 0);
        assert_eq!(scorer.final_total(false), 0);
    }
}

#[test]
fn run_without_lucky_cards_scores_its_points() {
    let mut scorer = lucky_queen();
    let score = scorer.check_play(clubs_run());
    assert_eq!(score, Score { value: 18, bonus: 0, multiplier: 1 });
    scorer.add_play(clubs_run());
    assert_eq!(scorer.running_total(), 18);
}

#[test]
fn two_lucky_cards_double_the_value() {
    let mut scorer = lucky_queen();
    scorer.add_play(clubs_run());
    let position = Position { h: 0, v: 1 };
    let bonus_before = scorer.bonus(position);
    assert_eq!(bonus_before, 0);
    let score = scorer.check_play(hearts_pair_clearing(position));
    assert_eq!(score.value, 25);
    assert_eq!(score.multiplier, 2);
    assert_eq!(score.bonus, bonus_before);
    scorer.add_play(hearts_pair_clearing(position));
    assert_eq!(scorer.running_total(), 18 + (score.value * 2 + score.bonus));
    assert_eq!(scorer.running_total(), 68);
}

#[test]
fn repeated_clear_escalates_bonus() {
    let mut scorer = lucky_queen();
    let position = Position::new(2, 3);
    assert_eq!(scorer.bonus(position), 0);
    scorer.add_play(hearts_pair_clearing(position));
    let first = scorer.bonus(position);
    assert_eq!(first, 10);
    scorer.add_play(hearts_pair_clearing(position));
    let second = scorer.bonus(position);
    assert!(second > first);
    assert_eq!(second, 20);
    // the third play earns the bonus of two earlier clears
    let score = scorer.check_play(hearts_pair_clearing(position));
    assert_eq!(score.bonus, 20);
}

#[test]
fn check_play_is_idempotent() {
    let mut scorer = lucky_queen();
    let position = Position::new(1, 1);
    scorer.add_play(hearts_pair_clearing(position));
    let p = hearts_pair_clearing(position);
    let first = scorer.check_play(p.clone());
    for _ in 0..5 {
        assert_eq!(scorer.check_play(p.clone()), first);
    }
    assert_eq!(scorer.running_total(), 50);
    assert_eq!(first, Score { value: 25, bonus: 10, multiplier: 2 });
}

#[test]
fn uncleared_position_has_no_bonus() {
    let mut scorer = lucky_queen();
    scorer.add_play(hearts_pair_clearing(Position::new(0, 0)));
    scorer.add_play(hearts_pair_clearing(Position::new(0, 1)));
    assert_eq!(scorer.bonus(Position::new(1, 0)), 0);
    assert_eq!(scorer.bonus(Position::new(0, 2)), 0);
    assert_eq!(scorer.bonus(Position::new(0, 0)), 10);
}

#[test]
fn total_is_sum_of_checked_scores() {
    let mut scorer = StandardScorer::new(card(Value::Two, Suit::Spades));
    let a = Position::new(0, 0);
    let b = Position::new(4, 2);
    let plays = vec![
        play(
            vec![card(Value::Ace, Suit::Spades), card(Value::Ace, Suit::Hearts)],
            vec![a],
            MoveType::Group,
        ),
        play(
            vec![card(Value::Ten, Suit::Spades), card(Value::Jack, Suit::Spades)],
            vec![a, b],
            MoveType::Run,
        ),
        play(vec![card(Value::Three, Suit::Spades)], vec![a, a], MoveType::Discard),
        play(
            vec![
                card(Value::Four, Suit::Diamonds),
                card(Value::Four, Suit::Spades),
                card(Value::Four, Suit::Clubs),
            ],
            vec![b],
            MoveType::Group,
        ),
    ];
    let mut expected: i32 = 0;
    for p in plays {
        let s = scorer.check_play(p.clone());
        expected += s.value * s.multiplier + s.bonus;
        scorer.add_play(p);
        assert_eq!(scorer.running_total(), expected);
    }
    // 28, then 42 + 10, then 0 + 20 + 20, then 12 + 10
    assert_eq!(expected, 28 + 52 + 40 + 22);
}

#[test]
fn final_total_without_completion_is_running_total() {
    let mut scorer = lucky_queen();
    assert_eq!(scorer.final_total(false), scorer.running_total());
    scorer.add_play(clubs_run());
    assert_eq!(scorer.final_total(false), scorer.running_total());
}

#[test]
fn completion_never_lowers_final_total() {
    let mut scorer = lucky_queen();
    assert!(scorer.final_total(true) >= scorer.final_total(false));
    assert_eq!(scorer.final_total(true), 100);
    scorer.add_play(clubs_run());
    assert!(scorer.final_total(true) >= scorer.final_total(false));
    assert_eq!(scorer.final_total(true), 118);
}

#[test]
fn completion_bonus_saturates() {
    let mut scorer = lucky_queen();
    let big: Vec<Card> = (0..15_000_000).map(|_| card(Value::Ace, Suit::Clubs)).collect();
    let p = play(big, vec![], MoveType::Group);
    let score = scorer.check_play(p.clone());
    assert_eq!(score.value, 210_000_000);
    for _ in 0..10 {
        scorer.add_play(p.clone());
    }
    assert_eq!(scorer.running_total(), 2_100_000_000);
    assert_eq!(scorer.final_total(true), 2_100_000_100);
    scorer.add_play(play(
        vec![card(Value::Ace, Suit::Clubs); 3_391_683],
        vec![],
        MoveType::Group,
    ));
    assert_eq!(scorer.running_total(), 2_147_483_562);
    assert_eq!(scorer.final_total(true), i32::MAX);
    assert_eq!(scorer.final_total(false), 2_147_483_562);
}

#[test]
fn discard_scores_no_value() {
    let scorer = lucky_queen();
    let p = play(
        vec![card(Value::King, Suit::Hearts), card(Value::Ace, Suit::Hearts)],
        vec![],
        MoveType::Discard,
    );
    assert_eq!(scorer.check_play(p), Score { value: 0, bonus: 0, multiplier: 2 });
}

#[test]
fn one_lucky_card_is_below_threshold() {
    let scorer = lucky_queen();
    let p = play(
        vec![card(Value::Nine, Suit::Hearts), card(Value::Nine, Suit::Spades)],
        vec![],
        MoveType::Group,
    );
    assert_eq!(scorer.check_play(p), Score { value: 18, bonus: 0, multiplier: 1 });
}

#[test]
fn rank_points_run_from_two_to_ace() {
    assert_eq!(Value::Two.points(), 2);
    assert_eq!(Value::Ten.points(), 10);
    assert_eq!(Value::Jack.points(), 11);
    assert_eq!(Value::Queen.points(), 12);
    assert_eq!(Value::King.points(), 13);
    assert_eq!(Value::Ace.points(), 14);
}

#[test]
fn empty_play_scores_nothing() {
    let scorer = lucky_queen();
    let p = play(vec![], vec![], MoveType::Run);
    assert_eq!(scorer.check_play(p), Score { value: 0, bonus: 0, multiplier: 1 });
}

#[test]
fn format_as_score_gives_decimal() {
    let scorer = lucky_queen();
    assert_eq!(scorer.format_as_score(0), "0");
    assert_eq!(scorer.format_as_score(68), "68");
    assert_eq!(scorer.format_as_score(-1234), "-1234");
    assert_eq!(scorer.format_as_score(i32::MIN), "-2147483648");
}
