//! Playing cards as plain values: a rank and one of four suits.

use vstd::prelude::*;

verus! {

/// One of the four suits of a standard deck.
#[derive(Debug, Clone, Copy, PartialEq, Eq, Structural, Hash)]
pub enum Suit {
    Spades,
    Hearts,
    Diamonds,
    Clubs,
}

/// The rank of a card, from two up to ace (no jokers).
#[derive(Debug, Clone, Copy, PartialEq, Eq, Structural, Hash)]
pub enum Value {
    Two,
    Three,
    Four,
    Five,
    Six,
    Seven,
    Eight,
    Nine,
    Ten,
    Jack,
    Queen,
    King,
    Ace,
}

/// A playing card.
#[derive(Debug, Clone, Copy, PartialEq, Eq, Structural, Hash)]
pub struct Card {
    pub value: Value,
    pub suit: Suit,
}

/// The points of a rank: its face number, eleven to thirteen for the court
/// cards and fourteen for the ace, which ranks highest.
pub open spec fn rank_points(v: Value) -> int {
    match v {
        Value::Two => 2,
        Value::Three => 3,
        Value::Four => 4,
        Value::Five => 5,
        Value::Six => 6,
        Value::Seven => 7,
        Value::Eight => 8,
        Value::Nine => 9,
        Value::Ten => 10,
        Value::Jack => 11,
        Value::Queen => 12,
        Value::King => 13,
        Value::Ace => 14,
    }
}

impl Value {
    /// The points of this rank.
    pub fn points(&self) -> (r: u8)
        ensures
            r as int == rank_points(*self),
            2 <= r <= 14,
    {
        match self {
            Value::Two => 2,
            Value::Three => 3,
            Value::Four => 4,
            Value::Five => 5,
            Value::Six => 6,
            Value::Seven => 7,
            Value::Eight => 8,
            Value::Nine => 9,
            Value::Ten => 10,
            Value::Jack => 11,
            Value::Queen => 12,
            Value::King => 13,
            Value::Ace => 14,
        }
    }
}

impl Card {
    /// A card of the given rank and suit.
    pub fn new(value: Value, suit: Suit) -> (r: Card)
        ensures
            r.value == value,
            r.suit == suit,
    {
        Card { value, suit }
    }
}

} // verus!
