//! Scoring rules for a solitaire card game: the values of plays, the lucky
//! suit multiplier, bonuses for cleared stacks and the running total of a round.

pub mod board;
pub mod card;
pub mod game;
pub mod score;
