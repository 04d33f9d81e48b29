//! The core of a matching-pairs card game: a card's flip animation, the card
//! itself, and the board that maps pointer positions to cards.
//!
//! Time is counted in whole microseconds and lengths in whole pixels. Values
//! that are fractions by nature (a scale factor, the centre of a cell) are
//! exact ratios of integers.

pub mod ratio;
pub mod cards;
pub mod board;

pub mod trajectory;
pub mod setup;
