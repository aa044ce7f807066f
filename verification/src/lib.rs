//! A game of blackjack against a dealer: cards, hands and their values,
//! the table's state machine, and the controls offered to the player.

pub mod game;
pub mod tui;
