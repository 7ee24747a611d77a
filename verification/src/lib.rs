//! Rules and state transitions of Syndote, a Monopoly-like game whose players
//! are strategy programs that take their turns one after another.

pub mod types;
pub mod utils;
pub mod board;
pub mod game;
pub mod messages;
pub mod strategy;
pub mod laws;
