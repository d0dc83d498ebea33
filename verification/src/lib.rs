//! A turn-based tile game in the style of Scrabble whose tiles are digits and
//! arithmetic operators. Every line of tiles on the board is read as a postfix
//! expression; its value is credited to the player who owns most of its tiles.

pub mod scrabble_base_types;
pub mod term_evaluation;
pub mod runtime_error;
pub mod board;
pub mod player;
pub mod ownership;
pub mod command_parsing;
pub mod scrabble;
pub mod messages;
