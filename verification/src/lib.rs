//! A turn-based chase on a walled grid: one player, a roster of robots that
//! step greedily toward the player, and the rules by which robots wreck.
//!
//! `board` holds the grid and `dice` the generator that picks empty cells;
//! `rules` states one turn over plain values and `laws` proves what holds of
//! every turn; `game`, `engine` and `session` are the game itself: its
//! state, the turn, and the player's requests.

pub mod board;
pub mod dice;
pub mod engine;
pub mod game;
pub mod input;
pub mod laws;
pub mod roster;
pub mod rules;
pub mod seeding;
pub mod session;
