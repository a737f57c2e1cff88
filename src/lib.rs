//! An Othello (Reversi) rules engine and a game-tree search player.
//!
//! The board is a grid of optional one-character symbols. `Othello` holds the
//! rules: which moves are legal, how a move outflanks and flips opposing
//! pieces, whose turn it is and who has won. `player::minimax` searches the
//! game tree with alpha-beta pruning to choose a move.

pub mod board;
pub mod direction;
pub mod game;
pub mod player;
pub mod rules;

pub use direction::Direction;
pub use game::{ActivePlayer, Othello};
