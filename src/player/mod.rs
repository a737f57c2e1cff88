//! Move sources: anything that, shown a game, proposes a coordinate to play.

use vstd::prelude::*;
use crate::game::Othello;

pub mod minimax;
pub mod random;

verus! {

/// A participant in a game. The game checks each proposed move and asks
/// again while the proposal is not legal.
pub trait Player {
    /// The symbol this player places.
    fn get_symbol(&self) -> char;

    /// The coordinate this player proposes to play in `game`.
    fn get_move(&self, game: &Othello) -> (usize, usize)
        requires
            game.wf(),
    ;
}

} // verus!
