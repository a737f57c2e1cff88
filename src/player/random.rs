//! A player that picks one of its legal moves at random.

use vstd::prelude::*;
use crate::game::{move_pairs, Othello};
use crate::player::Player;
use crate::rules::{has_move, is_legal, legal_moves, lemma_legal_moves};

verus! {

/// Relies on `rand::thread_rng` and `rand::Rng::gen`: a number drawn from
/// the thread's generator, of which nothing is known. `thread_rng` panics
/// only when the operating system cannot seed the generator.
#[verifier::external_body]
fn random_draw() -> usize {
    rand::Rng::gen::<usize>(&mut rand::thread_rng())
}

/// A player that plays a random legal move.
pub struct RandomPlayer(pub char);

impl RandomPlayer {
    /// The legal move of this player at position `draw` modulo their number,
    /// in row-major order; `(0, 0)` when it has none.
    pub fn pick_move(&self, game: &Othello, draw: usize) -> (r: (usize, usize))
        requires
            game.wf(),
        ensures
            ({
                let moves = legal_moves(game.cells(), self.0);
                &&& moves.len() > 0 ==> (r.0 as int, r.1 as int) == moves[(draw as int) % (
                moves.len() as int)]
                &&& moves.len() == 0 ==> r == (0usize, 0usize)
            }),
    {
        let successors = game.successors(self.0);
        proof {
            assert(move_pairs(successors@).len() == successors@.len());
        }
        if successors.len() == 0 {
            return (0, 0);
        }
        let k = draw % successors.len();
        let ghost m = successors@[k as int];
        assert(move_pairs(successors@)[k as int] == (m.0 as int, m.1 as int));
        successors[k]
    }
}

impl Player for RandomPlayer {
    fn get_symbol(&self) -> (r: char)
        ensures
            r == self.0,
    {
        self.0
    }

    /// A legal move drawn at random, when this player has one; `(0, 0)` otherwise.
    fn get_move(&self, game: &Othello) -> (r: (usize, usize))
        ensures
            has_move(game.cells(), self.0) ==> is_legal(game.cells(), r.0 as int, r.1 as int, self.0),
            !has_move(game.cells(), self.0) ==> r == (0usize, 0usize),
    {
        proof {
            lemma_legal_moves(game.cells(), self.0);
        }
        self.pick_move(game, random_draw())
    }
}

} // verus!
