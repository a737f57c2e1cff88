//! A player that searches the whole game tree with minimax and alpha-beta pruning.

use vstd::prelude::*;
use crate::board::{
    in_grid, is_rectangle, lemma_tally_bound, holds, symbol_count, with_cell,
};
use crate::game::{move_pairs, Othello};
use crate::player::Player;
use crate::rules::{
    after_move, empty_count, has_move, is_legal, legal_moves, lemma_flipped_within_shape,
    lemma_legal_moves, lemma_move_adds_one_piece,
};

verus! {

/// The score of a position for `me`: its pieces minus those of `opp`.
pub open spec fn utility_value(cells: Seq<Seq<Option<char>>>, me: char, opp: char) -> int {
    symbol_count(cells, me) - symbol_count(cells, opp)
}

/// Whether the game between `me` and `opp` is over: one of them cannot move.
pub open spec fn game_over(cells: Seq<Seq<Option<char>>>, me: char, opp: char) -> bool {
    !(has_move(cells, me) && has_move(cells, opp))
}

/// The symbol to move: `me` on maximizing plies, `opp` on minimizing ones.
pub open spec fn mover(me: char, opp: char, maximize: bool) -> char {
    if maximize {
        me
    } else {
        opp
    }
}

/// The minimax value for `me` of the position `cells`, with `me` to move when
/// `maximize` holds and `opp` to move otherwise. A finished game is worth its
/// score; otherwise the mover picks the best value among its legal moves.
pub open spec fn game_value(cells: Seq<Seq<Option<char>>>, me: char, opp: char, maximize: bool) -> int
    decreases empty_count(cells), legal_moves(cells, mover(me, opp, maximize)).len() + 1,
{
    if game_over(cells, me, opp) {
        utility_value(cells, me, opp)
    } else {
        best_value(cells, me, opp, maximize, legal_moves(cells, mover(me, opp, maximize)))
    }
}

/// The best value the mover reaches with the moves of `moves`: the greatest
/// when maximizing, the least otherwise. With no move it is the extreme of
/// `isize` that any value improves on.
pub open spec fn best_value(
    cells: Seq<Seq<Option<char>>>,
    me: char,
    opp: char,
    maximize: bool,
    moves: Seq<(int, int)>,
) -> int
    decreases empty_count(cells), moves.len(),
{
    if moves.len() == 0 {
        if maximize {
            isize::MIN as int
        } else {
            isize::MAX as int
        }
    } else {
        let prev = best_value(cells, me, opp, maximize, moves.drop_last());
        let m = moves.last();
        let s = mover(me, opp, maximize);
        if is_legal(cells, m.0, m.1, s) {
            proof {
                lemma_move_adds_one_piece(cells, m.0, m.1, s);
            }
            let v = game_value(after_move(cells, m.0, m.1, s), me, opp, !maximize);
            if improves(v, prev, maximize) {
                v
            } else {
                prev
            }
        } else {
            prev
        }
    }
}

/// Whether `v` is strictly better than `best` for the side that maximizes or minimizes.
pub open spec fn improves(v: int, best: int, maximize: bool) -> bool {
    if maximize {
        v > best
    } else {
        v < best
    }
}

/// The first move of `moves` that reaches `best_value`, or `(0, 0)` when there is none.
pub open spec fn best_move(
    cells: Seq<Seq<Option<char>>>,
    me: char,
    opp: char,
    maximize: bool,
    moves: Seq<(int, int)>,
) -> (int, int)
    decreases moves.len(),
{
    if moves.len() == 0 {
        (0, 0)
    } else {
        let prev = best_value(cells, me, opp, maximize, moves.drop_last());
        let m = moves.last();
        let s = mover(me, opp, maximize);
        if is_legal(cells, m.0, m.1, s) && improves(
            game_value(after_move(cells, m.0, m.1, s), me, opp, !maximize),
            prev,
            maximize,
        ) {
            m
        } else {
            best_move(cells, me, opp, maximize, moves.drop_last())
        }
    }
}

/// The move minimax chooses: the first legal move, in row-major order, of
/// the best value; `(0, 0)` when the game is over.
pub open spec fn chosen_move(cells: Seq<Seq<Option<char>>>, me: char, opp: char, maximize: bool) -> (
    int,
    int,
) {
    if game_over(cells, me, opp) {
        (0, 0)
    } else {
        best_move(cells, me, opp, maximize, legal_moves(cells, mover(me, opp, maximize)))
    }
}

/// What a fail-soft alpha-beta search may return for a position of value `t`
/// searched in the window `(alpha, beta)`: inside the window the exact value;
/// at or beyond an edge, a bound that `t` does not cross.
pub open spec fn within_window(v: int, t: int, alpha: int, beta: int) -> bool {
    &&& v <= alpha ==> t <= v
    &&& v >= beta ==> t >= v
    &&& alpha < v < beta ==> t == v
}

/// A legal move keeps the grid's shape.
pub proof fn lemma_after_move_shape(
    cells: Seq<Seq<Option<char>>>,
    r: int,
    c: int,
    s: char,
    rows: nat,
    cols: nat,
)
    requires
        is_rectangle(cells, rows, cols),
        in_grid(cells, r, c),
    ensures
        is_rectangle(after_move(cells, r, c, s), rows, cols),
{
    let placed = with_cell(cells, r, c, Some(s));
    lemma_flipped_within_shape(placed, r, c, s, 8);
    assert forall|i: int| 0 <= i < rows implies #[trigger] after_move(cells, r, c, s)[i].len()
        == cols by {
        assert(placed[i].len() == cells[i].len());
    }
}

/// Every position is worth between minus and plus the number of cells.
pub proof fn lemma_value_bounds(
    cells: Seq<Seq<Option<char>>>,
    me: char,
    opp: char,
    maximize: bool,
    rows: nat,
    cols: nat,
)
    requires
        is_rectangle(cells, rows, cols),
        rows * cols < isize::MAX,
    ensures
        -(rows * cols) <= game_value(cells, me, opp, maximize) <= rows * cols,
    decreases empty_count(cells), legal_moves(cells, mover(me, opp, maximize)).len() + 1,
{
    if game_over(cells, me, opp) {
        lemma_tally_bound(cells, rows, cols, holds(me));
        lemma_tally_bound(cells, rows, cols, holds(opp));
    } else {
        let s = mover(me, opp, maximize);
        lemma_legal_moves(cells, s);
        lemma_best_bounds(cells, me, opp, maximize, legal_moves(cells, s), rows, cols);
    }
}

/// The best value over a nonempty list of legal moves is a position's value,
/// so it lies within the same bounds.
pub proof fn lemma_best_bounds(
    cells: Seq<Seq<Option<char>>>,
    me: char,
    opp: char,
    maximize: bool,
    moves: Seq<(int, int)>,
    rows: nat,
    cols: nat,
)
    requires
        is_rectangle(cells, rows, cols),
        rows * cols < isize::MAX,
        moves.len() > 0,
        forall|k: int|
            0 <= k < moves.len() ==> is_legal(
                cells,
                (#[trigger] moves[k]).0,
                moves[k].1,
                mover(me, opp, maximize),
            ),
    ensures
        -(rows * cols) <= best_value(cells, me, opp, maximize, moves) <= rows * cols,
    decreases empty_count(cells), moves.len(),
{
    let m = moves.last();
    let s = mover(me, opp, maximize);
    assert(is_legal(cells, m.0, m.1, s));
    lemma_move_adds_one_piece(cells, m.0, m.1, s);
    lemma_after_move_shape(cells, m.0, m.1, s, rows, cols);
    lemma_value_bounds(after_move(cells, m.0, m.1, s), me, opp, !maximize, rows, cols);
    let v = game_value(after_move(cells, m.0, m.1, s), me, opp, !maximize);
    let prev = best_value(cells, me, opp, maximize, moves.drop_last());
    assert(best_value(cells, me, opp, maximize, moves) == if improves(v, prev, maximize) {
        v
    } else {
        prev
    });
    if moves.len() > 1 {
        let rest = moves.drop_last();
        assert forall|k: int| 0 <= k < rest.len() implies is_legal(
            cells,
            (#[trigger] rest[k]).0,
            rest[k].1,
            s,
        ) by {
            assert(rest[k] == moves[k]);
        }
        lemma_best_bounds(cells, me, opp, maximize, rest, rows, cols);
    }
}

/// Taking more moves into account never makes the best value worse for the mover.
pub proof fn lemma_best_prefix(
    cells: Seq<Seq<Option<char>>>,
    me: char,
    opp: char,
    maximize: bool,
    moves: Seq<(int, int)>,
    i: int,
)
    requires
        0 <= i <= moves.len(),
    ensures
        maximize ==> best_value(cells, me, opp, maximize, moves) >= best_value(
            cells,
            me,
            opp,
            maximize,
            moves.take(i),
        ),
        !maximize ==> best_value(cells, me, opp, maximize, moves) <= best_value(
            cells,
            me,
            opp,
            maximize,
            moves.take(i),
        ),
    decreases moves.len(),
{
    if i == moves.len() {
        assert(moves.take(i) =~= moves);
    } else {
        lemma_best_prefix(cells, me, opp, maximize, moves.drop_last(), i);
        assert(moves.drop_last().take(i) =~= moves.take(i));
    }
}

/// The search of a whole position, in the window of all of `isize`, returns
/// the position's exact value: pruning changes which positions are visited,
/// never the result.
pub proof fn lemma_pruning_keeps_value(
    cells: Seq<Seq<Option<char>>>,
    me: char,
    opp: char,
    maximize: bool,
    v: int,
    rows: nat,
    cols: nat,
)
    requires
        is_rectangle(cells, rows, cols),
        rows * cols < isize::MAX,
        within_window(v, game_value(cells, me, opp, maximize), isize::MIN as int, isize::MAX as int),
    ensures
        v == game_value(cells, me, opp, maximize),
{
    lemma_value_bounds(cells, me, opp, maximize, rows, cols);
}

/// In a finished game the score for one side is the negation of the score
/// for the other.
pub proof fn lemma_utility_antisymmetric(
    cells: Seq<Seq<Option<char>>>,
    me: char,
    opp: char,
    maximize: bool,
    other_maximize: bool,
)
    requires
        game_over(cells, me, opp),
    ensures
        game_value(cells, me, opp, maximize) == -game_value(cells, opp, me, other_maximize),
        utility_value(cells, me, opp) == -utility_value(cells, opp, me),
{
}

/// A player that chooses its moves by searching the game tree to the end:
/// minimax with alpha-beta pruning. The search is exponential in the number
/// of empty cells, which suits boards up to about five by five.
pub struct MinimaxPlayer(pub char);

impl MinimaxPlayer {
    /// The score of `game` for this player: its pieces minus the opponent's.
    pub fn utility(&self, game: &Othello) -> (r: isize)
        requires
            game.wf(),
            game.is_registered(self.0),
        ensures
            r == utility_value(game.cells(), self.0, game.opponent_of(self.0)),
    {
        let opponent_symbol = game.symbol_from_player(game.player_from_symbol(self.0).unwrap().not());
        let counts = game.board().char_counts();
        proof {
            let b = game.spec_board();
            lemma_tally_bound(game.cells(), b.num_rows(), b.num_cols(), holds(self.0));
            lemma_tally_bound(game.cells(), b.num_rows(), b.num_cols(), holds(opponent_symbol));
        }
        let our_count = counts.get(self.0).unwrap_or(0) as isize;
        let opponent_count = counts.get(opponent_symbol).unwrap_or(0) as isize;
        our_count - opponent_count
    }

    /// Minimax with alpha-beta pruning. Returns the move chosen for the side to
    /// move (this player when `maximize` holds, its opponent otherwise) and its
    /// value for this player. Inside the window `(alpha, beta)` the value is
    /// exact; a value at or beyond an edge bounds the exact one from that side.
    /// Searched with the whole of `isize` as window, value and move are those
    /// of plain minimax. A finished game gives `(0, 0)` and its score.
    pub fn minimax(&self, game: &mut Othello, alpha: isize, beta: isize, maximize: bool) -> (r: (
        (usize, usize),
        isize,
    ))
        requires
            old(game).wf(),
            old(game).is_registered(self.0),
            alpha < beta,
        ensures
            *final(game) == *old(game),
            game_over(old(game).cells(), self.0, old(game).opponent_of(self.0)) ==> r == (
                (0usize, 0usize),
                utility_value(old(game).cells(), self.0, old(game).opponent_of(self.0)) as isize,
            ),
            within_window(
                r.1 as int,
                game_value(old(game).cells(), self.0, old(game).opponent_of(self.0), maximize),
                alpha as int,
                beta as int,
            ),
            alpha == isize::MIN && beta == isize::MAX ==> r.1 == game_value(
                old(game).cells(),
                self.0,
                old(game).opponent_of(self.0),
                maximize,
            ) && ((r.0).0 as int, (r.0).1 as int) == chosen_move(
                old(game).cells(),
                self.0,
                old(game).opponent_of(self.0),
                maximize,
            ),
        decreases empty_count(old(game).cells()),
    {
        let ghost cells = game.cells();
        let ghost rows = game.spec_board().num_rows();
        let ghost cols = game.spec_board().num_cols();
        let player_symbol = self.0;
        let opponent_symbol = game.symbol_from_player(
            game.player_from_symbol(self.0).unwrap().not(),
        );
        let turn_symbol = if maximize {
            player_symbol
        } else {
            opponent_symbol
        };
        let mut best_res: isize = if maximize {
            isize::MIN
        } else {
            isize::MAX
        };
        if !game.has_more_moves() {
            return ((0, 0), self.utility(game));
        }
        // While the game goes on both sides can move, so the side to move never
        // has to pass: its list of successors is not empty.
        let ghost moves = legal_moves(cells, turn_symbol);
        proof {
            lemma_legal_moves(cells, turn_symbol);
            assert(moves.len() > 0);
        }
        let successors = game.successors(turn_symbol);
        let mut best_coords: (usize, usize) = (0, 0);
        let mut lower = alpha;
        let mut upper = beta;
        let mut i: usize = 0;
        while i < successors.len() && lower < upper
            invariant
                game.wf(),
                *game == *old(game),
                cells == game.cells(),
                rows == game.spec_board().num_rows(),
                cols == game.spec_board().num_cols(),
                game.is_registered(turn_symbol),
                game.is_registered(self.0),
                player_symbol == self.0,
                opponent_symbol == game.opponent_of(self.0),
                turn_symbol == mover(player_symbol, opponent_symbol, maximize),
                move_pairs(successors@) == moves,
                moves == legal_moves(cells, turn_symbol),
                forall|k: int|
                    0 <= k < moves.len() ==> is_legal(
                        cells,
                        (#[trigger] moves[k]).0,
                        moves[k].1,
                        turn_symbol,
                    ),
                i <= moves.len(),
                alpha < beta,
                lower == (if maximize && best_res > alpha {
                    best_res
                } else {
                    alpha
                }),
                upper == (if !maximize && best_res < beta {
                    best_res
                } else {
                    beta
                }),
                best_res < beta ==> best_value(
                    cells,
                    player_symbol,
                    opponent_symbol,
                    maximize,
                    moves.take(i as int),
                ) <= best_res,
                best_res > alpha ==> best_value(
                    cells,
                    player_symbol,
                    opponent_symbol,
                    maximize,
                    moves.take(i as int),
                ) >= best_res,
                alpha == isize::MIN && beta == isize::MAX ==> best_res == best_value(
                    cells,
                    player_symbol,
                    opponent_symbol,
                    maximize,
                    moves.take(i as int),
                ) && (best_coords.0 as int, best_coords.1 as int) == best_move(
                    cells,
                    player_symbol,
                    opponent_symbol,
                    maximize,
                    moves.take(i as int),
                ),
            decreases moves.len() - i,
        {
            let (row, col) = successors[i];
            let ghost m = moves[i as int];
            assert(m == (row as int, col as int));
            let mut new_game = game.duplicate();
            proof {
                lemma_move_adds_one_piece(cells, row as int, col as int, turn_symbol);
                lemma_after_move_shape(cells, row as int, col as int, turn_symbol, rows, cols);
                lemma_value_bounds(
                    after_move(cells, row as int, col as int, turn_symbol),
                    player_symbol,
                    opponent_symbol,
                    !maximize,
                    rows,
                    cols,
                );
                assert(moves.take(i + 1).drop_last() =~= moves.take(i as int));
            }
            new_game.play_move(row, col, turn_symbol);
            let result = self.minimax(&mut new_game, lower, upper, !maximize).1;
            if (maximize && result > best_res) || (!maximize && result < best_res) {
                best_res = result;
                best_coords = (row, col);
            }
            if maximize {
                if result > lower {
                    lower = result;
                }
            } else {
                if result < upper {
                    upper = result;
                }
            }
            i = i + 1;
        }
        proof {
            assert(moves.take(moves.len() as int) =~= moves);
            lemma_best_prefix(cells, player_symbol, opponent_symbol, maximize, moves, i as int);
            if alpha == isize::MIN && beta == isize::MAX {
                lemma_value_bounds(cells, player_symbol, opponent_symbol, maximize, rows, cols);
            }
        }
        (best_coords, best_res)
    }
    /// Plain minimax, without pruning: every successor of every position is
    /// searched. Returns the move chosen for the side to move and its value
    /// for this player; a finished game gives `(0, 0)` and its score.
    pub fn minimax_exhaustive(&self, game: &mut Othello, maximize: bool) -> (r: (
        (usize, usize),
        isize,
    ))
        requires
            old(game).wf(),
            old(game).is_registered(self.0),
        ensures
            *final(game) == *old(game),
            r.1 == game_value(old(game).cells(), self.0, old(game).opponent_of(self.0), maximize),
            ((r.0).0 as int, (r.0).1 as int) == chosen_move(
                old(game).cells(),
                self.0,
                old(game).opponent_of(self.0),
                maximize,
            ),
        decreases empty_count(old(game).cells()),
    {
        let ghost cells = game.cells();
        let ghost rows = game.spec_board().num_rows();
        let ghost cols = game.spec_board().num_cols();
        let player_symbol = self.0;
        let opponent_symbol = game.symbol_from_player(
            game.player_from_symbol(self.0).unwrap().not(),
        );
        let turn_symbol = if maximize {
            player_symbol
        } else {
            opponent_symbol
        };
        if !game.has_more_moves() {
            return ((0, 0), self.utility(game));
        }
        // While the game goes on both sides can move, so the side to move never
        // has to pass: its list of successors is not empty.
        let ghost moves = legal_moves(cells, turn_symbol);
        proof {
            lemma_legal_moves(cells, turn_symbol);
            assert(moves.len() > 0);
        }
        let successors = game.successors(turn_symbol);
        let mut best_res: isize = if maximize {
            isize::MIN
        } else {
            isize::MAX
        };
        let mut best_coords: (usize, usize) = (0, 0);
        let mut i: usize = 0;
        while i < successors.len()
            invariant
                game.wf(),
                *game == *old(game),
                cells == game.cells(),
                rows == game.spec_board().num_rows(),
                cols == game.spec_board().num_cols(),
                game.is_registered(turn_symbol),
                game.is_registered(self.0),
                player_symbol == self.0,
                opponent_symbol == game.opponent_of(self.0),
                turn_symbol == mover(player_symbol, opponent_symbol, maximize),
                move_pairs(successors@) == moves,
                moves == legal_moves(cells, turn_symbol),
                forall|k: int|
                    0 <= k < moves.len() ==> is_legal(
                        cells,
                        (#[trigger] moves[k]).0,
                        moves[k].1,
                        turn_symbol,
                    ),
                i <= moves.len(),
                best_res == best_value(
                    cells,
                    player_symbol,
                    opponent_symbol,
                    maximize,
                    moves.take(i as int),
                ),
                (best_coords.0 as int, best_coords.1 as int) == best_move(
                    cells,
                    player_symbol,
                    opponent_symbol,
                    maximize,
                    moves.take(i as int),
                ),
            decreases moves.len() - i,
        {
            let (row, col) = successors[i];
            let ghost m = moves[i as int];
            assert(m == (row as int, col as int));
            let mut new_game = game.duplicate();
            proof {
                lemma_move_adds_one_piece(cells, row as int, col as int, turn_symbol);
                assert(moves.take(i + 1).drop_last() =~= moves.take(i as int));
            }
            new_game.play_move(row, col, turn_symbol);
            let result = self.minimax_exhaustive(&mut new_game, !maximize).1;
            if (maximize && result > best_res) || (!maximize && result < best_res) {
                best_res = result;
                best_coords = (row, col);
            }
            i = i + 1;
        }
        proof {
            assert(moves.take(moves.len() as int) =~= moves);
        }
        (best_coords, best_res)
    }
}

impl Player for MinimaxPlayer {
    fn get_symbol(&self) -> (r: char)
        ensures
            r == self.0,
    {
        self.0
    }

    /// The move that a full alpha-beta search chooses for this player;
    /// `(0, 0)` when the game is over or does not know this player's symbol.
    fn get_move(&self, game: &Othello) -> (r: (usize, usize))
        ensures
            game.is_registered(self.0) ==> (r.0 as int, r.1 as int) == chosen_move(
                game.cells(),
                self.0,
                game.opponent_of(self.0),
                true,
            ),
    {
        if game.player_from_symbol(self.0).is_none() {
            return (0, 0);
        }
        let mut search = game.duplicate();
        self.minimax(&mut search, isize::MIN, isize::MAX, true).0
    }
}

} // verus!
