//! The game state: a board, the two players' symbols and whose turn it is.

use vstd::prelude::*;
use crate::board::{
    holds, in_grid, lemma_tally_bound, lemma_tally_update, occupied_count, symbol_count, Board,
};
use crate::direction::{
    compass, lemma_compass_index, on_ray, ray_distance, step_col, step_row, Direction,
};
use crate::rules::{
    after_move, closed_by, flip_count, flipped, flipped_within, gain_within, has_move, is_legal,
    legal_moves, lemma_flip_step, lemma_flipped_within_shape, lemma_move_adds_one_piece,
    lemma_walk_frame, moves_in_row, moves_in_rows, opposes, outflanks, ray_col, ray_row, run_length,
    walk_measure,
};

verus! {

/// Marks whose turn it is.
#[derive(Copy, Clone, Debug, PartialEq, Eq, Structural)]
pub enum ActivePlayer {
    PlayerOne,
    PlayerTwo,
}

impl ActivePlayer {
    /// The other player.
    pub open spec fn other(self) -> ActivePlayer {
        match self {
            ActivePlayer::PlayerOne => ActivePlayer::PlayerTwo,
            ActivePlayer::PlayerTwo => ActivePlayer::PlayerOne,
        }
    }

    /// The other player.
    pub fn not(self) -> (r: ActivePlayer)
        ensures
            r == self.other(),
    {
        match self {
            ActivePlayer::PlayerOne => ActivePlayer::PlayerTwo,
            ActivePlayer::PlayerTwo => ActivePlayer::PlayerOne,
        }
    }
}

/// An Othello game between two symbols.
#[derive(Clone, Debug)]
pub struct Othello {
    p_one: char,
    p_two: char,
    active_player: ActivePlayer,
    board: Board,
}

impl Othello {
    /// The first player's symbol.
    pub closed spec fn symbol_one(&self) -> char {
        self.p_one
    }

    /// The second player's symbol.
    pub closed spec fn symbol_two(&self) -> char {
        self.p_two
    }

    /// Whose turn it is.
    pub closed spec fn turn(&self) -> ActivePlayer {
        self.active_player
    }

    /// The board.
    pub closed spec fn spec_board(&self) -> Board {
        self.board
    }

    /// The cells of the board.
    pub open spec fn cells(&self) -> Seq<Seq<Option<char>>> {
        self.spec_board()@
    }

    /// The symbol that `player` places.
    pub open spec fn symbol_of(&self, player: ActivePlayer) -> char {
        match player {
            ActivePlayer::PlayerOne => self.symbol_one(),
            ActivePlayer::PlayerTwo => self.symbol_two(),
        }
    }

    /// The symbol of the player whose turn it is.
    pub open spec fn active_symbol(&self) -> char {
        self.symbol_of(self.turn())
    }

    /// Whether `s` is one of the two players' symbols.
    pub open spec fn is_registered(&self, s: char) -> bool {
        s == self.symbol_one() || s == self.symbol_two()
    }

    /// The symbol of the player that `s` plays against.
    pub open spec fn opponent_of(&self, s: char) -> char {
        if s == self.symbol_one() {
            self.symbol_two()
        } else {
            self.symbol_one()
        }
    }

    /// Whether both players still have a legal move.
    pub open spec fn game_on(&self) -> bool {
        has_move(self.cells(), self.symbol_one()) && has_move(self.cells(), self.symbol_two())
    }

    /// The board is well formed, the symbols differ, and every occupied cell
    /// holds one of them.
    pub open spec fn wf(&self) -> bool {
        &&& self.spec_board().wf()
        &&& self.symbol_one() != self.symbol_two()
        &&& forall|x: int, y: int|
            in_grid(self.cells(), x, y) && #[trigger] self.cells()[x][y] is Some ==> self.is_registered(
                self.cells()[x][y]->0,
            )
    }

    /// Whether two games have the same players, turn and board.
    pub open spec fn same_game(&self, other: &Othello) -> bool {
        &&& self.symbol_one() == other.symbol_one()
        &&& self.symbol_two() == other.symbol_two()
        &&& self.turn() == other.turn()
        &&& self.cells() == other.cells()
        &&& self.spec_board().num_rows() == other.spec_board().num_rows()
        &&& self.spec_board().num_cols() == other.spec_board().num_cols()
    }

    /// A game on an empty `rows` by `cols` board whose four centre cells hold the
    /// standard opening: `p_one` on one diagonal, `p_two` on the other. The
    /// first player moves first.
    pub fn with_players(p_one: char, p_two: char, rows: usize, cols: usize) -> (r: Self)
        requires
            p_one != p_two,
            2 <= rows,
            2 <= cols,
            rows * cols < isize::MAX,
        ensures
            r.wf(),
            r.symbol_one() == p_one,
            r.symbol_two() == p_two,
            r.turn() == ActivePlayer::PlayerOne,
            r.spec_board().num_rows() == rows,
            r.spec_board().num_cols() == cols,
            r.cells() == opening(rows as int, cols as int, p_one, p_two),
    {
        let mut board = Board::with_size(rows, cols);
        board.set_cell(rows / 2 - 1, cols / 2 - 1, p_one);
        board.set_cell(rows / 2, cols / 2, p_one);
        board.set_cell(rows / 2, cols / 2 - 1, p_two);
        board.set_cell(rows / 2 - 1, cols / 2, p_two);
        let r = Self { p_one, p_two, board, active_player: ActivePlayer::PlayerOne };
        assert(r.cells() =~~= opening(rows as int, cols as int, p_one, p_two));
        r
    }

    /// A copy of this game that shares nothing with it.
    pub fn duplicate(&self) -> (r: Self)
        requires
            self.wf(),
        ensures
            r.wf(),
            r.same_game(self),
    {
        Self {
            p_one: self.p_one,
            p_two: self.p_two,
            active_player: self.active_player,
            board: self.board.duplicate(),
        }
    }

    /// The number of the player whose turn it is: 1 or 2.
    pub fn active_as_num(&self) -> (r: usize)
        ensures
            r == (if self.turn() == ActivePlayer::PlayerOne {
                1usize
            } else {
                2usize
            }),
    {
        match self.active_player() {
            ActivePlayer::PlayerOne => 1,
            ActivePlayer::PlayerTwo => 2,
        }
    }

    /// Whose turn it is.
    pub fn active_player(&self) -> (r: ActivePlayer)
        ensures
            r == self.turn(),
    {
        self.active_player
    }

    /// The board.
    pub fn board(&self) -> (r: &Board)
        ensures
            *r == self.spec_board(),
    {
        &self.board
    }

    /// The symbol that `player` places.
    pub fn symbol_from_player(&self, player: ActivePlayer) -> (r: char)
        ensures
            r == self.symbol_of(player),
    {
        match player {
            ActivePlayer::PlayerOne => self.p_one,
            ActivePlayer::PlayerTwo => self.p_two,
        }
    }

    /// The player who places `symbol`, or `None` when neither does.
    pub fn player_from_symbol(&self, symbol: char) -> (r: Option<ActivePlayer>)
        ensures
            symbol == self.symbol_one() ==> r == Some(ActivePlayer::PlayerOne),
            symbol != self.symbol_one() && symbol == self.symbol_two() ==> r == Some(
                ActivePlayer::PlayerTwo,
            ),
            !self.is_registered(symbol) ==> r is None,
    {
        if symbol == self.p_one {
            Some(ActivePlayer::PlayerOne)
        } else if symbol == self.p_two {
            Some(ActivePlayer::PlayerTwo)
        } else {
            None
        }
    }

    /// The symbol of the player whose turn it is.
    pub fn get_active_symbol(&self) -> (r: char)
        ensures
            r == self.active_symbol(),
    {
        self.symbol_from_player(self.active_player)
    }

    /// Walks from `(row, col)` in `direction` over cells that hold a symbol
    /// other than `symbol`. True when the walk stops at a cell holding `symbol`
    /// after crossing at least one such cell, or, where `match_symbol` is set,
    /// after crossing none. Leaving the board or reaching an empty cell gives false.
    pub fn check_endpoint(
        &self,
        row: usize,
        col: usize,
        symbol: char,
        direction: Direction,
        match_symbol: bool,
    ) -> (r: bool)
        requires
            self.wf(),
        ensures
            r == (closed_by(self.cells(), direction, row as int, col as int, symbol) && (match_symbol
                || run_length(self.cells(), direction, row as int, col as int, symbol) >= 1)),
        decreases walk_measure(self.cells(), direction, row as int, col as int),
    {
        if !self.board.is_in_bounds(row, col) || self.board.is_cell_empty(row, col) {
            return false;
        }
        let found = self.board.get_cell(row, col);
        if found == Some(symbol) {
            return match_symbol;
        }
        let ghost nr = step_row(direction, row as int);
        let ghost nc = step_col(direction, col as int);
        let ghost k = run_length(self.cells(), direction, nr, nc, symbol) as int;
        assert(ray_row(direction, nr, k) == ray_row(direction, row as int, k + 1));
        assert(ray_col(direction, nc, k) == ray_col(direction, col as int, k + 1));
        match direction.new_coords_from_direction(row, col) {
            Some((new_row, new_col)) => {
                self.check_endpoint(new_row, new_col, symbol, direction, true)
            },
            None => false,
        }
    }

    /// Turns over the run of cells from `(row, col)` in `direction` that hold a
    /// symbol other than `symbol`, up to the cell holding `symbol` that closes
    /// it, and returns the number of cells turned.
    fn flip_helper(&mut self, row: usize, col: usize, symbol: char, direction: Direction) -> (r: usize)
        requires
            old(self).wf(),
            old(self).is_registered(symbol),
            closed_by(old(self).cells(), direction, row as int, col as int, symbol),
        ensures
            final(self).wf(),
            final(self).symbol_one() == old(self).symbol_one(),
            final(self).symbol_two() == old(self).symbol_two(),
            final(self).turn() == old(self).turn(),
            final(self).spec_board().num_rows() == old(self).spec_board().num_rows(),
            final(self).spec_board().num_cols() == old(self).spec_board().num_cols(),
            r == run_length(old(self).cells(), direction, row as int, col as int, symbol),
            forall|x: int, y: int|
                in_grid(old(self).cells(), x, y) ==> #[trigger] final(self).cells()[x][y] == if on_ray(
                    direction,
                    row as int,
                    col as int,
                    x,
                    y,
                ) && ray_distance(direction, row as int, col as int, x, y) < run_length(
                    old(self).cells(),
                    direction,
                    row as int,
                    col as int,
                    symbol,
                ) {
                    Some(symbol)
                } else {
                    old(self).cells()[x][y]
                },
            symbol_count(final(self).cells(), symbol) == symbol_count(old(self).cells(), symbol) + r,
        decreases walk_measure(old(self).cells(), direction, row as int, col as int),
    {
        let ghost cells = self.cells();
        let ghost len = run_length(cells, direction, row as int, col as int, symbol) as int;
        assert(in_grid(cells, row as int, col as int)) by {
            if len > 0 {
                assert(opposes(cells, row as int, col as int, symbol));
            }
        }
        if self.board.get_cell(row, col) == Some(symbol) {
            return 0;
        }
        let ghost nr = step_row(direction, row as int);
        let ghost nc = step_col(direction, col as int);
        let ghost k = run_length(cells, direction, nr, nc, symbol) as int;
        assert(ray_row(direction, nr, k) == ray_row(direction, row as int, k + 1));
        assert(ray_col(direction, nc, k) == ray_col(direction, col as int, k + 1));
        self.board.set_cell(row, col, symbol);
        proof {
            let mid = self.cells();
            lemma_tally_update(cells, row as int, col as int, Some(symbol), holds(symbol));
            assert forall|x: int, y: int|
                on_ray(direction, nr, nc, x, y) && in_grid(mid, x, y) implies #[trigger] mid[x][y]
                == cells[x][y] by {
                assert(x != row || y != col);
            }
            lemma_walk_frame(mid, cells, direction, nr, nc, symbol);
            assert(self.wf());
        }
        match direction.new_coords_from_direction(row, col) {
            Some((new_row, new_col)) => {
                let n = self.flip_helper(new_row, new_col, symbol, direction);
                n + 1
            },
            None => 0,
        }
    }

    /// Turns over every run that `symbol` placed at `(row, col)` outflanks and
    /// returns the number of cells turned. The cell `(row, col)` is left as it is.
    pub fn flip_pieces(&mut self, row: usize, col: usize, symbol: char) -> (r: usize)
        requires
            old(self).wf(),
            old(self).is_registered(symbol),
            row < usize::MAX,
            col < usize::MAX,
        ensures
            final(self).wf(),
            final(self).symbol_one() == old(self).symbol_one(),
            final(self).symbol_two() == old(self).symbol_two(),
            final(self).turn() == old(self).turn(),
            final(self).spec_board().num_rows() == old(self).spec_board().num_rows(),
            final(self).spec_board().num_cols() == old(self).spec_board().num_cols(),
            final(self).cells() == flipped(old(self).cells(), row as int, col as int, symbol),
            r == flip_count(old(self).cells(), row as int, col as int, symbol),
    {
        let ghost cells = self.cells();
        let ghost rows = self.spec_board().num_rows();
        let ghost cols = self.spec_board().num_cols();
        let directions = Direction::cardinals();
        let mut flipped: usize = 0;
        let mut i: usize = 0;
        proof {
            lemma_flipped_within_shape(cells, row as int, col as int, symbol, 0);
            assert(self.cells() =~~= flipped_within(cells, row as int, col as int, symbol, 0));
        }
        while i < 8
            invariant
                i <= 8,
                directions@ == compass(),
                self.wf(),
                self.symbol_one() == old(self).symbol_one(),
                self.symbol_two() == old(self).symbol_two(),
                self.turn() == old(self).turn(),
                self.spec_board().num_rows() == rows,
                self.spec_board().num_cols() == cols,
                self.is_registered(symbol),
                row < usize::MAX,
                col < usize::MAX,
                cells == old(self).cells(),
                old(self).wf(),
                rows == old(self).spec_board().num_rows(),
                cols == old(self).spec_board().num_cols(),
                self.cells() == flipped_within(cells, row as int, col as int, symbol, i as int),
                flipped == gain_within(cells, row as int, col as int, symbol, i as int),
                symbol_count(self.cells(), symbol) == symbol_count(cells, symbol) + flipped,
            decreases 8 - i,
        {
            let direction = directions[i];
            let ghost cur = self.cells();
            let ghost next = flipped_within(cells, row as int, col as int, symbol, i + 1);
            proof {
                lemma_flip_step(cells, row as int, col as int, symbol, i as int);
                lemma_flipped_within_shape(cells, row as int, col as int, symbol, i + 1);
                lemma_flipped_within_shape(cells, row as int, col as int, symbol, i as int);
                lemma_tally_bound(cur, rows, cols, holds(symbol));
            }
            if let Some((new_row, new_col)) = direction.new_coords_from_direction(row, col) {
                if self.check_endpoint(new_row, new_col, symbol, direction, false) {
                    let n = self.flip_helper(new_row, new_col, symbol, direction);
                    proof {
                        lemma_tally_bound(self.cells(), rows, cols, holds(symbol));
                    }
                    flipped = flipped + n;
                }
            }
            proof {
                assert(self.cells().len() == next.len());
                assert forall|x: int| 0 <= x < next.len() implies #[trigger] self.cells()[x]
                    =~= next[x] by {
                    assert(cells[x].len() == cols);
                    assert(self.cells()[x].len() == cols);
                    assert forall|y: int| 0 <= y < next[x].len() implies self.cells()[x][y]
                        == next[x][y] by {
                        assert(in_grid(cells, x, y));
                    }
                }
                assert(self.cells() =~= next);
            }
            i = i + 1;
        }
        flipped
    }

    /// Whether `symbol` may move at `(row, col)`: the cell is on the board and
    /// empty, and the move outflanks opposing pieces in at least one direction.
    pub fn is_legal_move(&self, row: usize, col: usize, symbol: char) -> (r: bool)
        requires
            self.wf(),
        ensures
            r == is_legal(self.cells(), row as int, col as int, symbol),
            !in_grid(self.cells(), row as int, col as int) ==> !r,
            in_grid(self.cells(), row as int, col as int) && self.cells()[row as int][col as int] is Some
                ==> !r,
    {
        if !self.board.is_in_bounds(row, col) || !self.board.is_cell_empty(row, col) {
            return false;
        }
        let directions = Direction::cardinals();
        let mut i: usize = 0;
        while i < 8
            invariant
                i <= 8,
                directions@ == compass(),
                self.wf(),
                in_grid(self.cells(), row as int, col as int),
                self.cells()[row as int][col as int] is None,
                row < usize::MAX,
                col < usize::MAX,
                forall|k: int|
                    0 <= k < i ==> !outflanks(
                        self.cells(),
                        row as int,
                        col as int,
                        symbol,
                        #[trigger] compass()[k],
                    ),
            decreases 8 - i,
        {
            let direction = directions[i];
            if let Some((new_row, new_col)) = direction.new_coords_from_direction(row, col) {
                if self.check_endpoint(new_row, new_col, symbol, direction, false) {
                    assert(outflanks(self.cells(), row as int, col as int, symbol, direction));
                    return true;
                }
            }
            i = i + 1;
        }
        assert forall|d: Direction|
            !#[trigger] outflanks(self.cells(), row as int, col as int, symbol, d) by {
            lemma_compass_index(d);
        }
        false
    }

    /// Plays `symbol` at `(row, col)`: places it, turns over every run it
    /// outflanks, and hands the turn to the other player. The move must be legal.
    pub fn play_move(&mut self, row: usize, col: usize, symbol: char)
        requires
            old(self).wf(),
            old(self).is_registered(symbol),
            is_legal(old(self).cells(), row as int, col as int, symbol),
        ensures
            final(self).wf(),
            final(self).symbol_one() == old(self).symbol_one(),
            final(self).symbol_two() == old(self).symbol_two(),
            final(self).turn() == old(self).turn().other(),
            final(self).spec_board().num_rows() == old(self).spec_board().num_rows(),
            final(self).spec_board().num_cols() == old(self).spec_board().num_cols(),
            final(self).cells() == after_move(old(self).cells(), row as int, col as int, symbol),
            occupied_count(final(self).cells()) == occupied_count(old(self).cells()) + 1,
    {
        proof {
            lemma_move_adds_one_piece(self.cells(), row as int, col as int, symbol);
        }
        self.board.set_cell(row, col, symbol);
        self.flip_pieces(row, col, symbol);
        self.change_active_player();
    }

    /// Every legal move of `symbol`, in row-major order.
    pub fn successors(&self, symbol: char) -> (r: Vec<(usize, usize)>)
        requires
            self.wf(),
        ensures
            move_pairs(r@) == legal_moves(self.cells(), symbol),
    {
        let ghost cells = self.cells();
        let mut successors: Vec<(usize, usize)> = Vec::new();
        let rows = self.board.rows();
        let cols = self.board.cols();
        let mut row: usize = 0;
        while row < rows
            invariant
                self.wf(),
                cells == self.cells(),
                rows == self.spec_board().num_rows(),
                cols == self.spec_board().num_cols(),
                row <= rows,
                move_pairs(successors@) == moves_in_rows(cells, symbol, row as int),
            decreases rows - row,
        {
            let mut col: usize = 0;
            while col < cols
                invariant
                    self.wf(),
                    cells == self.cells(),
                    rows == self.spec_board().num_rows(),
                    cols == self.spec_board().num_cols(),
                    row < rows,
                    col <= cols,
                    move_pairs(successors@) == moves_in_rows(cells, symbol, row as int)
                        + moves_in_row(cells, symbol, row as int, col as int),
                decreases cols - col,
            {
                let ghost before = successors@;
                if self.is_legal_move(row, col, symbol) {
                    successors.push((row, col));
                    assert(move_pairs(successors@) =~= move_pairs(before).push(
                        (row as int, col as int),
                    ));
                }
                col = col + 1;
                assert(move_pairs(successors@) =~= moves_in_rows(cells, symbol, row as int)
                    + moves_in_row(cells, symbol, row as int, col as int));
            }
            assert(cells[row as int].len() == cols);
            row = row + 1;
        }
        successors
    }

    /// Whether `symbol` has a legal move anywhere on the board.
    pub fn symbol_has_more_moves(&self, symbol: char) -> (r: bool)
        requires
            self.wf(),
        ensures
            r == has_move(self.cells(), symbol),
    {
        let rows = self.board.rows();
        let cols = self.board.cols();
        let mut row: usize = 0;
        while row < rows
            invariant
                self.wf(),
                rows == self.spec_board().num_rows(),
                cols == self.spec_board().num_cols(),
                row <= rows,
                forall|x: int, y: int|
                    0 <= x < row ==> !#[trigger] is_legal(self.cells(), x, y, symbol),
            decreases rows - row,
        {
            let mut col: usize = 0;
            while col < cols
                invariant
                    self.wf(),
                    rows == self.spec_board().num_rows(),
                    cols == self.spec_board().num_cols(),
                    row < rows,
                    col <= cols,
                    forall|x: int, y: int|
                        0 <= x < row ==> !#[trigger] is_legal(self.cells(), x, y, symbol),
                    forall|y: int|
                        0 <= y < col ==> !#[trigger] is_legal(self.cells(), row as int, y, symbol),
                decreases cols - col,
            {
                if self.is_legal_move(row, col, symbol) {
                    return true;
                }
                col = col + 1;
            }
            assert forall|x: int, y: int|
                0 <= x < row + 1 implies !#[trigger] is_legal(self.cells(), x, y, symbol) by {
                if x == row && y >= cols {
                    assert(self.cells()[x].len() == cols);
                }
            }
            row = row + 1;
        }
        false
    }

    /// Whether `player` has a legal move anywhere on the board.
    pub fn player_has_more_moves(&self, player: ActivePlayer) -> (r: bool)
        requires
            self.wf(),
        ensures
            r == has_move(self.cells(), self.symbol_of(player)),
    {
        self.symbol_has_more_moves(self.symbol_from_player(player))
    }

    /// Whether both players still have a legal move. The game is over as soon
    /// as one of them has none.
    pub fn has_more_moves(&self) -> (r: bool)
        requires
            self.wf(),
        ensures
            r == self.game_on(),
            !r <==> !has_move(self.cells(), self.symbol_one()) || !has_move(
                self.cells(),
                self.symbol_two(),
            ),
    {
        self.player_has_more_moves(ActivePlayer::PlayerOne) && self.player_has_more_moves(
            ActivePlayer::PlayerTwo,
        )
    }

    /// The number of the player with more pieces on the board, or 0 for a tie.
    pub fn get_winner_number(&self) -> (r: usize)
        requires
            self.wf(),
        ensures
            r == winner_number(self.cells(), self.symbol_one(), self.symbol_two()),
    {
        let counts = self.board.char_counts();
        let p_one_count = counts.get(self.p_one).unwrap_or(0);
        let p_two_count = counts.get(self.p_two).unwrap_or(0);
        if p_one_count > p_two_count {
            1
        } else if p_two_count > p_one_count {
            2
        } else {
            0
        }
    }

    /// The announcement of a finished game: the winner and its points, or a
    /// tie. `None` while both players can still move.
    pub fn get_winner(&self) -> (r: Option<String>)
        requires
            self.wf(),
        ensures
            self.game_on() <==> r is None,
            !self.game_on() && winner_number(self.cells(), self.symbol_one(), self.symbol_two())
                == 1 ==> r->0@ == win_announcement(
                1,
                symbol_count(self.cells(), self.symbol_one()) as int,
            ),
            !self.game_on() && winner_number(self.cells(), self.symbol_one(), self.symbol_two())
                == 2 ==> r->0@ == win_announcement(
                2,
                symbol_count(self.cells(), self.symbol_two()) as int,
            ),
            !self.game_on() && winner_number(self.cells(), self.symbol_one(), self.symbol_two())
                == 0 ==> r->0@ == "It's a tie!"@,
    {
        if self.has_more_moves() {
            return None;
        }
        let counts = self.board.char_counts();
        let p_one_count = counts.get(self.p_one).unwrap_or(0);
        let p_two_count = counts.get(self.p_two).unwrap_or(0);
        if p_one_count > p_two_count {
            Some(announce_win(1, p_one_count))
        } else if p_two_count > p_one_count {
            Some(announce_win(2, p_two_count))
        } else {
            Some("It's a tie!".to_owned())
        }
    }

    /// One step of a turn. When the player to move has no legal move it
    /// passes: the turn goes to the other player and the result is
    /// `NoLegalMove`. Otherwise a proposed coordinate that is legal for the
    /// player to move is played (`MoveApplied`); anything else leaves the game
    /// unchanged and the turn still awaits a move (`AwaitingMove`).
    pub fn next_turn(&mut self, proposal: Option<(usize, usize)>) -> (r: TurnState)
        requires
            old(self).wf(),
        ensures
            final(self).wf(),
            final(self).symbol_one() == old(self).symbol_one(),
            final(self).symbol_two() == old(self).symbol_two(),
            final(self).spec_board().num_rows() == old(self).spec_board().num_rows(),
            final(self).spec_board().num_cols() == old(self).spec_board().num_cols(),
            !has_move(old(self).cells(), old(self).active_symbol()) ==> r == TurnState::NoLegalMove
                && final(self).cells() == old(self).cells() && final(self).turn() == old(
                self,
            ).turn().other(),
            has_move(old(self).cells(), old(self).active_symbol()) && proposal_is_legal(
                old(self),
                proposal,
            ) ==> r == TurnState::MoveApplied && final(self).cells() == after_move(
                old(self).cells(),
                (proposal->0).0 as int,
                (proposal->0).1 as int,
                old(self).active_symbol(),
            ) && final(self).turn() == old(self).turn().other(),
            has_move(old(self).cells(), old(self).active_symbol()) && !proposal_is_legal(
                old(self),
                proposal,
            ) ==> r == TurnState::AwaitingMove && final(self).same_game(old(self)),
    {
        if !self.player_has_more_moves(self.active_player) {
            self.change_active_player();
            return TurnState::NoLegalMove;
        }
        let symbol = self.get_active_symbol();
        match proposal {
            Some((row, col)) => {
                if self.is_legal_move(row, col, symbol) {
                    self.play_move(row, col, symbol);
                    TurnState::MoveApplied
                } else {
                    TurnState::AwaitingMove
                }
            },
            None => TurnState::AwaitingMove,
        }
    }

    /// Plays the game out with two scripted players: on its turn each player
    /// proposes the next coordinate of its own script, as `next_turn` takes
    /// it, until one player cannot move or the player to move has no script
    /// left. Returns the number of the player ahead, or 0 for a tie.
    pub fn run_script(&mut self, one: &Vec<(usize, usize)>, two: &Vec<(usize, usize)>) -> (r: usize)
        requires
            old(self).wf(),
        ensures
            final(self).wf(),
            final(self).symbol_one() == old(self).symbol_one(),
            final(self).symbol_two() == old(self).symbol_two(),
            final(self).spec_board().num_rows() == old(self).spec_board().num_rows(),
            final(self).spec_board().num_cols() == old(self).spec_board().num_cols(),
            ({
                let end = scripted_end(
                    old(self).cells(),
                    old(self).turn(),
                    old(self).symbol_one(),
                    old(self).symbol_two(),
                    move_pairs(one@),
                    move_pairs(two@),
                );
                &&& final(self).cells() == end.0
                &&& final(self).turn() == end.1
                &&& final(self).game_on() ==> (end.1 == ActivePlayer::PlayerOne ==> end.2.len()
                    == 0) && (end.1 == ActivePlayer::PlayerTwo ==> end.3.len() == 0)
            }),
            r == winner_number(
                final(self).cells(),
                final(self).symbol_one(),
                final(self).symbol_two(),
            ),
    {
        let ghost p_one = self.symbol_one();
        let ghost p_two = self.symbol_two();
        let ghost end = scripted_end(
            self.cells(),
            self.turn(),
            p_one,
            p_two,
            move_pairs(one@),
            move_pairs(two@),
        );
        let mut i: usize = 0;
        let mut j: usize = 0;
        assert(move_pairs(one@).subrange(0, one@.len() as int) =~= move_pairs(one@));
        assert(move_pairs(two@).subrange(0, two@.len() as int) =~= move_pairs(two@));
        let mut more = self.has_more_moves();
        while more
            invariant
                self.wf(),
                self.symbol_one() == p_one,
                self.symbol_two() == p_two,
                p_one == old(self).symbol_one(),
                p_two == old(self).symbol_two(),
                self.spec_board().num_rows() == old(self).spec_board().num_rows(),
                self.spec_board().num_cols() == old(self).spec_board().num_cols(),
                i <= one@.len(),
                j <= two@.len(),
                more ==> self.game_on(),
                more ==> scripted_end(
                    self.cells(),
                    self.turn(),
                    p_one,
                    p_two,
                    move_pairs(one@).subrange(i as int, one@.len() as int),
                    move_pairs(two@).subrange(j as int, two@.len() as int),
                ) == end,
                !more ==> end == (
                    self.cells(),
                    self.turn(),
                    move_pairs(one@).subrange(i as int, one@.len() as int),
                    move_pairs(two@).subrange(j as int, two@.len() as int),
                ),
                !more && self.game_on() ==> (self.turn() == ActivePlayer::PlayerOne ==> i
                    == one@.len()) && (self.turn() == ActivePlayer::PlayerTwo ==> j == two@.len()),
            decreases one@.len() - i + two@.len() - j + if more {
                1int
            } else {
                0int
            },
        {
            let ghost rest_one = move_pairs(one@).subrange(i as int, one@.len() as int);
            let ghost rest_two = move_pairs(two@).subrange(j as int, two@.len() as int);
            let exhausted = match self.active_player {
                ActivePlayer::PlayerOne => i >= one.len(),
                ActivePlayer::PlayerTwo => j >= two.len(),
            };
            if exhausted {
                more = false;
            } else {
                let proposal = match self.active_player {
                    ActivePlayer::PlayerOne => {
                        i = i + 1;
                        assert(rest_one.subrange(1, rest_one.len() as int) =~= move_pairs(
                            one@,
                        ).subrange(i as int, one@.len() as int));
                        one[i - 1]
                    },
                    ActivePlayer::PlayerTwo => {
                        j = j + 1;
                        assert(rest_two.subrange(1, rest_two.len() as int) =~= move_pairs(
                            two@,
                        ).subrange(j as int, two@.len() as int));
                        two[j - 1]
                    },
                };
                self.next_turn(Some(proposal));
                more = self.has_more_moves();
            }
            proof {
                let rest_one = move_pairs(one@).subrange(i as int, one@.len() as int);
                let rest_two = move_pairs(two@).subrange(j as int, two@.len() as int);
                if !more {
                    assert(scripted_end(self.cells(), self.turn(), p_one, p_two, rest_one, rest_two)
                        == (self.cells(), self.turn(), rest_one, rest_two));
                }
            }
        }
        self.get_winner_number()
    }

    /// Hands the turn to the other player.
    pub fn change_active_player(&mut self)
        requires
            old(self).wf(),
        ensures
            final(self).wf(),
            final(self).turn() == old(self).turn().other(),
            final(self).symbol_one() == old(self).symbol_one(),
            final(self).symbol_two() == old(self).symbol_two(),
            final(self).spec_board() == old(self).spec_board(),
    {
        self.active_player = self.active_player.not();
    }
}

/// The announcement that player number `player` has won with `points`
/// pieces, as `format!` renders it; the text depends on the two numbers alone.
pub uninterp spec fn win_announcement(player: int, points: int) -> Seq<char>;

/// Relies on std's `format!`: writes the two numbers in decimal into the
/// announcement of a win.
#[verifier::external_body]
fn announce_win(player: usize, points: usize) -> (r: String)
    ensures
        r@ == win_announcement(player as int, points as int),
{
    format!("Player {} wins with {} points!", player, points)
}

/// The symbol of the player that `turn` names.
pub open spec fn symbol_for(turn: ActivePlayer, p_one: char, p_two: char) -> char {
    if turn == ActivePlayer::PlayerOne {
        p_one
    } else {
        p_two
    }
}

/// Where a game between `p_one` and `p_two` stands when each player, on its
/// turn, proposes the next coordinate of its own script: a legal proposal is
/// played and passes the turn, any other is dropped. Play stops when one
/// player cannot move or when the player to move has run out of script.
/// The result is the cells, whose turn it is, and what is left of each script.
pub open spec fn scripted_end(
    cells: Seq<Seq<Option<char>>>,
    turn: ActivePlayer,
    p_one: char,
    p_two: char,
    one: Seq<(int, int)>,
    two: Seq<(int, int)>,
) -> (Seq<Seq<Option<char>>>, ActivePlayer, Seq<(int, int)>, Seq<(int, int)>)
    decreases one.len() + two.len(),
{
    let s = symbol_for(turn, p_one, p_two);
    let script = if turn == ActivePlayer::PlayerOne {
        one
    } else {
        two
    };
    if !(has_move(cells, p_one) && has_move(cells, p_two)) || script.len() == 0 {
        (cells, turn, one, two)
    } else {
        let m = script[0];
        let next_cells = if is_legal(cells, m.0, m.1, s) {
            after_move(cells, m.0, m.1, s)
        } else {
            cells
        };
        let next_turn = if is_legal(cells, m.0, m.1, s) {
            turn.other()
        } else {
            turn
        };
        if turn == ActivePlayer::PlayerOne {
            let rest = one.subrange(1, one.len() as int);
            scripted_end(next_cells, next_turn, p_one, p_two, rest, two)
        } else {
            let rest = two.subrange(1, two.len() as int);
            scripted_end(next_cells, next_turn, p_one, p_two, one, rest)
        }
    }
}

/// Where a turn stands after one step of `Othello::next_turn`.
#[derive(Copy, Clone, Debug, PartialEq, Eq, Structural)]
pub enum TurnState {
    /// The player to move has yet to propose a legal move.
    AwaitingMove,
    /// The proposed move was legal and has been played.
    MoveApplied,
    /// The player to move has no legal move; the turn has passed.
    NoLegalMove,
}

/// The coordinates of `moves` as pairs of integers.
pub open spec fn move_pairs(moves: Seq<(usize, usize)>) -> Seq<(int, int)> {
    moves.map_values(|m: (usize, usize)| (m.0 as int, m.1 as int))
}

/// Whether `proposal` names a legal move for the player whose turn it is.
pub open spec fn proposal_is_legal(game: &Othello, proposal: Option<(usize, usize)>) -> bool {
    proposal matches Some(m) && is_legal(game.cells(), m.0 as int, m.1 as int, game.active_symbol())
}

/// 1 when `p_one` holds more cells than `p_two`, 2 when fewer, 0 when as many.
pub open spec fn winner_number(cells: Seq<Seq<Option<char>>>, p_one: char, p_two: char) -> usize {
    if symbol_count(cells, p_one) > symbol_count(cells, p_two) {
        1
    } else if symbol_count(cells, p_two) > symbol_count(cells, p_one) {
        2
    } else {
        0
    }
}

/// The cells of a `rows` by `cols` board at the start of a game: `p_one` at the
/// lower-left and upper-right centre cells, `p_two` at the other two.
pub open spec fn opening(rows: int, cols: int, p_one: char, p_two: char) -> Seq<Seq<Option<char>>> {
    Seq::new(
        rows as nat,
        |x: int|
            Seq::new(
                cols as nat,
                |y: int|
                    if (x == rows / 2 - 1 && y == cols / 2 - 1) || (x == rows / 2 && y == cols / 2) {
                        Some(p_one)
                    } else if (x == rows / 2 && y == cols / 2 - 1) || (x == rows / 2 - 1 && y
                        == cols / 2) {
                        Some(p_two)
                    } else {
                        None
                    },
            ),
    )
}

} // verus!
