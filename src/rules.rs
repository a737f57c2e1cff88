//! The rules of Othello stated over a grid of cells.
//!
//! A move by symbol `s` at an empty cell is legal when, in some direction, the
//! cells next to it form a run of one or more opposing pieces that a piece of
//! `s` closes off. Playing the move turns every such run over to `s`.

use vstd::prelude::*;
use crate::board::{
    in_grid, lemma_tally_agree, lemma_tally_update, occupied, occupied_count, tally,
    with_cell,
};
use crate::direction::{
    compass, compass_index, lemma_compass_index, lemma_rays_disjoint, on_ray, ray_distance,
    step_col, step_row, Direction,
};

verus! {

/// The row reached after `k` steps from row `r` in direction `d`.
pub open spec fn ray_row(d: Direction, r: int, k: int) -> int {
    match d {
        Direction::N | Direction::NE | Direction::NW => r + k,
        Direction::E | Direction::W => r,
        Direction::SE | Direction::S | Direction::SW => r - k,
    }
}

/// The column reached after `k` steps from column `c` in direction `d`.
pub open spec fn ray_col(d: Direction, c: int, k: int) -> int {
    match d {
        Direction::NE | Direction::E | Direction::SE => c + k,
        Direction::N | Direction::S => c,
        Direction::SW | Direction::W | Direction::NW => c - k,
    }
}

/// A bound on the steps left before a walk from `(r, c)` in direction `d` leaves the grid.
pub open spec fn walk_measure(cells: Seq<Seq<Option<char>>>, d: Direction, r: int, c: int) -> int {
    match d {
        Direction::N | Direction::NE | Direction::NW => cells.len() - r,
        Direction::SE | Direction::S | Direction::SW => r + 1,
        Direction::E => if 0 <= r < cells.len() {
            cells[r].len() - c
        } else {
            0
        },
        Direction::W => c + 1,
    }
}

/// Whether cell `(r, c)` is on the grid and holds a symbol other than `s`.
pub open spec fn opposes(cells: Seq<Seq<Option<char>>>, r: int, c: int, s: char) -> bool {
    in_grid(cells, r, c) && cells[r][c] is Some && cells[r][c] != Some(s)
}

/// The number of consecutive cells, from `(r, c)` on in direction `d`, that hold
/// a symbol other than `s`.
pub open spec fn run_length(
    cells: Seq<Seq<Option<char>>>,
    d: Direction,
    r: int,
    c: int,
    s: char,
) -> nat
    decreases walk_measure(cells, d, r, c),
{
    if opposes(cells, r, c, s) {
        1 + run_length(cells, d, step_row(d, r), step_col(d, c), s)
    } else {
        0
    }
}

/// Whether the run that starts at `(r, c)` in direction `d` ends at a cell holding `s`.
pub open spec fn closed_by(cells: Seq<Seq<Option<char>>>, d: Direction, r: int, c: int, s: char) -> bool {
    let k = run_length(cells, d, r, c, s) as int;
    in_grid(cells, ray_row(d, r, k), ray_col(d, c, k)) && cells[ray_row(d, r, k)][ray_col(
        d,
        c,
        k,
    )] == Some(s)
}

/// Whether `s` placed at `(r, c)` outflanks in direction `d`: the neighbouring
/// cells form a run of at least one opposing piece closed off by `s`.
pub open spec fn outflanks(cells: Seq<Seq<Option<char>>>, r: int, c: int, s: char, d: Direction) -> bool {
    &&& run_length(cells, d, step_row(d, r), step_col(d, c), s) >= 1
    &&& closed_by(cells, d, step_row(d, r), step_col(d, c), s)
}

/// Whether `s` may move at `(r, c)`: the cell is on the grid, empty, and the
/// move outflanks in at least one direction.
pub open spec fn is_legal(cells: Seq<Seq<Option<char>>>, r: int, c: int, s: char) -> bool {
    &&& in_grid(cells, r, c)
    &&& cells[r][c] is None
    &&& exists|d: Direction| #[trigger] outflanks(cells, r, c, s, d)
}

/// Whether `s` has a legal move anywhere on the grid.
pub open spec fn has_move(cells: Seq<Seq<Option<char>>>, s: char) -> bool {
    exists|r: int, c: int| #[trigger] is_legal(cells, r, c, s)
}

/// Whether cell `(x, y)` belongs to the run that starts next to `(r, c)` in direction `d`.
pub open spec fn in_run(
    cells: Seq<Seq<Option<char>>>,
    r: int,
    c: int,
    s: char,
    d: Direction,
    x: int,
    y: int,
) -> bool {
    let (nr, nc) = (step_row(d, r), step_col(d, c));
    on_ray(d, nr, nc, x, y) && ray_distance(d, nr, nc, x, y) < run_length(cells, d, nr, nc, s)
}

/// Whether a move of `s` at `(r, c)` turns cell `(x, y)` over, counting only the
/// directions that come before position `n` of the cyclic order.
pub open spec fn turned_within(
    cells: Seq<Seq<Option<char>>>,
    r: int,
    c: int,
    s: char,
    n: int,
    x: int,
    y: int,
) -> bool {
    exists|d: Direction|
        compass_index(d) < n && outflanks(cells, r, c, s, d) && #[trigger] in_run(
            cells,
            r,
            c,
            s,
            d,
            x,
            y,
        )
}

/// The grid after `s` at `(r, c)` turns over the runs outflanked in the first
/// `n` directions of the cyclic order. The cell `(r, c)` itself is left as it is.
pub open spec fn flipped_within(cells: Seq<Seq<Option<char>>>, r: int, c: int, s: char, n: int) -> Seq<
    Seq<Option<char>>,
> {
    Seq::new(
        cells.len(),
        |x: int|
            Seq::new(
                cells[x].len(),
                |y: int|
                    if turned_within(cells, r, c, s, n, x, y) {
                        Some(s)
                    } else {
                        cells[x][y]
                    },
            ),
    )
}

/// The grid after `s` at `(r, c)` turns over every outflanked run.
pub open spec fn flipped(cells: Seq<Seq<Option<char>>>, r: int, c: int, s: char) -> Seq<
    Seq<Option<char>>,
> {
    flipped_within(cells, r, c, s, 8)
}

/// The number of pieces that `s` at `(r, c)` turns over in direction `d`.
pub open spec fn gain(cells: Seq<Seq<Option<char>>>, r: int, c: int, s: char, d: Direction) -> nat {
    if outflanks(cells, r, c, s, d) {
        run_length(cells, d, step_row(d, r), step_col(d, c), s)
    } else {
        0
    }
}

/// The number of pieces turned over in the first `n` directions of the cyclic order.
pub open spec fn gain_within(cells: Seq<Seq<Option<char>>>, r: int, c: int, s: char, n: int) -> nat
    decreases n,
{
    if n <= 0 {
        0
    } else {
        gain_within(cells, r, c, s, n - 1) + gain(cells, r, c, s, compass()[n - 1])
    }
}

/// The number of pieces that `s` at `(r, c)` turns over.
pub open spec fn flip_count(cells: Seq<Seq<Option<char>>>, r: int, c: int, s: char) -> nat {
    gain_within(cells, r, c, s, 8)
}

/// The grid after `s` plays at `(r, c)`: the piece is placed, then the runs it
/// outflanks are turned over.
pub open spec fn after_move(cells: Seq<Seq<Option<char>>>, r: int, c: int, s: char) -> Seq<
    Seq<Option<char>>,
> {
    flipped(with_cell(cells, r, c, Some(s)), r, c, s)
}

/// Holds exactly the empty cells.
pub open spec fn vacant() -> spec_fn(Option<char>) -> bool {
    |v: Option<char>| v is None
}

/// The number of empty cells.
pub open spec fn empty_count(cells: Seq<Seq<Option<char>>>) -> nat {
    tally(cells, vacant())
}

/// Grids of the same shape that agree on every cell of a ray give the walk
/// along that ray the same run and the same closing cell.
pub proof fn lemma_walk_frame(
    a: Seq<Seq<Option<char>>>,
    b: Seq<Seq<Option<char>>>,
    d: Direction,
    r: int,
    c: int,
    s: char,
)
    requires
        a.len() == b.len(),
        forall|i: int| 0 <= i < a.len() ==> (#[trigger] a[i]).len() == b[i].len(),
        forall|x: int, y: int|
            on_ray(d, r, c, x, y) && in_grid(a, x, y) ==> #[trigger] a[x][y] == b[x][y],
    ensures
        run_length(a, d, r, c, s) == run_length(b, d, r, c, s),
        closed_by(a, d, r, c, s) == closed_by(b, d, r, c, s),
    decreases walk_measure(a, d, r, c),
{
    if opposes(a, r, c, s) {
        lemma_walk_frame(a, b, d, step_row(d, r), step_col(d, c), s);
        let k = run_length(a, d, step_row(d, r), step_col(d, c), s) as int;
        assert(ray_row(d, step_row(d, r), k) == ray_row(d, r, k + 1));
        assert(ray_col(d, step_col(d, c), k) == ray_col(d, c, k + 1));
    } else {
        assert(on_ray(d, r, c, r, c));
    }
    let k = run_length(a, d, r, c, s) as int;
    assert(on_ray(d, r, c, ray_row(d, r, k), ray_col(d, c, k)));
}

/// Every cell within the run holds an opposing piece.
pub proof fn lemma_run_cells(
    cells: Seq<Seq<Option<char>>>,
    d: Direction,
    r: int,
    c: int,
    s: char,
    x: int,
    y: int,
)
    requires
        on_ray(d, r, c, x, y),
        ray_distance(d, r, c, x, y) < run_length(cells, d, r, c, s),
    ensures
        opposes(cells, x, y, s),
    decreases walk_measure(cells, d, r, c),
{
    if ray_distance(d, r, c, x, y) > 0 {
        lemma_run_cells(cells, d, step_row(d, r), step_col(d, c), s, x, y);
    }
}

/// What `s` placed at `(r, c)` outflanks does not depend on the content of `(r, c)`.
pub proof fn lemma_origin_frame(
    cells: Seq<Seq<Option<char>>>,
    r: int,
    c: int,
    v: Option<char>,
    s: char,
    d: Direction,
)
    requires
        in_grid(cells, r, c),
    ensures
        run_length(with_cell(cells, r, c, v), d, step_row(d, r), step_col(d, c), s) == run_length(
            cells,
            d,
            step_row(d, r),
            step_col(d, c),
            s,
        ),
        outflanks(with_cell(cells, r, c, v), r, c, s, d) == outflanks(cells, r, c, s, d),
        gain(with_cell(cells, r, c, v), r, c, s, d) == gain(cells, r, c, s, d),
{
    let b = with_cell(cells, r, c, v);
    assert forall|x: int, y: int|
        on_ray(d, step_row(d, r), step_col(d, c), x, y) && in_grid(cells, x, y) implies #[trigger] cells[x][y]
        == b[x][y] by {
        assert(x != r || y != c);
    }
    lemma_walk_frame(cells, b, d, step_row(d, r), step_col(d, c), s);
}

/// Turning runs over changes which symbol a cell holds, never whether it is occupied.
pub proof fn lemma_flipped_within_shape(
    cells: Seq<Seq<Option<char>>>,
    r: int,
    c: int,
    s: char,
    n: int,
)
    ensures
        flipped_within(cells, r, c, s, n).len() == cells.len(),
        forall|i: int|
            0 <= i < cells.len() ==> (#[trigger] flipped_within(cells, r, c, s, n)[i]).len()
                == cells[i].len(),
        forall|x: int, y: int|
            in_grid(cells, x, y) ==> (#[trigger] flipped_within(cells, r, c, s, n)[x][y] is Some)
                == (cells[x][y] is Some),
{
    assert forall|x: int, y: int| in_grid(cells, x, y) implies (#[trigger] flipped_within(
        cells,
        r,
        c,
        s,
        n,
    )[x][y] is Some) == (cells[x][y] is Some) by {
        if turned_within(cells, r, c, s, n, x, y) {
            let d = choose|d: Direction|
                compass_index(d) < n && outflanks(cells, r, c, s, d) && #[trigger] in_run(
                    cells,
                    r,
                    c,
                    s,
                    d,
                    x,
                    y,
                );
            lemma_run_cells(cells, d, step_row(d, r), step_col(d, c), s, x, y);
        }
    }
}

/// A legal move adds exactly one piece to the board and takes one empty cell:
/// the pieces it turns over change owner, not number.
pub proof fn lemma_move_adds_one_piece(cells: Seq<Seq<Option<char>>>, r: int, c: int, s: char)
    requires
        is_legal(cells, r, c, s),
    ensures
        occupied_count(after_move(cells, r, c, s)) == occupied_count(cells) + 1,
        empty_count(after_move(cells, r, c, s)) + 1 == empty_count(cells),
{
    let placed = with_cell(cells, r, c, Some(s));
    let after = after_move(cells, r, c, s);
    lemma_flipped_within_shape(placed, r, c, s, 8);
    assert forall|x: int, y: int| in_grid(after, x, y) implies occupied()(#[trigger] after[x][y])
        == occupied()(placed[x][y]) && vacant()(after[x][y]) == vacant()(placed[x][y]) by {
        assert(in_grid(placed, x, y));
    }
    lemma_tally_agree(after, placed, occupied());
    lemma_tally_agree(after, placed, vacant());
    lemma_tally_update(cells, r, c, Some(s), occupied());
    lemma_tally_update(cells, r, c, Some(s), vacant());
}

/// The first `n` directions turn over at least as many pieces as any one of them.
pub proof fn lemma_gain_within_covers(
    cells: Seq<Seq<Option<char>>>,
    r: int,
    c: int,
    s: char,
    n: int,
    d: Direction,
)
    requires
        compass_index(d) < n <= 8,
    ensures
        gain_within(cells, r, c, s, n) >= gain(cells, r, c, s, d),
    decreases n,
{
    lemma_compass_index(d);
    if compass_index(d) < n - 1 {
        lemma_gain_within_covers(cells, r, c, s, n - 1, d);
    }
}

/// A legal move always turns over at least one opposing piece.
pub proof fn lemma_legal_move_flips(cells: Seq<Seq<Option<char>>>, r: int, c: int, s: char)
    requires
        is_legal(cells, r, c, s),
    ensures
        flip_count(with_cell(cells, r, c, Some(s)), r, c, s) >= 1,
{
    let d = choose|d: Direction| #[trigger] outflanks(cells, r, c, s, d);
    lemma_origin_frame(cells, r, c, Some(s), s, d);
    lemma_compass_index(d);
    lemma_gain_within_covers(with_cell(cells, r, c, Some(s)), r, c, s, 8, d);
}

/// Turning over the runs of one more direction: the runs of the directions
/// already handled lie off the new direction's ray, so its walk sees the
/// unflipped cells, and only the cells of its own run change.
pub proof fn lemma_flip_step(cells: Seq<Seq<Option<char>>>, r: int, c: int, s: char, i: int)
    requires
        0 <= i < 8,
    ensures
        ({
            let d = compass()[i];
            let cur = flipped_within(cells, r, c, s, i);
            let next = flipped_within(cells, r, c, s, i + 1);
            &&& run_length(cur, d, step_row(d, r), step_col(d, c), s) == run_length(
                cells,
                d,
                step_row(d, r),
                step_col(d, c),
                s,
            )
            &&& closed_by(cur, d, step_row(d, r), step_col(d, c), s) == closed_by(
                cells,
                d,
                step_row(d, r),
                step_col(d, c),
                s,
            )
            &&& forall|x: int, y: int|
                in_grid(cells, x, y) ==> #[trigger] next[x][y] == if outflanks(cells, r, c, s, d)
                    && in_run(cells, r, c, s, d, x, y) {
                    Some(s)
                } else {
                    cur[x][y]
                }
        }),
{
    let d = compass()[i];
    let cur = flipped_within(cells, r, c, s, i);
    let next = flipped_within(cells, r, c, s, i + 1);
    assert(compass_index(d) == i);
    lemma_flipped_within_shape(cells, r, c, s, i);
    assert forall|x: int, y: int|
        on_ray(d, step_row(d, r), step_col(d, c), x, y) && in_grid(cur, x, y) implies #[trigger] cur[x][y]
        == cells[x][y] by {
        if turned_within(cells, r, c, s, i, x, y) {
            let e = choose|e: Direction|
                compass_index(e) < i && outflanks(cells, r, c, s, e) && #[trigger] in_run(
                    cells,
                    r,
                    c,
                    s,
                    e,
                    x,
                    y,
                );
            lemma_rays_disjoint(e, d, r, c, x, y);
        }
    }
    lemma_walk_frame(cur, cells, d, step_row(d, r), step_col(d, c), s);
    assert forall|x: int, y: int| in_grid(cells, x, y) implies #[trigger] next[x][y] == if outflanks(
        cells,
        r,
        c,
        s,
        d,
    ) && in_run(cells, r, c, s, d, x, y) {
        Some(s)
    } else {
        cur[x][y]
    } by {
        if turned_within(cells, r, c, s, i + 1, x, y) && !turned_within(cells, r, c, s, i, x, y) {
            let e = choose|e: Direction|
                compass_index(e) < i + 1 && outflanks(cells, r, c, s, e) && #[trigger] in_run(
                    cells,
                    r,
                    c,
                    s,
                    e,
                    x,
                    y,
                );
            assert(compass_index(e) == i);
            lemma_compass_index(e);
        }
        if outflanks(cells, r, c, s, d) && in_run(cells, r, c, s, d, x, y) {
            assert(turned_within(cells, r, c, s, i + 1, x, y));
        }
    }
}

/// The legal moves of `s` in row `x` among its first `n` columns, left to right.
pub open spec fn moves_in_row(cells: Seq<Seq<Option<char>>>, s: char, x: int, n: int) -> Seq<
    (int, int),
>
    decreases n,
{
    if n <= 0 {
        seq![]
    } else {
        moves_in_row(cells, s, x, n - 1) + if is_legal(cells, x, n - 1, s) {
            seq![(x, n - 1)]
        } else {
            seq![]
        }
    }
}

/// The legal moves of `s` in the first `n` rows, row by row.
pub open spec fn moves_in_rows(cells: Seq<Seq<Option<char>>>, s: char, n: int) -> Seq<(int, int)>
    decreases n,
{
    if n <= 0 {
        seq![]
    } else {
        moves_in_rows(cells, s, n - 1) + moves_in_row(cells, s, n - 1, cells[n - 1].len() as int)
    }
}

/// Every legal move of `s`, in row-major order.
pub open spec fn legal_moves(cells: Seq<Seq<Option<char>>>, s: char) -> Seq<(int, int)> {
    moves_in_rows(cells, s, cells.len() as int)
}

proof fn lemma_moves_in_row(cells: Seq<Seq<Option<char>>>, s: char, x: int, n: int)
    requires
        0 <= n,
    ensures
        forall|k: int|
            0 <= k < moves_in_row(cells, s, x, n).len() ==> {
                let m = #[trigger] moves_in_row(cells, s, x, n)[k];
                m.0 == x && 0 <= m.1 < n && is_legal(cells, m.0, m.1, s)
            },
        forall|y: int|
            0 <= y < n && #[trigger] is_legal(cells, x, y, s) ==> moves_in_row(
                cells,
                s,
                x,
                n,
            ).contains((x, y)),
    decreases n,
{
    if n > 0 {
        lemma_moves_in_row(cells, s, x, n - 1);
        let prev = moves_in_row(cells, s, x, n - 1);
        let cur = moves_in_row(cells, s, x, n);
        assert forall|y: int| 0 <= y < n && #[trigger] is_legal(cells, x, y, s) implies cur.contains(
            (x, y),
        ) by {
            if y < n - 1 {
                let k = choose|k: int| 0 <= k < prev.len() && prev[k] == (x, y);
                assert(cur[k] == (x, y));
            } else {
                assert(cur[prev.len() as int] == (x, y));
            }
        }
    }
}

proof fn lemma_moves_in_rows(cells: Seq<Seq<Option<char>>>, s: char, n: int)
    requires
        0 <= n <= cells.len(),
    ensures
        forall|k: int|
            0 <= k < moves_in_rows(cells, s, n).len() ==> {
                let m = #[trigger] moves_in_rows(cells, s, n)[k];
                0 <= m.0 < n && is_legal(cells, m.0, m.1, s)
            },
        forall|x: int, y: int|
            0 <= x < n && #[trigger] is_legal(cells, x, y, s) ==> moves_in_rows(
                cells,
                s,
                n,
            ).contains((x, y)),
    decreases n,
{
    if n > 0 {
        lemma_moves_in_rows(cells, s, n - 1);
        lemma_moves_in_row(cells, s, n - 1, cells[n - 1].len() as int);
        let prev = moves_in_rows(cells, s, n - 1);
        let row = moves_in_row(cells, s, n - 1, cells[n - 1].len() as int);
        let cur = moves_in_rows(cells, s, n);
        assert forall|k: int| 0 <= k < cur.len() implies {
            let m = #[trigger] cur[k];
            0 <= m.0 < n && is_legal(cells, m.0, m.1, s)
        } by {
            if k >= prev.len() {
                assert(cur[k] == row[k - prev.len()]);
            }
        }
        assert forall|x: int, y: int| 0 <= x < n && #[trigger] is_legal(cells, x, y, s) implies cur.contains(
            (x, y),
        ) by {
            if x < n - 1 {
                let k = choose|k: int| 0 <= k < prev.len() && prev[k] == (x, y);
                assert(cur[k] == (x, y));
            } else {
                assert(0 <= y < cells[x].len());
                let k = choose|k: int| 0 <= k < row.len() && row[k] == (x, y);
                assert(cur[prev.len() + k] == (x, y));
            }
        }
    }
}

/// The list of legal moves holds exactly the legal moves; it is empty exactly
/// when `s` has no move.
pub proof fn lemma_legal_moves(cells: Seq<Seq<Option<char>>>, s: char)
    ensures
        forall|k: int|
            0 <= k < legal_moves(cells, s).len() ==> is_legal(
                cells,
                (#[trigger] legal_moves(cells, s)[k]).0,
                legal_moves(cells, s)[k].1,
                s,
            ),
        forall|x: int, y: int| #[trigger]
            is_legal(cells, x, y, s) ==> legal_moves(cells, s).contains((x, y)),
        has_move(cells, s) <==> legal_moves(cells, s).len() > 0,
{
    lemma_moves_in_rows(cells, s, cells.len() as int);
    if has_move(cells, s) {
        let (x, y) = choose|x: int, y: int| #[trigger] is_legal(cells, x, y, s);
        assert(legal_moves(cells, s).contains((x, y)));
    }
    if legal_moves(cells, s).len() > 0 {
        let m = legal_moves(cells, s)[0];
        assert(is_legal(cells, m.0, m.1, s));
    }
}

/// On a grid with no empty cell nobody can move.
pub proof fn lemma_full_board_has_no_move(cells: Seq<Seq<Option<char>>>, s: char)
    requires
        forall|x: int, y: int| #[trigger] in_grid(cells, x, y) ==> cells[x][y] is Some,
    ensures
        !has_move(cells, s),
{
    if has_move(cells, s) {
        let (x, y) = choose|x: int, y: int| #[trigger] is_legal(cells, x, y, s);
        assert(in_grid(cells, x, y));
    }
}

} // verus!
