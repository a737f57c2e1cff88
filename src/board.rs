//! The game board: a grid of cells, each empty or holding a one-character symbol.
//!
//! The board knows nothing of players or rules; it stores cells and counts them.

use vstd::prelude::*;

verus! {

/// The number of cells of `row` whose content satisfies `p`.
pub open spec fn row_tally(row: Seq<Option<char>>, p: spec_fn(Option<char>) -> bool) -> nat
    decreases row.len(),
{
    if row.len() == 0 {
        0
    } else {
        row_tally(row.drop_last(), p) + if p(row.last()) {
            1nat
        } else {
            0nat
        }
    }
}

/// The number of cells of the grid `cells` whose content satisfies `p`.
pub open spec fn tally(cells: Seq<Seq<Option<char>>>, p: spec_fn(Option<char>) -> bool) -> nat
    decreases cells.len(),
{
    if cells.len() == 0 {
        0
    } else {
        tally(cells.drop_last(), p) + row_tally(cells.last(), p)
    }
}

/// Holds exactly the cells that contain `symbol`.
pub open spec fn holds(symbol: char) -> spec_fn(Option<char>) -> bool {
    |v: Option<char>| v == Some(symbol)
}

/// Holds exactly the occupied cells.
pub open spec fn occupied() -> spec_fn(Option<char>) -> bool {
    |v: Option<char>| v is Some
}

/// The number of cells that contain `symbol`.
pub open spec fn symbol_count(cells: Seq<Seq<Option<char>>>, symbol: char) -> nat {
    tally(cells, holds(symbol))
}

/// The number of occupied cells.
pub open spec fn occupied_count(cells: Seq<Seq<Option<char>>>) -> nat {
    tally(cells, occupied())
}

/// Whether `(r, c)` names a cell of the grid.
pub open spec fn in_grid(cells: Seq<Seq<Option<char>>>, r: int, c: int) -> bool {
    0 <= r < cells.len() && 0 <= c < cells[r].len()
}

/// Whether every row of `cells` has `cols` cells and there are `rows` rows.
pub open spec fn is_rectangle(cells: Seq<Seq<Option<char>>>, rows: nat, cols: nat) -> bool {
    &&& cells.len() == rows
    &&& forall|i: int| 0 <= i < rows ==> #[trigger] cells[i].len() == cols
}

/// The grid after cell `(r, c)` is given the content `v`.
pub open spec fn with_cell(cells: Seq<Seq<Option<char>>>, r: int, c: int, v: Option<char>) -> Seq<
    Seq<Option<char>>,
> {
    cells.update(r, cells[r].update(c, v))
}

/// A map from each symbol placed on `cells` to the number of cells holding it.
pub open spec fn symbol_counts(cells: Seq<Seq<Option<char>>>) -> Map<char, nat> {
    Map::new(|s: char| symbol_count(cells, s) > 0, |s: char| symbol_count(cells, s))
}

/// Counting one more cell of a row adds that cell's contribution.
pub proof fn lemma_row_tally_extend(row: Seq<Option<char>>, j: int, p: spec_fn(Option<char>) -> bool)
    requires
        0 <= j < row.len(),
    ensures
        row_tally(row.take(j + 1), p) == row_tally(row.take(j), p) + if p(row[j]) {
            1nat
        } else {
            0nat
        },
{
    assert(row.take(j + 1).drop_last() =~= row.take(j));
}

/// Counting one more row of a grid adds that row's tally.
pub proof fn lemma_tally_extend(cells: Seq<Seq<Option<char>>>, i: int, p: spec_fn(Option<char>) -> bool)
    requires
        0 <= i < cells.len(),
    ensures
        tally(cells.take(i + 1), p) == tally(cells.take(i), p) + row_tally(cells[i], p),
{
    assert(cells.take(i + 1).drop_last() =~= cells.take(i));
}

/// Changing one cell of a row changes its tally by that cell's contributions.
pub proof fn lemma_row_tally_update(
    row: Seq<Option<char>>,
    c: int,
    v: Option<char>,
    p: spec_fn(Option<char>) -> bool,
)
    requires
        0 <= c < row.len(),
    ensures
        row_tally(row.update(c, v), p) + (if p(row[c]) {
            1int
        } else {
            0int
        }) == row_tally(row, p) + if p(v) {
            1int
        } else {
            0int
        },
    decreases row.len(),
{
    if c < row.len() - 1 {
        lemma_row_tally_update(row.drop_last(), c, v, p);
        assert(row.update(c, v).drop_last() =~= row.drop_last().update(c, v));
    } else {
        assert(row.update(c, v).drop_last() =~= row.drop_last());
    }
}

/// Changing one cell of a grid changes its tally by that cell's contributions.
pub proof fn lemma_tally_update(
    cells: Seq<Seq<Option<char>>>,
    r: int,
    c: int,
    v: Option<char>,
    p: spec_fn(Option<char>) -> bool,
)
    requires
        in_grid(cells, r, c),
    ensures
        tally(with_cell(cells, r, c, v), p) + (if p(cells[r][c]) {
            1int
        } else {
            0int
        }) == tally(cells, p) + if p(v) {
            1int
        } else {
            0int
        },
    decreases cells.len(),
{
    if r < cells.len() - 1 {
        lemma_tally_update(cells.drop_last(), r, c, v, p);
        assert(with_cell(cells, r, c, v).drop_last() =~= with_cell(cells.drop_last(), r, c, v));
    } else {
        lemma_row_tally_update(cells[r], c, v, p);
        assert(with_cell(cells, r, c, v).drop_last() =~= cells.drop_last());
    }
}

/// Rows that agree on `p` cell by cell have the same tally.
pub proof fn lemma_row_tally_agree(
    a: Seq<Option<char>>,
    b: Seq<Option<char>>,
    p: spec_fn(Option<char>) -> bool,
)
    requires
        a.len() == b.len(),
        forall|j: int| 0 <= j < a.len() ==> p(#[trigger] a[j]) == p(b[j]),
    ensures
        row_tally(a, p) == row_tally(b, p),
    decreases a.len(),
{
    if a.len() > 0 {
        lemma_row_tally_agree(a.drop_last(), b.drop_last(), p);
        assert(p(a[a.len() - 1]) == p(b[b.len() - 1]));
    }
}

/// Grids of the same shape that agree on `p` cell by cell have the same tally.
pub proof fn lemma_tally_agree(
    a: Seq<Seq<Option<char>>>,
    b: Seq<Seq<Option<char>>>,
    p: spec_fn(Option<char>) -> bool,
)
    requires
        a.len() == b.len(),
        forall|i: int| 0 <= i < a.len() ==> (#[trigger] a[i]).len() == b[i].len(),
        forall|i: int, j: int| in_grid(a, i, j) ==> p(#[trigger] a[i][j]) == p(b[i][j]),
    ensures
        tally(a, p) == tally(b, p),
    decreases a.len(),
{
    if a.len() > 0 {
        let k = a.len() - 1;
        assert forall|j: int| 0 <= j < a[k].len() implies p(#[trigger] a[k][j]) == p(b[k][j]) by {
            assert(in_grid(a, k, j));
        }
        lemma_row_tally_agree(a[k], b[k], p);
        lemma_tally_agree(a.drop_last(), b.drop_last(), p);
    }
}

/// A row's tally is at most its length.
pub proof fn lemma_row_tally_bound(row: Seq<Option<char>>, p: spec_fn(Option<char>) -> bool)
    ensures
        row_tally(row, p) <= row.len(),
    decreases row.len(),
{
    if row.len() > 0 {
        lemma_row_tally_bound(row.drop_last(), p);
    }
}

/// A grid's tally is at most its number of cells.
pub proof fn lemma_tally_bound(
    cells: Seq<Seq<Option<char>>>,
    rows: nat,
    cols: nat,
    p: spec_fn(Option<char>) -> bool,
)
    requires
        is_rectangle(cells, rows, cols),
    ensures
        tally(cells, p) <= rows * cols,
    decreases rows,
{
    if rows > 0 {
        let k = rows - 1;
        lemma_row_tally_bound(cells[k as int], p);
        assert(is_rectangle(cells.drop_last(), k as nat, cols));
        lemma_tally_bound(cells.drop_last(), k as nat, cols, p);
        assert(rows * cols == k * cols + cols) by (nonlinear_arith)
            requires
                k == rows - 1,
        ;
    }
}

/// How many cells hold each symbol: one entry per symbol placed on a board.
#[derive(Clone, Debug)]
pub struct CharCounts {
    entries: Vec<(char, usize)>,
}

/// The position of the first entry of `entries` for `symbol`, if any.
fn find_entry(entries: &Vec<(char, usize)>, symbol: char) -> (r: Option<usize>)
    ensures
        r matches Some(k) ==> k < entries@.len() && entries@[k as int].0 == symbol,
        r is None ==> forall|k: int| 0 <= k < entries@.len() ==> entries@[k].0 != symbol,
{
    let mut k: usize = 0;
    while k < entries.len()
        invariant
            k <= entries@.len(),
            forall|m: int| 0 <= m < k ==> entries@[m].0 != symbol,
        decreases entries@.len() - k,
    {
        if entries[k].0 == symbol {
            return Some(k);
        }
        k = k + 1;
    }
    None
}

impl CharCounts {
    /// No symbol has two entries.
    pub closed spec fn wf(&self) -> bool {
        forall|i: int, j: int|
            0 <= i < j < self.entries@.len() ==> self.entries@[i].0 != self.entries@[j].0
    }

    /// The count for `symbol`, or `None` where no cell holds it.
    pub fn get(&self, symbol: char) -> (r: Option<usize>)
        requires
            self.wf(),
        ensures
            r is Some <==> self@.contains_key(symbol),
            r matches Some(n) ==> n == self@[symbol],
    {
        match find_entry(&self.entries, symbol) {
            Some(k) => {
                proof {
                    self.lemma_entry(k as int);
                }
                Some(self.entries[k].1)
            },
            None => None,
        }
    }

    proof fn lemma_entry(&self, k: int)
        requires
            self.wf(),
            0 <= k < self.entries@.len(),
        ensures
            self@.contains_key(self.entries@[k].0),
            self@[self.entries@[k].0] == self.entries@[k].1,
    {
        let s = self.entries@[k].0;
        let m = choose|m: int| 0 <= m < self.entries@.len() && self.entries@[m].0 == s;
        assert(m == k);
    }
}

impl View for CharCounts {
    type V = Map<char, nat>;

    closed spec fn view(&self) -> Map<char, nat> {
        Map::new(
            |s: char| exists|k: int| 0 <= k < self.entries@.len() && self.entries@[k].0 == s,
            |s: char|
                self.entries@[choose|k: int|
                    0 <= k < self.entries@.len() && self.entries@[k].0 == s].1 as nat,
        )
    }
}

/// A rectangular grid of optional symbols.
#[derive(Clone, Debug)]
pub struct Board {
    rows: usize,
    cols: usize,
    grid: Vec<Vec<Option<char>>>,
}

impl View for Board {
    type V = Seq<Seq<Option<char>>>;

    closed spec fn view(&self) -> Seq<Seq<Option<char>>> {
        self.grid@.map_values(|line: Vec<Option<char>>| line@)
    }
}

impl Board {
    /// The number of rows.
    pub closed spec fn num_rows(&self) -> nat {
        self.rows as nat
    }

    /// The number of columns.
    pub closed spec fn num_cols(&self) -> nat {
        self.cols as nat
    }

    /// The grid has the board's dimensions, and its cells can be counted in an `isize`.
    pub open spec fn wf(&self) -> bool {
        &&& is_rectangle(self@, self.num_rows(), self.num_cols())
        &&& self.num_rows() * self.num_cols() < isize::MAX
        &&& self.num_rows() <= usize::MAX
        &&& self.num_cols() <= usize::MAX
    }

    /// The number of rows.
    pub fn rows(&self) -> (r: usize)
        ensures
            r == self.num_rows(),
    {
        self.rows
    }

    /// The number of columns.
    pub fn cols(&self) -> (r: usize)
        ensures
            r == self.num_cols(),
    {
        self.cols
    }

    /// A board of the given dimensions holding `grid`, one vector per row.
    pub fn with_state(rows: usize, cols: usize, grid: Vec<Vec<Option<char>>>) -> (r: Self)
        requires
            grid@.len() == rows,
            forall|i: int| 0 <= i < rows ==> #[trigger] grid@[i]@.len() == cols,
            rows * cols < isize::MAX,
        ensures
            r.wf(),
            r.num_rows() == rows,
            r.num_cols() == cols,
            r@ == grid@.map_values(|line: Vec<Option<char>>| line@),
    {
        Self { rows, cols, grid }
    }

    /// An empty board of the given dimensions.
    pub fn with_size(rows: usize, cols: usize) -> (r: Self)
        requires
            rows * cols < isize::MAX,
        ensures
            r.wf(),
            r.num_rows() == rows,
            r.num_cols() == cols,
            forall|i: int, j: int| 0 <= i < rows && 0 <= j < cols ==> r@[i][j] is None,
    {
        let mut grid: Vec<Vec<Option<char>>> = Vec::new();
        let mut i: usize = 0;
        while i < rows
            invariant
                i <= rows,
                grid@.len() == i,
                forall|k: int| 0 <= k < i ==> #[trigger] grid@[k]@.len() == cols,
                forall|k: int, j: int| 0 <= k < i && 0 <= j < cols ==> grid@[k]@[j] is None,
            decreases rows - i,
        {
            let mut line: Vec<Option<char>> = Vec::new();
            let mut j: usize = 0;
            while j < cols
                invariant
                    j <= cols,
                    line@.len() == j,
                    forall|k: int| 0 <= k < j ==> line@[k] is None,
                decreases cols - j,
            {
                line.push(None);
                j = j + 1;
            }
            grid.push(line);
            i = i + 1;
        }
        Self { rows, cols, grid }
    }

    /// A copy of this board that shares nothing with it.
    pub fn duplicate(&self) -> (r: Self)
        requires
            self.wf(),
        ensures
            r.wf(),
            r@ == self@,
            r.num_rows() == self.num_rows(),
            r.num_cols() == self.num_cols(),
    {
        let mut grid: Vec<Vec<Option<char>>> = Vec::new();
        let mut i: usize = 0;
        while i < self.rows
            invariant
                self.wf(),
                i <= self.rows,
                grid@.len() == i,
                forall|k: int| 0 <= k < i ==> #[trigger] grid@[k]@ == self@[k],
            decreases self.rows - i,
        {
            let mut line: Vec<Option<char>> = Vec::new();
            let mut j: usize = 0;
            while j < self.cols
                invariant
                    self.wf(),
                    i < self.rows,
                    j <= self.cols,
                    line@ == self@[i as int].take(j as int),
                decreases self.cols - j,
            {
                line.push(self.grid[i][j]);
                j = j + 1;
                assert(line@ =~= self@[i as int].take(j as int));
            }
            assert(line@ =~= self@[i as int]);
            grid.push(line);
            i = i + 1;
        }
        let r = Self { rows: self.rows, cols: self.cols, grid };
        assert(r@ =~= self@);
        r
    }

    /// The content of cell `(row, col)`.
    pub fn get_cell(&self, row: usize, col: usize) -> (r: Option<char>)
        requires
            self.wf(),
            row < self.num_rows(),
            col < self.num_cols(),
        ensures
            r == self@[row as int][col as int],
    {
        assert(self@[row as int] == self.grid@[row as int]@);
        self.grid[row][col]
    }

    /// Places `symbol` in cell `(row, col)`.
    pub fn set_cell(&mut self, row: usize, col: usize, symbol: char)
        requires
            old(self).wf(),
            row < old(self).num_rows(),
            col < old(self).num_cols(),
        ensures
            final(self).wf(),
            final(self).num_rows() == old(self).num_rows(),
            final(self).num_cols() == old(self).num_cols(),
            final(self)@ == with_cell(old(self)@, row as int, col as int, Some(symbol)),
    {
        assert(self@[row as int] == self.grid@[row as int]@);
        self.grid[row].set(col, Some(symbol));
        assert(self@ =~= with_cell(old(self)@, row as int, col as int, Some(symbol)));
    }

    /// Whether cell `(row, col)` is empty.
    pub fn is_cell_empty(&self, row: usize, col: usize) -> (r: bool)
        requires
            self.wf(),
            row < self.num_rows(),
            col < self.num_cols(),
        ensures
            r == self@[row as int][col as int] is None,
    {
        assert(self@[row as int] == self.grid@[row as int]@);
        self.grid[row][col].is_none()
    }

    /// Whether `(row, col)` names a cell of the board.
    pub fn is_in_bounds(&self, row: usize, col: usize) -> (r: bool)
        requires
            self.wf(),
        ensures
            r == (row < self.num_rows() && col < self.num_cols()),
            r == in_grid(self@, row as int, col as int),
    {
        row < self.rows && col < self.cols
    }
    /// Whether every cell is occupied.
    pub fn is_full(&self) -> (r: bool)
        requires
            self.wf(),
        ensures
            r == (forall|x: int, y: int| #[trigger] in_grid(self@, x, y) ==> self@[x][y] is Some),
    {
        let mut i: usize = 0;
        while i < self.rows
            invariant
                self.wf(),
                i <= self.rows,
                forall|x: int, y: int|
                    0 <= x < i && #[trigger] in_grid(self@, x, y) ==> self@[x][y] is Some,
            decreases self.rows - i,
        {
            let mut j: usize = 0;
            while j < self.cols
                invariant
                    self.wf(),
                    i < self.rows,
                    j <= self.cols,
                    forall|x: int, y: int|
                        0 <= x < i && #[trigger] in_grid(self@, x, y) ==> self@[x][y] is Some,
                    forall|y: int| 0 <= y < j ==> self@[i as int][y] is Some,
                decreases self.cols - j,
            {
                if self.is_cell_empty(i, j) {
                    assert(in_grid(self@, i as int, j as int));
                    return false;
                }
                j = j + 1;
            }
            i = i + 1;
        }
        true
    }

    /// How many cells hold each symbol that is on the board.
    pub fn char_counts(&self) -> (r: CharCounts)
        requires
            self.wf(),
        ensures
            r.wf(),
            r@ == symbol_counts(self@),
    {
        let mut entries: Vec<(char, usize)> = Vec::new();
        let mut i: usize = 0;
        while i < self.rows
            invariant
                self.wf(),
                i <= self.rows,
                forall|a: int, b: int|
                    0 <= a < b < entries@.len() ==> entries@[a].0 != entries@[b].0,
                forall|k: int|
                    0 <= k < entries@.len() ==> entries@[k].1 == symbol_count(
                        self@.take(i as int),
                        #[trigger] entries@[k].0,
                    ) && entries@[k].1 > 0,
                forall|s: char|
                    symbol_count(self@.take(i as int), s) > 0 ==> exists|k: int|
                        0 <= k < entries@.len() && #[trigger] entries@[k].0 == s,
            decreases self.rows - i,
        {
            let mut j: usize = 0;
            assert(self@[i as int] == self.grid@[i as int]@);
            while j < self.cols
                invariant
                    self.wf(),
                    i < self.rows,
                    j <= self.cols,
                    self@[i as int] == self.grid@[i as int]@,
                    forall|a: int, b: int|
                        0 <= a < b < entries@.len() ==> entries@[a].0 != entries@[b].0,
                    forall|k: int|
                        0 <= k < entries@.len() ==> entries@[k].1 == symbol_count(
                            self@.take(i as int),
                            #[trigger] entries@[k].0,
                        ) + row_tally(self@[i as int].take(j as int), holds(entries@[k].0))
                            && entries@[k].1 > 0,
                    forall|s: char|
                        symbol_count(self@.take(i as int), s) + row_tally(
                            self@[i as int].take(j as int),
                            holds(s),
                        ) > 0 ==> exists|k: int|
                            0 <= k < entries@.len() && #[trigger] entries@[k].0 == s,
                decreases self.cols - j,
            {
                let cell = self.grid[i][j];
                proof {
                    assert forall|s: char|
                        #[trigger] row_tally(self@[i as int].take(j + 1), holds(s)) == row_tally(
                            self@[i as int].take(j as int),
                            holds(s),
                        ) + if cell == Some(s) {
                            1nat
                        } else {
                            0nat
                        } by {
                        lemma_row_tally_extend(self@[i as int], j as int, holds(s));
                    }
                }
                let ghost before = entries@;
                if let Some(symbol) = cell {
                    match find_entry(&entries, symbol) {
                        Some(k) => {
                            proof {
                                lemma_tally_bound(
                                    self@.take(i as int),
                                    i as nat,
                                    self.num_cols(),
                                    holds(symbol),
                                );
                                lemma_row_tally_bound(
                                    self@[i as int].take(j as int),
                                    holds(symbol),
                                );
                                assert(i * self.cols + j < self.rows * self.cols) by (
                                nonlinear_arith)
                                    requires
                                        i < self.rows,
                                        j < self.cols,
                                ;
                            }
                            let n = entries[k].1;
                            entries.set(k, (symbol, n + 1));
                            assert(entries@[k as int].0 == symbol);
                        },
                        None => {
                            entries.push((symbol, 1));
                            assert(entries@[before.len() as int].0 == symbol);
                        },
                    }
                }
                assert(entries@.len() >= before.len());
                assert(forall|m: int| 0 <= m < before.len() ==> entries@[m].0 == before[m].0);
                j = j + 1;
                proof {
                    assert forall|s: char|
                        symbol_count(self@.take(i as int), s) + row_tally(
                            self@[i as int].take(j as int),
                            holds(s),
                        ) > 0 implies exists|k: int|
                            0 <= k < entries@.len() && #[trigger] entries@[k].0 == s by {
                        if cell != Some(s) {
                            let k = choose|k: int| 0 <= k < before.len() && before[k].0 == s;
                            assert(entries@[k].0 == s);
                        }
                    }
                }
            }
            proof {
                assert(self@[i as int].take(self.cols as int) =~= self@[i as int]);
                assert forall|s: char|
                    #[trigger] symbol_count(self@.take(i + 1), s) == symbol_count(
                        self@.take(i as int),
                        s,
                    ) + row_tally(self@[i as int], holds(s)) by {
                    lemma_tally_extend(self@, i as int, holds(s));
                }
            }
            i = i + 1;
        }
        assert(self@.take(self.rows as int) =~= self@);
        let r = CharCounts { entries };
        proof {
            assert forall|s: char| #[trigger] r@.contains_key(s) implies r@[s] == symbol_count(
                self@,
                s,
            ) by {
                let k = choose|k: int| 0 <= k < r.entries@.len() && r.entries@[k].0 == s;
                r.lemma_entry(k);
            }
            assert(r@ =~= symbol_counts(self@));
        }
        r
    }
}

} // verus!
