//! The eight compass directions of the board and the geometry of walking along them.
//!
//! Row indices grow towards the north and column indices towards the east.

use vstd::prelude::*;

verus! {

/// A compass direction. The diagonals combine two cardinal steps.
#[derive(Copy, Clone, Debug, PartialEq, Eq, Structural)]
pub enum Direction {
    N,
    NE,
    E,
    SE,
    S,
    SW,
    W,
    NW,
}

/// The row offset of one step in direction `d`.
pub open spec fn row_delta(d: Direction) -> int {
    match d {
        Direction::N | Direction::NE | Direction::NW => 1,
        Direction::E | Direction::W => 0,
        Direction::SE | Direction::S | Direction::SW => -1,
    }
}

/// The column offset of one step in direction `d`.
pub open spec fn col_delta(d: Direction) -> int {
    match d {
        Direction::NE | Direction::E | Direction::SE => 1,
        Direction::N | Direction::S => 0,
        Direction::SW | Direction::W | Direction::NW => -1,
    }
}

/// The row of the cell one step from row `r` in direction `d`.
pub open spec fn step_row(d: Direction, r: int) -> int {
    r + row_delta(d)
}

/// The column of the cell one step from column `c` in direction `d`.
pub open spec fn step_col(d: Direction, c: int) -> int {
    c + col_delta(d)
}

/// The directions in their fixed cyclic order, starting at north.
pub open spec fn compass() -> Seq<Direction> {
    seq![
        Direction::N,
        Direction::NE,
        Direction::E,
        Direction::SE,
        Direction::S,
        Direction::SW,
        Direction::W,
        Direction::NW,
    ]
}

/// The position of `d` in the cyclic order.
pub open spec fn compass_index(d: Direction) -> int {
    match d {
        Direction::N => 0,
        Direction::NE => 1,
        Direction::E => 2,
        Direction::SE => 3,
        Direction::S => 4,
        Direction::SW => 5,
        Direction::W => 6,
        Direction::NW => 7,
    }
}

/// The direction that follows `d` clockwise.
pub open spec fn clockwise(d: Direction) -> Direction {
    compass()[(compass_index(d) + 1) % 8]
}

/// The eight directions in cyclic order, beginning with `d`.
pub open spec fn compass_from(d: Direction) -> Seq<Direction> {
    Seq::new(8, |i: int| compass()[(compass_index(d) + i) % 8])
}

/// Whether cell `(pr, pc)` lies on the ray that starts at `(r, c)` and runs in
/// direction `d`; the start itself is on the ray.
pub open spec fn on_ray(d: Direction, r: int, c: int, pr: int, pc: int) -> bool {
    match d {
        Direction::N => pc == c && pr >= r,
        Direction::NE => pr - r == pc - c && pr >= r,
        Direction::E => pr == r && pc >= c,
        Direction::SE => r - pr == pc - c && pc >= c,
        Direction::S => pc == c && pr <= r,
        Direction::SW => r - pr == c - pc && pr <= r,
        Direction::W => pr == r && pc <= c,
        Direction::NW => pr - r == c - pc && pr >= r,
    }
}

/// The number of steps from `(r, c)` to `(pr, pc)` along direction `d`.
pub open spec fn ray_distance(d: Direction, r: int, c: int, pr: int, pc: int) -> int {
    match d {
        Direction::N | Direction::NE | Direction::NW => pr - r,
        Direction::E => pc - c,
        Direction::SE | Direction::S | Direction::SW => r - pr,
        Direction::W => c - pc,
    }
}

impl Direction {
    /// The cell one step away in this direction, or `None` when the step
    /// would take a row or column below zero. No upper bound is checked:
    /// the caller tests whether the result lies on the board.
    pub fn new_coords_from_direction(self, row: usize, col: usize) -> (r: Option<(usize, usize)>)
        requires
            row_delta(self) > 0 ==> row < usize::MAX,
            col_delta(self) > 0 ==> col < usize::MAX,
        ensures
            step_row(self, row as int) >= 0 && step_col(self, col as int) >= 0 ==> r == Some(
                (step_row(self, row as int) as usize, step_col(self, col as int) as usize),
            ),
            step_row(self, row as int) < 0 || step_col(self, col as int) < 0 ==> r is None,
    {
        match self {
            Direction::N => Some((row + 1, col)),
            Direction::NE => Some((row + 1, col + 1)),
            Direction::E => Some((row, col + 1)),
            Direction::SE => if row > 0 {
                Some((row - 1, col + 1))
            } else {
                None
            },
            Direction::S => if row > 0 {
                Some((row - 1, col))
            } else {
                None
            },
            Direction::SW => if row > 0 && col > 0 {
                Some((row - 1, col - 1))
            } else {
                None
            },
            Direction::W => if col > 0 {
                Some((row, col - 1))
            } else {
                None
            },
            Direction::NW => if col > 0 {
                Some((row + 1, col - 1))
            } else {
                None
            },
        }
    }

    /// Turns to the following direction clockwise (north follows north-west)
    /// and returns it.
    pub fn next(&mut self) -> (r: Option<Direction>)
        ensures
            *final(self) == clockwise(*old(self)),
            r == Some(*final(self)),
    {
        let following = match *self {
            Direction::N => Direction::NE,
            Direction::NE => Direction::E,
            Direction::E => Direction::SE,
            Direction::SE => Direction::S,
            Direction::S => Direction::SW,
            Direction::SW => Direction::W,
            Direction::W => Direction::NW,
            Direction::NW => Direction::N,
        };
        *self = following;
        Some(following)
    }

    /// The eight directions once, in cyclic order starting at north.
    pub fn cardinals() -> (r: [Direction; 8])
        ensures
            r@ == compass(),
    {
        let r = [
            Direction::N,
            Direction::NE,
            Direction::E,
            Direction::SE,
            Direction::S,
            Direction::SW,
            Direction::W,
            Direction::NW,
        ];
        assert(r@ =~= compass());
        r
    }

    /// The eight directions once, in cyclic order starting at this one.
    pub fn cardinals_from_here(self) -> (r: [Direction; 8])
        ensures
            r@ == compass_from(self),
    {
        let mut r = [self; 8];
        let mut d = self;
        let mut i: usize = 1;
        while i < 8
            invariant
                1 <= i <= 8,
                d == compass()[(compass_index(self) + i - 1) % 8],
                forall|j: int| 0 <= j < i ==> r@[j] == compass_from(self)[j],
            decreases 8 - i,
        {
            d.next();
            r[i] = d;
            i = i + 1;
        }
        assert(r@ =~= compass_from(self));
        r
    }
}

/// Every direction appears in the cyclic order, at its index.
pub proof fn lemma_compass_index(d: Direction)
    ensures
        0 <= compass_index(d) < 8,
        compass()[compass_index(d)] == d,
{
}

/// Two steps in different directions from the same cell start disjoint rays.
pub proof fn lemma_rays_disjoint(d1: Direction, d2: Direction, r: int, c: int, pr: int, pc: int)
    requires
        on_ray(d1, step_row(d1, r), step_col(d1, c), pr, pc),
        on_ray(d2, step_row(d2, r), step_col(d2, c), pr, pc),
    ensures
        d1 == d2,
{
}

} // verus!
