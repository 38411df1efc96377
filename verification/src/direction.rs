//! The four compass directions of the grid.

use vstd::prelude::*;

verus! {

/// A direction on the grid. `Up` is towards larger `y`, `Right` towards larger `x`.
#[derive(Clone, Copy, Debug, PartialEq, Eq, Structural)]
pub enum Direction {
    Up,
    Right,
    Down,
    Left,
}

/// The directions in the order in which neighbours are visited.
pub open spec fn all_directions() -> Seq<Direction> {
    seq![Direction::Up, Direction::Right, Direction::Down, Direction::Left]
}

impl Direction {
    /// The direction that points the other way.
    pub open spec fn opposite(self) -> Direction {
        match self {
            Direction::Up => Direction::Down,
            Direction::Right => Direction::Left,
            Direction::Down => Direction::Up,
            Direction::Left => Direction::Right,
        }
    }

    /// The step along `x` that this direction takes.
    pub open spec fn dx(self) -> int {
        match self {
            Direction::Up => 0,
            Direction::Right => 1,
            Direction::Down => 0,
            Direction::Left => -1,
        }
    }

    /// The step along `y` that this direction takes.
    pub open spec fn dy(self) -> int {
        match self {
            Direction::Up => 1,
            Direction::Right => 0,
            Direction::Down => -1,
            Direction::Left => 0,
        }
    }

    /// All four directions, in visiting order.
    pub fn iterator() -> (all: [Direction; 4])
        ensures
            all@ == all_directions(),
    {
        let all = [Direction::Up, Direction::Right, Direction::Down, Direction::Left];
        assert(all@ =~= all_directions());
        all
    }

    /// The unit offset `(dx, dy)` of one step in this direction.
    pub fn get_vector(self) -> (v: (i32, i32))
        ensures
            v.0 == self.dx(),
            v.1 == self.dy(),
    {
        match self {
            Direction::Up => (0, 1),
            Direction::Right => (1, 0),
            Direction::Down => (0, -1),
            Direction::Left => (-1, 0),
        }
    }

    pub fn get_opposite(self) -> (d: Direction)
        ensures
            d == self.opposite(),
    {
        match self {
            Direction::Up => Direction::Down,
            Direction::Right => Direction::Left,
            Direction::Down => Direction::Up,
            Direction::Left => Direction::Right,
        }
    }
}

/// Turning round twice gives the direction one started with.
pub proof fn lemma_opposite_involution(d: Direction)
    ensures
        d.opposite().opposite() == d,
{
}

} // verus!
