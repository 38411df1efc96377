//! Coordinates on a square grid whose cells are numbered row by row.

use vstd::prelude::*;
use crate::direction::Direction;

verus! {

/// The column `x` and row `y` of a cell.
#[derive(Clone, Copy, Debug, PartialEq, Eq, Structural)]
pub struct Position {
    pub x: usize,
    pub y: usize,
}

/// The number of the cell in column `x` of row `y` on a grid of side `map_size`.
pub open spec fn cell_index(x: int, y: int, map_size: int) -> int {
    y * map_size + x
}

/// The column of cell number `index`.
pub open spec fn cell_x(index: int, map_size: int) -> int {
    index % map_size
}

/// The row of cell number `index`.
pub open spec fn cell_y(index: int, map_size: int) -> int {
    index / map_size
}

/// Whether column `x` of row `y` lies on the grid.
pub open spec fn in_grid(x: int, y: int, map_size: int) -> bool {
    0 <= x < map_size && 0 <= y < map_size
}

/// The number of the cell one step from `position` in `direction`, if that
/// step stays on the grid.
pub open spec fn neighbour(position: Position, direction: Direction, map_size: int) -> Option<int> {
    let x = position.x + direction.dx();
    let y = position.y + direction.dy();
    if in_grid(x, y, map_size) {
        Some(cell_index(x, y, map_size))
    } else {
        None
    }
}

/// A cell on the grid has a number below `map_size * map_size`.
pub proof fn lemma_cell_index_in_range(x: int, y: int, map_size: int)
    requires
        in_grid(x, y, map_size),
    ensures
        0 <= cell_index(x, y, map_size) < map_size * map_size,
{
    assert(y * map_size + x < map_size * map_size) by (nonlinear_arith)
        requires
            0 <= x < map_size,
            0 <= y < map_size,
    ;
    assert(0 <= y * map_size) by (nonlinear_arith)
        requires
            0 <= y,
            0 < map_size,
    ;
}

/// Numbering a cell and reading the number back gives the cell's column and row.
pub proof fn lemma_index_round_trip(x: int, y: int, map_size: int)
    requires
        in_grid(x, y, map_size),
    ensures
        cell_x(cell_index(x, y, map_size), map_size) == x,
        cell_y(cell_index(x, y, map_size), map_size) == y,
{
    vstd::arithmetic::div_mod::lemma_fundamental_div_mod_converse(
        y * map_size + x,
        map_size,
        y,
        x,
    );
}

/// Reading a cell number as column and row and numbering that cell gives the
/// number back, and the cell lies on the grid.
pub proof fn lemma_position_round_trip(index: int, map_size: int)
    requires
        0 < map_size,
        0 <= index < map_size * map_size,
    ensures
        in_grid(cell_x(index, map_size), cell_y(index, map_size), map_size),
        cell_index(cell_x(index, map_size), cell_y(index, map_size), map_size) == index,
{
    vstd::arithmetic::div_mod::lemma_fundamental_div_mod(index, map_size);
    vstd::arithmetic::div_mod::lemma_mod_bound(index, map_size);
    vstd::arithmetic::div_mod::lemma_div_pos_is_pos(index, map_size);
    assert(index / map_size < map_size) by {
        let top = map_size * map_size - 1;
        assert(top == (map_size - 1) * map_size + (map_size - 1)) by (nonlinear_arith)
            requires
                top == map_size * map_size - 1,
        ;
        vstd::arithmetic::div_mod::lemma_fundamental_div_mod_converse(
            top,
            map_size,
            map_size - 1,
            map_size - 1,
        );
        vstd::arithmetic::div_mod::lemma_div_is_ordered(index, top, map_size);
    }
    assert(map_size * (index / map_size) == (index / map_size) * map_size) by (nonlinear_arith);
}

} // verus!
