//! The purpose of the solver: tiles that lie side by side show edges that
//! fit. Every step of a run keeps the grid consistent, so every run ends
//! with a consistent grid.

use vstd::prelude::*;
use crate::direction::{all_directions, lemma_opposite_involution, Direction};
use crate::grid::{cell_index, cell_x, cell_y, in_grid, neighbour};
use crate::model::{
    centre_index, fresh_grid, grid_wf, growing_start, ordered_stops_at, outcome, stops_at, GridView,
    GrowingView,
};
use crate::progress::{
    admissible, lemma_collapsed_advances, lemma_constrained_advances,
    lemma_constrained_through_advances, lemma_growing_prefix_advances, lemma_run_prefix_advances,
    queue_on_grid,
};
use crate::scene::Placement;
use crate::tile::{catalog_ready, fits, weights_of, TileView};
use crate::tile_data::TileData;
use crate::wave_function_collapse::PlacementStrategy;

verus! {

/// Whether tile `u` may lie beside tile `t`, on the side of `t` that faces
/// `direction`: the edges that touch have one label, and where both carry a
/// suffix the suffixes differ.
pub open spec fn compatible(
    catalog: Seq<TileData>,
    t: usize,
    direction: Direction,
    u: usize,
) -> bool {
    catalog[u as int].accepts(
        direction.opposite(),
        catalog[t as int].edge(direction),
        catalog[t as int].suffix(direction),
    )
}

/// Whether a cell heeds the tile `t` of its neighbour, which it faces from
/// the side `direction` of that neighbour: its candidates, and its own tile
/// if it has one, may all lie there.
pub open spec fn respects(
    cell: TileView,
    catalog: Seq<TileData>,
    t: usize,
    direction: Direction,
) -> bool {
    &&& forall|k: int|
        0 <= k < cell.possible_tiles.len() ==> compatible(
            catalog,
            t,
            direction,
            #[trigger] cell.possible_tiles[k],
        )
    &&& cell.data matches Some(u) ==> compatible(catalog, t, direction, u)
}

/// Whether the neighbour of cell `i` towards `direction` heeds the tile of
/// cell `i`. An unresolved cell, and a side at the border of the grid, ask
/// for nothing.
pub open spec fn agrees(
    grid: GridView,
    catalog: Seq<TileData>,
    map_size: int,
    i: int,
    direction: Direction,
) -> bool {
    match (grid.tiles[i].data, neighbour(grid.tiles[i].tile_position, direction, map_size)) {
        (Some(t), Some(j)) => respects(grid.tiles[j], catalog, t, direction),
        _ => true,
    }
}

/// A grid is consistent when every neighbour of every resolved cell heeds
/// that cell's tile.
pub open spec fn consistent(grid: GridView, catalog: Seq<TileData>, map_size: int) -> bool {
    forall|i: int, direction: Direction|
        0 <= i < grid.tiles.len() ==> #[trigger] agrees(grid, catalog, map_size, i, direction)
}

/// The place of a direction in the order in which edges are shown.
pub open spec fn shown_number(direction: Direction) -> nat {
    match direction {
        Direction::Up => 0,
        Direction::Right => 1,
        Direction::Down => 2,
        Direction::Left => 3,
    }
}

/// Whether the own tile of the neighbour of cell `i` towards `direction`, if
/// it has one, may lie beside the tile of cell `i`.
pub open spec fn tiles_agree(
    grid: GridView,
    catalog: Seq<TileData>,
    map_size: int,
    i: int,
    direction: Direction,
) -> bool {
    match (grid.tiles[i].data, neighbour(grid.tiles[i].tile_position, direction, map_size)) {
        (Some(t), Some(j)) => grid.tiles[j].data matches Some(u) ==> compatible(
            catalog,
            t,
            direction,
            u,
        ),
        _ => true,
    }
}

/// What holds of cell `i` and `direction` while cell `index`, just resolved,
/// has shown its edges in the first `count` directions only: towards the
/// sides it has not shown yet, its neighbours' candidates are still to be
/// sifted.
pub open spec fn agrees_so_far(
    grid: GridView,
    catalog: Seq<TileData>,
    map_size: int,
    index: int,
    count: nat,
    i: int,
    direction: Direction,
) -> bool {
    if i == index && shown_number(direction) >= count {
        tiles_agree(grid, catalog, map_size, i, direction)
    } else {
        agrees(grid, catalog, map_size, i, direction)
    }
}

/// The grid while cell `index` is showing its edges.
pub open spec fn settling(
    grid: GridView,
    catalog: Seq<TileData>,
    map_size: int,
    index: int,
    count: nat,
) -> bool {
    forall|i: int, direction: Direction|
        0 <= i < grid.tiles.len() ==> #[trigger] agrees_so_far(
            grid,
            catalog,
            map_size,
            index,
            count,
            i,
            direction,
        )
}

/// Lying side by side is mutual: `u` may lie beside `t` exactly when `t` may
/// lie beside `u`, seen from the other side.
pub proof fn lemma_compatible_symmetric(
    catalog: Seq<TileData>,
    t: usize,
    direction: Direction,
    u: usize,
)
    ensures
        compatible(catalog, t, direction, u) == compatible(catalog, u, direction.opposite(), t),
{
    lemma_opposite_involution(direction);
}

/// On a grid, the neighbour of a cell is another cell of the grid, and the
/// cell is its neighbour's neighbour on the opposite side.
pub proof fn lemma_neighbour_symmetric(
    tiles: Seq<TileView>,
    catalog: Seq<TileData>,
    map_size: int,
    i: int,
    direction: Direction,
)
    requires
        grid_wf(tiles, catalog, map_size),
        0 <= i < tiles.len(),
        neighbour(tiles[i].tile_position, direction, map_size) is Some,
    ensures
        ({
            let j = neighbour(tiles[i].tile_position, direction, map_size)->0;
            &&& 0 <= j < tiles.len()
            &&& j != i
            &&& neighbour(tiles[j].tile_position, direction.opposite(), map_size) == Some(i)
        }),
{
    let position = tiles[i].tile_position;
    assert(tiles[i].wf(catalog));
    let x = position.x + direction.dx();
    let y = position.y + direction.dy();
    let j = neighbour(position, direction, map_size)->0;
    crate::grid::lemma_cell_index_in_range(x, y, map_size);
    crate::grid::lemma_index_round_trip(x, y, map_size);
    crate::grid::lemma_position_round_trip(i, map_size);
    assert(tiles[j].wf(catalog));
    assert(tiles[j].tile_position.x == x);
    assert(tiles[j].tile_position.y == y);
}

/// A cell that heeds a tile still heeds it after its candidates were held
/// against any edge.
pub proof fn lemma_reduced_respects(
    cell: TileView,
    catalog: Seq<TileData>,
    t: usize,
    towards: Direction,
    direction: Direction,
    edge: Seq<char>,
    suffix: Option<Seq<char>>,
)
    requires
        respects(cell, catalog, t, towards),
    ensures
        respects(cell.reduced(catalog, direction, edge, suffix), catalog, t, towards),
{
    let pred = fits(catalog, direction, edge, suffix);
    let kept = cell.possible_tiles.filter(pred);
    assert forall|k: int| 0 <= k < kept.len() implies compatible(
        catalog,
        t,
        towards,
        #[trigger] kept[k],
    ) by {
        cell.possible_tiles.lemma_filter_contains_rev(pred, kept[k]);
        let at = choose|at: int|
            0 <= at < cell.possible_tiles.len() && cell.possible_tiles[at] == kept[k];
        assert(compatible(catalog, t, towards, cell.possible_tiles[at]));
    }
}

/// The candidates that a cell keeps when the tile `t` shows it its edge may
/// all lie beside `t`.
pub proof fn lemma_reduced_fits(
    cell: TileView,
    catalog: Seq<TileData>,
    t: usize,
    direction: Direction,
)
    ensures
        forall|k: int|
            0 <= k < cell.reduced(
                catalog,
                direction.opposite(),
                catalog[t as int].edge(direction),
                catalog[t as int].suffix(direction),
            ).possible_tiles.len() ==> compatible(
                catalog,
                t,
                direction,
                #[trigger] cell.reduced(
                    catalog,
                    direction.opposite(),
                    catalog[t as int].edge(direction),
                    catalog[t as int].suffix(direction),
                ).possible_tiles[k],
            ),
{
    let pred = fits(
        catalog,
        direction.opposite(),
        catalog[t as int].edge(direction),
        catalog[t as int].suffix(direction),
    );
    let kept = cell.possible_tiles.filter(pred);
    assert forall|k: int| 0 <= k < kept.len() implies compatible(
        catalog,
        t,
        direction,
        #[trigger] kept[k],
    ) by {
        cell.possible_tiles.lemma_filter_pred(pred, k);
    }
}

/// A consistent grid in which a cell has just been resolved to one of its
/// candidates: all the other cells are heeded as before, and the tiles
/// beside the new tile may lie there.
pub proof fn lemma_resolved_settling(
    grid: GridView,
    catalog: Seq<TileData>,
    map_size: int,
    index: int,
    choice: int,
)
    requires
        grid_wf(grid.tiles, catalog, map_size),
        consistent(grid, catalog, map_size),
        0 <= index < grid.tiles.len(),
        grid.tiles[index].can_collapse(),
        0 <= choice < grid.tiles[index].possible_tiles.len(),
    ensures
        settling(
            GridView {
                tiles: grid.tiles.update(index, grid.tiles[index].collapsed(choice)),
                uncollapsed: grid.uncollapsed.remove(index as usize),
                placements: grid.placements.push(grid.tiles[index].placement(catalog, choice)),
            },
            catalog,
            map_size,
            index,
            0,
        ),
{
    let cell = grid.tiles[index];
    let t = cell.possible_tiles[choice];
    let resolved = GridView {
        tiles: grid.tiles.update(index, cell.collapsed(choice)),
        uncollapsed: grid.uncollapsed.remove(index as usize),
        placements: grid.placements.push(cell.placement(catalog, choice)),
    };
    assert forall|i: int, direction: Direction| 0 <= i < resolved.tiles.len() implies (
    #[trigger] agrees_so_far(resolved, catalog, map_size, index, 0, i, direction)) by {
        let position = resolved.tiles[i].tile_position;
        assert(position == grid.tiles[i].tile_position);
        if resolved.tiles[i].data is Some && neighbour(position, direction, map_size) is Some {
            let j = neighbour(position, direction, map_size)->0;
            lemma_neighbour_symmetric(grid.tiles, catalog, map_size, i, direction);
            if i == index {
                // The tile beside the new tile was there before, and the new
                // tile was one of the candidates that it let stay.
                if resolved.tiles[j].data is Some {
                    let u = resolved.tiles[j].data->0;
                    assert(agrees(grid, catalog, map_size, j, direction.opposite()));
                    assert(compatible(catalog, u, direction.opposite(), cell.possible_tiles[choice]));
                    lemma_compatible_symmetric(catalog, t, direction, u);
                }
            } else {
                assert(agrees(grid, catalog, map_size, i, direction));
                if j == index {
                    let own = grid.tiles[i].data->0;
                    assert(compatible(catalog, own, direction, cell.possible_tiles[choice]));
                }
            }
        }
    }
}

/// Showing one more edge of the cell that was just resolved keeps the grid
/// settling, with one more side shown.
pub proof fn lemma_constrained_settling(
    grid: GridView,
    catalog: Seq<TileData>,
    map_size: int,
    index: int,
    count: nat,
)
    requires
        grid_wf(grid.tiles, catalog, map_size),
        0 <= index < grid.tiles.len(),
        grid.tiles[index].data is Some,
        count < 4,
        settling(grid, catalog, map_size, index, count),
    ensures
        settling(
            grid.constrained(catalog, map_size, index, all_directions()[count as int]),
            catalog,
            map_size,
            index,
            count + 1,
        ),
{
    let shown = all_directions()[count as int];
    assert(shown_number(shown) == count);
    let t = grid.tiles[index].data->0;
    let after = grid.constrained(catalog, map_size, index, shown);
    let target = neighbour(grid.tiles[index].tile_position, shown, map_size);
    if target is Some {
        lemma_neighbour_symmetric(grid.tiles, catalog, map_size, index, shown);
    }
    assert forall|i: int, direction: Direction| 0 <= i < after.tiles.len() implies (
    #[trigger] agrees_so_far(after, catalog, map_size, index, count + 1, i, direction)) by {
        assert(agrees_so_far(grid, catalog, map_size, index, count, i, direction));
        assert(after.tiles[i].data == grid.tiles[i].data);
        assert(after.tiles[i].tile_position == grid.tiles[i].tile_position);
        let position = grid.tiles[i].tile_position;
        if grid.tiles[i].data is Some && neighbour(position, direction, map_size) is Some {
            let own = grid.tiles[i].data->0;
            let j = neighbour(position, direction, map_size)->0;
            lemma_neighbour_symmetric(grid.tiles, catalog, map_size, i, direction);
            assert(after.tiles[j].data == grid.tiles[j].data);
            if target is Some && j == target->0 {
                let edge = catalog[t as int].edge(shown);
                let suffix = catalog[t as int].suffix(shown);
                assert(after.tiles[j] == grid.tiles[j].reduced(
                    catalog,
                    shown.opposite(),
                    edge,
                    suffix,
                ));
                if i == index && direction == shown {
                    lemma_reduced_fits(grid.tiles[j], catalog, t, shown);
                } else if !(i == index && shown_number(direction) >= count) {
                    lemma_reduced_respects(
                        grid.tiles[j],
                        catalog,
                        own,
                        direction,
                        shown.opposite(),
                        edge,
                        suffix,
                    );
                }
            } else {
                assert(after.tiles[j] == grid.tiles[j]);
            }
        }
    }
}

/// Showing the edges in the first `count` directions keeps the grid settling.
pub proof fn lemma_constrained_through_settling(
    grid: GridView,
    catalog: Seq<TileData>,
    map_size: int,
    index: int,
    count: nat,
)
    requires
        grid_wf(grid.tiles, catalog, map_size),
        0 <= index < grid.tiles.len(),
        grid.tiles[index].data is Some,
        count <= 4,
        settling(grid, catalog, map_size, index, 0),
    ensures
        settling(
            grid.constrained_through(catalog, map_size, index, count),
            catalog,
            map_size,
            index,
            count,
        ),
        grid.constrained_through(catalog, map_size, index, count).tiles[index].data is Some,
        grid_wf(
            grid.constrained_through(catalog, map_size, index, count).tiles,
            catalog,
            map_size,
        ),
    decreases count,
{
    if count > 0 {
        let before = (count - 1) as nat;
        lemma_constrained_through_settling(grid, catalog, map_size, index, before);
        lemma_constrained_through_advances(grid, catalog, map_size, index, before);
        let shown = grid.constrained_through(catalog, map_size, index, before);
        lemma_constrained_settling(shown, catalog, map_size, index, before);
        lemma_constrained_advances(shown, catalog, map_size, index, all_directions()[count - 1]);
    }
}

/// Asking a cell to collapse keeps a consistent grid consistent, whatever is
/// drawn.
pub proof fn lemma_collapsed_consistent(
    grid: GridView,
    catalog: Seq<TileData>,
    map_size: int,
    index: int,
    choice: int,
)
    requires
        grid_wf(grid.tiles, catalog, map_size),
        consistent(grid, catalog, map_size),
        0 <= index < grid.tiles.len(),
        grid.tiles[index].admits(choice),
    ensures
        consistent(grid.collapsed(catalog, map_size, index, choice), catalog, map_size),
{
    let cell = grid.tiles[index];
    assert(cell.wf(catalog));
    if cell.can_collapse() {
        let resolved = GridView {
            tiles: grid.tiles.update(index, cell.collapsed(choice)),
            uncollapsed: grid.uncollapsed.remove(index as usize),
            placements: grid.placements.push(cell.placement(catalog, choice)),
        };
        assert(weights_of(catalog, cell.collapsed(choice).possible_tiles) =~= Seq::<u32>::empty());
        assert(grid_wf(resolved.tiles, catalog, map_size));
        lemma_resolved_settling(grid, catalog, map_size, index, choice);
        lemma_constrained_through_settling(resolved, catalog, map_size, index, 4);
        let after = resolved.constrained_through(catalog, map_size, index, 4);
        assert forall|i: int, direction: Direction| 0 <= i < after.tiles.len() implies (
        #[trigger] agrees(after, catalog, map_size, i, direction)) by {
            assert(agrees_so_far(after, catalog, map_size, index, 4, i, direction));
        }
    }
}

/// Whether every tile placed since the scene held `base` placements stands
/// for a resolved cell: it lies on the grid, at the position of a cell that
/// is resolved to a tile with the placed model.
pub open spec fn recorded(
    grid: GridView,
    catalog: Seq<TileData>,
    map_size: int,
    base: nat,
) -> bool {
    forall|k: int|
        base <= k < grid.placements.len() ==> {
            let placed = #[trigger] grid.placements[k];
            let cell = grid.tiles[cell_index(placed.x as int, placed.y as int, map_size)];
            &&& in_grid(placed.x as int, placed.y as int, map_size)
            &&& cell.data matches Some(t) && t < catalog.len() && catalog[t as int].model
                == placed.model
        }
}

/// What a run keeps: the grid is consistent, and every tile placed since
/// the scene held `base` placements stands for a resolved cell.
pub open spec fn sound(grid: GridView, catalog: Seq<TileData>, map_size: int, base: nat) -> bool {
    &&& consistent(grid, catalog, map_size)
    &&& recorded(grid, catalog, map_size, base)
}

/// Showing edges places nothing.
pub proof fn lemma_constrained_through_places_nothing(
    grid: GridView,
    catalog: Seq<TileData>,
    map_size: int,
    index: int,
    count: nat,
)
    ensures
        grid.constrained_through(catalog, map_size, index, count).placements == grid.placements,
    decreases count,
{
    if count > 0 {
        lemma_constrained_through_places_nothing(grid, catalog, map_size, index, (count - 1) as nat);
    }
}

/// Asking a cell to collapse keeps what a run keeps, whatever is drawn.
pub proof fn lemma_collapsed_sound(
    grid: GridView,
    catalog: Seq<TileData>,
    map_size: int,
    base: nat,
    index: int,
    choice: int,
)
    requires
        grid_wf(grid.tiles, catalog, map_size),
        sound(grid, catalog, map_size, base),
        base <= grid.placements.len(),
        0 <= index < grid.tiles.len(),
        grid.tiles[index].admits(choice),
    ensures
        sound(grid.collapsed(catalog, map_size, index, choice), catalog, map_size, base),
        base <= grid.collapsed(catalog, map_size, index, choice).placements.len(),
{
    lemma_collapsed_consistent(grid, catalog, map_size, index, choice);
    let cell = grid.tiles[index];
    assert(cell.wf(catalog));
    if cell.can_collapse() {
        let resolved = GridView {
            tiles: grid.tiles.update(index, cell.collapsed(choice)),
            uncollapsed: grid.uncollapsed.remove(index as usize),
            placements: grid.placements.push(cell.placement(catalog, choice)),
        };
        let after = grid.collapsed(catalog, map_size, index, choice);
        assert(weights_of(catalog, cell.collapsed(choice).possible_tiles) =~= Seq::<u32>::empty());
        assert(grid_wf(resolved.tiles, catalog, map_size));
        lemma_constrained_through_places_nothing(resolved, catalog, map_size, index, 4);
        lemma_constrained_through_advances(resolved, catalog, map_size, index, 4);
        crate::grid::lemma_position_round_trip(index, map_size);
        assert forall|k: int| base <= k < after.placements.len() implies {
            let placed = #[trigger] after.placements[k];
            let at = after.tiles[cell_index(placed.x as int, placed.y as int, map_size)];
            &&& in_grid(placed.x as int, placed.y as int, map_size)
            &&& at.data matches Some(t) && t < catalog.len() && catalog[t as int].model
                == placed.model
        } by {
            let placed = after.placements[k];
            let i = cell_index(placed.x as int, placed.y as int, map_size);
            if k < grid.placements.len() {
                assert(placed == grid.placements[k]);
                crate::grid::lemma_cell_index_in_range(placed.x as int, placed.y as int, map_size);
                assert(resolved.tiles[i] == grid.tiles[i]);
                assert(after.tiles[i].data == resolved.tiles[i].data);
            } else {
                assert(placed == cell.placement(catalog, choice));
                assert(i == index);
                assert(after.tiles[index].data == resolved.tiles[index].data);
            }
        }
    }
}

/// The first `done` visits of a course keep what a run keeps.
pub proof fn lemma_run_prefix_sound(
    start: GridView,
    catalog: Seq<TileData>,
    map_size: int,
    base: nat,
    picks: Seq<(usize, int)>,
    done: int,
)
    requires
        grid_wf(start.tiles, catalog, map_size),
        sound(start, catalog, map_size, base),
        base <= start.placements.len(),
        admissible(start, catalog, map_size, picks),
        0 <= done <= picks.len(),
    ensures
        sound(start.run(catalog, map_size, picks.take(done)), catalog, map_size, base),
        base <= start.run(catalog, map_size, picks.take(done)).placements.len(),
    decreases done,
{
    if done == 0 {
        assert(picks.take(0) =~= Seq::<(usize, int)>::empty());
    } else {
        lemma_run_prefix_sound(start, catalog, map_size, base, picks, done - 1);
        lemma_run_prefix_advances(start, catalog, map_size, picks, done - 1);
        let before = start.run(catalog, map_size, picks.take(done - 1));
        let pick = picks[done - 1];
        assert(picks.take(done).drop_last() =~= picks.take(done - 1));
        assert(picks.take(done).last() == pick);
        let opened = GridView {
            tiles: before.tiles,
            uncollapsed: before.uncollapsed.remove(pick.0),
            placements: before.placements,
        };
        lemma_same_cells_sound(before, opened, catalog, map_size, base);
        lemma_collapsed_sound(opened, catalog, map_size, base, pick.0 as int, pick.1);
    }
}

/// What a run keeps does not look at the open set.
pub proof fn lemma_same_cells_sound(
    grid: GridView,
    other: GridView,
    catalog: Seq<TileData>,
    map_size: int,
    base: nat,
)
    requires
        sound(grid, catalog, map_size, base),
        other.tiles == grid.tiles,
        other.placements == grid.placements,
    ensures
        sound(other, catalog, map_size, base),
{
    assert forall|i: int, direction: Direction| 0 <= i < other.tiles.len() implies (
    #[trigger] agrees(other, catalog, map_size, i, direction)) by {
        assert(agrees(grid, catalog, map_size, i, direction));
    }
}

/// The first `done` turns of a course of the growing strategy keep what a
/// run keeps.
pub proof fn lemma_growing_prefix_sound(
    start: GrowingView,
    catalog: Seq<TileData>,
    map_size: int,
    max_iterations: int,
    base: nat,
    choices: Seq<int>,
    done: int,
)
    requires
        grid_wf(start.grid.tiles, catalog, map_size),
        queue_on_grid(start),
        sound(start.grid, catalog, map_size, base),
        base <= start.grid.placements.len(),
        start.follows(catalog, map_size, max_iterations, choices),
        0 <= done <= choices.len(),
    ensures
        sound(start.run(catalog, map_size, choices.take(done)).grid, catalog, map_size, base),
        base <= start.run(catalog, map_size, choices.take(done)).grid.placements.len(),
    decreases done,
{
    if done == 0 {
        assert(choices.take(0) =~= Seq::<int>::empty());
    } else {
        lemma_growing_prefix_sound(start, catalog, map_size, max_iterations, base, choices, done - 1);
        lemma_growing_prefix_advances(start, catalog, map_size, max_iterations, choices, done - 1);
        let before = start.run(catalog, map_size, choices.take(done - 1));
        assert(choices.take(done).drop_last() =~= choices.take(done - 1));
        assert(choices.take(done).last() == choices[done - 1]);
        let chosen = before.queue.first();
        let opened = GridView {
            tiles: before.grid.tiles,
            uncollapsed: before.grid.uncollapsed.remove(chosen),
            placements: before.grid.placements,
        };
        lemma_same_cells_sound(before.grid, opened, catalog, map_size, base);
        if before.grid.tiles[chosen as int].data is None {
            lemma_collapsed_sound(opened, catalog, map_size, base, chosen as int, choices[done - 1]);
        }
    }
}

/// Whatever the strategy and whatever is drawn, a run keeps the grid
/// consistent and its placements in step with the cells.
pub proof fn lemma_outcome_sound(
    strategy: PlacementStrategy,
    start: GridView,
    catalog: Seq<TileData>,
    map_size: int,
    base: nat,
    iterations: int,
    max_iterations: int,
    end: GridView,
    end_iterations: int,
)
    requires
        grid_wf(start.tiles, catalog, map_size),
        sound(start, catalog, map_size, base),
        base <= start.placements.len(),
        outcome(
            strategy,
            start,
            catalog,
            map_size,
            iterations,
            max_iterations,
            end,
            end_iterations,
        ),
    ensures
        sound(end, catalog, map_size, base),
{
    crate::grid::lemma_cell_index_in_range(map_size / 2, map_size / 2, map_size);
    match strategy {
        PlacementStrategy::Ordered => {
            let picks = choose|picks: Seq<(usize, int)>|
                {
                    &&& start.follows(PlacementStrategy::Ordered, catalog, map_size, picks)
                    &&& end == #[trigger] start.run(catalog, map_size, picks)
                    &&& ordered_stops_at(
                        map_size,
                        iterations,
                        picks.len() as int,
                        max_iterations,
                        end.uncollapsed,
                    )
                    &&& end_iterations == iterations + picks.len()
                };
            lemma_run_prefix_sound(start, catalog, map_size, base, picks, picks.len() as int);
            assert(picks.take(picks.len() as int) =~= picks);
        },
        PlacementStrategy::Growing => {
            let begin = growing_start(start, map_size, iterations);
            let choices = choose|choices: Seq<int>|
                {
                    &&& begin.follows(catalog, map_size, max_iterations, choices)
                    &&& !(#[trigger] begin.run(catalog, map_size, choices)).continues(
                        max_iterations,
                    )
                    &&& end == begin.run(catalog, map_size, choices).grid
                    &&& end_iterations == begin.run(catalog, map_size, choices).iterations
                };
            lemma_growing_prefix_sound(
                begin,
                catalog,
                map_size,
                max_iterations,
                base,
                choices,
                choices.len() as int,
            );
            assert(choices.take(choices.len() as int) =~= choices);
        },
        _ => {
            let (first, picks) = choose|first: int, picks: Seq<(usize, int)>|
                {
                    &&& start.tiles[centre_index(map_size)].admits(first)
                    &&& start.centred(catalog, map_size, first).follows(
                        strategy,
                        catalog,
                        map_size,
                        picks,
                    )
                    &&& end == #[trigger] start.centred(catalog, map_size, first).run(
                        catalog,
                        map_size,
                        picks,
                    )
                    &&& end_iterations == iterations + picks.len()
                    &&& stops_at(iterations, picks.len() as int, max_iterations, end.uncollapsed)
                };
            let collapsed = start.collapsed(catalog, map_size, centre_index(map_size), first);
            let centred = start.centred(catalog, map_size, first);
            lemma_collapsed_sound(start, catalog, map_size, base, centre_index(map_size), first);
            lemma_collapsed_advances(start, catalog, map_size, centre_index(map_size), first);
            lemma_same_cells_sound(collapsed, centred, catalog, map_size, base);
            lemma_run_prefix_sound(centred, catalog, map_size, base, picks, picks.len() as int);
            assert(picks.take(picks.len() as int) =~= picks);
        },
    }
}

/// A fresh grid is a grid of the catalog, and it keeps what a run keeps: no
/// cell is resolved and nothing was placed on it.
pub proof fn lemma_fresh_grid_sound(
    catalog: Seq<TileData>,
    map_size: int,
    placements: Seq<Placement>,
)
    requires
        catalog_ready(catalog),
        0 < map_size,
        map_size * map_size <= usize::MAX,
    ensures
        grid_wf(fresh_grid(catalog.len(), map_size, placements).tiles, catalog, map_size),
        sound(fresh_grid(catalog.len(), map_size, placements), catalog, map_size, placements.len()),
{
    let fresh = fresh_grid(catalog.len(), map_size, placements);
    assert forall|i: int| 0 <= i < fresh.tiles.len() implies {
        &&& (#[trigger] fresh.tiles[i]).wf(catalog)
        &&& fresh.tiles[i].tile_position.x == cell_x(i, map_size)
        &&& fresh.tiles[i].tile_position.y == cell_y(i, map_size)
    } by {
        crate::grid::lemma_position_round_trip(i, map_size);
    }
    assert forall|i: int, direction: Direction| 0 <= i < fresh.tiles.len() implies (
    #[trigger] agrees(fresh, catalog, map_size, i, direction)) by {
        assert(fresh.tiles[i].data is None);
    }
}

/// In a consistent grid two resolved cells that lie side by side show each
/// other edges with one label, and not one suffix on both.
pub proof fn lemma_neighbours_match(
    grid: GridView,
    catalog: Seq<TileData>,
    map_size: int,
    i: int,
    direction: Direction,
)
    requires
        consistent(grid, catalog, map_size),
        0 <= i < grid.tiles.len(),
        grid.tiles[i].data is Some,
        neighbour(grid.tiles[i].tile_position, direction, map_size) is Some,
        grid.tiles[neighbour(grid.tiles[i].tile_position, direction, map_size)->0].data is Some,
    ensures
        ({
            let j = neighbour(grid.tiles[i].tile_position, direction, map_size)->0;
            let t = catalog[grid.tiles[i].data->0 as int];
            let u = catalog[grid.tiles[j].data->0 as int];
            &&& t.edge(direction) == u.edge(direction.opposite())
            &&& t.suffix(direction) is Some && u.suffix(direction.opposite()) is Some
                ==> t.suffix(direction) != u.suffix(direction.opposite())
        }),
{
    assert(agrees(grid, catalog, map_size, i, direction));
}

/// The tiles that a run places fit together. On a fresh grid, with a catalog
/// in which each tile's model tells the tile, any two tiles that any
/// strategy has placed side by side, whatever was drawn, show each other
/// edges that fit.
pub proof fn lemma_placed_neighbours_fit(
    strategy: PlacementStrategy,
    catalog: Seq<TileData>,
    map_size: int,
    max_iterations: int,
    base: Seq<Placement>,
    end: GridView,
    end_iterations: int,
    first: int,
    second: int,
    direction: Direction,
)
    requires
        catalog_ready(catalog),
        forall|t: int| 0 <= t < catalog.len() ==> (#[trigger] catalog[t]).model == t,
        0 < map_size,
        map_size * map_size <= usize::MAX,
        outcome(
            strategy,
            fresh_grid(catalog.len(), map_size, base),
            catalog,
            map_size,
            0,
            max_iterations,
            end,
            end_iterations,
        ),
        base.len() <= first < end.placements.len(),
        base.len() <= second < end.placements.len(),
        end.placements[second].x == end.placements[first].x + direction.dx(),
        end.placements[second].y == end.placements[first].y + direction.dy(),
    ensures
        compatible(
            catalog,
            end.placements[first].model,
            direction,
            end.placements[second].model,
        ),
{
    let fresh = fresh_grid(catalog.len(), map_size, base);
    lemma_fresh_grid_sound(catalog, map_size, base);
    lemma_outcome_sound(
        strategy,
        fresh,
        catalog,
        map_size,
        base.len(),
        0,
        max_iterations,
        end,
        end_iterations,
    );
    crate::progress::lemma_outcome_advances(
        strategy,
        fresh,
        catalog,
        map_size,
        0,
        max_iterations,
        end,
        end_iterations,
    );
    let a = end.placements[first];
    let b = end.placements[second];
    let i = cell_index(a.x as int, a.y as int, map_size);
    let j = cell_index(b.x as int, b.y as int, map_size);
    crate::grid::lemma_cell_index_in_range(a.x as int, a.y as int, map_size);
    crate::grid::lemma_index_round_trip(a.x as int, a.y as int, map_size);
    assert(end.tiles[i].wf(catalog));
    assert(neighbour(end.tiles[i].tile_position, direction, map_size) == Some(j));
    assert(agrees(end, catalog, map_size, i, direction));
}

} // verus!
