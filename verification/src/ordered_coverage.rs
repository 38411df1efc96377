//! What the ordered strategy reaches on a catalog whose tiles all fit
//! together: it resolves every cell, in the order of the cells' numbers.

use vstd::prelude::*;
use crate::direction::Direction;
use crate::grid::{cell_x, cell_y, neighbour};
use crate::tile::fits;
use crate::tile_data::TileData;
use crate::model::{grid_wf, ordered_outcome, ordered_stops_at, GridView};
use crate::wave_function_collapse::PlacementStrategy;

verus! {

/// Every tile of the catalog may lie beside every tile, on every side.
pub open spec fn all_compatible(catalog: Seq<TileData>) -> bool {
    forall|t: int, u: int, direction: Direction|
        0 <= t < catalog.len() && 0 <= u < catalog.len() ==> #[trigger] catalog[u].accepts(
            direction.opposite(),
            catalog[t].edge(direction),
            #[trigger] catalog[t].suffix(direction),
        )
}

/// A test that every element passes keeps the whole sequence.
pub proof fn lemma_filter_keeps_all(candidates: Seq<usize>, pred: spec_fn(usize) -> bool)
    requires
        forall|k: int| 0 <= k < candidates.len() ==> pred(#[trigger] candidates[k]),
    ensures
        candidates.filter(pred) == candidates,
    decreases candidates.len(),
{
    reveal(Seq::filter);
    if candidates.len() > 0 {
        lemma_filter_keeps_all(candidates.drop_last(), pred);
        assert(candidates.drop_last().push(candidates.last()) =~= candidates);
    }
}

/// The cells below `done` are resolved and were placed in the order of their
/// numbers; the cells from `done` on are as they were in `start`, and open.
pub open spec fn covered(start: GridView, current: GridView, map_size: int, done: int) -> bool {
    &&& current.tiles.len() == start.tiles.len()
    &&& current.placements.len() == start.placements.len() + done
    &&& forall|i: int|
        0 <= i < start.placements.len() ==> #[trigger] current.placements[i]
            == start.placements[i]
    &&& forall|i: int|
        0 <= i < done ==> {
            &&& (#[trigger] current.tiles[i]).data is Some
            &&& current.tiles[i].possible_tiles.len() == 0
            &&& current.placements[start.placements.len() + i].x == cell_x(i, map_size)
            &&& current.placements[start.placements.len() + i].y == cell_y(i, map_size)
        }
    &&& forall|i: int|
        done <= i < start.tiles.len() ==> {
            &&& #[trigger] current.tiles[i] == start.tiles[i]
            &&& current.uncollapsed.contains(i as usize)
        }
}

/// Where all tiles fit together, a resolved cell takes no candidate from a
/// neighbour: showing an edge leaves every cell as it was.
pub proof fn lemma_constrained_keeps_cells(
    grid: GridView,
    catalog: Seq<TileData>,
    map_size: int,
    index: int,
    direction: Direction,
)
    requires
        all_compatible(catalog),
        grid_wf(grid.tiles, catalog, map_size),
        grid.tiles.len() <= usize::MAX,
        0 <= index < grid.tiles.len(),
    ensures
        grid.constrained(catalog, map_size, index, direction).tiles == grid.tiles,
        grid.constrained(catalog, map_size, index, direction).placements == grid.placements,
        forall|i: int|
            0 <= i < grid.tiles.len() && grid.uncollapsed.contains(i as usize) && (
            #[trigger] grid.tiles[i]).possible_tiles.len() > 0 ==> grid.constrained(
                catalog,
                map_size,
                index,
                direction,
            ).uncollapsed.contains(i as usize),
{
    let source = grid.tiles[index];
    match (source.data, neighbour(source.tile_position, direction, map_size)) {
        (Some(t), Some(j)) => {
            crate::grid::lemma_cell_index_in_range(
                source.tile_position.x + direction.dx(),
                source.tile_position.y + direction.dy(),
                map_size,
            );
            let cell = grid.tiles[j];
            let pred = fits(
                catalog,
                direction.opposite(),
                catalog[t as int].edge(direction),
                catalog[t as int].suffix(direction),
            );
            assert(source.wf(catalog));
            assert(cell.wf(catalog));
            assert forall|k: int| 0 <= k < cell.possible_tiles.len() implies pred(
                #[trigger] cell.possible_tiles[k],
            ) by {
                let u = cell.possible_tiles[k] as int;
                assert(catalog[u].accepts(
                    direction.opposite(),
                    catalog[t as int].edge(direction),
                    catalog[t as int].suffix(direction),
                ));
            }
            lemma_filter_keeps_all(cell.possible_tiles, pred);
            assert(grid.tiles.update(j, cell) =~= grid.tiles);
            let after = grid.constrained(catalog, map_size, index, direction);
            assert forall|i: int|
                0 <= i < grid.tiles.len() && grid.uncollapsed.contains(i as usize) && (
                #[trigger] grid.tiles[i]).possible_tiles.len() > 0 implies after.uncollapsed.contains(
                i as usize,
            ) by {
                if cell.possible_tiles.len() == 0 {
                    assert(i != j);
                }
            }
        },
        _ => {},
    }
}

/// Where all tiles fit together, showing the edges in the first `count`
/// directions leaves every cell as it was.
pub proof fn lemma_constrained_through_keeps_cells(
    grid: GridView,
    catalog: Seq<TileData>,
    map_size: int,
    index: int,
    count: nat,
)
    requires
        all_compatible(catalog),
        grid_wf(grid.tiles, catalog, map_size),
        grid.tiles.len() <= usize::MAX,
        0 <= index < grid.tiles.len(),
        count <= 4,
    ensures
        grid.constrained_through(catalog, map_size, index, count).tiles == grid.tiles,
        grid.constrained_through(catalog, map_size, index, count).placements == grid.placements,
        forall|i: int|
            0 <= i < grid.tiles.len() && grid.uncollapsed.contains(i as usize) && (
            #[trigger] grid.tiles[i]).possible_tiles.len() > 0 ==> grid.constrained_through(
                catalog,
                map_size,
                index,
                count,
            ).uncollapsed.contains(i as usize),
    decreases count,
{
    if count > 0 {
        lemma_constrained_through_keeps_cells(grid, catalog, map_size, index, (count - 1) as nat);
        lemma_constrained_keeps_cells(
            grid.constrained_through(catalog, map_size, index, (count - 1) as nat),
            catalog,
            map_size,
            index,
            crate::direction::all_directions()[count - 1],
        );
    }
}

/// After the first `done` visits of a course of the ordered strategy the
/// first `done` cells are covered.
pub proof fn lemma_ordered_prefix_covers(
    start: GridView,
    catalog: Seq<TileData>,
    map_size: int,
    picks: Seq<(usize, int)>,
    done: int,
)
    requires
        all_compatible(catalog),
        grid_wf(start.tiles, catalog, map_size),
        start.tiles.len() <= usize::MAX,
        forall|i: int|
            0 <= i < start.tiles.len() ==> (#[trigger] start.tiles[i]).can_collapse()
                && start.uncollapsed.contains(i as usize),
        start.follows(PlacementStrategy::Ordered, catalog, map_size, picks),
        0 <= done <= picks.len(),
        done <= start.tiles.len(),
    ensures
        covered(start, start.run(catalog, map_size, picks.take(done)), map_size, done),
        grid_wf(start.run(catalog, map_size, picks.take(done)).tiles, catalog, map_size),
    decreases done,
{
    if done == 0 {
        assert(picks.take(0) =~= Seq::<(usize, int)>::empty());
    } else {
        lemma_ordered_prefix_covers(start, catalog, map_size, picks, done - 1);
        let before = start.run(catalog, map_size, picks.take(done - 1));
        let pick = picks[done - 1];
        assert(picks.take(done).drop_last() =~= picks.take(done - 1));
        assert(picks.take(done).last() == pick);
        let after = start.run(catalog, map_size, picks.take(done));
        assert(after == before.visited(catalog, map_size, pick.0 as int, pick.1));
        let index = done - 1;
        assert(pick.0 == index);
        let cell = before.tiles[index];
        assert(cell == start.tiles[index]);
        assert(cell.can_collapse());
        assert(cell.wf(catalog));
        let resolved = GridView {
            tiles: before.tiles.update(index, cell.collapsed(pick.1)),
            uncollapsed: before.uncollapsed.remove(index as usize).remove(index as usize),
            placements: before.placements.push(cell.placement(catalog, pick.1)),
        };
        assert(before.uncollapsed.remove(index as usize).remove(index as usize)
            =~= before.uncollapsed.remove(index as usize));
        assert(crate::tile::weights_of(catalog, cell.collapsed(pick.1).possible_tiles)
            =~= Seq::<u32>::empty());
        assert(grid_wf(resolved.tiles, catalog, map_size));
        lemma_constrained_through_keeps_cells(resolved, catalog, map_size, index, 4);
        assert(after.tiles == resolved.tiles);
        assert(after.placements == resolved.placements);
        assert forall|i: int| done <= i < start.tiles.len() implies {
            &&& #[trigger] after.tiles[i] == start.tiles[i]
            &&& after.uncollapsed.contains(i as usize)
        } by {
            assert(before.tiles[i] == start.tiles[i]);
            assert(resolved.tiles[i].possible_tiles.len() > 0);
            assert(resolved.uncollapsed.contains(i as usize));
        }
        assert forall|i: int| 0 <= i < done implies {
            &&& (#[trigger] after.tiles[i]).data is Some
            &&& after.tiles[i].possible_tiles.len() == 0
            &&& after.placements[start.placements.len() + i].x == cell_x(i, map_size)
            &&& after.placements[start.placements.len() + i].y == cell_y(i, map_size)
        } by {
            if i < index {
                assert(before.tiles[i].data is Some);
                assert(after.tiles[i] == before.tiles[i]);
                let at = start.placements.len() + i;
                assert(after.placements[at] == before.placements[at]);
            }
        }
        assert forall|i: int| 0 <= i < start.placements.len() implies #[trigger] after.placements[i]
            == start.placements[i] by {
            assert(before.placements[i] == start.placements[i]);
        }
        assert(covered(start, after, map_size, done));
    }
}

/// On a grid whose cells are all open and can all collapse, with a catalog
/// whose tiles all fit together, the ordered strategy with a budget of at
/// least one iteration for each cell resolves every cell, and it places
/// cell `i` as the `i`-th tile: each cell is resolved before the cell with
/// the next number.
pub proof fn lemma_ordered_covers_grid(
    start: GridView,
    catalog: Seq<TileData>,
    map_size: int,
    iterations: int,
    max_iterations: int,
    end: GridView,
    end_iterations: int,
)
    requires
        all_compatible(catalog),
        grid_wf(start.tiles, catalog, map_size),
        start.tiles.len() <= usize::MAX,
        forall|i: int|
            0 <= i < start.tiles.len() ==> (#[trigger] start.tiles[i]).can_collapse()
                && start.uncollapsed.contains(i as usize),
        max_iterations - iterations >= map_size * map_size,
        ordered_outcome(
            start,
            catalog,
            map_size,
            iterations,
            max_iterations,
            end,
            end_iterations,
        ),
    ensures
        end.tiles.len() == map_size * map_size,
        forall|i: int| 0 <= i < map_size * map_size ==> (#[trigger] end.tiles[i]).data is Some,
        end.placements.len() == start.placements.len() + map_size * map_size,
        forall|i: int|
            0 <= i < map_size * map_size ==> {
                &&& (#[trigger] end.placements[start.placements.len() + i]).x == cell_x(i, map_size)
                &&& end.placements[start.placements.len() + i].y == cell_y(i, map_size)
            },
        end_iterations == iterations + map_size * map_size,
{
    let picks = choose|picks: Seq<(usize, int)>|
        {
            &&& start.follows(PlacementStrategy::Ordered, catalog, map_size, picks)
            &&& end == #[trigger] start.run(catalog, map_size, picks)
            &&& ordered_stops_at(
                map_size,
                iterations,
                picks.len() as int,
                max_iterations,
                end.uncollapsed,
            )
            &&& end_iterations == iterations + picks.len()
        };
    assert(map_size * map_size > 0) by (nonlinear_arith)
        requires
            map_size > 0,
    ;
    lemma_ordered_prefix_covers(start, catalog, map_size, picks, picks.len() as int);
    assert(picks.take(picks.len() as int) =~= picks);
    if picks.len() < map_size * map_size {
        // A cell that was not visited is still open: the strategy did not
        // stop for want of open cells, so it stopped for want of budget.
        assert(end.tiles[picks.len() as int] == start.tiles[picks.len() as int]);
        assert(end.uncollapsed.contains(picks.len() as usize));
    }
    assert forall|i: int| 0 <= i < map_size * map_size implies {
        &&& (#[trigger] end.placements[start.placements.len() + i]).x == cell_x(i, map_size)
        &&& end.placements[start.placements.len() + i].y == cell_y(i, map_size)
    } by {
        assert(end.tiles[i].data is Some);
    }
}

} // verus!
