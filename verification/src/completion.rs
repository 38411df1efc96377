//! When a run is complete: a strategy that ends with budget to spare leaves
//! no cell that could still collapse.

use vstd::prelude::*;
use crate::direction::all_directions;
use crate::grid::neighbour;
use crate::model::{
    centre_index, fresh_grid, grid_wf, ordered_stops_at, open_set_outcome, ordered_outcome, stops_at,
    GridView,
};
use crate::progress::{
    admissible, advances, lemma_collapsed_advances, lemma_constrained_advances,
    lemma_constrained_through_advances, lemma_run_prefix_advances,
};
use crate::scene::Placement;
use crate::tile::weights_of;
use crate::tile_data::TileData;
use crate::wave_function_collapse::PlacementStrategy;

verus! {

/// Every cell that can still collapse is open.
pub open spec fn open_while_possible(grid: GridView) -> bool {
    forall|i: int|
        0 <= i < grid.tiles.len() && (#[trigger] grid.tiles[i]).can_collapse()
            ==> grid.uncollapsed.contains(i as usize)
}

/// No cell can collapse any more: each is resolved or has lost all its
/// candidates.
pub open spec fn complete(grid: GridView) -> bool {
    forall|i: int| 0 <= i < grid.tiles.len() ==> !(#[trigger] grid.tiles[i]).can_collapse()
}

/// Showing the edges of a cell closes only cells that cannot collapse.
pub proof fn lemma_constrained_through_keeps_open(
    grid: GridView,
    catalog: Seq<TileData>,
    map_size: int,
    index: int,
    count: nat,
)
    requires
        grid_wf(grid.tiles, catalog, map_size),
        grid.tiles.len() <= usize::MAX,
        open_while_possible(grid),
        0 <= index < grid.tiles.len(),
        count <= 4,
    ensures
        open_while_possible(grid.constrained_through(catalog, map_size, index, count)),
    decreases count,
{
    if count > 0 {
        let before = grid.constrained_through(catalog, map_size, index, (count - 1) as nat);
        let direction = all_directions()[count - 1];
        lemma_constrained_through_keeps_open(grid, catalog, map_size, index, (count - 1) as nat);
        lemma_constrained_through_advances(grid, catalog, map_size, index, (count - 1) as nat);
        lemma_constrained_advances(before, catalog, map_size, index, direction);
        let after = before.constrained(catalog, map_size, index, direction);
        let source = before.tiles[index];
        assert(source.wf(catalog));
        if source.data is Some && neighbour(source.tile_position, direction, map_size) is Some {
            crate::grid::lemma_cell_index_in_range(
                source.tile_position.x + direction.dx(),
                source.tile_position.y + direction.dy(),
                map_size,
            );
        }
        assert forall|i: int| 0 <= i < after.tiles.len() && (#[trigger] after.tiles[i]).can_collapse()
            implies after.uncollapsed.contains(i as usize) by {
            assert(before.tiles[i].can_collapse());
        }
    }
}

/// Visiting a cell closes it and leaves it unable to collapse, and closes no
/// cell that could collapse.
pub proof fn lemma_visited_keeps_open(
    grid: GridView,
    catalog: Seq<TileData>,
    map_size: int,
    index: int,
    choice: int,
)
    requires
        grid_wf(grid.tiles, catalog, map_size),
        grid.tiles.len() <= usize::MAX,
        open_while_possible(grid),
        0 <= index < grid.tiles.len(),
        grid.tiles[index].admits(choice),
    ensures
        open_while_possible(grid.visited(catalog, map_size, index, choice)),
        !grid.visited(catalog, map_size, index, choice).tiles[index].can_collapse(),
{
    let cell = grid.tiles[index];
    assert(cell.wf(catalog));
    let opened = GridView {
        tiles: grid.tiles,
        uncollapsed: grid.uncollapsed.remove(index as usize),
        placements: grid.placements,
    };
    if cell.can_collapse() {
        let resolved = GridView {
            tiles: opened.tiles.update(index, cell.collapsed(choice)),
            uncollapsed: opened.uncollapsed.remove(index as usize),
            placements: opened.placements.push(cell.placement(catalog, choice)),
        };
        assert(weights_of(catalog, cell.collapsed(choice).possible_tiles) =~= Seq::<u32>::empty());
        assert(grid_wf(resolved.tiles, catalog, map_size));
        assert forall|i: int| 0 <= i < resolved.tiles.len() && (
        #[trigger] resolved.tiles[i]).can_collapse() implies resolved.uncollapsed.contains(
            i as usize,
        ) by {
            assert(grid.tiles[i].can_collapse());
        }
        lemma_constrained_through_keeps_open(resolved, catalog, map_size, index, 4);
        lemma_constrained_through_advances(resolved, catalog, map_size, index, 4);
    }
}

/// What the first `done` visits of a course leave: every cell that can still
/// collapse is open, and no visited cell can collapse.
pub proof fn lemma_run_prefix_keeps_open(
    start: GridView,
    catalog: Seq<TileData>,
    map_size: int,
    picks: Seq<(usize, int)>,
    done: int,
)
    requires
        grid_wf(start.tiles, catalog, map_size),
        start.tiles.len() <= usize::MAX,
        open_while_possible(start),
        admissible(start, catalog, map_size, picks),
        0 <= done <= picks.len(),
    ensures
        open_while_possible(start.run(catalog, map_size, picks.take(done))),
        forall|k: int|
            0 <= k < done ==> !start.run(catalog, map_size, picks.take(done)).tiles[(
            #[trigger] picks[k]).0 as int].can_collapse(),
    decreases done,
{
    if done == 0 {
        assert(picks.take(0) =~= Seq::<(usize, int)>::empty());
    } else {
        lemma_run_prefix_keeps_open(start, catalog, map_size, picks, done - 1);
        lemma_run_prefix_advances(start, catalog, map_size, picks, done - 1);
        lemma_run_prefix_advances(start, catalog, map_size, picks, done);
        let before = start.run(catalog, map_size, picks.take(done - 1));
        let after = start.run(catalog, map_size, picks.take(done));
        let pick = picks[done - 1];
        assert(picks.take(done).drop_last() =~= picks.take(done - 1));
        assert(picks.take(done).last() == pick);
        lemma_visited_keeps_open(before, catalog, map_size, pick.0 as int, pick.1);
        let opened = GridView {
            tiles: before.tiles,
            uncollapsed: before.uncollapsed.remove(pick.0),
            placements: before.placements,
        };
        lemma_collapsed_advances(opened, catalog, map_size, pick.0 as int, pick.1);
        assert(advances(opened, after));
        assert forall|k: int| 0 <= k < done implies !after.tiles[(
        #[trigger] picks[k]).0 as int].can_collapse() by {
            if k < done - 1 {
                let i = picks[k].0 as int;
                assert(start.run(catalog, map_size, picks.take(k)).tiles.len() == start.tiles.len()) by {
                    lemma_run_prefix_advances(start, catalog, map_size, picks, k);
                }
                assert(!before.tiles[i].can_collapse());
                assert(after.tiles[i].possible_tiles.len() <= before.tiles[i].possible_tiles.len());
            }
        }
    }
}

/// The random and the least-entropy strategy, when they end with budget to
/// spare on a grid whose cells were all open as long as they could collapse,
/// leave no cell that can collapse: every cell is resolved or has lost all
/// its candidates.
pub proof fn lemma_open_set_run_completes(
    strategy: PlacementStrategy,
    start: GridView,
    catalog: Seq<TileData>,
    map_size: int,
    iterations: int,
    max_iterations: int,
    end: GridView,
    end_iterations: int,
)
    requires
        grid_wf(start.tiles, catalog, map_size),
        start.tiles.len() <= usize::MAX,
        open_while_possible(start),
        open_set_outcome(
            strategy,
            start,
            catalog,
            map_size,
            iterations,
            max_iterations,
            end,
            end_iterations,
        ),
        end_iterations < max_iterations,
    ensures
        complete(end),
{
    crate::grid::lemma_cell_index_in_range(map_size / 2, map_size / 2, map_size);
    let (first, picks) = choose|first: int, picks: Seq<(usize, int)>|
        {
            &&& start.tiles[centre_index(map_size)].admits(first)
            &&& start.centred(catalog, map_size, first).follows(strategy, catalog, map_size, picks)
            &&& end == #[trigger] start.centred(catalog, map_size, first).run(
                catalog,
                map_size,
                picks,
            )
            &&& end_iterations == iterations + picks.len()
            &&& stops_at(iterations, picks.len() as int, max_iterations, end.uncollapsed)
        };
    let centre = centre_index(map_size);
    let centred = start.centred(catalog, map_size, first);
    let collapsed = start.collapsed(catalog, map_size, centre, first);
    // The centre cell is collapsed before it is closed: the order does not matter.
    let cell = start.tiles[centre];
    assert(cell.wf(catalog));
    lemma_collapsed_advances(start, catalog, map_size, centre, first);
    if cell.can_collapse() {
        let resolved = GridView {
            tiles: start.tiles.update(centre, cell.collapsed(first)),
            uncollapsed: start.uncollapsed.remove(centre as usize),
            placements: start.placements.push(cell.placement(catalog, first)),
        };
        assert(weights_of(catalog, cell.collapsed(first).possible_tiles) =~= Seq::<u32>::empty());
        assert(grid_wf(resolved.tiles, catalog, map_size));
        assert forall|i: int| 0 <= i < resolved.tiles.len() && (
        #[trigger] resolved.tiles[i]).can_collapse() implies resolved.uncollapsed.contains(
            i as usize,
        ) by {
            assert(start.tiles[i].can_collapse());
        }
        lemma_constrained_through_keeps_open(resolved, catalog, map_size, centre, 4);
        lemma_constrained_through_advances(resolved, catalog, map_size, centre, 4);
    }
    assert(!collapsed.tiles[centre].can_collapse());
    assert(open_while_possible(collapsed));
    assert forall|i: int| 0 <= i < centred.tiles.len() && (#[trigger] centred.tiles[i]).can_collapse()
        implies centred.uncollapsed.contains(i as usize) by {
        assert(collapsed.tiles[i].can_collapse());
    }
    lemma_run_prefix_keeps_open(centred, catalog, map_size, picks, picks.len() as int);
    assert(picks.take(picks.len() as int) =~= picks);
    assert forall|i: int| 0 <= i < end.tiles.len() implies !(#[trigger] end.tiles[i]).can_collapse() by {
        if end.tiles[i].can_collapse() {
            assert(end.uncollapsed.contains(i as usize));
        }
    }
}

/// The ordered strategy with a budget of at least one iteration for each
/// cell, on a grid whose cells were all open as long as they could collapse,
/// leaves no cell that can collapse, whatever the catalog: every cell is
/// resolved or has lost all its candidates.
pub proof fn lemma_ordered_run_completes(
    start: GridView,
    catalog: Seq<TileData>,
    map_size: int,
    iterations: int,
    max_iterations: int,
    end: GridView,
    end_iterations: int,
)
    requires
        grid_wf(start.tiles, catalog, map_size),
        start.tiles.len() <= usize::MAX,
        open_while_possible(start),
        max_iterations - iterations >= map_size * map_size,
        ordered_outcome(
            start,
            catalog,
            map_size,
            iterations,
            max_iterations,
            end,
            end_iterations,
        ),
    ensures
        complete(end),
{
    let picks = choose|picks: Seq<(usize, int)>|
        {
            &&& start.follows(PlacementStrategy::Ordered, catalog, map_size, picks)
            &&& end == #[trigger] start.run(catalog, map_size, picks)
            &&& ordered_stops_at(
                map_size,
                iterations,
                picks.len() as int,
                max_iterations,
                end.uncollapsed,
            )
            &&& end_iterations == iterations + picks.len()
        };
    assert(map_size * map_size > 0) by (nonlinear_arith)
        requires
            map_size > 0,
    ;
    lemma_run_prefix_keeps_open(start, catalog, map_size, picks, picks.len() as int);
    lemma_run_prefix_advances(start, catalog, map_size, picks, picks.len() as int);
    assert(picks.take(picks.len() as int) =~= picks);
    assert forall|i: int| 0 <= i < end.tiles.len() implies !(#[trigger] end.tiles[i]).can_collapse() by {
        if picks.len() == map_size * map_size {
            // Every cell was visited.
            assert(start.run(catalog, map_size, picks.take(i)).allows(
                PlacementStrategy::Ordered,
                i,
                picks[i].0,
            ));
            assert(picks[i].0 == i);
        } else if end.tiles[i].can_collapse() {
            // No cell is open, and a cell that can collapse is open.
            assert(end.uncollapsed.contains(i as usize));
        }
    }
}

/// On a fresh grid every cell is open.
pub proof fn lemma_fresh_grid_open(tile_count: nat, map_size: int, placements: Seq<Placement>)
    requires
        0 < map_size,
        map_size * map_size <= usize::MAX,
    ensures
        open_while_possible(fresh_grid(tile_count, map_size, placements)),
{
}

} // verus!
