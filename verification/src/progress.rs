//! What every step of a run keeps: cells lose candidates and never gain
//! any, a resolved cell keeps its tile, the open set shrinks, and what was
//! placed stays placed.

use vstd::prelude::*;
use crate::direction::{all_directions, Direction};
use crate::grid::neighbour;
use crate::tile::{fits, lemma_filter_weighs_less, weights_of, TileView};
use crate::tile_data::TileData;
use crate::model::{
    centre_index, grid_wf, growing_start, ordered_stops_at, outcome, stops_at,
    unresolved_neighbours, GridView, GrowingView,
};
use crate::wave_function_collapse::PlacementStrategy;

verus! {

/// Whether `after` can follow `before` in a run: the grid has the same cells
/// at the same positions, no cell has more candidates, no resolved cell has
/// changed its tile, no cell was opened, and nothing that was placed is
/// gone.
pub open spec fn advances(before: GridView, after: GridView) -> bool {
    &&& after.tiles.len() == before.tiles.len()
    &&& after.uncollapsed.subset_of(before.uncollapsed)
    &&& before.placements.is_prefix_of(after.placements)
    &&& forall|i: int|
        0 <= i < before.tiles.len() ==> {
            &&& (#[trigger] after.tiles[i]).possible_tiles.len()
                <= before.tiles[i].possible_tiles.len()
            &&& after.tiles[i].tile_position == before.tiles[i].tile_position
            &&& before.tiles[i].data is Some ==> after.tiles[i].data == before.tiles[i].data
        }
}

/// A cell that holds tiles of the catalog still does after its candidates
/// were held against an edge.
pub proof fn lemma_reduced_wf(
    cell: TileView,
    catalog: Seq<TileData>,
    direction: Direction,
    edge: Seq<char>,
    suffix: Option<Seq<char>>,
)
    requires
        cell.wf(catalog),
    ensures
        cell.reduced(catalog, direction, edge, suffix).wf(catalog),
{
    let pred = fits(catalog, direction, edge, suffix);
    let kept = cell.possible_tiles.filter(pred);
    lemma_filter_weighs_less(catalog, cell.possible_tiles, pred);
    assert forall|k: int| 0 <= k < kept.len() implies (#[trigger] kept[k]) < catalog.len() by {
        cell.possible_tiles.lemma_filter_contains_rev(pred, kept[k]);
    }
}

/// Showing one edge of a cell to its neighbour is a step that a run can take.
pub proof fn lemma_constrained_advances(
    grid: GridView,
    catalog: Seq<TileData>,
    map_size: int,
    index: int,
    direction: Direction,
)
    requires
        grid_wf(grid.tiles, catalog, map_size),
        0 <= index < grid.tiles.len(),
    ensures
        advances(grid, grid.constrained(catalog, map_size, index, direction)),
        grid_wf(grid.constrained(catalog, map_size, index, direction).tiles, catalog, map_size),
{
    let source = grid.tiles[index];
    assert(source.wf(catalog));
    match (source.data, neighbour(source.tile_position, direction, map_size)) {
        (Some(t), Some(j)) => {
            crate::grid::lemma_cell_index_in_range(
                source.tile_position.x + direction.dx(),
                source.tile_position.y + direction.dy(),
                map_size,
            );
            let edge = catalog[t as int].edge(direction);
            let suffix = catalog[t as int].suffix(direction);
            assert(grid.tiles[j].wf(catalog));
            lemma_reduced_wf(grid.tiles[j], catalog, direction.opposite(), edge, suffix);
            crate::tile::lemma_reduced_shrinks(
                grid.tiles[j],
                catalog,
                direction.opposite(),
                edge,
                suffix,
            );
        },
        _ => {},
    }
}

/// Being a step that a run can take carries over from step to step.
pub proof fn lemma_advances_chain(first: GridView, second: GridView, third: GridView)
    requires
        advances(first, second),
        advances(second, third),
    ensures
        advances(first, third),
{
    assert forall|i: int| 0 <= i < first.tiles.len() implies {
        &&& (#[trigger] third.tiles[i]).possible_tiles.len() <= first.tiles[i].possible_tiles.len()
        &&& third.tiles[i].tile_position == first.tiles[i].tile_position
        &&& first.tiles[i].data is Some ==> third.tiles[i].data == first.tiles[i].data
    } by {
        assert(second.tiles[i].possible_tiles.len() <= first.tiles[i].possible_tiles.len());
    }
}

/// Showing the edges of a cell to its neighbours in the first `count`
/// directions is a step that a run can take.
pub proof fn lemma_constrained_through_advances(
    grid: GridView,
    catalog: Seq<TileData>,
    map_size: int,
    index: int,
    count: nat,
)
    requires
        grid_wf(grid.tiles, catalog, map_size),
        0 <= index < grid.tiles.len(),
        count <= 4,
    ensures
        advances(grid, grid.constrained_through(catalog, map_size, index, count)),
        grid_wf(
            grid.constrained_through(catalog, map_size, index, count).tiles,
            catalog,
            map_size,
        ),
    decreases count,
{
    if count > 0 {
        let shown = grid.constrained_through(catalog, map_size, index, (count - 1) as nat);
        lemma_constrained_through_advances(grid, catalog, map_size, index, (count - 1) as nat);
        lemma_constrained_advances(shown, catalog, map_size, index, all_directions()[count - 1]);
        lemma_advances_chain(
            grid,
            shown,
            shown.constrained(catalog, map_size, index, all_directions()[count - 1]),
        );
    }
}

/// Asking a cell to collapse is a step that a run can take, whatever is
/// drawn: candidates only shrink, for this cell and for its neighbours, and
/// a cell that was resolved before keeps its tile.
pub proof fn lemma_collapsed_advances(
    grid: GridView,
    catalog: Seq<TileData>,
    map_size: int,
    index: int,
    choice: int,
)
    requires
        grid_wf(grid.tiles, catalog, map_size),
        0 <= index < grid.tiles.len(),
        grid.tiles[index].admits(choice),
    ensures
        advances(grid, grid.collapsed(catalog, map_size, index, choice)),
        grid_wf(grid.collapsed(catalog, map_size, index, choice).tiles, catalog, map_size),
{
    let cell = grid.tiles[index];
    assert(cell.wf(catalog));
    if cell.can_collapse() {
        let resolved = GridView {
            tiles: grid.tiles.update(index, cell.collapsed(choice)),
            uncollapsed: grid.uncollapsed.remove(index as usize),
            placements: grid.placements.push(cell.placement(catalog, choice)),
        };
        assert(weights_of(catalog, cell.collapsed(choice).possible_tiles) =~= Seq::<u32>::empty());
        assert(grid_wf(resolved.tiles, catalog, map_size));
        assert(advances(grid, resolved));
        lemma_constrained_through_advances(resolved, catalog, map_size, index, 4);
        lemma_advances_chain(
            grid,
            resolved,
            resolved.constrained_through(catalog, map_size, index, 4),
        );
    }
}

/// Whether `picks` is a course of visits on the grid: each pick names a cell
/// of the grid and a draw that the cell admits in the state reached before.
pub open spec fn admissible(
    start: GridView,
    catalog: Seq<TileData>,
    map_size: int,
    picks: Seq<(usize, int)>,
) -> bool {
    forall|k: int|
        0 <= k < picks.len() ==> {
            let before = #[trigger] start.run(catalog, map_size, picks.take(k));
            &&& picks[k].0 < before.tiles.len()
            &&& before.tiles[picks[k].0 as int].admits(picks[k].1)
        }
}

/// The first `done` visits of a course are a step that a run can take.
pub proof fn lemma_run_prefix_advances(
    start: GridView,
    catalog: Seq<TileData>,
    map_size: int,
    picks: Seq<(usize, int)>,
    done: int,
)
    requires
        grid_wf(start.tiles, catalog, map_size),
        admissible(start, catalog, map_size, picks),
        0 <= done <= picks.len(),
    ensures
        advances(start, start.run(catalog, map_size, picks.take(done))),
        grid_wf(start.run(catalog, map_size, picks.take(done)).tiles, catalog, map_size),
    decreases done,
{
    if done == 0 {
        assert(picks.take(0) =~= Seq::<(usize, int)>::empty());
    } else {
        lemma_run_prefix_advances(start, catalog, map_size, picks, done - 1);
        let before = start.run(catalog, map_size, picks.take(done - 1));
        let pick = picks[done - 1];
        assert(picks.take(done).drop_last() =~= picks.take(done - 1));
        assert(picks.take(done).last() == pick);
        let opened = GridView {
            tiles: before.tiles,
            uncollapsed: before.uncollapsed.remove(pick.0),
            placements: before.placements,
        };
        assert(advances(before, opened));
        lemma_collapsed_advances(opened, catalog, map_size, pick.0 as int, pick.1);
        lemma_advances_chain(
            before,
            opened,
            opened.collapsed(catalog, map_size, pick.0 as int, pick.1),
        );
        lemma_advances_chain(start, before, start.run(catalog, map_size, picks.take(done)));
    }
}

/// Every course of visits is a step that a run can take: through any
/// sequence of collapses, and of the requests to drop candidates that they
/// send to the neighbours, no cell ever gains a candidate, no resolved cell
/// changes, and the open set only shrinks.
pub proof fn lemma_run_advances(
    start: GridView,
    catalog: Seq<TileData>,
    map_size: int,
    picks: Seq<(usize, int)>,
)
    requires
        grid_wf(start.tiles, catalog, map_size),
        admissible(start, catalog, map_size, picks),
    ensures
        advances(start, start.run(catalog, map_size, picks)),
        grid_wf(start.run(catalog, map_size, picks).tiles, catalog, map_size),
{
    lemma_run_prefix_advances(start, catalog, map_size, picks, picks.len() as int);
    assert(picks.take(picks.len() as int) =~= picks);
}

/// Every cell in the queue of the growing strategy is a cell of the grid.
pub open spec fn queue_on_grid(state: GrowingView) -> bool {
    forall|q: int| 0 <= q < state.queue.len() ==> (#[trigger] state.queue[q]) < state.grid.tiles.len()
}

/// The neighbours that the growing strategy queues are cells of the grid.
pub proof fn lemma_neighbours_on_grid(
    tiles: Seq<TileView>,
    catalog: Seq<TileData>,
    map_size: int,
    index: int,
    count: nat,
)
    requires
        grid_wf(tiles, catalog, map_size),
        0 <= index < tiles.len(),
        count <= 4,
    ensures
        forall|q: int|
            0 <= q < unresolved_neighbours(tiles, map_size, index, count).len() ==> (
            #[trigger] unresolved_neighbours(tiles, map_size, index, count)[q]) < tiles.len(),
    decreases count,
{
    if count > 0 {
        lemma_neighbours_on_grid(tiles, catalog, map_size, index, (count - 1) as nat);
        let direction = all_directions()[count - 1];
        let found = unresolved_neighbours(tiles, map_size, index, (count - 1) as nat);
        let all = unresolved_neighbours(tiles, map_size, index, count);
        assert(tiles[index].wf(catalog));
        if neighbour(tiles[index].tile_position, direction, map_size) is Some {
            crate::grid::lemma_cell_index_in_range(
                tiles[index].tile_position.x + direction.dx(),
                tiles[index].tile_position.y + direction.dy(),
                map_size,
            );
        }
        assert forall|q: int| 0 <= q < all.len() implies (#[trigger] all[q]) < tiles.len() by {
            if q < found.len() {
                assert(all[q] == found[q]);
            }
        }
    }
}

/// A turn of the growing strategy is a step that a run can take, and it
/// queues cells of the grid only.
pub proof fn lemma_growing_step_advances(
    state: GrowingView,
    catalog: Seq<TileData>,
    map_size: int,
    choice: int,
)
    requires
        grid_wf(state.grid.tiles, catalog, map_size),
        queue_on_grid(state),
        state.queue.len() > 0,
        state.grid.tiles[state.queue.first() as int].admits(choice),
    ensures
        advances(state.grid, state.stepped(catalog, map_size, choice).grid),
        grid_wf(state.stepped(catalog, map_size, choice).grid.tiles, catalog, map_size),
        queue_on_grid(state.stepped(catalog, map_size, choice)),
{
    let chosen = state.queue.first();
    let opened = GridView {
        tiles: state.grid.tiles,
        uncollapsed: state.grid.uncollapsed.remove(chosen),
        placements: state.grid.placements,
    };
    assert(advances(state.grid, opened));
    let rest = state.queue.drop_first();
    assert forall|q: int| 0 <= q < rest.len() implies (#[trigger] rest[q])
        < state.grid.tiles.len() by {
        assert(rest[q] == state.queue[q + 1]);
    }
    if state.grid.tiles[chosen as int].data is None {
        let after = opened.collapsed(catalog, map_size, chosen as int, choice);
        lemma_collapsed_advances(opened, catalog, map_size, chosen as int, choice);
        lemma_advances_chain(state.grid, opened, after);
        lemma_neighbours_on_grid(after.tiles, catalog, map_size, chosen as int, 4);
    }
}

/// The first `done` turns of a course of the growing strategy are a step
/// that a run can take.
pub proof fn lemma_growing_prefix_advances(
    start: GrowingView,
    catalog: Seq<TileData>,
    map_size: int,
    max_iterations: int,
    choices: Seq<int>,
    done: int,
)
    requires
        grid_wf(start.grid.tiles, catalog, map_size),
        queue_on_grid(start),
        start.follows(catalog, map_size, max_iterations, choices),
        0 <= done <= choices.len(),
    ensures
        advances(start.grid, start.run(catalog, map_size, choices.take(done)).grid),
        grid_wf(start.run(catalog, map_size, choices.take(done)).grid.tiles, catalog, map_size),
        queue_on_grid(start.run(catalog, map_size, choices.take(done))),
        start.run(catalog, map_size, choices.take(done)).iterations >= start.iterations,
    decreases done,
{
    if done == 0 {
        assert(choices.take(0) =~= Seq::<int>::empty());
    } else {
        lemma_growing_prefix_advances(start, catalog, map_size, max_iterations, choices, done - 1);
        let before = start.run(catalog, map_size, choices.take(done - 1));
        assert(choices.take(done).drop_last() =~= choices.take(done - 1));
        assert(choices.take(done).last() == choices[done - 1]);
        lemma_growing_step_advances(before, catalog, map_size, choices[done - 1]);
        lemma_advances_chain(
            start.grid,
            before.grid,
            before.stepped(catalog, map_size, choices[done - 1]).grid,
        );
    }
}

/// Every course of the growing strategy is a step that a run can take.
pub proof fn lemma_growing_run_advances(
    start: GrowingView,
    catalog: Seq<TileData>,
    map_size: int,
    max_iterations: int,
    choices: Seq<int>,
)
    requires
        grid_wf(start.grid.tiles, catalog, map_size),
        queue_on_grid(start),
        start.follows(catalog, map_size, max_iterations, choices),
    ensures
        advances(start.grid, start.run(catalog, map_size, choices).grid),
        grid_wf(start.run(catalog, map_size, choices).grid.tiles, catalog, map_size),
{
    lemma_growing_prefix_advances(
        start,
        catalog,
        map_size,
        max_iterations,
        choices,
        choices.len() as int,
    );
    assert(choices.take(choices.len() as int) =~= choices);
}

/// A cell that was asked to collapse changes nothing when it is asked again,
/// whatever is drawn the second time.
pub proof fn lemma_collapse_twice(
    grid: GridView,
    catalog: Seq<TileData>,
    map_size: int,
    index: int,
    first: int,
    second: int,
)
    requires
        grid_wf(grid.tiles, catalog, map_size),
        0 <= index < grid.tiles.len(),
        grid.tiles[index].admits(first),
    ensures
        grid.collapsed(catalog, map_size, index, first).collapsed(
            catalog,
            map_size,
            index,
            second,
        ) == grid.collapsed(catalog, map_size, index, first),
{
    let cell = grid.tiles[index];
    assert(cell.wf(catalog));
    if cell.can_collapse() {
        let resolved = GridView {
            tiles: grid.tiles.update(index, cell.collapsed(first)),
            uncollapsed: grid.uncollapsed.remove(index as usize),
            placements: grid.placements.push(cell.placement(catalog, first)),
        };
        assert(weights_of(catalog, cell.collapsed(first).possible_tiles) =~= Seq::<u32>::empty());
        assert(grid_wf(resolved.tiles, catalog, map_size));
        lemma_constrained_through_advances(resolved, catalog, map_size, index, 4);
        let after = resolved.constrained_through(catalog, map_size, index, 4);
        assert(after.tiles[index].data == resolved.tiles[index].data);
    }
}

/// Whatever the strategy and whatever is drawn, a run only takes steps that
/// a run can take: from a well-formed grid it reaches a well-formed grid in
/// which no cell has gained a candidate, every cell that was resolved has
/// kept its tile, no cell was opened, and all that was placed is still
/// there, in its order.
pub proof fn lemma_outcome_advances(
    strategy: PlacementStrategy,
    start: GridView,
    catalog: Seq<TileData>,
    map_size: int,
    iterations: int,
    max_iterations: int,
    end: GridView,
    end_iterations: int,
)
    requires
        grid_wf(start.tiles, catalog, map_size),
        outcome(
            strategy,
            start,
            catalog,
            map_size,
            iterations,
            max_iterations,
            end,
            end_iterations,
        ),
    ensures
        advances(start, end),
        grid_wf(end.tiles, catalog, map_size),
        end_iterations >= iterations,
{
    crate::grid::lemma_cell_index_in_range(map_size / 2, map_size / 2, map_size);
    match strategy {
        PlacementStrategy::Ordered => {
            let picks = choose|picks: Seq<(usize, int)>|
                {
                    &&& start.follows(PlacementStrategy::Ordered, catalog, map_size, picks)
                    &&& end == #[trigger] start.run(catalog, map_size, picks)
                    &&& ordered_stops_at(
                        map_size,
                        iterations,
                        picks.len() as int,
                        max_iterations,
                        end.uncollapsed,
                    )
                    &&& end_iterations == iterations + picks.len()
                };
            lemma_run_advances(start, catalog, map_size, picks);
        },
        PlacementStrategy::Growing => {
            let begin = growing_start(start, map_size, iterations);
            let choices = choose|choices: Seq<int>|
                {
                    &&& begin.follows(catalog, map_size, max_iterations, choices)
                    &&& !(#[trigger] begin.run(catalog, map_size, choices)).continues(
                        max_iterations,
                    )
                    &&& end == begin.run(catalog, map_size, choices).grid
                    &&& end_iterations == begin.run(catalog, map_size, choices).iterations
                };
            lemma_growing_prefix_advances(
                begin,
                catalog,
                map_size,
                max_iterations,
                choices,
                choices.len() as int,
            );
            assert(choices.take(choices.len() as int) =~= choices);
        },
        _ => {
            let (first, picks) = choose|first: int, picks: Seq<(usize, int)>|
                {
                    &&& start.tiles[centre_index(map_size)].admits(first)
                    &&& start.centred(catalog, map_size, first).follows(
                        strategy,
                        catalog,
                        map_size,
                        picks,
                    )
                    &&& end == #[trigger] start.centred(catalog, map_size, first).run(
                        catalog,
                        map_size,
                        picks,
                    )
                    &&& end_iterations == iterations + picks.len()
                    &&& stops_at(iterations, picks.len() as int, max_iterations, end.uncollapsed)
                };
            let collapsed = start.collapsed(catalog, map_size, centre_index(map_size), first);
            let centred = start.centred(catalog, map_size, first);
            lemma_collapsed_advances(start, catalog, map_size, centre_index(map_size), first);
            assert(advances(collapsed, centred));
            lemma_advances_chain(start, collapsed, centred);
            lemma_run_advances(centred, catalog, map_size, picks);
            lemma_advances_chain(start, centred, end);
        },
    }
}

} // verus!
