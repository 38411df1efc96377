//! The course of a run as plain values: what collapsing a cell does to the
//! grid, which cells each strategy visits, and where a run ends.
//!
//! A run draws from a random source. Here each draw is an argument: the
//! state after a step is a function of the state before it and of what was
//! drawn, and a strategy's outcome is the set of states that some sequence
//! of draws leads to.

use vstd::prelude::*;
use crate::direction::{all_directions, Direction};
use crate::grid::{cell_index, cell_x, cell_y, neighbour, Position};
use crate::scene::Placement;
use crate::tile::{all_tiles, Tile, TileView};
use crate::tile_data::TileData;
use crate::wave_function_collapse::PlacementStrategy;

verus! {

/// The state of a run as plain values: the cells, the numbers of the cells
/// that are still open, and what was placed so far.
pub struct GridView {
    pub tiles: Seq<TileView>,
    pub uncollapsed: Set<usize>,
    pub placements: Seq<Placement>,
}

/// The cells of a grid as plain values.
pub open spec fn views(tiles: Seq<Tile>) -> Seq<TileView> {
    Seq::new(tiles.len(), |i: int| tiles[i]@)
}

/// A square grid of side `map_size`: one cell for each position, numbered
/// row by row, each holding tiles of the catalog.
pub open spec fn grid_wf(tiles: Seq<TileView>, catalog: Seq<TileData>, map_size: int) -> bool {
    &&& 0 < map_size
    &&& tiles.len() == map_size * map_size
    &&& forall|i: int|
        0 <= i < tiles.len() ==> {
            &&& (#[trigger] tiles[i]).wf(catalog)
            &&& tiles[i].tile_position.x == cell_x(i, map_size)
            &&& tiles[i].tile_position.y == cell_y(i, map_size)
        }
}

/// The number of candidates that cell `index` has left.
pub open spec fn entropy(tiles: Seq<TileView>, index: usize) -> nat {
    tiles[index as int].possible_tiles.len()
}

/// Whether `index` is the open cell with the fewest candidates, the one with
/// the smallest number where several have as few.
pub open spec fn least_entropy(
    tiles: Seq<TileView>,
    uncollapsed: Set<usize>,
    index: usize,
) -> bool {
    &&& uncollapsed.contains(index)
    &&& forall|other: usize| #[trigger]
        uncollapsed.contains(other) ==> entropy(tiles, index) < entropy(tiles, other) || (entropy(
            tiles,
            index,
        ) == entropy(tiles, other) && index <= other)
}

/// Every open cell is a cell of the grid.
pub open spec fn open_cells_on_grid(uncollapsed: Set<usize>, cells: int) -> bool {
    forall|i: usize| #[trigger] uncollapsed.contains(i) ==> i < cells
}

/// The number of the cell in the middle of the grid.
pub open spec fn centre_index(map_size: int) -> int {
    cell_index(map_size / 2, map_size / 2, map_size)
}

impl TileView {
    /// Whether `choice` can be the draw that collapses this cell: any number
    /// for a cell that cannot collapse, else the number of a candidate.
    pub open spec fn admits(self, choice: int) -> bool {
        self.can_collapse() ==> 0 <= choice < self.possible_tiles.len()
    }
}

/// The grid before anything was placed: every cell unresolved, with every
/// tile of the catalog as a candidate, and every cell open.
pub open spec fn fresh_grid(
    tile_count: nat,
    map_size: int,
    placements: Seq<Placement>,
) -> GridView {
    GridView {
        tiles: Seq::new(
            (map_size * map_size) as nat,
            |i: int|
                TileView {
                    data: None,
                    possible_tiles: all_tiles(tile_count),
                    tile_position: Position {
                        x: cell_x(i, map_size) as usize,
                        y: cell_y(i, map_size) as usize,
                    },
                },
        ),
        uncollapsed: Set::new(|i: usize| i < map_size * map_size),
        placements,
    }
}

/// The side of a square grid whose cells can be counted in `usize` fits in
/// 32 bits.
pub proof fn lemma_side_is_small(map_size: int, cells: int)
    requires
        0 <= map_size,
        cells == map_size * map_size,
        cells <= usize::MAX,
    ensures
        map_size <= 0xffff_ffff,
{
    if map_size >= 0x1_0000_0000 {
        assert(map_size * map_size >= 0x1_0000_0000 * 0x1_0000_0000) by (nonlinear_arith)
            requires
                map_size >= 0x1_0000_0000,
        ;
    }
}

impl GridView {
    /// The state after the resolved cell `index` has shown its edge towards
    /// `direction` to the neighbour there. Off the grid there is no
    /// neighbour and nothing changes. The neighbour keeps the candidates
    /// whose opposite edge fits; if none is left it is no longer open.
    pub open spec fn constrained(
        self,
        catalog: Seq<TileData>,
        map_size: int,
        index: int,
        direction: Direction,
    ) -> GridView {
        let source = self.tiles[index];
        match (source.data, neighbour(source.tile_position, direction, map_size)) {
            (Some(t), Some(j)) => {
                let reduced = self.tiles[j].reduced(
                    catalog,
                    direction.opposite(),
                    catalog[t as int].edge(direction),
                    catalog[t as int].suffix(direction),
                );
                GridView {
                    tiles: self.tiles.update(j, reduced),
                    uncollapsed: if reduced.possible_tiles.len() == 0 {
                        self.uncollapsed.remove(j as usize)
                    } else {
                        self.uncollapsed
                    },
                    placements: self.placements,
                }
            },
            _ => self,
        }
    }

    /// The state after cell `index` has shown its edges to the neighbours in
    /// the first `count` directions.
    pub open spec fn constrained_through(
        self,
        catalog: Seq<TileData>,
        map_size: int,
        index: int,
        count: nat,
    ) -> GridView
        decreases count,
    {
        if count == 0 {
            self
        } else {
            self.constrained_through(catalog, map_size, index, (count - 1) as nat).constrained(
                catalog,
                map_size,
                index,
                all_directions()[count - 1],
            )
        }
    }

    /// The state after cell `index` was asked to collapse with the draw
    /// `choice`. A cell that is resolved or has no candidate left changes
    /// nothing. Otherwise the cell is resolved to its candidate number
    /// `choice`, the tile is placed, the cell is no longer open, and its
    /// edges are shown to the four neighbours.
    pub open spec fn collapsed(
        self,
        catalog: Seq<TileData>,
        map_size: int,
        index: int,
        choice: int,
    ) -> GridView {
        let cell = self.tiles[index];
        if cell.can_collapse() {
            GridView {
                tiles: self.tiles.update(index, cell.collapsed(choice)),
                uncollapsed: self.uncollapsed.remove(index as usize),
                placements: self.placements.push(cell.placement(catalog, choice)),
            }.constrained_through(catalog, map_size, index, 4)
        } else {
            self
        }
    }

    /// The state after cell `index` was taken from the open set and asked to
    /// collapse with the draw `choice`.
    pub open spec fn visited(
        self,
        catalog: Seq<TileData>,
        map_size: int,
        index: int,
        choice: int,
    ) -> GridView {
        GridView {
            tiles: self.tiles,
            uncollapsed: self.uncollapsed.remove(index as usize),
            placements: self.placements,
        }.collapsed(catalog, map_size, index, choice)
    }

    /// The state after the centre cell was asked to collapse with the draw
    /// `choice` and taken from the open set.
    pub open spec fn centred(self, catalog: Seq<TileData>, map_size: int, choice: int) -> GridView {
        let after = self.collapsed(catalog, map_size, centre_index(map_size), choice);
        GridView {
            tiles: after.tiles,
            uncollapsed: after.uncollapsed.remove(centre_index(map_size) as usize),
            placements: after.placements,
        }
    }

    /// Whether a strategy may visit cell `index` as its visit number `step`
    /// (counted from zero) in this state. No strategy makes a visit when no
    /// cell is open. `Growing` keeps a queue and is described by
    /// [`GrowingView`].
    pub open spec fn allows(self, strategy: PlacementStrategy, step: int, index: usize) -> bool {
        match strategy {
            PlacementStrategy::Random => self.uncollapsed.contains(index),
            PlacementStrategy::LeastEntropy => least_entropy(self.tiles, self.uncollapsed, index),
            PlacementStrategy::Ordered => index == step && !self.uncollapsed.is_empty(),
            PlacementStrategy::Growing => false,
        }
    }

    /// The state after the cells of `picks` were visited in turn, each pick
    /// giving the cell's number and the draw for it.
    pub open spec fn run(
        self,
        catalog: Seq<TileData>,
        map_size: int,
        picks: Seq<(usize, int)>,
    ) -> GridView
        decreases picks.len(),
    {
        if picks.len() == 0 {
            self
        } else {
            self.run(catalog, map_size, picks.drop_last()).visited(
                catalog,
                map_size,
                picks.last().0 as int,
                picks.last().1,
            )
        }
    }

    /// Whether `picks` is a course that `strategy` can take from this state:
    /// each cell is one that the strategy allows in the state reached before
    /// it, and each draw is one that the cell admits.
    pub open spec fn follows(
        self,
        strategy: PlacementStrategy,
        catalog: Seq<TileData>,
        map_size: int,
        picks: Seq<(usize, int)>,
    ) -> bool {
        forall|k: int|
            0 <= k < picks.len() ==> {
                let before = #[trigger] self.run(catalog, map_size, picks.take(k));
                &&& picks[k].0 < before.tiles.len()
                &&& before.allows(strategy, k, picks[k].0)
                &&& before.tiles[picks[k].0 as int].admits(picks[k].1)
            }
    }
}

/// How the ordered strategy ends: it made `visits` visits from `iterations`
/// on, none of them at or beyond the budget and no more than there are
/// cells, and it went on until every cell was visited, the budget was used
/// up, or no cell was open.
pub open spec fn ordered_stops_at(
    map_size: int,
    iterations: int,
    visits: int,
    max_iterations: int,
    uncollapsed: Set<usize>,
) -> bool {
    &&& visits <= map_size * map_size
    &&& visits == 0 || iterations + visits <= max_iterations
    &&& visits == map_size * map_size || iterations + visits >= max_iterations
        || uncollapsed.is_empty()
}

/// How a strategy that works on the open set ends: it made `visits` visits
/// from `iterations` on, none of them at or beyond the budget, and it went on
/// until the budget was used up or no cell was open.
pub open spec fn stops_at(
    iterations: int,
    visits: int,
    max_iterations: int,
    uncollapsed: Set<usize>,
) -> bool {
    &&& visits == 0 || iterations + visits <= max_iterations
    &&& iterations + visits >= max_iterations || uncollapsed.is_empty()
}

/// What the ordered strategy does to a grid: from `start` at `iterations` it
/// reaches `end` at `end_iterations` by visiting cell 0, cell 1 and so on,
/// with some draw at each, until [`ordered_stops_at`] holds.
pub open spec fn ordered_outcome(
    start: GridView,
    catalog: Seq<TileData>,
    map_size: int,
    iterations: int,
    max_iterations: int,
    end: GridView,
    end_iterations: int,
) -> bool {
    exists|picks: Seq<(usize, int)>|
        {
            &&& start.follows(PlacementStrategy::Ordered, catalog, map_size, picks)
            &&& end == #[trigger] start.run(catalog, map_size, picks)
            &&& ordered_stops_at(
                map_size,
                iterations,
                picks.len() as int,
                max_iterations,
                end.uncollapsed,
            )
            &&& end_iterations == iterations + picks.len()
        }
}

/// What the random and the least-entropy strategy do to a grid: from `start`
/// at `iterations` they reach `end` at `end_iterations` by collapsing the
/// centre cell with some draw and then visiting, with some draw at each, cells
/// that the strategy allows, until [`stops_at`] holds.
pub open spec fn open_set_outcome(
    strategy: PlacementStrategy,
    start: GridView,
    catalog: Seq<TileData>,
    map_size: int,
    iterations: int,
    max_iterations: int,
    end: GridView,
    end_iterations: int,
) -> bool {
    exists|first: int, picks: Seq<(usize, int)>|
        {
            &&& start.tiles[centre_index(map_size)].admits(first)
            &&& start.centred(catalog, map_size, first).follows(strategy, catalog, map_size, picks)
            &&& end == #[trigger] start.centred(catalog, map_size, first).run(
                catalog,
                map_size,
                picks,
            )
            &&& end_iterations == iterations + picks.len()
            &&& stops_at(iterations, picks.len() as int, max_iterations, end.uncollapsed)
        }
}

/// The state of the growing strategy: the grid, the queue of cells to
/// visit, and the iterations counted so far.
pub struct GrowingView {
    pub grid: GridView,
    pub queue: Seq<usize>,
    pub iterations: int,
}

/// The unresolved neighbours of cell `index` in the first `count`
/// directions, in the order of the directions.
pub open spec fn unresolved_neighbours(
    tiles: Seq<TileView>,
    map_size: int,
    index: int,
    count: nat,
) -> Seq<usize>
    decreases count,
{
    if count == 0 {
        Seq::empty()
    } else {
        let found = unresolved_neighbours(tiles, map_size, index, (count - 1) as nat);
        match neighbour(tiles[index].tile_position, all_directions()[count - 1], map_size) {
            Some(j) => if tiles[j].data is None {
                found.push(j as usize)
            } else {
                found
            },
            None => found,
        }
    }
}

/// The state in which the growing strategy starts: only the centre cell is
/// queued.
pub open spec fn growing_start(grid: GridView, map_size: int, iterations: int) -> GrowingView {
    GrowingView { grid, queue: seq![centre_index(map_size) as usize], iterations }
}

impl GrowingView {
    /// Whether the strategy goes on: a cell is queued, the budget is not used
    /// up, and a cell is open.
    pub open spec fn continues(self, max_iterations: int) -> bool {
        &&& self.queue.len() > 0
        &&& self.iterations < max_iterations
        &&& !self.grid.uncollapsed.is_empty()
    }

    /// The state after one turn with the draw `choice`. The cell at the
    /// front of the queue is taken from the queue and from the open set. A
    /// cell that is resolved already is passed over and no iteration is
    /// counted. Any other cell is asked to collapse, its neighbours that are
    /// then unresolved join the back of the queue, and one iteration is
    /// counted.
    pub open spec fn stepped(
        self,
        catalog: Seq<TileData>,
        map_size: int,
        choice: int,
    ) -> GrowingView {
        let chosen = self.queue.first();
        let opened = GridView {
            tiles: self.grid.tiles,
            uncollapsed: self.grid.uncollapsed.remove(chosen),
            placements: self.grid.placements,
        };
        if self.grid.tiles[chosen as int].data is Some {
            GrowingView { grid: opened, queue: self.queue.drop_first(), iterations: self.iterations }
        } else {
            let after = opened.collapsed(catalog, map_size, chosen as int, choice);
            GrowingView {
                grid: after,
                queue: self.queue.drop_first() + unresolved_neighbours(
                    after.tiles,
                    map_size,
                    chosen as int,
                    4,
                ),
                iterations: self.iterations + 1,
            }
        }
    }

    /// The state after one turn for each draw of `choices`.
    pub open spec fn run(
        self,
        catalog: Seq<TileData>,
        map_size: int,
        choices: Seq<int>,
    ) -> GrowingView
        decreases choices.len(),
    {
        if choices.len() == 0 {
            self
        } else {
            self.run(catalog, map_size, choices.drop_last()).stepped(
                catalog,
                map_size,
                choices.last(),
            )
        }
    }

    /// Whether `choices` is a course that the strategy can take from this
    /// state: before each turn the strategy goes on, and the draw is one
    /// that the cell at the front of the queue admits.
    pub open spec fn follows(
        self,
        catalog: Seq<TileData>,
        map_size: int,
        max_iterations: int,
        choices: Seq<int>,
    ) -> bool {
        forall|k: int|
            0 <= k < choices.len() ==> {
                let before = #[trigger] self.run(catalog, map_size, choices.take(k));
                &&& before.continues(max_iterations)
                &&& before.grid.tiles[before.queue.first() as int].admits(choices[k])
            }
    }
}

/// What the growing strategy does to a grid: from `start` at `iterations` it
/// reaches `end` at `end_iterations` by taking turns, with some draw at each,
/// for as long as it goes on.
pub open spec fn growing_outcome(
    start: GridView,
    catalog: Seq<TileData>,
    map_size: int,
    iterations: int,
    max_iterations: int,
    end: GridView,
    end_iterations: int,
) -> bool {
    exists|choices: Seq<int>|
        {
            &&& growing_start(start, map_size, iterations).follows(
                catalog,
                map_size,
                max_iterations,
                choices,
            )
            &&& !(#[trigger] growing_start(start, map_size, iterations).run(
                catalog,
                map_size,
                choices,
            )).continues(max_iterations)
            &&& end == growing_start(start, map_size, iterations).run(
                catalog,
                map_size,
                choices,
            ).grid
            &&& end_iterations == growing_start(start, map_size, iterations).run(
                catalog,
                map_size,
                choices,
            ).iterations
        }
}

/// What a strategy does to a grid.
pub open spec fn outcome(
    strategy: PlacementStrategy,
    start: GridView,
    catalog: Seq<TileData>,
    map_size: int,
    iterations: int,
    max_iterations: int,
    end: GridView,
    end_iterations: int,
) -> bool {
    match strategy {
        PlacementStrategy::Random | PlacementStrategy::LeastEntropy => open_set_outcome(
            strategy,
            start,
            catalog,
            map_size,
            iterations,
            max_iterations,
            end,
            end_iterations,
        ),
        PlacementStrategy::Growing => growing_outcome(
            start,
            catalog,
            map_size,
            iterations,
            max_iterations,
            end,
            end_iterations,
        ),
        PlacementStrategy::Ordered => ordered_outcome(
            start,
            catalog,
            map_size,
            iterations,
            max_iterations,
            end,
            end_iterations,
        ),
    }
}

/// Visiting one more cell after a course is the course with that pick added.
pub proof fn lemma_run_push(
    start: GridView,
    catalog: Seq<TileData>,
    map_size: int,
    picks: Seq<(usize, int)>,
    pick: (usize, int),
)
    ensures
        start.run(catalog, map_size, picks.push(pick)) == start.run(catalog, map_size, picks).visited(
            catalog,
            map_size,
            pick.0 as int,
            pick.1,
        ),
{
    assert(picks.push(pick).drop_last() =~= picks);
}

/// A course that a strategy can take stays one when a pick is added that the
/// strategy allows in the state the course has reached.
pub proof fn lemma_follows_push(
    start: GridView,
    strategy: PlacementStrategy,
    catalog: Seq<TileData>,
    map_size: int,
    picks: Seq<(usize, int)>,
    pick: (usize, int),
)
    requires
        start.follows(strategy, catalog, map_size, picks),
        pick.0 < start.run(catalog, map_size, picks).tiles.len(),
        start.run(catalog, map_size, picks).allows(strategy, picks.len() as int, pick.0),
        start.run(catalog, map_size, picks).tiles[pick.0 as int].admits(pick.1),
    ensures
        start.follows(strategy, catalog, map_size, picks.push(pick)),
{
    let longer = picks.push(pick);
    assert forall|k: int| 0 <= k < longer.len() implies {
        let before = #[trigger] start.run(catalog, map_size, longer.take(k));
        &&& longer[k].0 < before.tiles.len()
        &&& before.allows(strategy, k, longer[k].0)
        &&& before.tiles[longer[k].0 as int].admits(longer[k].1)
    } by {
        if k < picks.len() {
            assert(longer.take(k) =~= picks.take(k));
        } else {
            assert(longer.take(k) =~= picks);
        }
    }
}

/// One more turn after a course is the course with that draw added, and a
/// draw that the front cell admits, made while the strategy goes on, keeps
/// the course one that the strategy can take.
pub proof fn lemma_growing_push(
    start: GrowingView,
    catalog: Seq<TileData>,
    map_size: int,
    max_iterations: int,
    choices: Seq<int>,
    choice: int,
)
    requires
        start.follows(catalog, map_size, max_iterations, choices),
        start.run(catalog, map_size, choices).continues(max_iterations),
        start.run(catalog, map_size, choices).grid.tiles[start.run(
            catalog,
            map_size,
            choices,
        ).queue.first() as int].admits(choice),
    ensures
        start.follows(catalog, map_size, max_iterations, choices.push(choice)),
        start.run(catalog, map_size, choices.push(choice)) == start.run(
            catalog,
            map_size,
            choices,
        ).stepped(catalog, map_size, choice),
{
    let longer = choices.push(choice);
    assert(longer.drop_last() =~= choices);
    assert forall|k: int| 0 <= k < longer.len() implies {
        let before = #[trigger] start.run(catalog, map_size, longer.take(k));
        &&& before.continues(max_iterations)
        &&& before.grid.tiles[before.queue.first() as int].admits(longer[k])
    } by {
        if k < choices.len() {
            assert(longer.take(k) =~= choices.take(k));
        } else {
            assert(longer.take(k) =~= choices);
        }
    }
}

} // verus!
