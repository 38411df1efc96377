//! The solver: collapsing one cell, pushing its edges to the neighbours, and
//! the strategies that choose the next cell.

use vstd::prelude::*;
use std::collections::{BTreeSet, VecDeque};
use rand::rngs::StdRng;
use vstd::std_specs::btree::{increasing_seq, spec_btree_keys_iter};
use vstd::std_specs::iter::IteratorSpec;
use crate::direction::{all_directions, Direction};
use crate::grid::{cell_index, cell_x, cell_y, in_grid, Position};
use crate::iteration::lemma_iteration_ascends;
use crate::model::{
    centre_index, entropy, fresh_grid, grid_wf, growing_outcome, growing_start, least_entropy,
    lemma_follows_push, lemma_growing_push, lemma_run_push, lemma_side_is_small,
    open_cells_on_grid, open_set_outcome, ordered_outcome, outcome, unresolved_neighbours, views,
    GridView, GrowingView,
};
use crate::random::choose_member;
use crate::scene::{Placement, Scene};
use crate::tile::{all_tiles, catalog_ready, catalog_wf, Tile};
use crate::tile_data::TileData;

verus! {

/// The order in which cells are collapsed.
#[derive(Clone, Copy, Debug, PartialEq, Eq, Structural)]
pub enum PlacementStrategy {
    /// A cell drawn from the cells that are still open.
    Random,
    /// Breadth first, outward from the centre.
    Growing,
    /// Cell by cell, in the order of their numbers.
    Ordered,
    /// The open cell with the fewest candidates.
    LeastEntropy,
}

/// The solver. It writes the tiles it places to `scene`.
///
/// The solver borrows the scene for as long as it lives. Each of its methods
/// that can place a tile says what the scene holds when the method returns,
/// and that the solver still writes to the scene it was made with: what the
/// owner finds in the scene once the solver is gone is what the solver wrote
/// last.
pub struct WFC<'a> {
    pub scene: &'a mut Scene,
}

impl<'a> WFC<'a> {
    /// A solver that writes to `scene`.
    pub fn new(scene: &'a mut Scene) -> (solver: Self)
        ensures
            solver.placements() == old(scene)@,
            *final(solver.scene) == *final(scene),
    {
        WFC { scene }
    }

    /// What was placed in the scene so far.
    pub open spec fn placements(&self) -> Seq<Placement> {
        self.scene@
    }

    /// The state of a run, from the cells, the open set and this solver's scene.
    pub open spec fn grid_view(&self, tiles: Seq<Tile>, uncollapsed: Set<usize>) -> GridView {
        GridView { tiles: views(tiles), uncollapsed, placements: self.scene@ }
    }

    /// The number of the cell at `index`.
    pub fn index2dto1d(&self, index: Position, map_size: usize) -> (i: usize)
        requires
            in_grid(index.x as int, index.y as int, map_size as int),
            map_size * map_size <= usize::MAX,
        ensures
            i == cell_index(index.x as int, index.y as int, map_size as int),
            i < map_size * map_size,
    {
        proof {
            crate::grid::lemma_cell_index_in_range(
                index.x as int,
                index.y as int,
                map_size as int,
            );
            assert(0 <= index.y * map_size <= index.y * map_size + index.x);
        }
        index.y * map_size + index.x
    }

    /// The position of cell number `index`.
    pub fn index1dto2d(&self, index: usize, map_size: usize) -> (position: Position)
        requires
            map_size > 0,
        ensures
            position.x == cell_x(index as int, map_size as int),
            position.y == cell_y(index as int, map_size as int),
    {
        Position { x: index % map_size, y: index / map_size }
    }

    /// Lays the tiles of the catalog `tile_datas` out on a fresh grid of side
    /// `map_size`, in the order that `placement_strategy` gives, and writes
    /// each placed tile to the scene, behind what the scene held before.
    ///
    /// The run never fails: it ends when the strategy has no cell left to
    /// visit or has used `max_iterations` iterations. A cell that loses all
    /// its candidates stays empty.
    pub fn place_tiles(
        &mut self,
        placement_strategy: PlacementStrategy,
        map_size: usize,
        max_iterations: u32,
        random: &mut StdRng,
        tile_datas: &Vec<TileData>,
    )
        requires
            catalog_ready(tile_datas@),
            0 < map_size,
            map_size * map_size <= usize::MAX,
        ensures
            exists|end: GridView, end_iterations: int|
                {
                    &&& #[trigger] outcome(
                        placement_strategy,
                        fresh_grid(tile_datas@.len(), map_size as int, old(self).placements()),
                        tile_datas@,
                        map_size as int,
                        0,
                        max_iterations as int,
                        end,
                        end_iterations,
                    )
                    &&& final(self).placements() == end.placements
                },
            old(self).placements().is_prefix_of(final(self).placements()),
            *final(final(self).scene) == *final(old(self).scene),
    {
        broadcast use vstd::std_specs::btree::group_btree_axioms;

        let ghost fresh = fresh_grid(tile_datas@.len(), map_size as int, self.placements());
        let mut possible_tiles: Vec<usize> = Vec::new();
        let mut t: usize = 0;
        while t < tile_datas.len()
            invariant
                t <= tile_datas.len(),
                possible_tiles@ == all_tiles(t as nat),
            decreases tile_datas.len() - t,
        {
            possible_tiles.push(t);
            t += 1;
            assert(possible_tiles@ =~= all_tiles(t as nat));
        }
        // Fill the grid with cells that hold every possibility.
        let cells = map_size * map_size;
        let mut tiles: Vec<Tile> = Vec::new();
        // The numbers of the cells that have not collapsed.
        let mut uncollapsed_tiles: BTreeSet<usize> = BTreeSet::new();
        let mut i: usize = 0;
        while i < cells
            invariant
                i <= cells,
                cells == map_size * map_size,
                0 < map_size,
                possible_tiles@ == all_tiles(tile_datas@.len()),
                tiles@.len() == i,
                forall|j: int| 0 <= j < i ==> (#[trigger] tiles@[j])@ == fresh.tiles[j],
                uncollapsed_tiles@ == Set::new(|j: usize| j < i),
                fresh == fresh_grid(tile_datas@.len(), map_size as int, self.placements()),
            decreases cells - i,
        {
            let candidates = possible_tiles.clone();
            proof {
                assert(candidates@ =~= possible_tiles@);
                crate::grid::lemma_position_round_trip(i as int, map_size as int);
            }
            tiles.push(Tile::new(candidates, self.index1dto2d(i, map_size)));
            uncollapsed_tiles.insert(i);
            i += 1;
            proof {
                assert(uncollapsed_tiles@ =~= Set::new(|j: usize| j < i));
            }
        }
        let mut iterations: u32 = 0;
        proof {
            assert(views(tiles@) =~= fresh.tiles);
            assert(uncollapsed_tiles@ =~= fresh.uncollapsed);
            assert forall|j: int| 0 <= j < fresh.tiles.len() implies {
                &&& (#[trigger] fresh.tiles[j]).wf(tile_datas@)
                &&& fresh.tiles[j].tile_position.x == cell_x(j, map_size as int)
                &&& fresh.tiles[j].tile_position.y == cell_y(j, map_size as int)
            } by {
                crate::grid::lemma_position_round_trip(j, map_size as int);
            }
            assert(self.grid_view(tiles@, uncollapsed_tiles@) == fresh);
        }
        match placement_strategy {
            PlacementStrategy::Random => self.random_placement_strategy(
                tile_datas,
                &mut tiles,
                &mut uncollapsed_tiles,
                &mut iterations,
                map_size,
                max_iterations,
                random,
            ),
            PlacementStrategy::Growing => self.growing_placement_strategy(
                tile_datas,
                &mut tiles,
                &mut uncollapsed_tiles,
                &mut iterations,
                map_size,
                max_iterations,
                random,
            ),
            PlacementStrategy::Ordered => self.ordered_placement_strategy(
                tile_datas,
                &mut tiles,
                &mut uncollapsed_tiles,
                &mut iterations,
                map_size,
                max_iterations,
                random,
            ),
            PlacementStrategy::LeastEntropy => self.least_entropy_placement_strategy(
                tile_datas,
                &mut tiles,
                &mut uncollapsed_tiles,
                &mut iterations,
                map_size,
                max_iterations,
                random,
            ),
        }
        proof {
            assert(outcome(
                placement_strategy,
                fresh,
                tile_datas@,
                map_size as int,
                0,
                max_iterations as int,
                self.grid_view(tiles@, uncollapsed_tiles@),
                iterations as int,
            ));
            crate::progress::lemma_outcome_advances(
                placement_strategy,
                fresh,
                tile_datas@,
                map_size as int,
                0,
                max_iterations as int,
                self.grid_view(tiles@, uncollapsed_tiles@),
                iterations as int,
            );
        }
    }

    /// Asks cell `tile_index` to collapse and, if it did, shows its edges to
    /// the neighbours.
    ///
    /// A cell that is resolved or has no candidate left changes nothing.
    /// Otherwise a candidate is drawn, the cell leaves the open set, and each
    /// neighbour on the grid keeps the candidates that fit the new tile's
    /// edge; a neighbour that is left without candidates leaves the open set
    /// too. Nothing is pushed further than the four neighbours.
    pub fn collapse_tile(
        &mut self,
        catalog: &Vec<TileData>,
        tiles: &mut Vec<Tile>,
        uncollapsed_tiles: &mut BTreeSet<usize>,
        tile_index: usize,
        random: &mut StdRng,
        map_size: usize,
    )
        requires
            catalog_wf(catalog@),
            grid_wf(views(old(tiles)@), catalog@, map_size as int),
            tile_index < old(tiles).len(),
        ensures
            grid_wf(views(final(tiles)@), catalog@, map_size as int),
            final(uncollapsed_tiles)@.subset_of(old(uncollapsed_tiles)@),
            exists|choice: int|
                {
                    &&& old(tiles)[tile_index as int]@.admits(choice)
                    &&& final(self).grid_view(final(tiles)@, final(uncollapsed_tiles)@) == (
                    #[trigger] old(self).grid_view(old(tiles)@, old(uncollapsed_tiles)@).collapsed(
                        catalog@,
                        map_size as int,
                        tile_index as int,
                        choice,
                    ))
                },
            *final(final(self).scene) == *final(old(self).scene),
    {
        broadcast use vstd::std_specs::btree::group_btree_axioms;

        let ghost start = self.grid_view(tiles@, uncollapsed_tiles@);
        if !tiles[tile_index].collapse(catalog, self.scene, random) {
            proof {
                assert(self.grid_view(tiles@, uncollapsed_tiles@).tiles =~= start.tiles);
                assert(self.grid_view(tiles@, uncollapsed_tiles@) == start.collapsed(
                    catalog@,
                    map_size as int,
                    tile_index as int,
                    0,
                ));
            }
            return;
        }
        uncollapsed_tiles.remove(&tile_index);
        let ghost cell = start.tiles[tile_index as int];
        let ghost choice = choose|choice: int|
            {
                &&& 0 <= choice < cell.possible_tiles.len()
                &&& tiles[tile_index as int]@ == cell.collapsed(choice)
                &&& self.scene@ == start.placements.push(
                    #[trigger] cell.placement(catalog@, choice),
                )
            };
        let ghost base = GridView {
            tiles: start.tiles.update(tile_index as int, cell.collapsed(choice)),
            uncollapsed: start.uncollapsed.remove(tile_index),
            placements: start.placements.push(cell.placement(catalog@, choice)),
        };
        proof {
            assert(self.grid_view(tiles@, uncollapsed_tiles@).tiles =~= base.tiles);
            lemma_side_is_small(map_size as int, tiles.len() as int);
        }
        let directions = Direction::iterator();
        let mut k: usize = 0;
        while k < 4
            invariant
                k <= 4,
                directions@ == all_directions(),
                catalog_wf(catalog@),
                tile_index < tiles.len(),
                map_size <= 0xffff_ffff,
                grid_wf(views(tiles@), catalog@, map_size as int),
                tiles[tile_index as int].data is Some,
                uncollapsed_tiles@.subset_of(old(uncollapsed_tiles)@),
                self.grid_view(tiles@, uncollapsed_tiles@) == base.constrained_through(
                    catalog@,
                    map_size as int,
                    tile_index as int,
                    k as nat,
                ),
                *final(self.scene) == *final(old(self).scene),
            decreases 4 - k,
        {
            let ghost before = self.grid_view(tiles@, uncollapsed_tiles@);
            let direction = directions[k];
            let position = tiles[tile_index].tile_position;
            let vector = direction.get_vector();
            proof {
                crate::grid::lemma_position_round_trip(tile_index as int, map_size as int);
                assert(views(tiles@)[tile_index as int].wf(catalog@));
            }
            let neighbour_position = (
                position.x as i64 + vector.0 as i64,
                position.y as i64 + vector.1 as i64,
            );
            if self.within_grid(neighbour_position, map_size) {
                let neighbour_index = self.index2dto1d(
                    Position { x: neighbour_position.0 as usize, y: neighbour_position.1 as usize },
                    map_size,
                );
                if let Some(tile_data) = tiles[tile_index].data {
                    let source = &catalog[tile_data];
                    if tiles[neighbour_index].remove_options(
                        catalog,
                        direction.get_opposite(),
                        source.get_edge(direction),
                        source.get_suffix(direction),
                    ) {
                        uncollapsed_tiles.remove(&neighbour_index);
                    }
                }
            }
            proof {
                let after = before.constrained(
                    catalog@,
                    map_size as int,
                    tile_index as int,
                    direction,
                );
                assert(self.grid_view(tiles@, uncollapsed_tiles@).tiles =~= after.tiles);
                assert(self.grid_view(tiles@, uncollapsed_tiles@) == after);
            }
            k += 1;
        }
        proof {
            assert(self.grid_view(tiles@, uncollapsed_tiles@) == start.collapsed(
                catalog@,
                map_size as int,
                tile_index as int,
                choice,
            ));
        }
    }

    /// Asks the cell in the middle of the grid to collapse, as
    /// [`WFC::collapse_tile`] does, and takes it from the open set.
    pub fn collapse_center_tile(
        &mut self,
        catalog: &Vec<TileData>,
        tiles: &mut Vec<Tile>,
        uncollapsed_tiles: &mut BTreeSet<usize>,
        random: &mut StdRng,
        map_size: usize,
    )
        requires
            catalog_wf(catalog@),
            grid_wf(views(old(tiles)@), catalog@, map_size as int),
        ensures
            grid_wf(views(final(tiles)@), catalog@, map_size as int),
            final(uncollapsed_tiles)@.subset_of(old(uncollapsed_tiles)@),
            exists|choice: int|
                {
                    &&& old(tiles)[centre_index(map_size as int)]@.admits(choice)
                    &&& final(self).grid_view(final(tiles)@, final(uncollapsed_tiles)@) == (
                    #[trigger] old(self).grid_view(old(tiles)@, old(uncollapsed_tiles)@).centred(
                        catalog@,
                        map_size as int,
                        choice,
                    ))
                },
            *final(final(self).scene) == *final(old(self).scene),
    {
        broadcast use vstd::std_specs::btree::group_btree_axioms;

        let ghost start = self.grid_view(tiles@, uncollapsed_tiles@);
        assert(start.tiles.len() == tiles.len());
        let center_tile_index = self.index2dto1d(
            Position { x: map_size / 2, y: map_size / 2 },
            map_size,
        );
        self.collapse_tile(catalog, tiles, uncollapsed_tiles, center_tile_index, random, map_size);
        let ghost after = self.grid_view(tiles@, uncollapsed_tiles@);
        uncollapsed_tiles.remove(&center_tile_index);
        proof {
            let choice = choose|choice: int|
                {
                    &&& start.tiles[center_tile_index as int].admits(choice)
                    &&& after == (#[trigger] start.collapsed(
                        catalog@,
                        map_size as int,
                        center_tile_index as int,
                        choice,
                    ))
                };
            assert(self.grid_view(tiles@, uncollapsed_tiles@) == start.centred(
                catalog@,
                map_size as int,
                choice,
            ));
        }
    }

    /// Collapses the centre cell, then visits cells drawn from the open set
    /// until the set is empty or `iterations` has reached `max_iterations`.
    /// Each visit counts as one iteration.
    pub fn random_placement_strategy(
        &mut self,
        catalog: &Vec<TileData>,
        tiles: &mut Vec<Tile>,
        uncollapsed_tiles: &mut BTreeSet<usize>,
        iterations: &mut u32,
        map_size: usize,
        max_iterations: u32,
        random: &mut StdRng,
    )
        requires
            catalog_wf(catalog@),
            grid_wf(views(old(tiles)@), catalog@, map_size as int),
            open_cells_on_grid(old(uncollapsed_tiles)@, old(tiles).len() as int),
        ensures
            grid_wf(views(final(tiles)@), catalog@, map_size as int),
            final(uncollapsed_tiles)@.subset_of(old(uncollapsed_tiles)@),
            open_set_outcome(
                PlacementStrategy::Random,
                old(self).grid_view(old(tiles)@, old(uncollapsed_tiles)@),
                catalog@,
                map_size as int,
                *old(iterations) as int,
                max_iterations as int,
                final(self).grid_view(final(tiles)@, final(uncollapsed_tiles)@),
                *final(iterations) as int,
            ),
            *final(final(self).scene) == *final(old(self).scene),
    {
        broadcast use vstd::std_specs::btree::group_btree_axioms;

        let ghost start = self.grid_view(tiles@, uncollapsed_tiles@);
        let ghost cells = tiles@;
        self.collapse_center_tile(catalog, tiles, uncollapsed_tiles, random, map_size);
        let ghost centred = self.grid_view(tiles@, uncollapsed_tiles@);
        let ghost first = choose|choice: int|
            {
                &&& cells[centre_index(map_size as int)]@.admits(choice)
                &&& centred == (#[trigger] start.centred(catalog@, map_size as int, choice))
            };
        let ghost mut picks = Seq::<(usize, int)>::empty();
        while *iterations < max_iterations && !uncollapsed_tiles.is_empty()
            invariant
                catalog_wf(catalog@),
                grid_wf(views(tiles@), catalog@, map_size as int),
                *iterations == *old(iterations) + picks.len(),
                *iterations <= max_iterations || picks.len() == 0,
                uncollapsed_tiles@.subset_of(old(uncollapsed_tiles)@),
                open_cells_on_grid(old(uncollapsed_tiles)@, tiles.len() as int),
                centred.follows(PlacementStrategy::Random, catalog@, map_size as int, picks),
                self.grid_view(tiles@, uncollapsed_tiles@) == centred.run(
                    catalog@,
                    map_size as int,
                    picks,
                ),
                *final(self.scene) == *final(old(self).scene),
            decreases max_iterations - *iterations,
        {
            let ghost before = self.grid_view(tiles@, uncollapsed_tiles@);
            let choosen_tile = choose_member(uncollapsed_tiles, random).expect("Set is not empty");
            uncollapsed_tiles.remove(&choosen_tile);
            let ghost opened = self.grid_view(tiles@, uncollapsed_tiles@);
            self.collapse_tile(catalog, tiles, uncollapsed_tiles, choosen_tile, random, map_size);
            *iterations += 1;
            proof {
                let choice = choose|choice: int|
                    {
                        &&& before.tiles[choosen_tile as int].admits(choice)
                        &&& self.grid_view(tiles@, uncollapsed_tiles@) == (
                        #[trigger] opened.collapsed(
                            catalog@,
                            map_size as int,
                            choosen_tile as int,
                            choice,
                        ))
                    };
                let pick = (choosen_tile, choice);
                lemma_follows_push(
                    centred,
                    PlacementStrategy::Random,
                    catalog@,
                    map_size as int,
                    picks,
                    pick,
                );
                lemma_run_push(centred, catalog@, map_size as int, picks, pick);
                picks = picks.push(pick);
            }
        }
        proof {
            crate::grid::lemma_cell_index_in_range(
                map_size as int / 2,
                map_size as int / 2,
                map_size as int,
            );
            assert(start.tiles[centre_index(map_size as int)] == cells[centre_index(
                map_size as int,
            )]@);
            assert(self.grid_view(tiles@, uncollapsed_tiles@) == start.centred(
                catalog@,
                map_size as int,
                first,
            ).run(catalog@, map_size as int, picks));
        }
    }

    /// The open cell with the fewest candidates; among several with as few,
    /// the first that a walk through the open set meets, which is the one
    /// with the smallest number. `None` when no cell is open.
    pub fn least_entropy_tile(
        &self,
        tiles: &Vec<Tile>,
        uncollapsed_tiles: &BTreeSet<usize>,
    ) -> (found: Option<usize>)
        requires
            open_cells_on_grid(uncollapsed_tiles@, tiles.len() as int),
        ensures
            match found {
                Some(index) => least_entropy(views(tiles@), uncollapsed_tiles@, index),
                None => uncollapsed_tiles@.is_empty(),
            },
    {
        broadcast use vstd::std_specs::btree::group_btree_axioms;

        let mut least: Option<usize> = None;
        let mut least_entropy_count: usize = usize::MAX;
        let ghost order = spec_btree_keys_iter(uncollapsed_tiles).remaining();
        let ghost cells = views(tiles@);
        let ghost mut at: int = 0;
        for tile_index in it: uncollapsed_tiles.iter()
            invariant
                it.seq() == order,
                order.unref().to_set() == uncollapsed_tiles@,
                increasing_seq(order),
                open_cells_on_grid(uncollapsed_tiles@, tiles.len() as int),
                cells == views(tiles@),
                least is None <==> it.index() == 0,
                least matches Some(index) ==> {
                    &&& 0 <= at < it.index()
                    &&& *order[at] == index
                    &&& least_entropy_count == entropy(cells, index)
                    &&& forall|j: int|
                        0 <= j < it.index() ==> entropy(cells, index) < entropy(
                            cells,
                            #[trigger] order.unref()[j],
                        ) || (entropy(cells, index) == entropy(cells, order.unref()[j]) && index
                            <= order.unref()[j])
                },
        {
            proof {
                assert(order.unref()[it.index()] == *tile_index);
                assert(uncollapsed_tiles@.contains(*tile_index));
                lemma_iteration_ascends(order);
            }
            let tile_entropy = tiles[*tile_index].possible_tiles.len();
            if least.is_none() || tile_entropy < least_entropy_count {
                least_entropy_count = tile_entropy;
                least = Some(*tile_index);
                proof {
                    at = it.index();
                }
            }
        }
        proof {
            match least {
                Some(index) => {
                    assert(order.unref()[at] == index);
                    assert forall|other: usize| #[trigger]
                        uncollapsed_tiles@.contains(other) implies entropy(cells, index) < entropy(
                        cells,
                        other,
                    ) || (entropy(cells, index) == entropy(cells, other) && index <= other) by {
                        assert(order.unref().to_set().contains(other));
                        let j = choose|j: int|
                            0 <= j < order.unref().len() && order.unref()[j] == other;
                        assert(order.unref()[j] == other);
                    }
                },
                None => {
                    assert forall|other: usize| !uncollapsed_tiles@.contains(other) by {
                        if order.unref().to_set().contains(other) {
                            let j = choose|j: int|
                                0 <= j < order.unref().len() && order.unref()[j] == other;
                        }
                    }
                    assert(uncollapsed_tiles@ =~= Set::<usize>::empty());
                },
            }
        }
        least
    }

    /// Collapses the centre cell, then visits the open cell with the fewest
    /// candidates, as [`WFC::least_entropy_tile`] finds it, until no cell is
    /// open or `iterations` has reached `max_iterations`. Each visit counts
    /// as one iteration.
    pub fn least_entropy_placement_strategy(
        &mut self,
        catalog: &Vec<TileData>,
        tiles: &mut Vec<Tile>,
        uncollapsed_tiles: &mut BTreeSet<usize>,
        iterations: &mut u32,
        map_size: usize,
        max_iterations: u32,
        random: &mut StdRng,
    )
        requires
            catalog_wf(catalog@),
            grid_wf(views(old(tiles)@), catalog@, map_size as int),
            open_cells_on_grid(old(uncollapsed_tiles)@, old(tiles).len() as int),
        ensures
            grid_wf(views(final(tiles)@), catalog@, map_size as int),
            final(uncollapsed_tiles)@.subset_of(old(uncollapsed_tiles)@),
            open_set_outcome(
                PlacementStrategy::LeastEntropy,
                old(self).grid_view(old(tiles)@, old(uncollapsed_tiles)@),
                catalog@,
                map_size as int,
                *old(iterations) as int,
                max_iterations as int,
                final(self).grid_view(final(tiles)@, final(uncollapsed_tiles)@),
                *final(iterations) as int,
            ),
            *final(final(self).scene) == *final(old(self).scene),
    {
        broadcast use vstd::std_specs::btree::group_btree_axioms;

        let ghost start = self.grid_view(tiles@, uncollapsed_tiles@);
        let ghost cells = tiles@;
        self.collapse_center_tile(catalog, tiles, uncollapsed_tiles, random, map_size);
        let ghost centred = self.grid_view(tiles@, uncollapsed_tiles@);
        let ghost first = choose|choice: int|
            {
                &&& cells[centre_index(map_size as int)]@.admits(choice)
                &&& centred == (#[trigger] start.centred(catalog@, map_size as int, choice))
            };
        let ghost mut picks = Seq::<(usize, int)>::empty();
        while *iterations < max_iterations && !uncollapsed_tiles.is_empty()
            invariant
                catalog_wf(catalog@),
                grid_wf(views(tiles@), catalog@, map_size as int),
                *iterations == *old(iterations) + picks.len(),
                *iterations <= max_iterations || picks.len() == 0,
                uncollapsed_tiles@.subset_of(old(uncollapsed_tiles)@),
                open_cells_on_grid(old(uncollapsed_tiles)@, tiles.len() as int),
                centred.follows(PlacementStrategy::LeastEntropy, catalog@, map_size as int, picks),
                self.grid_view(tiles@, uncollapsed_tiles@) == centred.run(
                    catalog@,
                    map_size as int,
                    picks,
                ),
                *final(self.scene) == *final(old(self).scene),
            decreases max_iterations - *iterations,
        {
            let ghost before = self.grid_view(tiles@, uncollapsed_tiles@);
            let least_entropy_index = self.least_entropy_tile(tiles, uncollapsed_tiles).expect(
                "Set is not empty",
            );
            uncollapsed_tiles.remove(&least_entropy_index);
            let ghost opened = self.grid_view(tiles@, uncollapsed_tiles@);
            self.collapse_tile(
                catalog,
                tiles,
                uncollapsed_tiles,
                least_entropy_index,
                random,
                map_size,
            );
            *iterations += 1;
            proof {
                let choice = choose|choice: int|
                    {
                        &&& before.tiles[least_entropy_index as int].admits(choice)
                        &&& self.grid_view(tiles@, uncollapsed_tiles@) == (
                        #[trigger] opened.collapsed(
                            catalog@,
                            map_size as int,
                            least_entropy_index as int,
                            choice,
                        ))
                    };
                let pick = (least_entropy_index, choice);
                lemma_follows_push(
                    centred,
                    PlacementStrategy::LeastEntropy,
                    catalog@,
                    map_size as int,
                    picks,
                    pick,
                );
                lemma_run_push(centred, catalog@, map_size as int, picks, pick);
                picks = picks.push(pick);
            }
        }
        proof {
            crate::grid::lemma_cell_index_in_range(
                map_size as int / 2,
                map_size as int / 2,
                map_size as int,
            );
            assert(start.tiles[centre_index(map_size as int)] == cells[centre_index(
                map_size as int,
            )]@);
            assert(self.grid_view(tiles@, uncollapsed_tiles@) == start.centred(
                catalog@,
                map_size as int,
                first,
            ).run(catalog@, map_size as int, picks));
        }
    }

    /// Visits the cells breadth first from the centre: the cell at the front
    /// of a queue that starts with the centre cell is taken from the queue
    /// and from the open set; unless it is resolved already, it is asked to
    /// collapse, its unresolved neighbours are queued and one iteration is
    /// counted. This goes on until the queue or the open set is empty or
    /// `iterations` has reached `max_iterations`.
    pub fn growing_placement_strategy(
        &mut self,
        catalog: &Vec<TileData>,
        tiles: &mut Vec<Tile>,
        uncollapsed_tiles: &mut BTreeSet<usize>,
        iterations: &mut u32,
        map_size: usize,
        max_iterations: u32,
        random: &mut StdRng,
    )
        requires
            catalog_wf(catalog@),
            grid_wf(views(old(tiles)@), catalog@, map_size as int),
        ensures
            grid_wf(views(final(tiles)@), catalog@, map_size as int),
            final(uncollapsed_tiles)@.subset_of(old(uncollapsed_tiles)@),
            growing_outcome(
                old(self).grid_view(old(tiles)@, old(uncollapsed_tiles)@),
                catalog@,
                map_size as int,
                *old(iterations) as int,
                max_iterations as int,
                final(self).grid_view(final(tiles)@, final(uncollapsed_tiles)@),
                *final(iterations) as int,
            ),
            *final(final(self).scene) == *final(old(self).scene),
    {
        broadcast use vstd::std_specs::btree::group_btree_axioms;
        broadcast use vstd::std_specs::vecdeque::group_vec_dequeue_axioms;

        let ghost start = growing_start(
            self.grid_view(tiles@, uncollapsed_tiles@),
            map_size as int,
            *iterations as int,
        );
        let ghost mut choices = Seq::<int>::empty();
        assert(views(tiles@).len() == tiles.len());
        let mut tiles_queue = VecDeque::<usize>::new();
        tiles_queue.push_back(
            self.index2dto1d(Position { x: map_size / 2, y: map_size / 2 }, map_size),
        );
        proof {
            assert(tiles_queue@ =~= start.queue);
            lemma_side_is_small(map_size as int, tiles.len() as int);
        }
        while tiles_queue.len() != 0 && *iterations < max_iterations
            && !uncollapsed_tiles.is_empty()
            invariant
                catalog_wf(catalog@),
                grid_wf(views(tiles@), catalog@, map_size as int),
                map_size <= 0xffff_ffff,
                uncollapsed_tiles@.subset_of(old(uncollapsed_tiles)@),
                forall|q: int| 0 <= q < tiles_queue@.len() ==> tiles_queue@[q] < tiles.len(),
                start.follows(catalog@, map_size as int, max_iterations as int, choices),
                start.run(catalog@, map_size as int, choices) == (GrowingView {
                    grid: self.grid_view(tiles@, uncollapsed_tiles@),
                    queue: tiles_queue@,
                    iterations: *iterations as int,
                }),
                *final(self.scene) == *final(old(self).scene),
            decreases max_iterations - *iterations, tiles_queue@.len(),
        {
            let ghost before = GrowingView {
                grid: self.grid_view(tiles@, uncollapsed_tiles@),
                queue: tiles_queue@,
                iterations: *iterations as int,
            };
            let choosen_tile = tiles_queue.pop_front().expect("Queue is not empty");
            uncollapsed_tiles.remove(&choosen_tile);
            let ghost opened = self.grid_view(tiles@, uncollapsed_tiles@);
            let ghost rest = tiles_queue@;
            assert(rest =~= before.queue.drop_first());
            if tiles[choosen_tile].data.is_some() {
                // The cell was resolved while it waited: this turn is no iteration.
                proof {
                    assert(before.grid.tiles[choosen_tile as int].admits(0));
                    lemma_growing_push(
                        start,
                        catalog@,
                        map_size as int,
                        max_iterations as int,
                        choices,
                        0,
                    );
                    choices = choices.push(0);
                }
            } else {
                self.collapse_tile(
                    catalog,
                    tiles,
                    uncollapsed_tiles,
                    choosen_tile,
                    random,
                    map_size,
                );
                let ghost choice = choose|choice: int|
                    {
                        &&& before.grid.tiles[choosen_tile as int].admits(choice)
                        &&& self.grid_view(tiles@, uncollapsed_tiles@) == (
                        #[trigger] opened.collapsed(
                            catalog@,
                            map_size as int,
                            choosen_tile as int,
                            choice,
                        ))
                    };
                let directions = Direction::iterator();
                let mut k: usize = 0;
                while k < 4
                    invariant
                        k <= 4,
                        directions@ == all_directions(),
                        choosen_tile < tiles.len(),
                        map_size <= 0xffff_ffff,
                        grid_wf(views(tiles@), catalog@, map_size as int),
                        forall|q: int|
                            0 <= q < tiles_queue@.len() ==> tiles_queue@[q] < tiles.len(),
                        tiles_queue@ == rest + unresolved_neighbours(
                            views(tiles@),
                            map_size as int,
                            choosen_tile as int,
                            k as nat,
                        ),
                    decreases 4 - k,
                {
                    let direction = directions[k];
                    let position = tiles[choosen_tile].tile_position;
                    let vector = direction.get_vector();
                    proof {
                        crate::grid::lemma_position_round_trip(
                            choosen_tile as int,
                            map_size as int,
                        );
                        assert(views(tiles@)[choosen_tile as int].wf(catalog@));
                    }
                    let neighbour_position = (
                        position.x as i64 + vector.0 as i64,
                        position.y as i64 + vector.1 as i64,
                    );
                    if self.within_grid(neighbour_position, map_size) {
                        let neighbour_index = self.index2dto1d(
                            Position {
                                x: neighbour_position.0 as usize,
                                y: neighbour_position.1 as usize,
                            },
                            map_size,
                        );
                        if tiles[neighbour_index].data.is_none() {
                            // The cell may be queued already; a second visit passes over it.
                            tiles_queue.push_back(neighbour_index);
                        }
                    }
                    proof {
                        assert(tiles_queue@ =~= rest + unresolved_neighbours(
                            views(tiles@),
                            map_size as int,
                            choosen_tile as int,
                            (k + 1) as nat,
                        ));
                    }
                    k += 1;
                }
                *iterations += 1;
                proof {
                    lemma_growing_push(
                        start,
                        catalog@,
                        map_size as int,
                        max_iterations as int,
                        choices,
                        choice,
                    );
                    choices = choices.push(choice);
                }
            }
        }
        proof {
            assert(!start.run(catalog@, map_size as int, choices).continues(max_iterations as int));
        }
    }

    /// Visits the cells in the order of their numbers, from cell 0 on, until
    /// every cell was visited, no cell is open, or `iterations` has reached
    /// `max_iterations`. Each visit counts as one iteration.
    pub fn ordered_placement_strategy(
        &mut self,
        catalog: &Vec<TileData>,
        tiles: &mut Vec<Tile>,
        uncollapsed_tiles: &mut BTreeSet<usize>,
        iterations: &mut u32,
        map_size: usize,
        max_iterations: u32,
        random: &mut StdRng,
    )
        requires
            catalog_wf(catalog@),
            grid_wf(views(old(tiles)@), catalog@, map_size as int),
        ensures
            grid_wf(views(final(tiles)@), catalog@, map_size as int),
            final(uncollapsed_tiles)@.subset_of(old(uncollapsed_tiles)@),
            ordered_outcome(
                old(self).grid_view(old(tiles)@, old(uncollapsed_tiles)@),
                catalog@,
                map_size as int,
                *old(iterations) as int,
                max_iterations as int,
                final(self).grid_view(final(tiles)@, final(uncollapsed_tiles)@),
                *final(iterations) as int,
            ),
            *final(final(self).scene) == *final(old(self).scene),
    {
        broadcast use vstd::std_specs::btree::group_btree_axioms;

        let ghost start = self.grid_view(tiles@, uncollapsed_tiles@);
        let ghost mut picks = Seq::<(usize, int)>::empty();
        let cells = tiles.len();
        let mut tile_index: usize = 0;
        assert(views(tiles@).len() == tiles.len());
        while tile_index < cells && *iterations < max_iterations && !uncollapsed_tiles.is_empty()
            invariant
                catalog_wf(catalog@),
                grid_wf(views(tiles@), catalog@, map_size as int),
                cells == tiles.len(),
                cells == map_size * map_size,
                tile_index <= cells,
                tile_index == picks.len(),
                *iterations == *old(iterations) + picks.len(),
                *iterations <= max_iterations || picks.len() == 0,
                uncollapsed_tiles@.subset_of(old(uncollapsed_tiles)@),
                start.follows(PlacementStrategy::Ordered, catalog@, map_size as int, picks),
                self.grid_view(tiles@, uncollapsed_tiles@) == start.run(
                    catalog@,
                    map_size as int,
                    picks,
                ),
                *final(self.scene) == *final(old(self).scene),
            decreases cells - tile_index,
        {
            let ghost before = self.grid_view(tiles@, uncollapsed_tiles@);
            uncollapsed_tiles.remove(&tile_index);
            let ghost opened = self.grid_view(tiles@, uncollapsed_tiles@);
            self.collapse_tile(catalog, tiles, uncollapsed_tiles, tile_index, random, map_size);
            *iterations += 1;
            proof {
                let choice = choose|choice: int|
                    {
                        &&& before.tiles[tile_index as int].admits(choice)
                        &&& self.grid_view(tiles@, uncollapsed_tiles@) == (
                        #[trigger] opened.collapsed(
                            catalog@,
                            map_size as int,
                            tile_index as int,
                            choice,
                        ))
                    };
                let pick = (tile_index, choice);
                lemma_follows_push(
                    start,
                    PlacementStrategy::Ordered,
                    catalog@,
                    map_size as int,
                    picks,
                    pick,
                );
                lemma_run_push(start, catalog@, map_size as int, picks, pick);
                picks = picks.push(pick);
            }
            tile_index += 1;
        }
        proof {
            assert(self.grid_view(tiles@, uncollapsed_tiles@) == start.run(
                catalog@,
                map_size as int,
                picks,
            ));
        }
    }

    /// Whether the column and row `index` lie on the grid.
    pub fn within_grid(&self, index: (i64, i64), map_size: usize) -> (inside: bool)
        ensures
            inside == in_grid(index.0 as int, index.1 as int, map_size as int),
    {
        index.0 >= 0 && index.1 >= 0 && (index.0 as u64) < (map_size as u64) && (index.1 as u64) < (
        map_size as u64)
    }
}

} // verus!
