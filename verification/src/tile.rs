//! One cell of the grid: the tile it was resolved to, or the tiles it may
//! still become.

use vstd::prelude::*;
use rand::rngs::StdRng;
use crate::direction::Direction;
use crate::grid::Position;
use crate::random::{total_weight, weighted_draw};
use crate::scene::{Placement, Scene};
use crate::tile_data::{suffix_view, TileData};

verus! {

/// A cell. `data` and `possible_tiles` hold indices into the catalog.
///
/// A fresh cell has no tile and a list of candidates. Collapsing it picks one
/// candidate, stores it in `data` and clears the list; until then the list
/// only shrinks.
pub struct Tile {
    pub data: Option<usize>,
    pub possible_tiles: Vec<usize>,
    pub tile_position: Position,
}

/// What a cell holds, as plain values.
pub struct TileView {
    pub data: Option<usize>,
    pub possible_tiles: Seq<usize>,
    pub tile_position: Position,
}

impl View for Tile {
    type V = TileView;

    open spec fn view(&self) -> TileView {
        TileView {
            data: self.data,
            possible_tiles: self.possible_tiles@,
            tile_position: self.tile_position,
        }
    }
}

/// Every tile of the catalog has a positive weight.
pub open spec fn catalog_wf(catalog: Seq<TileData>) -> bool {
    forall|t: int| 0 <= t < catalog.len() ==> (#[trigger] catalog[t]).weight > 0
}

/// The weights of the candidates, in the candidates' order.
pub open spec fn weights_of(catalog: Seq<TileData>, candidates: Seq<usize>) -> Seq<u32> {
    Seq::new(candidates.len(), |k: int| catalog[candidates[k] as int].weight)
}

/// The test that a candidate passes when its edge towards `direction` may
/// face an edge labelled `edge` with suffix `suffix`.
pub open spec fn fits(
    catalog: Seq<TileData>,
    direction: Direction,
    edge: Seq<char>,
    suffix: Option<Seq<char>>,
) -> spec_fn(usize) -> bool {
    |t: usize| catalog[t as int].accepts(direction, edge, suffix)
}

impl TileView {
    /// The candidates and the resolved tile are tiles of the catalog, and the
    /// candidates' weights add up within `u32`.
    pub open spec fn wf(self, catalog: Seq<TileData>) -> bool {
        &&& forall|k: int|
            0 <= k < self.possible_tiles.len() ==> (#[trigger] self.possible_tiles[k])
                < catalog.len()
        &&& self.data matches Some(t) ==> t < catalog.len()
        &&& total_weight(weights_of(catalog, self.possible_tiles)) <= u32::MAX
    }

    /// A cell can collapse while it is unresolved and has a candidate left.
    pub open spec fn can_collapse(self) -> bool {
        self.data is None && self.possible_tiles.len() > 0
    }

    /// An unresolved cell without candidates: it can never collapse.
    pub open spec fn is_contradiction(self) -> bool {
        self.data is None && self.possible_tiles.len() == 0
    }

    /// The cell after it was resolved to its candidate number `choice`.
    pub open spec fn collapsed(self, choice: int) -> TileView {
        TileView {
            data: Some(self.possible_tiles[choice]),
            possible_tiles: Seq::empty(),
            tile_position: self.tile_position,
        }
    }

    /// What the scene receives when the cell is resolved to its candidate
    /// number `choice`.
    pub open spec fn placement(self, catalog: Seq<TileData>, choice: int) -> Placement {
        Placement {
            model: catalog[self.possible_tiles[choice] as int].model,
            x: self.tile_position.x,
            y: self.tile_position.y,
        }
    }

    /// The cell after its candidates were held against a neighbour's edge:
    /// those that fit stay, in their order.
    pub open spec fn reduced(
        self,
        catalog: Seq<TileData>,
        direction: Direction,
        edge: Seq<char>,
        suffix: Option<Seq<char>>,
    ) -> TileView {
        TileView {
            data: self.data,
            possible_tiles: self.possible_tiles.filter(fits(catalog, direction, edge, suffix)),
            tile_position: self.tile_position,
        }
    }
}

/// The numbers of all tiles of a catalog of `count` tiles, in order.
pub open spec fn all_tiles(count: nat) -> Seq<usize> {
    Seq::new(count, |t: int| t as usize)
}

/// A catalog that a grid can be filled from: every tile has a positive
/// weight, and all weights together fit in `u32`.
pub open spec fn catalog_ready(catalog: Seq<TileData>) -> bool {
    &&& catalog_wf(catalog)
    &&& total_weight(weights_of(catalog, all_tiles(catalog.len()))) <= u32::MAX
}

/// Whether a grid can be filled from `catalog`.
pub fn is_catalog_ready(catalog: &Vec<TileData>) -> (ready: bool)
    ensures
        ready == catalog_ready(catalog@),
{
    let ghost weights = weights_of(catalog@, all_tiles(catalog@.len()));
    let mut total: u32 = 0;
    let mut t: usize = 0;
    while t < catalog.len()
        invariant
            t <= catalog.len(),
            weights == weights_of(catalog@, all_tiles(catalog@.len())),
            total == total_weight(weights.take(t as int)),
            forall|k: int| 0 <= k < t ==> (#[trigger] catalog@[k]).weight > 0,
        decreases catalog.len() - t,
    {
        let weight = catalog[t].weight;
        proof {
            assert(weights.take(t + 1).drop_last() =~= weights.take(t as int));
            assert(weights.take(t + 1).last() == weight);
            lemma_total_weight_grows(weights, t + 1);
        }
        if weight == 0 || weight > u32::MAX - total {
            return false;
        }
        total = total + weight;
        t += 1;
    }
    assert(weights.take(catalog.len() as int) =~= weights);
    true
}

/// Weights add up to more, or the same, when weights are added behind them.
pub proof fn lemma_total_weight_grows(weights: Seq<u32>, shorter: int)
    requires
        0 <= shorter <= weights.len(),
    ensures
        total_weight(weights.take(shorter)) <= total_weight(weights),
    decreases weights.len() - shorter,
{
    if shorter < weights.len() {
        lemma_total_weight_grows(weights, shorter + 1);
        assert(weights.take(shorter + 1).drop_last() =~= weights.take(shorter));
    } else {
        assert(weights.take(shorter) =~= weights);
    }
}

/// Weights that are all positive, on a list that is not empty, add up to
/// more than zero.
pub proof fn lemma_total_weight_positive(weights: Seq<u32>)
    requires
        weights.len() > 0,
        forall|k: int| 0 <= k < weights.len() ==> weights[k] > 0,
    ensures
        total_weight(weights) > 0,
{
    lemma_total_weight_nonnegative(weights.drop_last());
}

/// A sum of weights is never negative.
pub proof fn lemma_total_weight_nonnegative(weights: Seq<u32>)
    ensures
        total_weight(weights) >= 0,
    decreases weights.len(),
{
    if weights.len() > 0 {
        lemma_total_weight_nonnegative(weights.drop_last());
    }
}

/// The candidates that pass a test weigh no more than all of them.
pub proof fn lemma_filter_weighs_less(
    catalog: Seq<TileData>,
    candidates: Seq<usize>,
    pred: spec_fn(usize) -> bool,
)
    ensures
        total_weight(weights_of(catalog, candidates.filter(pred))) <= total_weight(
            weights_of(catalog, candidates),
        ),
    decreases candidates.len(),
{
    reveal(Seq::filter);
    if candidates.len() > 0 {
        let rest = candidates.drop_last();
        lemma_filter_weighs_less(catalog, rest, pred);
        assert(weights_of(catalog, candidates).drop_last() =~= weights_of(catalog, rest));
        if pred(candidates.last()) {
            let kept = rest.filter(pred).push(candidates.last());
            assert(weights_of(catalog, kept).drop_last() =~= weights_of(
                catalog,
                rest.filter(pred),
            ));
        }
    } else {
        assert(candidates.filter(pred) =~= candidates);
    }
}

/// One request to hold a cell's candidates against a neighbour's edge: the
/// side of the cell that faces the neighbour, and the label and suffix that
/// the neighbour shows there.
pub struct Constraint {
    pub direction: Direction,
    pub edge: Seq<char>,
    pub suffix: Option<Seq<char>>,
}

impl TileView {
    /// The cell after its candidates were held against each of
    /// `constraints` in turn.
    pub open spec fn reduced_by(
        self,
        catalog: Seq<TileData>,
        constraints: Seq<Constraint>,
    ) -> TileView
        decreases constraints.len(),
    {
        if constraints.len() == 0 {
            self
        } else {
            let last = constraints.last();
            self.reduced_by(catalog, constraints.drop_last()).reduced(
                catalog,
                last.direction,
                last.edge,
                last.suffix,
            )
        }
    }
}

/// Holding the candidates against an edge never adds a candidate, and keeps
/// the resolved tile and the position.
pub proof fn lemma_reduced_shrinks(
    cell: TileView,
    catalog: Seq<TileData>,
    direction: Direction,
    edge: Seq<char>,
    suffix: Option<Seq<char>>,
)
    ensures
        cell.reduced(catalog, direction, edge, suffix).possible_tiles.len()
            <= cell.possible_tiles.len(),
        cell.reduced(catalog, direction, edge, suffix).data == cell.data,
        cell.reduced(catalog, direction, edge, suffix).tile_position == cell.tile_position,
{
    cell.possible_tiles.lemma_filter_len(fits(catalog, direction, edge, suffix));
}

/// Over any sequence of such requests the number of candidates never grows:
/// after more of them a cell has at most as many candidates as after fewer.
/// So a cell that has lost its last candidate has none ever after.
pub proof fn lemma_candidates_only_shrink(
    cell: TileView,
    catalog: Seq<TileData>,
    constraints: Seq<Constraint>,
    fewer: int,
    more: int,
)
    requires
        0 <= fewer <= more <= constraints.len(),
    ensures
        cell.reduced_by(catalog, constraints.take(more)).possible_tiles.len() <= cell.reduced_by(
            catalog,
            constraints.take(fewer),
        ).possible_tiles.len(),
        cell.reduced_by(catalog, constraints.take(fewer)).possible_tiles.len() == 0
            ==> cell.reduced_by(catalog, constraints.take(more)).possible_tiles.len() == 0,
    decreases more - fewer,
{
    if fewer < more {
        lemma_candidates_only_shrink(cell, catalog, constraints, fewer, more - 1);
        let last = constraints[more - 1];
        assert(constraints.take(more).drop_last() =~= constraints.take(more - 1));
        assert(constraints.take(more).last() == last);
        lemma_reduced_shrinks(
            cell.reduced_by(catalog, constraints.take(more - 1)),
            catalog,
            last.direction,
            last.edge,
            last.suffix,
        );
    }
}

/// Filtering twice with one test keeps what filtering once keeps.
pub proof fn lemma_filter_twice(candidates: Seq<usize>, pred: spec_fn(usize) -> bool)
    ensures
        candidates.filter(pred).filter(pred) == candidates.filter(pred),
    decreases candidates.len(),
{
    reveal(Seq::filter);
    if candidates.len() > 0 {
        let rest = candidates.drop_last();
        lemma_filter_twice(rest, pred);
        if pred(candidates.last()) {
            let kept = rest.filter(pred).push(candidates.last());
            assert(kept.drop_last() =~= rest.filter(pred));
        }
    } else {
        assert(candidates.filter(pred) =~= candidates);
    }
}

/// Holding the candidates against one edge a second time changes nothing.
pub proof fn lemma_reduced_idempotent(
    cell: TileView,
    catalog: Seq<TileData>,
    direction: Direction,
    edge: Seq<char>,
    suffix: Option<Seq<char>>,
)
    ensures
        cell.reduced(catalog, direction, edge, suffix).reduced(catalog, direction, edge, suffix)
            == cell.reduced(catalog, direction, edge, suffix),
{
    lemma_filter_twice(cell.possible_tiles, fits(catalog, direction, edge, suffix));
}

/// A cell that was resolved cannot collapse again, whatever was drawn: a
/// second call of [`Tile::collapse`] returns `false` and changes nothing.
pub proof fn lemma_collapsed_is_final(cell: TileView, choice: int)
    ensures
        !cell.collapsed(choice).can_collapse(),
        !cell.collapsed(choice).is_contradiction(),
{
}

impl Tile {
    pub fn new(possible_tiles: Vec<usize>, position: Position) -> (tile: Self)
        ensures
            tile.data is None,
            tile.possible_tiles == possible_tiles,
            tile.tile_position == position,
    {
        Self { data: None, possible_tiles, tile_position: position }
    }

    /// Resolves the cell to its candidate number `choice` and puts that
    /// tile's model into the scene at the cell's position.
    pub fn collapse_to(&mut self, catalog: &Vec<TileData>, scene: &mut Scene, choice: usize)
        requires
            old(self)@.wf(catalog@),
            old(self)@.can_collapse(),
            choice < old(self).possible_tiles.len(),
        ensures
            final(self)@ == old(self)@.collapsed(choice as int),
            final(scene)@ == old(scene)@.push(old(self)@.placement(catalog@, choice as int)),
            final(self)@.wf(catalog@),
    {
        let chosen_tile = self.possible_tiles[choice];
        self.data = Some(chosen_tile);
        self.possible_tiles = Vec::new();
        scene.instantiate_model(catalog[chosen_tile].model, self.tile_position);
        proof {
            assert(weights_of(catalog@, self.possible_tiles@) =~= Seq::<u32>::empty());
        }
    }

    /// Resolves the cell to one of its candidates, drawn with a chance
    /// proportional to the candidate's weight.
    ///
    /// Returns `false` and changes nothing when the cell is already resolved
    /// or has no candidate left. Otherwise one candidate is drawn, the cell
    /// is resolved to it as [`Tile::collapse_to`] says, and `true` comes back.
    pub fn collapse(
        &mut self,
        catalog: &Vec<TileData>,
        scene: &mut Scene,
        random: &mut StdRng,
    ) -> (placed: bool)
        requires
            catalog_wf(catalog@),
            old(self)@.wf(catalog@),
        ensures
            placed == old(self)@.can_collapse(),
            !placed ==> final(self)@ == old(self)@ && final(scene)@ == old(scene)@,
            placed ==> exists|choice: int|
                {
                    &&& 0 <= choice < old(self).possible_tiles.len()
                    &&& final(self)@ == old(self)@.collapsed(choice)
                    &&& final(scene)@ == old(scene)@.push(
                        #[trigger] old(self)@.placement(catalog@, choice),
                    )
                },
            final(self)@.wf(catalog@),
    {
        if self.data.is_some() {
            return false;
        }
        let count = self.possible_tiles.len();
        if count == 0 {
            return false;
        }
        let mut weights: Vec<u32> = Vec::new();
        let mut k: usize = 0;
        while k < count
            invariant
                k <= count,
                count == self.possible_tiles.len(),
                self@.wf(catalog@),
                weights@ =~= weights_of(catalog@, self.possible_tiles@).take(k as int),
            decreases count - k,
        {
            weights.push(catalog[self.possible_tiles[k]].weight);
            k += 1;
        }
        proof {
            let all = weights_of(catalog@, self.possible_tiles@);
            assert(weights@ =~= all);
            lemma_total_weight_positive(all);
        }
        let choice = weighted_draw(&weights, random);
        self.collapse_to(catalog, scene, choice);
        true
    }

    /// Holds the candidates against the edge of a neighbour that has changed:
    /// `direction` is the edge of this cell that faces the neighbour, `edge`
    /// and `suffix` are what the neighbour shows there. The candidates that
    /// do not fit are dropped. Returns whether no candidate is left.
    pub fn remove_options(
        &mut self,
        catalog: &Vec<TileData>,
        direction: Direction,
        edge: &str,
        suffix: Option<&str>,
    ) -> (impossible: bool)
        requires
            old(self)@.wf(catalog@),
        ensures
            final(self)@ == old(self)@.reduced(catalog@, direction, edge@, suffix_view(suffix)),
            impossible == (final(self).possible_tiles.len() == 0),
            final(self).possible_tiles.len() <= old(self).possible_tiles.len(),
            final(self)@.wf(catalog@),
    {
        let ghost before = self.possible_tiles@;
        let ghost pred = fits(catalog@, direction, edge@, suffix_view(suffix));
        let mut kept: Vec<usize> = Vec::new();
        let count = self.possible_tiles.len();
        let mut k: usize = 0;
        while k < count
            invariant
                k <= count,
                count == before.len(),
                self.possible_tiles@ == before,
                self@.wf(catalog@),
                pred == fits(catalog@, direction, edge@, suffix_view(suffix)),
                kept@ == before.take(k as int).filter(pred),
            decreases count - k,
        {
            let candidate = self.possible_tiles[k];
            proof {
                reveal(Seq::filter);
                assert(before.take(k + 1).drop_last() =~= before.take(k as int));
            }
            if catalog[candidate].check_edge(direction, edge, suffix) {
                kept.push(candidate);
            }
            k += 1;
        }
        proof {
            assert(before.take(count as int) =~= before);
            before.lemma_filter_len(pred);
            lemma_filter_weighs_less(catalog@, before, pred);
            assert forall|j: int| 0 <= j < kept@.len() implies (#[trigger] kept@[j])
                < catalog@.len() by {
                before.lemma_filter_contains_rev(pred, kept@[j]);
            }
        }
        self.possible_tiles = kept;
        self.possible_tiles.is_empty()
    }
}

} // verus!
