//! Tile definitions: the immutable records of the catalog.

use vstd::prelude::*;
use crate::direction::Direction;
use crate::text::str_eq;

verus! {

/// One placeable tile variant.
///
/// `model` is a handle to the tile's geometry; the solver never looks inside
/// it and only hands it on to the scene. Each edge carries a label, and may
/// carry a suffix that keeps a rotated variant from matching its own
/// counterpart.
#[derive(Debug)]
pub struct TileData {
    pub model: usize,
    pub weight: u32,
    pub up_edge: String,
    pub right_edge: String,
    pub down_edge: String,
    pub left_edge: String,
    pub up_edge_suffix: Option<String>,
    pub right_edge_suffix: Option<String>,
    pub down_edge_suffix: Option<String>,
    pub left_edge_suffix: Option<String>,
}

/// The characters of an optional string slice.
pub open spec fn suffix_view(suffix: Option<&str>) -> Option<Seq<char>> {
    match suffix {
        Some(s) => Some(s@),
        None => None,
    }
}

/// The characters of an optional owned string.
pub open spec fn owned_suffix_view(suffix: Option<String>) -> Option<Seq<char>> {
    match suffix {
        Some(s) => Some(s@),
        None => None,
    }
}

/// Whether an edge with label `own_edge` and suffix `own_suffix` accepts a
/// neighbouring edge with label `edge` and suffix `suffix`: the labels are
/// equal, and where both sides carry a suffix the suffixes differ.
pub open spec fn edges_match(
    own_edge: Seq<char>,
    own_suffix: Option<Seq<char>>,
    edge: Seq<char>,
    suffix: Option<Seq<char>>,
) -> bool {
    own_edge == edge && match (suffix, own_suffix) {
        (Some(s), Some(own)) => s != own,
        _ => true,
    }
}

impl TileData {
    /// The label on the edge that faces `direction`.
    pub open spec fn edge(&self, direction: Direction) -> Seq<char> {
        match direction {
            Direction::Up => self.up_edge@,
            Direction::Right => self.right_edge@,
            Direction::Down => self.down_edge@,
            Direction::Left => self.left_edge@,
        }
    }

    /// The suffix on the edge that faces `direction`, if it has one.
    pub open spec fn suffix(&self, direction: Direction) -> Option<Seq<char>> {
        match direction {
            Direction::Up => owned_suffix_view(self.up_edge_suffix),
            Direction::Right => owned_suffix_view(self.right_edge_suffix),
            Direction::Down => owned_suffix_view(self.down_edge_suffix),
            Direction::Left => owned_suffix_view(self.left_edge_suffix),
        }
    }

    /// Whether this tile may lie beside an edge labelled `edge` with suffix
    /// `suffix`, when its own edge towards `direction` faces that edge.
    pub open spec fn accepts(
        &self,
        direction: Direction,
        edge: Seq<char>,
        suffix: Option<Seq<char>>,
    ) -> bool {
        edges_match(self.edge(direction), self.suffix(direction), edge, suffix)
    }

    pub fn get_edge(&self, direction: Direction) -> (edge: &str)
        ensures
            edge@ == self.edge(direction),
    {
        match direction {
            Direction::Up => self.up_edge.as_str(),
            Direction::Right => self.right_edge.as_str(),
            Direction::Down => self.down_edge.as_str(),
            Direction::Left => self.left_edge.as_str(),
        }
    }

    pub fn get_suffix(&self, direction: Direction) -> (suffix: Option<&str>)
        ensures
            suffix_view(suffix) == self.suffix(direction),
    {
        let own = match direction {
            Direction::Up => &self.up_edge_suffix,
            Direction::Right => &self.right_edge_suffix,
            Direction::Down => &self.down_edge_suffix,
            Direction::Left => &self.left_edge_suffix,
        };
        match own {
            Some(s) => Some(s.as_str()),
            None => None,
        }
    }

    /// Tests this tile's edge towards `direction` against a neighbour's
    /// label and suffix.
    pub fn check_edge(&self, direction: Direction, edge: &str, suffix: Option<&str>) -> (ok: bool)
        ensures
            ok == self.accepts(direction, edge@, suffix_view(suffix)),
    {
        let own_suffix = self.get_suffix(direction);
        let same_label = str_eq(self.get_edge(direction), edge);
        match (suffix, own_suffix) {
            (Some(suffix), Some(own_suffix)) => same_label && !str_eq(suffix, own_suffix),
            _ => same_label,
        }
    }
}

} // verus!
