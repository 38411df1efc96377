//! The scene that placed tiles are written to.

use vstd::prelude::*;
use crate::grid::Position;

verus! {

/// One tile put into the scene: the handle of its geometry and the column
/// and row of the cell it stands on. The cell in column `x` of row `y` stands
/// at world position `(x, y)`.
#[derive(Clone, Copy, Debug, PartialEq, Eq, Structural)]
pub struct Placement {
    pub model: usize,
    pub x: usize,
    pub y: usize,
}

/// The models instantiated so far, in the order in which they were placed.
pub struct Scene {
    pub placements: Vec<Placement>,
}

impl View for Scene {
    type V = Seq<Placement>;

    open spec fn view(&self) -> Seq<Placement> {
        self.placements@
    }
}

impl Scene {
    pub fn new() -> (scene: Self)
        ensures
            scene@ == Seq::<Placement>::empty(),
    {
        Scene { placements: Vec::new() }
    }

    /// Puts the geometry `model` into the world at `position`.
    pub fn instantiate_model(&mut self, model: usize, position: Position)
        ensures
            final(self)@ == old(self)@.push(Placement { model, x: position.x, y: position.y }),
    {
        self.placements.push(Placement { model, x: position.x, y: position.y });
    }
}

impl Default for Scene {
    fn default() -> (scene: Self)
        ensures
            scene@ == Seq::<Placement>::empty(),
    {
        Scene { placements: Vec::new() }
    }
}

} // verus!
