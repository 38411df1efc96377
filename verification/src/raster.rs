//! The texel grid of a square texture.

use vstd::prelude::*;
use crate::grid::{cell_x, cell_y};

verus! {

/// The texels of a square texture of side `size`, row by row.
///
/// Texel number `id` lies in column `id % size` of row `id / size`, and its
/// value is what `texel` computes for that column and row.
pub fn create_texels<F: Fn(usize, usize) -> u8>(size: usize, texel: F) -> (texels: Vec<u8>)
    requires
        size * size <= usize::MAX,
        forall|column: usize, row: usize|
            column < size && row < size ==> call_requires(texel, (column, row)),
    ensures
        texels.len() == size * size,
        forall|id: int|
            0 <= id < size * size ==> call_ensures(
                texel,
                (cell_x(id, size as int) as usize, cell_y(id, size as int) as usize),
                #[trigger] texels[id],
            ),
{
    let count = size * size;
    let mut texels: Vec<u8> = Vec::new();
    let mut id: usize = 0;
    while id < count
        invariant
            id <= count,
            count == size * size,
            texels.len() == id,
            forall|column: usize, row: usize|
                column < size && row < size ==> call_requires(texel, (column, row)),
            forall|done: int|
                0 <= done < id ==> call_ensures(
                    texel,
                    (cell_x(done, size as int) as usize, cell_y(done, size as int) as usize),
                    #[trigger] texels[done],
                ),
        decreases count - id,
    {
        proof {
            assert(size > 0) by (nonlinear_arith)
                requires
                    id < size * size,
            ;
            crate::grid::lemma_position_round_trip(id as int, size as int);
        }
        let value = texel(id % size, id / size);
        texels.push(value);
        id += 1;
    }
    texels
}

} // verus!
