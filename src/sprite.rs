//! What an entity shows: cells of the sprite sheet at a place and size given
//! in the same fixed-point units as the physics.
use vstd::prelude::*;

verus! {

/// Cells of the sprite sheet, row by row, drawn from `pos` with extent `scale`.
pub struct Sprite {
    pub pos: [i32; 2],
    pub scale: [i32; 2],
    pub tex_indices: Vec<Vec<usize>>,
}

impl Sprite {
    /// One cell, at the origin, one unit square.
    pub fn single(index: usize) -> (r: Sprite)
        ensures
            r.pos == [0i32, 0i32],
            r.scale == [1000i32, 1000i32],
            r.tex_indices@.len() == 1,
            r.tex_indices@[0]@ == seq![index],
    {
        let mut row: Vec<usize> = Vec::new();
        row.push(index);
        let mut rows: Vec<Vec<usize>> = Vec::new();
        rows.push(row);
        Sprite { pos: [0, 0], scale: [1000, 1000], tex_indices: rows }
    }

    /// The same sprite at `pos`.
    pub fn with_pos(self, pos: [i32; 2]) -> (r: Sprite)
        ensures
            r.pos == pos,
            r.scale == self.scale,
            r.tex_indices == self.tex_indices,
    {
        Sprite { pos: pos, scale: self.scale, tex_indices: self.tex_indices }
    }

    /// The same sprite with extent `scale`.
    pub fn with_scale(self, scale: [i32; 2]) -> (r: Sprite)
        ensures
            r.pos == self.pos,
            r.scale == scale,
            r.tex_indices == self.tex_indices,
    {
        Sprite { pos: self.pos, scale: scale, tex_indices: self.tex_indices }
    }
}

} // verus!
