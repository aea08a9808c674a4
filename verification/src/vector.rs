//! Plain integer vectors: grid coordinates, grid extents and iteration windows.

use vstd::prelude::*;

verus! {

/// A pair of unsigned integers: a cell coordinate (`x` is the column, `y` the
/// row) or the extent of a grid (`x` is the width, `y` the height).
#[derive(Clone, Copy, Debug, PartialEq, Eq, Structural)]
pub struct Vector2 {
    pub x: u32,
    pub y: u32,
}

impl Vector2 {
    pub fn new(x: u32, y: u32) -> (v: Vector2)
        ensures
            v == (Vector2 { x, y }),
    {
        Vector2 { x, y }
    }
}

/// Four unsigned integers. As an iteration window they are read as
/// `(min_x, min_y, max_x, max_y)`, every bound inclusive: `x` and `y` hold the
/// first column and row, `z` and `w` the last column and row.
#[derive(Clone, Copy, Debug, PartialEq, Eq, Structural)]
pub struct Vector4 {
    pub x: u32,
    pub y: u32,
    pub z: u32,
    pub w: u32,
}

impl Vector4 {
    pub fn new(x: u32, y: u32, z: u32, w: u32) -> (v: Vector4)
        ensures
            v == (Vector4 { x, y, z, w }),
    {
        Vector4 { x, y, z, w }
    }
}

} // verus!
