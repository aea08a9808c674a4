//! Filling a grid from the tile layer of a map document.

use vstd::prelude::*;
use crate::error::{Error, TilesResult};
use crate::grid::{
    in_bounds, is_default, lemma_flat_index_bounds, lemma_get_after_set, Grid2D, GridStorage2D,
};
use crate::vector::Vector2;

verus! {

/// What a cell type offers so that a grid of it can be filled from a tile
/// layer: it holds one tile identifier.
pub trait Tile {
    /// The tile identifier that the cell holds.
    spec fn tile_value(&self) -> u32;

    fn value(&self) -> (v: u32)
        ensures
            v == self.tile_value(),
    ;

    fn set_value(&mut self, value: u32)
        ensures
            final(self).tile_value() == value,
    ;
}

/// Whether the layer has a tile in column `x` of row `y`.
pub open spec fn has_tile(rows: Seq<Vec<u32>>, x: int, y: int) -> bool {
    0 <= y < rows.len() && 0 <= x < rows[y]@.len()
}

/// Whether the tile in column `x` of row `y` comes before the tile in column
/// `bx` of row `by` when the layer is read row by row.
pub open spec fn tile_before(x: int, y: int, bx: int, by: int) -> bool {
    y < by || (y == by && x < bx)
}

/// Whether every tile of the layer falls on a cell of a grid of the given
/// dimensions.
pub open spec fn layer_fits(dimensions: Vector2, rows: Seq<Vec<u32>>) -> bool {
    forall|x: int, y: int| #[trigger] has_tile(rows, x, y) ==> x < dimensions.x && y < dimensions.y
}

/// Whether `cell` is what a grid filled from the layer holds at `coord`: the
/// tile that the layer has there, or a default where it has none.
pub open spec fn holds_tile<T: Tile + Default>(
    cell: T,
    rows: Seq<Vec<u32>>,
    coord: Vector2,
) -> bool {
    if has_tile(rows, coord.x as int, coord.y as int) {
        cell.tile_value() == rows[coord.y as int]@[coord.x as int]
    } else {
        is_default(cell)
    }
}

/// The same while the grid is being filled, when the tiles before column `x`
/// of row `y` have been placed and no others.
spec fn holds_tile_before<T: Tile + Default>(
    cell: T,
    rows: Seq<Vec<u32>>,
    coord: Vector2,
    x: int,
    y: int,
) -> bool {
    if tile_before(coord.x as int, coord.y as int, x, y) {
        holds_tile(cell, rows, coord)
    } else {
        is_default(cell)
    }
}

/// Builds a grid of `width` by `height` cells from the rows of a tile layer:
/// the cell in column `x` of row `y` receives the tile at place `x` of row `y`
/// of the layer, and a cell for which the layer has no tile stays at its
/// default. A layer with a tile outside the grid is refused with the
/// coordinate of the first such tile, reading row by row.
pub fn from_tiled<T: Send + Sync + Default + Clone + Tile>(
    width: u32,
    height: u32,
    rows: &Vec<Vec<u32>>,
) -> (r: TilesResult<GridStorage2D<T>>)
    requires
        width * height <= u32::MAX,
        rows@.len() <= u32::MAX,
    ensures
        match r {
            Ok(grid) => {
                &&& layer_fits(Vector2 { x: width, y: height }, rows@)
                &&& grid@.dimensions == (Vector2 { x: width, y: height })
                &&& grid@.wf()
                &&& forall|coord: Vector2|
                    grid@.contains(coord) ==> holds_tile(#[trigger] grid@.cell(coord), rows@, coord)
            },
            Err(Error::OutOfBounds { dimensions, coordinate }) => {
                &&& dimensions == (Vector2 { x: width, y: height })
                &&& has_tile(rows@, coordinate.x as int, coordinate.y as int)
                &&& !in_bounds(dimensions, coordinate)
                &&& forall|x: int, y: int|
                    #[trigger] has_tile(rows@, x, y) && tile_before(
                        x,
                        y,
                        coordinate.x as int,
                        coordinate.y as int,
                    ) ==> x < width && y < height
            },
            Err(_) => false,
        },
{
    let dimensions = Vector2::new(width, height);
    let mut grid = GridStorage2D::<T>::new(dimensions);
    let mut y: usize = 0;
    while y < rows.len()
        invariant
            0 <= y <= rows@.len() <= u32::MAX,
            dimensions == (Vector2 { x: width, y: height }),
            grid@.dimensions == dimensions,
            grid@.wf(),
            forall|tx: int, ty: int|
                #[trigger] has_tile(rows@, tx, ty) && ty < y ==> tx < width && ty < height,
            forall|coord: Vector2|
                grid@.contains(coord) ==> holds_tile_before(
                    #[trigger] grid@.cell(coord),
                    rows@,
                    coord,
                    0,
                    y as int,
                ),
        decreases rows@.len() - y,
    {
        let row = &rows[y];
        let mut x: usize = 0;
        while x < row.len()
            invariant
                0 <= y < rows@.len() <= u32::MAX,
                row@ == rows@[y as int]@,
                0 <= x <= row@.len(),
                x <= width,
                x > 0 ==> y < height,
                dimensions == (Vector2 { x: width, y: height }),
                grid@.dimensions == dimensions,
                grid@.wf(),
                forall|tx: int, ty: int|
                    #[trigger] has_tile(rows@, tx, ty) && tile_before(tx, ty, x as int, y as int)
                        ==> tx < width && ty < height,
                forall|coord: Vector2|
                    grid@.contains(coord) ==> holds_tile_before(
                        #[trigger] grid@.cell(coord),
                        rows@,
                        coord,
                        x as int,
                        y as int,
                    ),
            decreases row@.len() - x,
        {
            let coord = Vector2::new(x as u32, y as u32);
            let ghost before = grid@;
            match grid.get_mut(coord) {
                Some(cell) => {
                    cell.set_value(row[x]);
                },
                None => {
                    return Err(Error::OutOfBounds { dimensions, coordinate: coord });
                },
            }
            proof {
                lemma_flat_index_bounds(dimensions, coord);
                let written = grid@.cell(coord);
                assert(grid@ == before.set(coord, written));
                assert(written.tile_value() == row@[x as int]);
                assert forall|other: Vector2| grid@.contains(other) implies holds_tile_before(
                    #[trigger] grid@.cell(other),
                    rows@,
                    other,
                    x + 1,
                    y as int,
                ) by {
                    lemma_get_after_set(before, coord, written, other);
                    assert(holds_tile_before(before.cell(other), rows@, other, x as int, y as int));
                }
            }
            x = x + 1;
        }
        y = y + 1;
    }
    proof {
        assert forall|tx: int, ty: int| #[trigger] has_tile(rows@, tx, ty) implies tx < width && ty
            < height by {}
        assert forall|coord: Vector2| grid@.contains(coord) implies holds_tile(
            #[trigger] grid@.cell(coord),
            rows@,
            coord,
        ) by {
            assert(holds_tile_before(grid@.cell(coord), rows@, coord, 0, y as int));
        }
    }
    Ok(grid)
}

} // verus!
