//! Sprite sheets: cutting the image of a tileset into the rectangles of its
//! tiles.

use vstd::prelude::*;
use vstd::arithmetic::div_mod::{
    lemma_fundamental_div_mod, lemma_fundamental_div_mod_converse, lemma_mod_bound,
};
use crate::vector::Vector2;

verus! {

/// The rectangle of one sprite within the image of a sprite sheet. Positions
/// start at the top left corner of the image.
#[derive(Clone, Debug, PartialEq)]
pub struct SpritePosition {
    /// Horizontal position of the sprite in the sprite sheet
    pub x: u32,
    /// Vertical position of the sprite in the sprite sheet
    pub y: u32,
    /// Width of the sprite
    pub width: u32,
    /// Height of the sprite
    pub height: u32,
    /// Number of pixels to shift the sprite to the left and down relative to
    /// the entity holding it, each as the bits of a single-precision number
    pub offsets: Option<[u32; 2]>,
}

/// A sprite sheet: the size of its image and the rectangles of its sprites.
#[derive(Clone, Debug, PartialEq)]
pub struct SerializedSpriteSheet {
    /// Width of the sprite sheet
    pub spritesheet_width: u32,
    /// Height of the sprite sheet
    pub spritesheet_height: u32,
    /// Description of the sprites
    pub sprites: Vec<SpritePosition>,
}

/// The sprite at place `k` of a sheet with `cols` tiles in each row: tiles are
/// counted row by row from the top left corner.
pub open spec fn sprite_at(tile_width: u32, tile_height: u32, cols: int, k: int) -> SpritePosition {
    SpritePosition {
        x: ((k % cols) * tile_width) as u32,
        y: ((k / cols) * tile_height) as u32,
        width: tile_width,
        height: tile_height,
        offsets: None,
    }
}

/// The sprites of an image of the given size, cut into tiles of the given size:
/// as many whole tiles as fit in each direction.
pub open spec fn sheet_sprites(image: Vector2, tile_width: u32, tile_height: u32) -> Seq<
    SpritePosition,
> {
    let cols = image.x as int / tile_width as int;
    let rows = image.y as int / tile_height as int;
    Seq::new((cols * rows) as nat, |k: int| sprite_at(tile_width, tile_height, cols, k))
}

/// The sprite sheet of one image.
pub fn spritesheet(image: Vector2, tile_width: u32, tile_height: u32) -> (sheet:
    SerializedSpriteSheet)
    requires
        tile_width > 0,
        tile_height > 0,
    ensures
        sheet.spritesheet_width == image.x,
        sheet.spritesheet_height == image.y,
        sheet.sprites@ == sheet_sprites(image, tile_width, tile_height),
{
    let cols = image.x / tile_width;
    let rows = image.y / tile_height;
    let mut sprites: Vec<SpritePosition> = Vec::new();
    let mut row: u32 = 0;
    while row < rows
        invariant
            0 <= row <= rows,
            tile_width > 0,
            tile_height > 0,
            cols == image.x as int / tile_width as int,
            rows == image.y as int / tile_height as int,
            sprites@.len() == row * cols,
            forall|k: int|
                0 <= k < sprites@.len() ==> #[trigger] sprites@[k] == sprite_at(
                    tile_width,
                    tile_height,
                    cols as int,
                    k,
                ),
        decreases rows - row,
    {
        let mut col: u32 = 0;
        while col < cols
            invariant
                0 <= row < rows,
                0 <= col <= cols,
                tile_width > 0,
                tile_height > 0,
                cols == image.x as int / tile_width as int,
                rows == image.y as int / tile_height as int,
                sprites@.len() == row * cols + col,
                forall|k: int|
                    0 <= k < sprites@.len() ==> #[trigger] sprites@[k] == sprite_at(
                        tile_width,
                        tile_height,
                        cols as int,
                        k,
                    ),
            decreases cols - col,
        {
            proof {
                lemma_tile_origin(image.x, tile_width, col);
                lemma_tile_origin(image.y, tile_height, row);
                lemma_fundamental_div_mod_converse(
                    row * cols + col,
                    cols as int,
                    row as int,
                    col as int,
                );
            }
            sprites.push(
                SpritePosition {
                    x: col * tile_width,
                    y: row * tile_height,
                    width: tile_width,
                    height: tile_height,
                    offsets: None,
                },
            );
            col = col + 1;
        }
        proof {
            assert((row + 1) * cols == row * cols + cols) by (nonlinear_arith);
        }
        row = row + 1;
    }
    proof {
        assert(row * cols == cols * rows) by (nonlinear_arith)
            requires
                row == rows,
        ;
        assert(sprites@ =~= sheet_sprites(image, tile_width, tile_height));
    }
    SerializedSpriteSheet { spritesheet_width: image.x, spritesheet_height: image.y, sprites }
}

/// The sprite sheets of the images of the tilesets of a map, one for each
/// image and in their order, all cut into tiles of the size that the map
/// gives.
pub fn spritesheet_from_tiled(images: &Vec<Vector2>, tile_width: u32, tile_height: u32) -> (sheets:
    Vec<SerializedSpriteSheet>)
    requires
        tile_width > 0,
        tile_height > 0,
    ensures
        sheets@.len() == images@.len(),
        forall|i: int|
            0 <= i < images@.len() ==> {
                &&& (#[trigger] sheets@[i]).spritesheet_width == images@[i].x
                &&& sheets@[i].spritesheet_height == images@[i].y
                &&& sheets@[i].sprites@ == sheet_sprites(images@[i], tile_width, tile_height)
            },
{
    let mut sheets: Vec<SerializedSpriteSheet> = Vec::new();
    let mut i: usize = 0;
    while i < images.len()
        invariant
            0 <= i <= images@.len(),
            tile_width > 0,
            tile_height > 0,
            sheets@.len() == i,
            forall|j: int|
                0 <= j < i ==> {
                    &&& (#[trigger] sheets@[j]).spritesheet_width == images@[j].x
                    &&& sheets@[j].spritesheet_height == images@[j].y
                    &&& sheets@[j].sprites@ == sheet_sprites(images@[j], tile_width, tile_height)
                },
        decreases images@.len() - i,
    {
        sheets.push(spritesheet(images[i], tile_width, tile_height));
        i = i + 1;
    }
    sheets
}

/// The origin of tile `index` along an axis lies within the image.
proof fn lemma_tile_origin(extent: u32, tile: u32, index: u32)
    requires
        tile > 0,
        index < extent as int / tile as int,
    ensures
        0 <= index * tile <= extent,
{
    let count = extent as int / tile as int;
    lemma_fundamental_div_mod(extent as int, tile as int);
    lemma_mod_bound(extent as int, tile as int);
    assert(index * tile <= count * tile) by (nonlinear_arith)
        requires
            0 <= index < count,
            tile > 0,
    ;
    assert(tile * count == count * tile) by (nonlinear_arith);
    assert(0 <= index * tile) by (nonlinear_arith)
        requires
            0 <= index,
            0 < tile,
    ;
}

} // verus!
