//! A dense two-dimensional grid of tiles with bounds-checked access and
//! row-major iteration over rectangular regions.

pub mod amethyst;
pub mod error;
pub mod grid;
pub mod region;
pub mod tilemap;
pub mod vector;

pub use crate::error::{Error, TilesResult};
pub use crate::grid::{Grid2D, GridStorage2D, GridView};
pub use crate::region::{GridRegionIter, GridRegionIterMut};
pub use crate::tilemap::{from_tiled, Tile};
pub use crate::vector::{Vector2, Vector4};
