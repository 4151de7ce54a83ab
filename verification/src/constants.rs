//! Fixed dimensions of the tile grid and the 2-D view that player
//! coordinates are scaled to.

use vstd::prelude::*;

verus! {

/// Tiles per map row.
pub const MAP_WIDTH: usize = 64;

/// Tiles per map column.
pub const MAP_HEIGHT: usize = 64;

/// Width of the 2-D view, in player-scale units.
pub const WIDTH_2D: u32 = 1024;

/// Height of the 2-D view, in player-scale units.
pub const HEIGHT_2D: u32 = 1024;

/// Player-scale units per tile, horizontally.
pub const MAP_SCALE_W: u32 = WIDTH_2D / 64;

/// Player-scale units per tile, vertically.
pub const MAP_SCALE_H: u32 = HEIGHT_2D / 64;

/// Rows of the status bar at the bottom of the base screen.
pub const STATUS_LINES: u32 = 40;

/// Width of the base screen in pixels.
pub const BASE_WIDTH: u32 = 320;

/// Height of the base screen in pixels.
pub const BASE_HEIGHT: u32 = 200;

/// Width of a wall texture in pixels.
pub const WALLPIC_WIDTH: usize = 64;

} // verus!
