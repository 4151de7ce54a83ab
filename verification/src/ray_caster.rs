//! The per-column result of a ray cast and the integer texture bookkeeping
//! derived from it. The grid walk itself runs on floating-point coordinates
//! in the renderer around this crate; what it hands back per column is the
//! plain record below.

use vstd::prelude::*;

verus! {

/// One screen column's wall hit: the projected wall height in pixels
/// (clamped to the viewport's half height by the caster), the raw tile
/// value hit, whether the hit lay on a horizontal grid line, and the column
/// within the wall texture.
#[derive(Debug, Clone, Copy, PartialEq, Eq, Structural)]
pub struct RayHit {
    pub height: u32,
    pub tile: u16,
    pub horizontal: bool,
    pub tex_x: usize,
}

/// The wall-texture page for a hit: each wall tile owns a pair of pages,
/// the horizontal-grid-line face first, the vertical one second.
pub open spec fn spec_wall_texture_index(tile: u16, horizontal: bool) -> int {
    if horizontal {
        (tile - 1) * 2
    } else {
        (tile - 1) * 2 + 1
    }
}

/// Picks the texture page of the wall a hit landed on.
pub fn wall_texture_index(tile: u16, horizontal: bool) -> (r: usize)
    requires
        tile >= 1,
    ensures
        r == spec_wall_texture_index(tile, horizontal),
{
    if horizontal {
        (tile as usize - 1) * 2
    } else {
        (tile as usize - 1) * 2 + 1
    }
}

} // verus!
