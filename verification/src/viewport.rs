//! Tiling arithmetic for the renderer.
//!
//! When a background image is tiled across the well, the tile in column or
//! row `x` may hang over the edge; its drawn width is clipped back to what
//! still fits.  Pure arithmetic, shared with the host's drawing code.

use vstd::prelude::*;

verus! {

/// The width kept of tile `x` of source width `src_width` when tiling a
/// strip of `clip_width`: the full source width while it fits, the remainder
/// at the edge.
pub fn clip(x: u32, src_width: u32, clip_width: u32) -> (r: u32)
    requires
        x < u32::MAX,
        (x + 1) * src_width <= u32::MAX,
        x * src_width <= clip_width,
    ensures
        r == if (x + 1) * src_width > clip_width {
            clip_width - x * src_width
        } else {
            src_width as int
        },
{
    if (x + 1) * src_width > clip_width {
        clip_width - (x * src_width)
    } else {
        src_width
    }
}

} // verus!
