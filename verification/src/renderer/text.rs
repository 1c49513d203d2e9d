//! Where rendered text may touch the canvas.
//!
//! Glyph rasterization and coverage blending happen outside the library; every
//! covered pixel is first placed here, against the clip rectangle and the canvas.

use vstd::prelude::*;

use crate::renderer::background::byte_index;
use crate::wayland::opaque::{min, sat_add};

verus! {

/// The part of a surface that text may draw into.
#[derive(Clone, Copy, Debug)]
pub struct ClipRectangle {
    pub x: usize,
    pub y: usize,
    pub width: usize,
    pub height: usize,
}

/// Pixel (`x`, `y`) lies inside both the clip rectangle and the surface.
pub open spec fn in_clip(width: int, height: int, clip: ClipRectangle, x: int, y: int) -> bool {
    &&& clip.x <= x < min(sat_add(clip.x as int, clip.width as int), width)
    &&& clip.y <= y < min(sat_add(clip.y as int, clip.height as int), height)
}

/// The first byte of pixel (`x`, `y`) of a `width` by `height` surface whose canvas
/// has `length` bytes, when text may draw that pixel: inside the clip rectangle,
/// inside the surface, and with all four bytes inside the canvas.
pub fn clipped_pixel_start(
    length: usize,
    width: usize,
    height: usize,
    clip: ClipRectangle,
    x: i32,
    y: i32,
) -> (start: Option<usize>)
    ensures
        start is Some <==> (in_clip(width as int, height as int, clip, x as int, y as int)
            && byte_index(width as int, x as int, y as int, 0) + 4 <= length),
        start matches Some(first) ==> first == byte_index(width as int, x as int, y as int, 0),
{
    if x < 0 || y < 0 {
        return None;
    }
    let x = x as usize;
    let y = y as usize;
    let clip_end_x = if clip.x.saturating_add(clip.width) < width {
        clip.x.saturating_add(clip.width)
    } else {
        width
    };
    let clip_end_y = if clip.y.saturating_add(clip.height) < height {
        clip.y.saturating_add(clip.height)
    } else {
        height
    };
    if x < clip.x || x >= clip_end_x || y < clip.y || y >= clip_end_y {
        return None;
    }
    let row = match y.checked_mul(width) {
        Some(row) => row,
        None => {
            assert(byte_index(width as int, x as int, y as int, 0) > usize::MAX) by (nonlinear_arith)
                requires
                    y * width > usize::MAX,
                    x >= 0,
            ;
            return None;
        },
    };
    let pixel = match row.checked_add(x) {
        Some(pixel) => pixel,
        None => {
            return None;
        },
    };
    let first = match pixel.checked_mul(4) {
        Some(first) => first,
        None => {
            return None;
        },
    };
    if first <= length && length - first >= 4 {
        Some(first)
    } else {
        None
    }
}

} // verus!
