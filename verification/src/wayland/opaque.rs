//! Luma's opaque fallback frame and authentication prompt, drawn into an
//! ARGB8888 canvas (blue, green, red, alpha bytes per pixel).
//!
//! The canvas is described by [`paint`]: a drawing operation sets every whole
//! pixel of a region to one color and leaves every other byte unchanged.

use vstd::prelude::*;

use crate::config::color::Color;
use crate::renderer::background::BackgroundImage;
use crate::renderer::background::{byte_index, channel_of, column_of, lemma_index_composes, lemma_index_decomposes, lemma_pixel_bounds, row_of};

verus! {

/// What the prompt shows.
#[derive(Clone, Copy, Debug, Eq, PartialEq, Structural)]
pub enum PromptState {
    Ready,
    Authenticating,
    Failure,
    Cooldown,
}

/// A color with straight alpha.
#[derive(Clone, Copy, Debug, Eq, PartialEq, Structural)]
pub struct Rgba {
    pub red: u8,
    pub green: u8,
    pub blue: u8,
    pub alpha: u8,
}

/// A rectangle of whole pixels.
#[derive(Clone, Copy, Debug, Eq, PartialEq, Structural)]
pub struct Rectangle {
    pub x: usize,
    pub y: usize,
    pub width: usize,
    pub height: usize,
}

impl Rgba {
    pub fn new(red: u8, green: u8, blue: u8, alpha: u8) -> (color: Self)
        ensures
            color == (Rgba { red, green, blue, alpha }),
    {
        Rgba { red, green, blue, alpha }
    }

    pub fn from_config(color: Color) -> (rgba: Self)
        ensures
            rgba == (Rgba {
                red: color.spec_channels()[0],
                green: color.spec_channels()[1],
                blue: color.spec_channels()[2],
                alpha: color.spec_channels()[3],
            }),
    {
        let channels = color.channels();
        Rgba::new(channels[0], channels[1], channels[2], channels[3])
    }
}

/// The opaque color of the fallback frame.
pub open spec fn spec_background() -> Rgba {
    Rgba { red: 18, green: 26, blue: 28, alpha: 255 }
}

/// The opaque color of the fallback frame: `#121a1c`.
pub fn background() -> (color: Rgba)
    ensures
        color == spec_background(),
{
    Rgba::new(18, 26, 28, 255)
}

/// The byte that a pixel of `color` holds in channel `channel`.
pub open spec fn color_byte(color: Rgba, channel: int) -> u8 {
    if channel == 0 {
        color.blue
    } else if channel == 1 {
        color.green
    } else if channel == 2 {
        color.red
    } else {
        color.alpha
    }
}

/// Byte `k` belongs to a pixel whose four bytes all lie in a canvas of `length` bytes.
pub open spec fn whole_pixel(length: int, k: int) -> bool {
    k - channel_of(k) + 4 <= length
}

/// The canvas after every whole pixel (`x`, `y`) with `region(x, y)` is set to `color`.
pub open spec fn paint(
    canvas: Seq<u8>,
    width: int,
    region: spec_fn(int, int) -> bool,
    color: Rgba,
) -> Seq<u8> {
    Seq::new(
        canvas.len(),
        |k: int|
            if whole_pixel(canvas.len() as int, k) && region(column_of(width, k), row_of(width, k)) {
                color_byte(color, channel_of(k))
            } else {
                canvas[k]
            },
    )
}

/// The canvas after every whole pixel is set to `color`.
pub open spec fn fill_all(canvas: Seq<u8>, color: Rgba) -> Seq<u8> {
    Seq::new(
        canvas.len(),
        |k: int|
            if whole_pixel(canvas.len() as int, k) {
                color_byte(color, channel_of(k))
            } else {
                canvas[k]
            },
    )
}

/// `a + b`, saturated at the largest `usize`.
pub open spec fn sat_add(a: int, b: int) -> int {
    if a + b > usize::MAX {
        usize::MAX as int
    } else {
        a + b
    }
}

/// `a - b`, saturated at zero.
pub open spec fn sat_sub(a: int, b: int) -> int {
    if a - b < 0 {
        0
    } else {
        a - b
    }
}

/// `a * b`, saturated at the largest `usize`.
pub open spec fn sat_mul(a: int, b: int) -> int {
    if a * b > usize::MAX {
        usize::MAX as int
    } else {
        a * b
    }
}

pub open spec fn min(a: int, b: int) -> int {
    if a <= b {
        a
    } else {
        b
    }
}

pub open spec fn max(a: int, b: int) -> int {
    if a >= b {
        a
    } else {
        b
    }
}

/// `|a - b|`.
pub open spec fn distance(a: int, b: int) -> int {
    if a >= b {
        a - b
    } else {
        b - a
    }
}

/// The pixels of the rectangle at (`x`, `y`) of size `w` by `h`, clipped to the canvas.
pub open spec fn in_rect(
    x: int,
    y: int,
    w: int,
    h: int,
    canvas_width: int,
    canvas_height: int,
    px: int,
    py: int,
) -> bool {
    &&& x <= px < min(sat_add(x, w), canvas_width)
    &&& y <= py < min(sat_add(y, h), canvas_height)
}

/// The pixels of the disc of radius `r` around (`cx`, `cy`), clipped to the canvas,
/// measured with the saturating arithmetic that the drawing uses.
pub open spec fn in_disc(
    cx: int,
    cy: int,
    r: int,
    canvas_width: int,
    canvas_height: int,
    px: int,
    py: int,
) -> bool {
    &&& sat_sub(cx, r) <= px <= min(sat_add(cx, r), sat_sub(canvas_width, 1))
    &&& sat_sub(cy, r) <= py <= min(sat_add(cy, r), sat_sub(canvas_height, 1))
    &&& sat_add(
        sat_mul(distance(px, cx), distance(px, cx)),
        sat_mul(distance(py, cy), distance(py, cy)),
    ) <= sat_mul(r, r)
}

/// A foreground color composited over a background, rounded, and made opaque.
pub open spec fn blend_channel(foreground: u8, background: u8, alpha: u8) -> u8 {
    ((foreground * alpha + background * (255 - alpha) + 127) / 255) as u8
}

pub open spec fn spec_opaque_over(foreground: Rgba, background: Rgba) -> Rgba {
    Rgba {
        red: blend_channel(foreground.red, background.red, foreground.alpha),
        green: blend_channel(foreground.green, background.green, foreground.alpha),
        blue: blend_channel(foreground.blue, background.blue, foreground.alpha),
        alpha: 255,
    }
}

/// Composites `foreground` over `background` and returns an opaque color.
pub fn opaque_over(foreground: Rgba, background: Rgba) -> (color: Rgba)
    ensures
        color == spec_opaque_over(foreground, background),
{
    Rgba::new(
        blend(foreground.red, background.red, foreground.alpha),
        blend(foreground.green, background.green, foreground.alpha),
        blend(foreground.blue, background.blue, foreground.alpha),
        255,
    )
}

fn blend(foreground: u8, background: u8, alpha: u8) -> (channel: u8)
    ensures
        channel == blend_channel(foreground, background, alpha),
{
    let alpha = alpha as u16;
    let inverse_alpha = 255u16.saturating_sub(alpha);
    assert(foreground * alpha <= 255 * 255) by (nonlinear_arith)
        requires
            foreground <= 255,
            alpha <= 255,
    ;
    assert(background * inverse_alpha <= 255 * 255) by (nonlinear_arith)
        requires
            background <= 255,
            inverse_alpha <= 255,
    ;
    assert(foreground * alpha + background * inverse_alpha <= 255 * 255) by (nonlinear_arith)
        requires
            foreground <= 255,
            alpha <= 255,
            inverse_alpha == 255 - alpha,
            background <= 255,
    ;
    // The products stay below 255 * 255, so the saturating arithmetic of the
    // compositing formula never saturates.
    let value = ((foreground as u16) * alpha + (background as u16) * inverse_alpha + 127) / 255;
    if value > 255 {
        255
    } else {
        value as u8
    }
}

/// Writes `color` into the four bytes at `start`.
fn write_pixel(canvas: &mut [u8], start: usize, color: Rgba)
    requires
        start + 4 <= old(canvas)@.len(),
    ensures
        final(canvas)@ == old(canvas)@.update(start as int, color.blue).update(
            start + 1,
            color.green,
        ).update(start + 2, color.red).update(start + 3, color.alpha),
{
    canvas[start] = color.blue;
    canvas[start + 1] = color.green;
    canvas[start + 2] = color.red;
    canvas[start + 3] = color.alpha;
}

/// Sets every whole pixel of the canvas to `color`.
pub fn fill(canvas: &mut [u8], color: Rgba)
    ensures
        final(canvas)@ == fill_all(old(canvas)@, color),
{
    let ghost initial = canvas@;
    let length = canvas.len();
    let mut start: usize = 0;
    while length - start >= 4
        invariant
            length == canvas@.len(),
            initial.len() == length,
            start % 4 == 0,
            start <= length,
            forall|k: int|
                0 <= k < length ==> #[trigger] canvas@[k] == if k < start {
                    color_byte(color, channel_of(k))
                } else {
                    initial[k]
                },
        decreases length - start,
    {
        write_pixel(canvas, start, color);
        start = start + 4;
    }
    assert forall|k: int| 0 <= k < length implies #[trigger] canvas@[k] == fill_all(initial, color)[k] by {
        if k < start {
            assert(whole_pixel(length as int, k));
        } else {
            assert(!whole_pixel(length as int, k));
        }
    }
    assert(canvas@ =~= fill_all(initial, color));
}

/// Sets pixel (`x`, `y`) to `color` when all of its bytes lie in the canvas.
fn set_pixel(canvas: &mut [u8], width: usize, x: usize, y: usize, color: Rgba)
    requires
        x < width,
    ensures
        final(canvas)@ == paint(old(canvas)@, width as int, |px: int, py: int| px == x && py == y, color),
{
    let ghost initial = canvas@;
    let ghost target = paint(initial, width as int, |px: int, py: int| px == x && py == y, color);
    let index = match y.checked_mul(width) {
        Some(offset) => match offset.checked_add(x) {
            Some(offset) => offset.checked_mul(4),
            None => None,
        },
        None => None,
    };
    proof {
        assert forall|k: int| 0 <= k < initial.len() implies {
            &&& (whole_pixel(initial.len() as int, k) && column_of(width as int, k) == x && row_of(width as int, k) == y)
                ==> (byte_index(width as int, x as int, y as int, 0) <= k < byte_index(width as int, x as int, y as int, 0) + 4
                    && byte_index(width as int, x as int, y as int, 0) + 4 <= initial.len())
            &&& (byte_index(width as int, x as int, y as int, 0) <= k < byte_index(width as int, x as int, y as int, 0) + 4
                && byte_index(width as int, x as int, y as int, 0) + 4 <= initial.len()) ==> (
                whole_pixel(initial.len() as int, k) && column_of(width as int, k) == x && row_of(width as int, k) == y
                && channel_of(k) == k - byte_index(width as int, x as int, y as int, 0))
        } by {
            lemma_index_composes(width as int, k);
            if byte_index(width as int, x as int, y as int, 0) <= k < byte_index(width as int, x as int, y as int, 0) + 4 {
                lemma_index_decomposes(width as int, x as int, y as int, k - byte_index(width as int, x as int, y as int, 0));
            }
        }
    }
    match index {
        Some(start) => {
            if start <= canvas.len() && canvas.len() - start >= 4 {
                write_pixel(canvas, start, color);
                assert(canvas@ =~= target);
            } else {
                assert(initial =~= target);
            }
        },
        None => {
            let length = canvas.len();
            assert(byte_index(width as int, x as int, y as int, 0) > usize::MAX) by (nonlinear_arith)
                requires
                    x >= 0,
                    y >= 0,
                    width >= 0,
                    y * width > usize::MAX || y * width + x > usize::MAX || (y * width + x) * 4
                        > usize::MAX,
            ;
            assert(length == initial.len());
            assert(initial =~= target);
        },
    }
}

/// Sets every pixel of the rectangle at (`x`, `y`) of the given size, clipped to the
/// canvas, to `color`.
pub fn fill_rect(
    canvas: &mut [u8],
    width: usize,
    height: usize,
    x: usize,
    y: usize,
    rectangle_width: usize,
    rectangle_height: usize,
    color: Rgba,
)
    ensures
        final(canvas)@ == spec_fill_rect(
            old(canvas)@,
            width as int,
            height as int,
            x as int,
            y as int,
            rectangle_width as int,
            rectangle_height as int,
            color,
        ),
{
    let ghost initial = canvas@;
    let ghost w = width as int;
    let end_x = if x.saturating_add(rectangle_width) < width {
        x.saturating_add(rectangle_width)
    } else {
        width
    };
    let end_y = if y.saturating_add(rectangle_height) < height {
        y.saturating_add(rectangle_height)
    } else {
        height
    };
    if x >= end_x || y >= end_y {
        assert(canvas@ =~= spec_fill_rect(
            initial,
            width as int,
            height as int,
            x as int,
            y as int,
            rectangle_width as int,
            rectangle_height as int,
            color,
        ));
        return;
    }
    let mut row = y;
    while row < end_y
        invariant
            canvas@.len() == initial.len(),
            x < end_x <= width,
            y <= row <= end_y,
            end_y <= height,
            w == width,
            forall|k: int|
                0 <= k < initial.len() ==> #[trigger] canvas@[k] == if whole_pixel(
                    initial.len() as int,
                    k,
                ) && x <= column_of(w, k) < end_x && y <= row_of(w, k) < row {
                    color_byte(color, channel_of(k))
                } else {
                    initial[k]
                },
        decreases end_y - row,
    {
        let mut column = x;
        while column < end_x
            invariant
                canvas@.len() == initial.len(),
                x <= column <= end_x,
                end_x <= width,
                y <= row < end_y,
                w == width,
                forall|k: int|
                    0 <= k < initial.len() ==> #[trigger] canvas@[k] == if whole_pixel(
                        initial.len() as int,
                        k,
                    ) && ((x <= column_of(w, k) < end_x && y <= row_of(w, k) < row) || (
                    row_of(w, k) == row && x <= column_of(w, k) < column)) {
                        color_byte(color, channel_of(k))
                    } else {
                        initial[k]
                    },
            decreases end_x - column,
        {
            set_pixel(canvas, width, column, row, color);
            column = column + 1;
        }
        row = row + 1;
    }
    let ghost target = spec_fill_rect(
        initial,
        width as int,
        height as int,
        x as int,
        y as int,
        rectangle_width as int,
        rectangle_height as int,
        color,
    );
    assert(canvas@ =~= target);
}

/// Sets every pixel of the disc of radius `radius` around (`center_x`, `center_y`),
/// clipped to the canvas, to `color`.
pub fn fill_circle(
    canvas: &mut [u8],
    width: usize,
    height: usize,
    center_x: usize,
    center_y: usize,
    radius: usize,
    color: Rgba,
)
    ensures
        final(canvas)@ == spec_fill_circle(
            old(canvas)@,
            width as int,
            height as int,
            center_x as int,
            center_y as int,
            radius as int,
            color,
        ),
{
    let ghost initial = canvas@;
    let ghost w = width as int;
    let radius_squared = saturating_product(radius, radius);
    let start_y = center_y.saturating_sub(radius);
    let end_y = if center_y.saturating_add(radius) < height.saturating_sub(1) {
        center_y.saturating_add(radius)
    } else {
        height.saturating_sub(1)
    };
    if width == 0 {
        fill_circle_without_columns(canvas, height, center_x, center_y, radius, color);
        return;
    }
    let start_x = center_x.saturating_sub(radius);
    let end_x = if center_x.saturating_add(radius) < width - 1 {
        center_x.saturating_add(radius)
    } else {
        width - 1
    };
    if start_y > end_y || start_x > end_x {
        assert(canvas@ =~= spec_fill_circle(
            initial,
            width as int,
            height as int,
            center_x as int,
            center_y as int,
            radius as int,
            color,
        ));
        return;
    }
    let mut y = start_y;
    while y <= end_y
        invariant
            start_x <= end_x,
            start_x == sat_sub(center_x as int, radius as int),
            end_x == min(sat_add(center_x as int, radius as int), width - 1),
            radius_squared == sat_mul(radius as int, radius as int),
            start_y == sat_sub(center_y as int, radius as int),
            end_y == min(sat_add(center_y as int, radius as int), sat_sub(height as int, 1)),
            canvas@.len() == initial.len(),
            end_x < width,
            start_y <= y,
            y <= end_y + 1,
            w == width,
            forall|k: int|
                0 <= k < initial.len() ==> #[trigger] canvas@[k] == if whole_pixel(
                    initial.len() as int,
                    k,
                ) && in_disc(center_x as int, center_y as int, radius as int, width as int, height as int, column_of(w, k), row_of(w, k)) && row_of(w, k) < y {
                    color_byte(color, channel_of(k))
                } else {
                    initial[k]
                },
        decreases end_y + 1 - y,
    {
        let distance_y = if y >= center_y {
            y - center_y
        } else {
            center_y - y
        };
        let mut x = start_x;
        while x <= end_x
            invariant
                start_x <= end_x,
                start_x == sat_sub(center_x as int, radius as int),
                end_x == min(sat_add(center_x as int, radius as int), width - 1),
                radius_squared == sat_mul(radius as int, radius as int),
                start_y == sat_sub(center_y as int, radius as int),
                end_y == min(sat_add(center_y as int, radius as int), sat_sub(height as int, 1)),
                canvas@.len() == initial.len(),
                end_x < width,
                start_y <= y <= end_y,
                start_x <= x,
                x <= end_x + 1,
                w == width,
                distance_y == distance(y as int, center_y as int),
                forall|k: int|
                    0 <= k < initial.len() ==> #[trigger] canvas@[k] == if whole_pixel(
                        initial.len() as int,
                        k,
                    ) && in_disc(center_x as int, center_y as int, radius as int, width as int, height as int, column_of(w, k), row_of(w, k)) && (row_of(w, k) < y || (row_of(
                        w,
                        k,
                    ) == y && column_of(w, k) < x)) {
                        color_byte(color, channel_of(k))
                    } else {
                        initial[k]
                    },
            decreases end_x + 1 - x,
        {
            let distance_x = if x >= center_x {
                x - center_x
            } else {
                center_x - x
            };
            let reach = saturating_product(distance_x, distance_x).saturating_add(
                saturating_product(distance_y, distance_y),
            );
            if reach <= radius_squared {
                set_pixel(canvas, width, x, y, color);
            }
            x = x + 1;
        }
        y = y + 1;
    }
    assert forall|k: int| 0 <= k < initial.len() implies #[trigger] canvas@[k]
        == spec_fill_circle(
        initial,
        width as int,
        height as int,
        center_x as int,
        center_y as int,
        radius as int,
        color,
    )[k] by {
        lemma_index_composes(w, k);
    }
    assert(canvas@ =~= spec_fill_circle(
        initial,
        width as int,
        height as int,
        center_x as int,
        center_y as int,
        radius as int,
        color,
    ));
}

/// `fill_circle` on a canvas without columns: every pixel index is then the
/// first, which is set when any row of the first column lies in the disc.
fn fill_circle_without_columns(
    canvas: &mut [u8],
    height: usize,
    center_x: usize,
    center_y: usize,
    radius: usize,
    color: Rgba,
)
    ensures
        final(canvas)@ == spec_fill_circle(
            old(canvas)@,
            0,
            height as int,
            center_x as int,
            center_y as int,
            radius as int,
            color,
        ),
{
    let ghost initial = canvas@;
    let radius_squared = saturating_product(radius, radius);
    let start_y = center_y.saturating_sub(radius);
    let end_y = if center_y.saturating_add(radius) < height.saturating_sub(1) {
        center_y.saturating_add(radius)
    } else {
        height.saturating_sub(1)
    };
    let mut reached = false;
    if center_x.saturating_sub(radius) == 0 && start_y <= end_y {
        let reach_x = saturating_product(center_x, center_x);
        let mut y = start_y;
        while y <= end_y
            invariant
                start_y == sat_sub(center_y as int, radius as int),
                end_y == min(sat_add(center_y as int, radius as int), sat_sub(height as int, 1)),
                radius_squared == sat_mul(radius as int, radius as int),
                reach_x == sat_mul(center_x as int, center_x as int),
                sat_sub(center_x as int, radius as int) == 0,
                start_y <= y <= end_y + 1,
                reached == exists|row: int|
                    start_y <= row < y && #[trigger] in_disc(
                        center_x as int,
                        center_y as int,
                        radius as int,
                        0,
                        height as int,
                        0,
                        row,
                    ),
            decreases end_y + 1 - y,
        {
            let distance_y = if y >= center_y {
                y - center_y
            } else {
                center_y - y
            };
            let reach = reach_x.saturating_add(saturating_product(distance_y, distance_y));
            if reach <= radius_squared {
                reached = true;
            }
            proof {
                assert(distance(0, center_x as int) == center_x);
                if reach <= radius_squared {
                    assert(in_disc(center_x as int, center_y as int, radius as int, 0, height as int, 0, y as int));
                }
            }
            y = y + 1;
        }
    }
    assert(reached == first_column_reached(center_x as int, center_y as int, radius as int, height as int));
    if reached {
        set_pixel(canvas, 1, 0, 0, color);
    }
    assert(canvas@ =~= spec_fill_circle(
        initial,
        0,
        height as int,
        center_x as int,
        center_y as int,
        radius as int,
        color,
    ));
}

/// `a * b`, saturated at the largest `usize`.
fn saturating_product(a: usize, b: usize) -> (product: usize)
    ensures
        product == sat_mul(a as int, b as int),
{
    match a.checked_mul(b) {
        Some(product) => product,
        None => usize::MAX,
    }
}

/// The canvas after `fill_rect`.
pub open spec fn spec_fill_rect(
    canvas: Seq<u8>,
    width: int,
    height: int,
    x: int,
    y: int,
    w: int,
    h: int,
    color: Rgba,
) -> Seq<u8> {
    paint(canvas, width, |px: int, py: int| in_rect(x, y, w, h, width, height, px, py), color)
}

/// The canvas after `fill_circle`.
pub open spec fn spec_fill_circle(
    canvas: Seq<u8>,
    width: int,
    height: int,
    cx: int,
    cy: int,
    r: int,
    color: Rgba,
) -> Seq<u8> {
    if width == 0 {
        paint(
            canvas,
            1,
            |px: int, py: int| px == 0 && py == 0 && first_column_reached(cx, cy, r, height),
            color,
        )
    } else {
        paint(canvas, width, |px: int, py: int| in_disc(cx, cy, r, width, height, px, py), color)
    }
}

/// Whether some row of the first column of a canvas without columns lies in
/// the disc; every such row then stands for the first pixel.
pub open spec fn first_column_reached(cx: int, cy: int, r: int, height: int) -> bool {
    exists|row: int| #[trigger] in_disc(cx, cy, r, 0, height, 0, row)
}

/// What the prompt drawing reads from the `[input]` configuration, in whole pixels.
///
/// Sizes and the center are the configured values rounded to whole pixels; the
/// center is already scaled to the surface being drawn.
#[derive(Clone, Copy, Debug)]
pub struct PromptStyle {
    pub width: usize,
    pub height: usize,
    pub center_x: usize,
    pub center_y: usize,
    pub dot_spacing: usize,
    pub empty_dot_radius: usize,
    pub filled_dot_radius: usize,
    pub min_dots: usize,
    pub max_characters: usize,
    pub background_color: Color,
    pub empty_dot_color: Color,
    pub filled_dot_color: Color,
    pub feedback_background_color: Color,
    pub feedback_accent_color: Color,
    pub error_color: Color,
}

/// The straight-alpha color of a configured color.
pub open spec fn rgba_of(color: Color) -> Rgba {
    Rgba {
        red: color.spec_channels()[0],
        green: color.spec_channels()[1],
        blue: color.spec_channels()[2],
        alpha: color.spec_channels()[3],
    }
}

/// `value` limited to `low..=high`.
pub open spec fn clamp(value: int, low: int, high: int) -> int {
    if value < low {
        low
    } else if value > high {
        high
    } else {
        value
    }
}

/// The prompt rectangle on a surface: the configured size limited to the surface,
/// centered on the configured center, and moved inside the surface.
pub open spec fn spec_prompt_rectangle(width: int, height: int, style: PromptStyle) -> Rectangle {
    let prompt_width = clamp(style.width as int, 1, width);
    let prompt_height = clamp(style.height as int, 1, height);
    Rectangle {
        x: min(sat_sub(style.center_x as int, prompt_width / 2), sat_sub(width, prompt_width)) as usize,
        y: min(sat_sub(style.center_y as int, prompt_height / 2), sat_sub(height, prompt_height)) as usize,
        width: prompt_width as usize,
        height: prompt_height as usize,
    }
}

/// The largest dot radius that fits inside the prompt.
pub open spec fn spec_maximum_dot_radius(prompt: Rectangle) -> int {
    min(sat_sub(prompt.width as int, 1), sat_sub(prompt.height as int, 1)) / 2
}

/// The configured dot spacing, reduced so that `dot_count` dots of `radius` fit
/// across the prompt.
pub open spec fn spec_fitted_spacing(
    prompt: Rectangle,
    dot_count: int,
    configured_spacing: int,
    radius: int,
) -> int {
    if dot_count <= 1 {
        0
    } else {
        min(
            configured_spacing,
            sat_sub(sat_sub(prompt.width as int, 1), sat_mul(radius, 2)) / (dot_count - 1),
        )
    }
}

/// The horizontal offset of the failure shake in animation frame `frame`.
pub open spec fn shake_offset(frame: u64) -> int {
    let index = if frame >= 7 {
        7
    } else {
        frame as int
    };
    if index == 1 {
        -4
    } else if index == 2 {
        4
    } else if index == 3 {
        -3
    } else if index == 4 {
        3
    } else if index == 5 {
        -1
    } else if index == 6 {
        1
    } else {
        0
    }
}

/// The prompt shifted by the failure shake of frame `frame`, kept inside the surface.
pub open spec fn spec_shifted_prompt(prompt: Rectangle, width: int, frame: u64) -> Rectangle {
    let offset = shake_offset(frame);
    let moved = if offset < 0 {
        sat_sub(prompt.x as int, -offset)
    } else {
        sat_add(prompt.x as int, offset)
    };
    Rectangle { x: min(moved, sat_sub(width, prompt.width as int)) as usize, ..prompt }
}

/// The horizontal center of the prompt.
pub open spec fn prompt_center_x(prompt: Rectangle) -> int {
    sat_add(prompt.x as int, prompt.width as int / 2)
}

/// The vertical center of the prompt.
pub open spec fn prompt_center_y(prompt: Rectangle) -> int {
    sat_add(prompt.y as int, prompt.height as int / 2)
}

/// A row of `count` dots with the first at `start_x`, `spacing` apart, drawn in
/// order; dot `i` uses the highlight radius and color when `first <= i < last`.
pub open spec fn spec_dots(
    canvas: Seq<u8>,
    width: int,
    height: int,
    start_x: int,
    center_y: int,
    spacing: int,
    count: nat,
    first: int,
    last: int,
    highlight_radius: int,
    highlight_color: Rgba,
    radius: int,
    color: Rgba,
) -> Seq<u8>
    decreases count,
{
    if count == 0 {
        canvas
    } else {
        let previous = spec_dots(
            canvas,
            width,
            height,
            start_x,
            center_y,
            spacing,
            (count - 1) as nat,
            first,
            last,
            highlight_radius,
            highlight_color,
            radius,
            color,
        );
        let index = count - 1;
        let highlighted = first <= index < last;
        spec_fill_circle(
            previous,
            width,
            height,
            sat_add(start_x, sat_mul(index, spacing)),
            center_y,
            if highlighted {
                highlight_radius
            } else {
                radius
            },
            if highlighted {
                highlight_color
            } else {
                color
            },
        )
    }
}

/// Draws a row of dots; see [`spec_dots`].
fn draw_dots(
    canvas: &mut [u8],
    width: usize,
    height: usize,
    start_x: usize,
    center_y: usize,
    spacing: usize,
    count: usize,
    first: usize,
    last: usize,
    highlight_radius: usize,
    highlight_color: Rgba,
    radius: usize,
    color: Rgba,
)
    requires
        width >= 1,
        height >= 1,
    ensures
        final(canvas)@ == spec_dots(
            old(canvas)@,
            width as int,
            height as int,
            start_x as int,
            center_y as int,
            spacing as int,
            count as nat,
            first as int,
            last as int,
            highlight_radius as int,
            highlight_color,
            radius as int,
            color,
        ),
{
    let ghost initial = canvas@;
    let mut index: usize = 0;
    while index < count
        invariant
            width >= 1,
            height >= 1,
            index <= count,
            canvas@ == spec_dots(
                initial,
                width as int,
                height as int,
                start_x as int,
                center_y as int,
                spacing as int,
                index as nat,
                first as int,
                last as int,
                highlight_radius as int,
                highlight_color,
                radius as int,
                color,
            ),
        decreases count - index,
    {
        let center_x = start_x.saturating_add(saturating_product(index, spacing));
        if first <= index && index < last {
            fill_circle(canvas, width, height, center_x, center_y, highlight_radius, highlight_color);
        } else {
            fill_circle(canvas, width, height, center_x, center_y, radius, color);
        }
        index = index + 1;
    }
}

/// The prompt rectangle on a `width` by `height` surface.
pub fn prompt_rectangle(width: usize, height: usize, style: &PromptStyle) -> (prompt: Rectangle)
    requires
        width >= 1,
        height >= 1,
    ensures
        prompt == spec_prompt_rectangle(width as int, height as int, *style),
        prompt.x + prompt.width <= width,
        prompt.y + prompt.height <= height,
        1 <= prompt.width,
        1 <= prompt.height,
{
    let prompt_width = if style.width < 1 {
        1
    } else if style.width > width {
        width
    } else {
        style.width
    };
    let prompt_height = if style.height < 1 {
        1
    } else if style.height > height {
        height
    } else {
        style.height
    };
    let centered_x = style.center_x.saturating_sub(prompt_width / 2);
    let centered_y = style.center_y.saturating_sub(prompt_height / 2);
    let limit_x = width.saturating_sub(prompt_width);
    let limit_y = height.saturating_sub(prompt_height);
    Rectangle {
        x: if centered_x < limit_x {
            centered_x
        } else {
            limit_x
        },
        y: if centered_y < limit_y {
            centered_y
        } else {
            limit_y
        },
        width: prompt_width,
        height: prompt_height,
    }
}

/// The largest dot radius that fits inside the prompt.
pub fn maximum_dot_radius(prompt: Rectangle) -> (radius: usize)
    ensures
        radius == spec_maximum_dot_radius(prompt),
{
    let horizontal = prompt.width.saturating_sub(1);
    let vertical = prompt.height.saturating_sub(1);
    (if horizontal < vertical {
        horizontal
    } else {
        vertical
    }) / 2
}

/// The configured spacing, reduced so that the dots fit across the prompt.
pub fn fitted_spacing(
    prompt: Rectangle,
    dot_count: usize,
    configured_spacing: usize,
    radius: usize,
) -> (spacing: usize)
    ensures
        spacing == spec_fitted_spacing(
            prompt,
            dot_count as int,
            configured_spacing as int,
            radius as int,
        ),
{
    if dot_count <= 1 {
        return 0;
    }
    let available_span = prompt.width.saturating_sub(1).saturating_sub(saturating_product(radius, 2));
    let fitted = available_span / (dot_count - 1);
    if configured_spacing < fitted {
        configured_spacing
    } else {
        fitted
    }
}

/// The prompt shifted by the failure shake of animation frame `frame`.
pub fn shifted_prompt(prompt: Rectangle, width: usize, frame: u64) -> (shifted: Rectangle)
    ensures
        shifted == spec_shifted_prompt(prompt, width as int, frame),
{
    let index: u64 = if frame >= 7 {
        7
    } else {
        frame
    };
    let moved = if index == 1 {
        prompt.x.saturating_sub(4)
    } else if index == 2 {
        prompt.x.saturating_add(4)
    } else if index == 3 {
        prompt.x.saturating_sub(3)
    } else if index == 4 {
        prompt.x.saturating_add(3)
    } else if index == 5 {
        prompt.x.saturating_sub(1)
    } else if index == 6 {
        prompt.x.saturating_add(1)
    } else {
        prompt.x
    };
    let maximum_x = width.saturating_sub(prompt.width);
    Rectangle {
        x: if moved < maximum_x {
            moved
        } else {
            maximum_x
        },
        ..prompt
    }
}

/// The prompt filled with `color`.
pub open spec fn spec_fill_prompt(
    canvas: Seq<u8>,
    width: int,
    height: int,
    prompt: Rectangle,
    color: Rgba,
) -> Seq<u8> {
    spec_fill_rect(
        canvas,
        width,
        height,
        prompt.x as int,
        prompt.y as int,
        prompt.width as int,
        prompt.height as int,
        color,
    )
}

/// The password indicator: one dot per entered character, filled, followed by
/// empty dots up to the minimum; at most `max_characters` dots.
pub open spec fn spec_password_dots(
    canvas: Seq<u8>,
    width: int,
    height: int,
    prompt: Rectangle,
    password_length: int,
    style: PromptStyle,
    prompt_background: Rgba,
) -> Seq<u8> {
    let count = clamp(password_length, style.min_dots as int, style.max_characters as int);
    let maximum = spec_maximum_dot_radius(prompt);
    let empty_radius = min(style.empty_dot_radius as int, maximum);
    let filled_radius = min(style.filled_dot_radius as int, maximum);
    let spacing = spec_fitted_spacing(
        prompt,
        count,
        style.dot_spacing as int,
        max(empty_radius, filled_radius),
    );
    let span = sat_mul(sat_sub(count, 1), spacing);
    spec_dots(
        canvas,
        width,
        height,
        sat_sub(prompt_center_x(prompt), span / 2),
        prompt_center_y(prompt),
        spacing,
        count as nat,
        0,
        password_length,
        filled_radius,
        spec_opaque_over(rgba_of(style.filled_dot_color), prompt_background),
        empty_radius,
        spec_opaque_over(rgba_of(style.empty_dot_color), prompt_background),
    )
}

/// Three equal dots centered in the prompt.
pub open spec fn spec_centered_dots(
    canvas: Seq<u8>,
    width: int,
    height: int,
    prompt: Rectangle,
    color: Rgba,
    style: PromptStyle,
) -> Seq<u8> {
    let radius = min(style.filled_dot_radius as int, spec_maximum_dot_radius(prompt));
    let spacing = spec_fitted_spacing(prompt, 3, style.dot_spacing as int, radius);
    let span = sat_mul(2, spacing);
    spec_dots(
        canvas,
        width,
        height,
        sat_sub(prompt_center_x(prompt), span / 2),
        prompt_center_y(prompt),
        spacing,
        3,
        0,
        3,
        radius,
        color,
        radius,
        color,
    )
}

/// The failure marker: a short vertical bar above a dot, in the middle of the prompt.
pub open spec fn spec_failure_marker(
    canvas: Seq<u8>,
    width: int,
    height: int,
    prompt: Rectangle,
    color: Rgba,
) -> Seq<u8> {
    let center_x = prompt_center_x(prompt);
    let center_y = prompt_center_y(prompt);
    let h = prompt.height as int;
    let marker_width = clamp(h / 8, 1, 4);
    let marker_height = clamp(h / 3, 3, 11);
    let with_bar = spec_fill_rect(
        canvas,
        width,
        height,
        sat_sub(center_x, marker_width / 2),
        sat_sub(center_y, h / 4),
        marker_width,
        marker_height,
        color,
    );
    spec_fill_circle(
        with_bar,
        width,
        height,
        center_x,
        sat_add(prompt.y as int, sat_mul(h, 3) / 4),
        clamp(h / 12, 1, 2),
        color,
    )
}

/// Three loading dots; the dot of the current frame is larger and brighter.
pub open spec fn spec_loading_dots(
    canvas: Seq<u8>,
    width: int,
    height: int,
    prompt: Rectangle,
    style: PromptStyle,
    frame: u64,
    background: Rgba,
) -> Seq<u8> {
    let maximum = spec_maximum_dot_radius(prompt);
    let small_radius = min(style.empty_dot_radius as int, maximum);
    let large_radius = min(sat_add(style.filled_dot_radius as int, 1), maximum);
    let spacing = spec_fitted_spacing(prompt, 3, style.dot_spacing as int, large_radius);
    let active = (frame % 3) as int;
    spec_dots(
        canvas,
        width,
        height,
        sat_sub(prompt_center_x(prompt), spacing),
        prompt_center_y(prompt),
        spacing,
        3,
        active,
        active + 1,
        large_radius,
        spec_opaque_over(rgba_of(style.filled_dot_color), background),
        small_radius,
        spec_opaque_over(rgba_of(style.empty_dot_color), background),
    )
}

/// Six cooldown dots; the dot of the current frame takes the accent color.
pub open spec fn spec_cooldown_dots(
    canvas: Seq<u8>,
    width: int,
    height: int,
    prompt: Rectangle,
    style: PromptStyle,
    frame: u64,
    background: Rgba,
) -> Seq<u8> {
    let radius = min(style.empty_dot_radius as int, spec_maximum_dot_radius(prompt));
    let spacing = spec_fitted_spacing(prompt, 6, style.dot_spacing as int, radius);
    let span = sat_mul(spacing, 5);
    let active = (frame % 6) as int;
    spec_dots(
        canvas,
        width,
        height,
        sat_sub(prompt_center_x(prompt), span / 2),
        prompt_center_y(prompt),
        spacing,
        6,
        active,
        active + 1,
        radius,
        spec_opaque_over(rgba_of(style.feedback_accent_color), background),
        radius,
        spec_opaque_over(rgba_of(style.empty_dot_color), background),
    )
}

/// A border of two pixels (less for a thinner rectangle) inside `rectangle`.
pub open spec fn spec_border(
    canvas: Seq<u8>,
    width: int,
    height: int,
    rectangle: Rectangle,
    color: Rgba,
) -> Seq<u8> {
    let thickness = min(min(2, rectangle.width as int), rectangle.height as int);
    let x = rectangle.x as int;
    let y = rectangle.y as int;
    let w = rectangle.width as int;
    let h = rectangle.height as int;
    let top = spec_fill_rect(canvas, width, height, x, y, w, thickness, color);
    let bottom = spec_fill_rect(top, width, height, x, sat_add(y, sat_sub(h, thickness)), w, thickness, color);
    let left = spec_fill_rect(bottom, width, height, x, y, thickness, h, color);
    spec_fill_rect(left, width, height, sat_add(x, sat_sub(w, thickness)), y, thickness, h, color)
}

/// The first `steps` steps of the cross: each step draws one small dot on each diagonal.
pub open spec fn spec_cross_steps(
    canvas: Seq<u8>,
    width: int,
    height: int,
    start_x: int,
    start_y: int,
    size: int,
    steps: nat,
    color: Rgba,
) -> Seq<u8>
    decreases steps,
{
    if steps == 0 {
        canvas
    } else {
        let previous = spec_cross_steps(canvas, width, height, start_x, start_y, size, (steps - 1) as nat, color);
        let offset = steps - 1;
        let falling = spec_fill_circle(
            previous,
            width,
            height,
            sat_add(start_x, offset),
            sat_add(start_y, offset),
            1,
            color,
        );
        spec_fill_circle(
            falling,
            width,
            height,
            sat_add(start_x, sat_sub(size, offset)),
            sat_add(start_y, offset),
            1,
            color,
        )
    }
}

/// A cross of small dots in the middle of the prompt.
pub open spec fn spec_cross(
    canvas: Seq<u8>,
    width: int,
    height: int,
    prompt: Rectangle,
    color: Rgba,
) -> Seq<u8> {
    let size = clamp(prompt.height as int / 3, 5, 12);
    spec_cross_steps(
        canvas,
        width,
        height,
        sat_sub(prompt_center_x(prompt), size / 2),
        sat_sub(prompt_center_y(prompt), size / 2),
        size,
        (size + 1) as nat,
        color,
    )
}

/// Fills the prompt with `color`.
pub fn fill_prompt(canvas: &mut [u8], width: usize, height: usize, prompt: Rectangle, color: Rgba)
    ensures
        final(canvas)@ == spec_fill_prompt(old(canvas)@, width as int, height as int, prompt, color),
{
    fill_rect(canvas, width, height, prompt.x, prompt.y, prompt.width, prompt.height, color);
}

/// The center of a prompt, horizontally and vertically.
fn prompt_center(prompt: Rectangle) -> (center: (usize, usize))
    ensures
        center.0 == prompt_center_x(prompt),
        center.1 == prompt_center_y(prompt),
{
    (prompt.x.saturating_add(prompt.width / 2), prompt.y.saturating_add(prompt.height / 2))
}

/// Draws the password indicator; see [`spec_password_dots`].
fn draw_password_dots(
    canvas: &mut [u8],
    width: usize,
    height: usize,
    prompt: Rectangle,
    password_length: usize,
    style: &PromptStyle,
    prompt_background: Rgba,
)
    requires
        width >= 1,
        height >= 1,
        style.min_dots <= style.max_characters,
    ensures
        final(canvas)@ == spec_password_dots(
            old(canvas)@,
            width as int,
            height as int,
            prompt,
            password_length as int,
            *style,
            prompt_background,
        ),
{
    let dot_count = if password_length < style.min_dots {
        style.min_dots
    } else if password_length > style.max_characters {
        style.max_characters
    } else {
        password_length
    };
    let maximum_prompt_radius = maximum_dot_radius(prompt);
    let empty_radius = if style.empty_dot_radius < maximum_prompt_radius {
        style.empty_dot_radius
    } else {
        maximum_prompt_radius
    };
    let filled_radius = if style.filled_dot_radius < maximum_prompt_radius {
        style.filled_dot_radius
    } else {
        maximum_prompt_radius
    };
    let maximum_radius = if empty_radius > filled_radius {
        empty_radius
    } else {
        filled_radius
    };
    let spacing = fitted_spacing(prompt, dot_count, style.dot_spacing, maximum_radius);
    let span = saturating_product(dot_count.saturating_sub(1), spacing);
    let (center_x, center_y) = prompt_center(prompt);
    let start_x = center_x.saturating_sub(span / 2);
    let empty_color = opaque_over(Rgba::from_config(style.empty_dot_color), prompt_background);
    let filled_color = opaque_over(Rgba::from_config(style.filled_dot_color), prompt_background);
    draw_dots(
        canvas,
        width,
        height,
        start_x,
        center_y,
        spacing,
        dot_count,
        0,
        password_length,
        filled_radius,
        filled_color,
        empty_radius,
        empty_color,
    );
}

/// Draws three equal dots in the prompt; see [`spec_centered_dots`].
fn draw_centered_dots(
    canvas: &mut [u8],
    width: usize,
    height: usize,
    prompt: Rectangle,
    color: Rgba,
    style: &PromptStyle,
)
    requires
        width >= 1,
        height >= 1,
    ensures
        final(canvas)@ == spec_centered_dots(old(canvas)@, width as int, height as int, prompt, color, *style),
{
    let maximum = maximum_dot_radius(prompt);
    let radius = if style.filled_dot_radius < maximum {
        style.filled_dot_radius
    } else {
        maximum
    };
    let spacing = fitted_spacing(prompt, 3, style.dot_spacing, radius);
    let span = saturating_product(2, spacing);
    let (center_x, center_y) = prompt_center(prompt);
    let start_x = center_x.saturating_sub(span / 2);
    draw_dots(canvas, width, height, start_x, center_y, spacing, 3, 0, 3, radius, color, radius, color);
}

/// Draws the failure marker; see [`spec_failure_marker`].
fn draw_failure_marker(
    canvas: &mut [u8],
    width: usize,
    height: usize,
    prompt: Rectangle,
    color: Rgba,
)
    requires
        width >= 1,
        height >= 1,
    ensures
        final(canvas)@ == spec_failure_marker(old(canvas)@, width as int, height as int, prompt, color),
{
    let (center_x, center_y) = prompt_center(prompt);
    let marker_width = clamp_usize(prompt.height / 8, 1, 4);
    let marker_height = clamp_usize(prompt.height / 3, 3, 11);
    let marker_x = center_x.saturating_sub(marker_width / 2);
    let marker_y = center_y.saturating_sub(prompt.height / 4);
    let dot_radius = clamp_usize(prompt.height / 12, 1, 2);
    let dot_y = prompt.y.saturating_add(saturating_product(prompt.height, 3) / 4);
    fill_rect(canvas, width, height, marker_x, marker_y, marker_width, marker_height, color);
    fill_circle(canvas, width, height, center_x, dot_y, dot_radius, color);
}

/// `value` limited to `low..=high`.
fn clamp_usize(value: usize, low: usize, high: usize) -> (limited: usize)
    requires
        low <= high,
    ensures
        limited == clamp(value as int, low as int, high as int),
{
    if value < low {
        low
    } else if value > high {
        high
    } else {
        value
    }
}

/// Draws the loading dots of frame `frame`; see [`spec_loading_dots`].
fn draw_loading_dots(
    canvas: &mut [u8],
    width: usize,
    height: usize,
    prompt: Rectangle,
    style: &PromptStyle,
    frame: u64,
    background: Rgba,
)
    requires
        width >= 1,
        height >= 1,
    ensures
        final(canvas)@ == spec_loading_dots(
            old(canvas)@,
            width as int,
            height as int,
            prompt,
            *style,
            frame,
            background,
        ),
{
    let active = (frame % 3) as usize;
    let maximum = maximum_dot_radius(prompt);
    let small_radius = if style.empty_dot_radius < maximum {
        style.empty_dot_radius
    } else {
        maximum
    };
    let grown = style.filled_dot_radius.saturating_add(1);
    let large_radius = if grown < maximum {
        grown
    } else {
        maximum
    };
    let spacing = fitted_spacing(prompt, 3, style.dot_spacing, large_radius);
    let (center_x, center_y) = prompt_center(prompt);
    let start_x = center_x.saturating_sub(spacing);
    let muted = opaque_over(Rgba::from_config(style.empty_dot_color), background);
    let bright = opaque_over(Rgba::from_config(style.filled_dot_color), background);
    draw_dots(
        canvas,
        width,
        height,
        start_x,
        center_y,
        spacing,
        3,
        active,
        active + 1,
        large_radius,
        bright,
        small_radius,
        muted,
    );
}

/// Draws the cooldown dots of frame `frame`; see [`spec_cooldown_dots`].
fn draw_cooldown_dots(
    canvas: &mut [u8],
    width: usize,
    height: usize,
    prompt: Rectangle,
    style: &PromptStyle,
    frame: u64,
    background: Rgba,
)
    requires
        width >= 1,
        height >= 1,
    ensures
        final(canvas)@ == spec_cooldown_dots(
            old(canvas)@,
            width as int,
            height as int,
            prompt,
            *style,
            frame,
            background,
        ),
{
    let active = (frame % 6) as usize;
    let maximum = maximum_dot_radius(prompt);
    let radius = if style.empty_dot_radius < maximum {
        style.empty_dot_radius
    } else {
        maximum
    };
    let spacing = fitted_spacing(prompt, 6, style.dot_spacing, radius);
    let span = saturating_product(spacing, 5);
    let (center_x, center_y) = prompt_center(prompt);
    let start_x = center_x.saturating_sub(span / 2);
    let muted = opaque_over(Rgba::from_config(style.empty_dot_color), background);
    let accent = opaque_over(Rgba::from_config(style.feedback_accent_color), background);
    draw_dots(canvas, width, height, start_x, center_y, spacing, 6, active, active + 1, radius, accent, radius, muted);
}

/// Draws a border inside `rectangle`; see [`spec_border`].
fn draw_border(canvas: &mut [u8], width: usize, height: usize, rectangle: Rectangle, color: Rgba)
    ensures
        final(canvas)@ == spec_border(old(canvas)@, width as int, height as int, rectangle, color),
{
    let narrow = if rectangle.width < 2 {
        rectangle.width
    } else {
        2
    };
    let thickness = if rectangle.height < narrow {
        rectangle.height
    } else {
        narrow
    };
    fill_rect(canvas, width, height, rectangle.x, rectangle.y, rectangle.width, thickness, color);
    fill_rect(
        canvas,
        width,
        height,
        rectangle.x,
        rectangle.y.saturating_add(rectangle.height.saturating_sub(thickness)),
        rectangle.width,
        thickness,
        color,
    );
    fill_rect(canvas, width, height, rectangle.x, rectangle.y, thickness, rectangle.height, color);
    fill_rect(
        canvas,
        width,
        height,
        rectangle.x.saturating_add(rectangle.width.saturating_sub(thickness)),
        rectangle.y,
        thickness,
        rectangle.height,
        color,
    );
}

/// Draws a cross in the middle of the prompt; see [`spec_cross`].
fn draw_cross(canvas: &mut [u8], width: usize, height: usize, prompt: Rectangle, color: Rgba)
    requires
        width >= 1,
        height >= 1,
    ensures
        final(canvas)@ == spec_cross(old(canvas)@, width as int, height as int, prompt, color),
{
    let ghost initial = canvas@;
    let size = clamp_usize(prompt.height / 3, 5, 12);
    let (center_x, center_y) = prompt_center(prompt);
    let start_x = center_x.saturating_sub(size / 2);
    let start_y = center_y.saturating_sub(size / 2);
    let mut offset: usize = 0;
    while offset <= size
        invariant
            width >= 1,
            height >= 1,
            size <= 12,
            offset <= size + 1,
            canvas@ == spec_cross_steps(
                initial,
                width as int,
                height as int,
                start_x as int,
                start_y as int,
                size as int,
                offset as nat,
                color,
            ),
        decreases size + 1 - offset,
    {
        fill_circle(
            canvas,
            width,
            height,
            start_x.saturating_add(offset),
            start_y.saturating_add(offset),
            1,
            color,
        );
        fill_circle(
            canvas,
            width,
            height,
            start_x.saturating_add(size.saturating_sub(offset)),
            start_y.saturating_add(offset),
            1,
            color,
        );
        offset = offset + 1;
    }
}

/// The prompt background while the prompt is ready or authenticating.
pub open spec fn ready_background(style: PromptStyle) -> Rgba {
    spec_opaque_over(rgba_of(style.background_color), spec_background())
}

/// The prompt background while failure or cooldown feedback is shown.
pub open spec fn feedback_background(style: PromptStyle) -> Rgba {
    spec_opaque_over(rgba_of(style.feedback_background_color), spec_background())
}

/// The prompt drawn over `canvas` on a `width` by `height` surface; surfaces
/// narrower or lower than 80 pixels get no prompt.
pub open spec fn spec_lock_prompt(
    canvas: Seq<u8>,
    width: int,
    height: int,
    password_length: int,
    state: PromptState,
    style: PromptStyle,
) -> Seq<u8> {
    if width < 80 || height < 80 {
        canvas
    } else {
        let prompt = spec_prompt_rectangle(width, height, style);
        let ready = ready_background(style);
        let feedback = feedback_background(style);
        match state {
            PromptState::Ready => spec_password_dots(
                spec_fill_prompt(canvas, width, height, prompt, ready),
                width,
                height,
                prompt,
                password_length,
                style,
                ready,
            ),
            PromptState::Authenticating => spec_centered_dots(
                spec_fill_prompt(canvas, width, height, prompt, ready),
                width,
                height,
                prompt,
                spec_opaque_over(rgba_of(style.filled_dot_color), ready),
                style,
            ),
            PromptState::Failure => spec_failure_marker(
                spec_fill_prompt(canvas, width, height, prompt, feedback),
                width,
                height,
                prompt,
                spec_opaque_over(rgba_of(style.feedback_accent_color), feedback),
            ),
            PromptState::Cooldown => spec_centered_dots(
                spec_fill_prompt(canvas, width, height, prompt, feedback),
                width,
                height,
                prompt,
                spec_opaque_over(rgba_of(style.empty_dot_color), feedback),
                style,
            ),
        }
    }
}

/// A whole frame: the fallback color everywhere, then the prompt.
pub open spec fn spec_lock_frame(
    canvas: Seq<u8>,
    width: int,
    height: int,
    password_length: int,
    state: PromptState,
    style: PromptStyle,
) -> Seq<u8> {
    spec_lock_prompt(
        fill_all(canvas, spec_background()),
        width,
        height,
        password_length,
        state,
        style,
    )
}

/// Draws the prompt on a `width` by `height` surface.
///
/// The ready indicator shows only how many characters were entered; the other
/// states show neither the password nor its length.
pub fn draw_lock_prompt(
    canvas: &mut [u8],
    width: usize,
    height: usize,
    password_length: usize,
    prompt_state: PromptState,
    style: &PromptStyle,
)
    requires
        prompt_state == PromptState::Ready ==> style.min_dots <= style.max_characters,
    ensures
        final(canvas)@ == spec_lock_prompt(
            old(canvas)@,
            width as int,
            height as int,
            password_length as int,
            prompt_state,
            *style,
        ),
{
    if width < 80 || height < 80 {
        return;
    }
    let prompt = prompt_rectangle(width, height, style);
    let ready = opaque_over(Rgba::from_config(style.background_color), background());
    let feedback = opaque_over(Rgba::from_config(style.feedback_background_color), background());
    match prompt_state {
        PromptState::Ready => {
            fill_prompt(canvas, width, height, prompt, ready);
            draw_password_dots(canvas, width, height, prompt, password_length, style, ready);
        },
        PromptState::Authenticating => {
            fill_prompt(canvas, width, height, prompt, ready);
            let color = opaque_over(Rgba::from_config(style.filled_dot_color), ready);
            draw_centered_dots(canvas, width, height, prompt, color, style);
        },
        PromptState::Failure => {
            fill_prompt(canvas, width, height, prompt, feedback);
            let color = opaque_over(Rgba::from_config(style.feedback_accent_color), feedback);
            draw_failure_marker(canvas, width, height, prompt, color);
        },
        PromptState::Cooldown => {
            fill_prompt(canvas, width, height, prompt, feedback);
            let color = opaque_over(Rgba::from_config(style.empty_dot_color), feedback);
            draw_centered_dots(canvas, width, height, prompt, color, style);
        },
    }
}

/// Draws the opaque fallback frame and the prompt into an ARGB8888 canvas.
///
/// A negative dimension leaves the canvas untouched.
pub fn draw_lock_frame(
    canvas: &mut [u8],
    width: i32,
    height: i32,
    password_length: usize,
    prompt_state: PromptState,
    style: &PromptStyle,
)
    requires
        prompt_state == PromptState::Ready ==> style.min_dots <= style.max_characters,
    ensures
        width < 0 || height < 0 ==> final(canvas)@ == old(canvas)@,
        width >= 0 && height >= 0 ==> final(canvas)@ == spec_lock_frame(
            old(canvas)@,
            width as int,
            height as int,
            password_length as int,
            prompt_state,
            *style,
        ),
{
    if width < 0 || height < 0 {
        return;
    }
    fill(canvas, background());
    draw_lock_prompt(canvas, width as usize, height as usize, password_length, prompt_state, style);
}

/// The animated feedback of frame `frame` drawn over a frame.
pub open spec fn spec_visual_feedback(
    canvas: Seq<u8>,
    width: int,
    height: int,
    state: PromptState,
    style: PromptStyle,
    frame: u64,
) -> Seq<u8> {
    if width < 80 || height < 80 {
        canvas
    } else {
        let prompt = spec_prompt_rectangle(width, height, style);
        let ready = ready_background(style);
        let feedback = feedback_background(style);
        match state {
            PromptState::Ready => canvas,
            PromptState::Authenticating => spec_loading_dots(
                spec_fill_prompt(canvas, width, height, prompt, ready),
                width,
                height,
                prompt,
                style,
                frame,
                ready,
            ),
            PromptState::Failure => {
                let shifted = spec_shifted_prompt(prompt, width, frame);
                let accent = spec_opaque_over(rgba_of(style.error_color), feedback);
                let cleared = spec_fill_prompt(canvas, width, height, prompt, spec_background());
                let moved = spec_fill_prompt(cleared, width, height, shifted, feedback);
                spec_cross(
                    spec_border(moved, width, height, shifted, accent),
                    width,
                    height,
                    shifted,
                    accent,
                )
            },
            PromptState::Cooldown => spec_cooldown_dots(
                spec_fill_prompt(canvas, width, height, prompt, feedback),
                width,
                height,
                prompt,
                style,
                frame,
                feedback,
            ),
        }
    }
}

/// Draws animation frame `frame` of the feedback of `prompt_state` over the prompt.
///
/// The ready state, small surfaces and negative dimensions leave the canvas untouched.
pub fn draw_lock_visual_feedback(
    canvas: &mut [u8],
    width: i32,
    height: i32,
    prompt_state: PromptState,
    style: &PromptStyle,
    frame: u64,
)
    ensures
        width < 0 || height < 0 ==> final(canvas)@ == old(canvas)@,
        width >= 0 && height >= 0 ==> final(canvas)@ == spec_visual_feedback(
            old(canvas)@,
            width as int,
            height as int,
            prompt_state,
            *style,
            frame,
        ),
{
    if width < 0 || height < 0 {
        return;
    }
    let width = width as usize;
    let height = height as usize;
    if width < 80 || height < 80 {
        return;
    }
    let prompt = prompt_rectangle(width, height, style);
    let ready = opaque_over(Rgba::from_config(style.background_color), background());
    let feedback = opaque_over(Rgba::from_config(style.feedback_background_color), background());
    match prompt_state {
        PromptState::Ready => {},
        PromptState::Authenticating => {
            fill_prompt(canvas, width, height, prompt, ready);
            draw_loading_dots(canvas, width, height, prompt, style, frame, ready);
        },
        PromptState::Failure => {
            fill_prompt(canvas, width, height, prompt, background());
            let shifted = shifted_prompt(prompt, width, frame);
            fill_prompt(canvas, width, height, shifted, feedback);
            let accent = opaque_over(Rgba::from_config(style.error_color), feedback);
            draw_border(canvas, width, height, shifted, accent);
            draw_cross(canvas, width, height, shifted, accent);
        },
        PromptState::Cooldown => {
            fill_prompt(canvas, width, height, prompt, feedback);
            draw_cooldown_dots(canvas, width, height, prompt, style, frame, feedback);
        },
    }
}

/// Every whole pixel of the canvas has an alpha byte of 255.
pub open spec fn opaque_pixels(canvas: Seq<u8>) -> bool {
    forall|k: int|
        0 <= k < canvas.len() && whole_pixel(canvas.len() as int, k) && channel_of(k) == 3
            ==> #[trigger] canvas[k] == 255
}

proof fn lemma_paint_keeps_opaque(
    canvas: Seq<u8>,
    width: int,
    region: spec_fn(int, int) -> bool,
    color: Rgba,
)
    requires
        opaque_pixels(canvas),
        color.alpha == 255,
    ensures
        opaque_pixels(paint(canvas, width, region, color)),
{
}

proof fn lemma_fill_rect_keeps_opaque(
    canvas: Seq<u8>,
    width: int,
    height: int,
    x: int,
    y: int,
    w: int,
    h: int,
    color: Rgba,
)
    requires
        opaque_pixels(canvas),
        color.alpha == 255,
    ensures
        opaque_pixels(spec_fill_rect(canvas, width, height, x, y, w, h, color)),
{
    lemma_paint_keeps_opaque(
        canvas,
        width,
        |px: int, py: int| in_rect(x, y, w, h, width, height, px, py),
        color,
    );
}

proof fn lemma_fill_circle_keeps_opaque(
    canvas: Seq<u8>,
    width: int,
    height: int,
    cx: int,
    cy: int,
    r: int,
    color: Rgba,
)
    requires
        opaque_pixels(canvas),
        color.alpha == 255,
    ensures
        opaque_pixels(spec_fill_circle(canvas, width, height, cx, cy, r, color)),
{
    lemma_paint_keeps_opaque(
        canvas,
        width,
        |px: int, py: int| in_disc(cx, cy, r, width, height, px, py),
        color,
    );
}

proof fn lemma_dots_keep_opaque(
    canvas: Seq<u8>,
    width: int,
    height: int,
    start_x: int,
    center_y: int,
    spacing: int,
    count: nat,
    first: int,
    last: int,
    highlight_radius: int,
    highlight_color: Rgba,
    radius: int,
    color: Rgba,
)
    requires
        opaque_pixels(canvas),
        highlight_color.alpha == 255,
        color.alpha == 255,
    ensures
        opaque_pixels(
            spec_dots(
                canvas,
                width,
                height,
                start_x,
                center_y,
                spacing,
                count,
                first,
                last,
                highlight_radius,
                highlight_color,
                radius,
                color,
            ),
        ),
    decreases count,
{
    if count > 0 {
        lemma_dots_keep_opaque(
            canvas,
            width,
            height,
            start_x,
            center_y,
            spacing,
            (count - 1) as nat,
            first,
            last,
            highlight_radius,
            highlight_color,
            radius,
            color,
        );
        let previous = spec_dots(
            canvas,
            width,
            height,
            start_x,
            center_y,
            spacing,
            (count - 1) as nat,
            first,
            last,
            highlight_radius,
            highlight_color,
            radius,
            color,
        );
        let index = count - 1;
        let highlighted = first <= index < last;
        lemma_fill_circle_keeps_opaque(
            previous,
            width,
            height,
            sat_add(start_x, sat_mul(index, spacing)),
            center_y,
            if highlighted {
                highlight_radius
            } else {
                radius
            },
            if highlighted {
                highlight_color
            } else {
                color
            },
        );
    }
}

proof fn lemma_cross_steps_keep_opaque(
    canvas: Seq<u8>,
    width: int,
    height: int,
    start_x: int,
    start_y: int,
    size: int,
    steps: nat,
    color: Rgba,
)
    requires
        opaque_pixels(canvas),
        color.alpha == 255,
    ensures
        opaque_pixels(spec_cross_steps(canvas, width, height, start_x, start_y, size, steps, color)),
    decreases steps,
{
    if steps > 0 {
        lemma_cross_steps_keep_opaque(canvas, width, height, start_x, start_y, size, (steps - 1) as nat, color);
        let previous = spec_cross_steps(canvas, width, height, start_x, start_y, size, (steps - 1) as nat, color);
        let offset = steps - 1;
        lemma_fill_circle_keeps_opaque(previous, width, height, sat_add(start_x, offset), sat_add(start_y, offset), 1, color);
        let falling = spec_fill_circle(previous, width, height, sat_add(start_x, offset), sat_add(start_y, offset), 1, color);
        lemma_fill_circle_keeps_opaque(
            falling,
            width,
            height,
            sat_add(start_x, sat_sub(size, offset)),
            sat_add(start_y, offset),
            1,
            color,
        );
    }
}

/// Drawing a prompt over an opaque canvas keeps every pixel opaque.
pub proof fn lemma_prompt_keeps_opaque(
    canvas: Seq<u8>,
    width: int,
    height: int,
    password_length: int,
    state: PromptState,
    style: PromptStyle,
)
    requires
        opaque_pixels(canvas),
    ensures
        opaque_pixels(spec_lock_prompt(canvas, width, height, password_length, state, style)),
{
    if width >= 80 && height >= 80 {
        let prompt = spec_prompt_rectangle(width, height, style);
        let ready = ready_background(style);
        let feedback = feedback_background(style);
        let fill_color = match state {
            PromptState::Ready | PromptState::Authenticating => ready,
            _ => feedback,
        };
        lemma_fill_rect_keeps_opaque(
            canvas,
            width,
            height,
            prompt.x as int,
            prompt.y as int,
            prompt.width as int,
            prompt.height as int,
            fill_color,
        );
        let filled = spec_fill_prompt(canvas, width, height, prompt, fill_color);
        match state {
            PromptState::Ready => {
                let count = clamp(password_length, style.min_dots as int, style.max_characters as int);
                let maximum = spec_maximum_dot_radius(prompt);
                let empty_radius = min(style.empty_dot_radius as int, maximum);
                let filled_radius = min(style.filled_dot_radius as int, maximum);
                let spacing = spec_fitted_spacing(
                    prompt,
                    count,
                    style.dot_spacing as int,
                    max(empty_radius, filled_radius),
                );
                let span = sat_mul(sat_sub(count, 1), spacing);
                lemma_dots_keep_opaque(
                    filled,
                    width,
                    height,
                    sat_sub(prompt_center_x(prompt), span / 2),
                    prompt_center_y(prompt),
                    spacing,
                    count as nat,
                    0,
                    password_length,
                    filled_radius,
                    spec_opaque_over(rgba_of(style.filled_dot_color), ready),
                    empty_radius,
                    spec_opaque_over(rgba_of(style.empty_dot_color), ready),
                );
            },
            PromptState::Authenticating | PromptState::Cooldown => {
                let color = if state == PromptState::Authenticating {
                    spec_opaque_over(rgba_of(style.filled_dot_color), ready)
                } else {
                    spec_opaque_over(rgba_of(style.empty_dot_color), feedback)
                };
                let radius = min(style.filled_dot_radius as int, spec_maximum_dot_radius(prompt));
                let spacing = spec_fitted_spacing(prompt, 3, style.dot_spacing as int, radius);
                lemma_dots_keep_opaque(
                    filled,
                    width,
                    height,
                    sat_sub(prompt_center_x(prompt), sat_mul(2, spacing) / 2),
                    prompt_center_y(prompt),
                    spacing,
                    3,
                    0,
                    3,
                    radius,
                    color,
                    radius,
                    color,
                );
            },
            PromptState::Failure => {
                let color = spec_opaque_over(rgba_of(style.feedback_accent_color), feedback);
                let center_x = prompt_center_x(prompt);
                let center_y = prompt_center_y(prompt);
                let h = prompt.height as int;
                let marker_width = clamp(h / 8, 1, 4);
                lemma_fill_rect_keeps_opaque(
                    filled,
                    width,
                    height,
                    sat_sub(center_x, marker_width / 2),
                    sat_sub(center_y, h / 4),
                    marker_width,
                    clamp(h / 3, 3, 11),
                    color,
                );
                let with_bar = spec_fill_rect(
                    filled,
                    width,
                    height,
                    sat_sub(center_x, marker_width / 2),
                    sat_sub(center_y, h / 4),
                    marker_width,
                    clamp(h / 3, 3, 11),
                    color,
                );
                lemma_fill_circle_keeps_opaque(
                    with_bar,
                    width,
                    height,
                    center_x,
                    sat_add(prompt.y as int, sat_mul(h, 3) / 4),
                    clamp(h / 12, 1, 2),
                    color,
                );
            },
        }
    }
}

/// Every frame is fully opaque, whatever it shows: no pixel of the session
/// behind the lock can show through.
pub proof fn lemma_frame_is_opaque(
    canvas: Seq<u8>,
    width: int,
    height: int,
    password_length: int,
    state: PromptState,
    style: PromptStyle,
)
    ensures
        opaque_pixels(spec_lock_frame(canvas, width, height, password_length, state, style)),
{
    let cleared = fill_all(canvas, spec_background());
    assert(opaque_pixels(cleared));
    lemma_prompt_keeps_opaque(cleared, width, height, password_length, state, style);
}

/// Animated feedback drawn over an opaque frame leaves it fully opaque.
pub proof fn lemma_feedback_keeps_opaque(
    canvas: Seq<u8>,
    width: int,
    height: int,
    state: PromptState,
    style: PromptStyle,
    frame: u64,
)
    requires
        opaque_pixels(canvas),
    ensures
        opaque_pixels(spec_visual_feedback(canvas, width, height, state, style, frame)),
{
    if width >= 80 && height >= 80 {
        let prompt = spec_prompt_rectangle(width, height, style);
        let ready = ready_background(style);
        let feedback = feedback_background(style);
        match state {
            PromptState::Ready => {},
            PromptState::Authenticating => {
                lemma_fill_rect_keeps_opaque(
                    canvas,
                    width,
                    height,
                    prompt.x as int,
                    prompt.y as int,
                    prompt.width as int,
                    prompt.height as int,
                    ready,
                );
                let filled = spec_fill_prompt(canvas, width, height, prompt, ready);
                let maximum = spec_maximum_dot_radius(prompt);
                let large_radius = min(sat_add(style.filled_dot_radius as int, 1), maximum);
                let spacing = spec_fitted_spacing(prompt, 3, style.dot_spacing as int, large_radius);
                let active = (frame % 3) as int;
                lemma_dots_keep_opaque(
                    filled,
                    width,
                    height,
                    sat_sub(prompt_center_x(prompt), spacing),
                    prompt_center_y(prompt),
                    spacing,
                    3,
                    active,
                    active + 1,
                    large_radius,
                    spec_opaque_over(rgba_of(style.filled_dot_color), ready),
                    min(style.empty_dot_radius as int, maximum),
                    spec_opaque_over(rgba_of(style.empty_dot_color), ready),
                );
            },
            PromptState::Cooldown => {
                lemma_fill_rect_keeps_opaque(
                    canvas,
                    width,
                    height,
                    prompt.x as int,
                    prompt.y as int,
                    prompt.width as int,
                    prompt.height as int,
                    feedback,
                );
                let filled = spec_fill_prompt(canvas, width, height, prompt, feedback);
                let radius = min(style.empty_dot_radius as int, spec_maximum_dot_radius(prompt));
                let spacing = spec_fitted_spacing(prompt, 6, style.dot_spacing as int, radius);
                let active = (frame % 6) as int;
                lemma_dots_keep_opaque(
                    filled,
                    width,
                    height,
                    sat_sub(prompt_center_x(prompt), sat_mul(spacing, 5) / 2),
                    prompt_center_y(prompt),
                    spacing,
                    6,
                    active,
                    active + 1,
                    radius,
                    spec_opaque_over(rgba_of(style.feedback_accent_color), feedback),
                    radius,
                    spec_opaque_over(rgba_of(style.empty_dot_color), feedback),
                );
            },
            PromptState::Failure => {
                let shifted = spec_shifted_prompt(prompt, width, frame);
                let accent = spec_opaque_over(rgba_of(style.error_color), feedback);
                lemma_fill_rect_keeps_opaque(
                    canvas,
                    width,
                    height,
                    prompt.x as int,
                    prompt.y as int,
                    prompt.width as int,
                    prompt.height as int,
                    spec_background(),
                );
                let cleared = spec_fill_prompt(canvas, width, height, prompt, spec_background());
                lemma_fill_rect_keeps_opaque(
                    cleared,
                    width,
                    height,
                    shifted.x as int,
                    shifted.y as int,
                    shifted.width as int,
                    shifted.height as int,
                    feedback,
                );
                let moved = spec_fill_prompt(cleared, width, height, shifted, feedback);
                let x = shifted.x as int;
                let y = shifted.y as int;
                let w = shifted.width as int;
                let h = shifted.height as int;
                let thickness = min(min(2, w), h);
                lemma_fill_rect_keeps_opaque(moved, width, height, x, y, w, thickness, accent);
                let top = spec_fill_rect(moved, width, height, x, y, w, thickness, accent);
                let bottom_y = sat_add(y, sat_sub(h, thickness));
                lemma_fill_rect_keeps_opaque(top, width, height, x, bottom_y, w, thickness, accent);
                let bottom = spec_fill_rect(top, width, height, x, bottom_y, w, thickness, accent);
                lemma_fill_rect_keeps_opaque(bottom, width, height, x, y, thickness, h, accent);
                let left = spec_fill_rect(bottom, width, height, x, y, thickness, h, accent);
                let right_x = sat_add(x, sat_sub(w, thickness));
                lemma_fill_rect_keeps_opaque(left, width, height, right_x, y, thickness, h, accent);
                let bordered = spec_border(moved, width, height, shifted, accent);
                let size = clamp(h / 3, 5, 12);
                lemma_cross_steps_keep_opaque(
                    bordered,
                    width,
                    height,
                    sat_sub(prompt_center_x(shifted), size / 2),
                    sat_sub(prompt_center_y(shifted), size / 2),
                    size,
                    (size + 1) as nat,
                    accent,
                );
            },
        }
    }
}

/// Only the ready indicator depends on the password length: the frames of the
/// other states are the same for every length.
pub proof fn lemma_feedback_hides_password_length(
    canvas: Seq<u8>,
    width: int,
    height: int,
    short_length: int,
    long_length: int,
    state: PromptState,
    style: PromptStyle,
)
    requires
        state != PromptState::Ready,
    ensures
        spec_lock_frame(canvas, width, height, short_length, state, style) == spec_lock_frame(
            canvas,
            width,
            height,
            long_length,
            state,
            style,
        ),
{
}

/// A surface narrower or lower than 80 pixels shows the fallback color alone.
pub proof fn lemma_small_surface_shows_background(
    canvas: Seq<u8>,
    width: int,
    height: int,
    password_length: int,
    state: PromptState,
    style: PromptStyle,
)
    requires
        width < 80 || height < 80,
    ensures
        spec_lock_frame(canvas, width, height, password_length, state, style) == fill_all(
            canvas,
            spec_background(),
        ),
{
}

/// The color of the pixel whose byte `k` lies in `pixels`.
pub open spec fn pixel_color(pixels: Seq<u8>, k: int) -> Rgba {
    let start = k - channel_of(k);
    Rgba { blue: pixels[start], green: pixels[start + 1], red: pixels[start + 2], alpha: pixels[start + 3] }
}

/// The frame after a captured image of the surface's size is shown under `dim`:
/// every whole pixel that the image covers becomes `dim` composited over the
/// captured pixel. An image of another size leaves the frame as it is.
pub open spec fn spec_captured_background(
    canvas: Seq<u8>,
    width: int,
    height: int,
    image: Seq<u8>,
    image_width: int,
    image_height: int,
    dim: Rgba,
) -> Seq<u8> {
    if width == image_width && height == image_height {
        Seq::new(
            canvas.len(),
            |k: int|
                if whole_pixel(canvas.len() as int, k) && k < image.len() {
                    color_byte(spec_opaque_over(dim, pixel_color(image, k)), channel_of(k))
                } else {
                    canvas[k]
                },
        )
    } else {
        canvas
    }
}

/// Shows a captured, blurred output under the configured dim color.
///
/// The image is drawn only when it has exactly the surface's size; a negative
/// dimension or another size keeps the opaque fallback.
pub fn draw_captured_background(
    canvas: &mut [u8],
    width: i32,
    height: i32,
    image: &BackgroundImage,
    dim_color: Color,
)
    requires
        image.well_formed(),
    ensures
        width < 0 || height < 0 ==> final(canvas)@ == old(canvas)@,
        width >= 0 && height >= 0 ==> final(canvas)@ == spec_captured_background(
            old(canvas)@,
            width as int,
            height as int,
            image.spec_pixels(),
            image.spec_width() as int,
            image.spec_height() as int,
            rgba_of(dim_color),
        ),
{
    let ghost initial = canvas@;
    if width < 0 || height < 0 {
        return;
    }
    if image.width() != width as usize || image.height() != height as usize {
        return;
    }
    let dim = Rgba::from_config(dim_color);
    let pixels = image.pixels();
    proof {
        image.lemma_pixel_bytes();
        let w = image.spec_width() as int;
        let h = image.spec_height() as int;
        vstd::arithmetic::div_mod::lemma_mod_multiples_basic(w * h, 4);
        assert(4 * w * h == (w * h) * 4) by (nonlinear_arith);
    }
    let length = canvas.len();
    let covered = if pixels.len() < length {
        pixels.len()
    } else {
        length
    };
    let mut start: usize = 0;
    while covered - start >= 4
        invariant
            length == canvas@.len(),
            initial.len() == length,
            pixels@ == image.spec_pixels(),
            pixels@.len() % 4 == 0,
            covered == if pixels@.len() < length { pixels@.len() as int } else { length as int },
            start % 4 == 0,
            start <= covered,
            dim == rgba_of(dim_color),
            forall|k: int|
                0 <= k < length ==> #[trigger] canvas@[k] == if k < start {
                    color_byte(spec_opaque_over(dim, pixel_color(pixels@, k)), channel_of(k))
                } else {
                    initial[k]
                },
        decreases covered - start,
    {
        let captured = Rgba::new(pixels[start + 2], pixels[start + 1], pixels[start], pixels[start + 3]);
        let color = opaque_over(dim, captured);
        proof {
            assert forall|k: int| start <= k < start + 4 implies pixel_color(pixels@, k) == captured by {
                assert(channel_of(k) == k - start);
            }
        }
        write_pixel(canvas, start, color);
        start = start + 4;
    }
    proof {
        let target = spec_captured_background(
            initial,
            width as int,
            height as int,
            image.spec_pixels(),
            image.spec_width() as int,
            image.spec_height() as int,
            rgba_of(dim_color),
        );
        assert forall|k: int| 0 <= k < length implies #[trigger] canvas@[k] == target[k] by {
            if k < start {
                assert(whole_pixel(length as int, k));
                assert(k < pixels@.len());
            } else {
                assert(!(whole_pixel(length as int, k) && k < pixels@.len()));
            }
        }
        assert(canvas@ =~= target);
    }
}

/// Showing a captured background keeps an opaque frame opaque.
pub proof fn lemma_captured_background_keeps_opaque(
    canvas: Seq<u8>,
    width: int,
    height: int,
    image: Seq<u8>,
    image_width: int,
    image_height: int,
    dim: Rgba,
)
    requires
        opaque_pixels(canvas),
    ensures
        opaque_pixels(
            spec_captured_background(canvas, width, height, image, image_width, image_height, dim),
        ),
{
}

/// The failure shake keeps the prompt on the surface and only moves it
/// sideways, by at most four pixels, and from the seventh frame on the prompt
/// rests where it was.
pub proof fn lemma_shake_stays_on_surface_and_settles(prompt: Rectangle, width: int, frame: u64)
    requires
        prompt.x + prompt.width <= width,
    ensures
        spec_shifted_prompt(prompt, width, frame).x + prompt.width <= width,
        spec_shifted_prompt(prompt, width, frame).y == prompt.y,
        spec_shifted_prompt(prompt, width, frame).width == prompt.width,
        spec_shifted_prompt(prompt, width, frame).height == prompt.height,
        distance(spec_shifted_prompt(prompt, width, frame).x as int, prompt.x as int) <= 4,
        frame >= 7 ==> spec_shifted_prompt(prompt, width, frame) == prompt,
{
}

/// The radius of the six cooldown dots in `prompt`.
pub open spec fn cooldown_dot_radius(prompt: Rectangle, style: PromptStyle) -> int {
    min(style.empty_dot_radius as int, spec_maximum_dot_radius(prompt))
}

/// The distance between the centers of neighbouring cooldown dots.
pub open spec fn cooldown_dot_spacing(prompt: Rectangle, style: PromptStyle) -> int {
    spec_fitted_spacing(prompt, 6, style.dot_spacing as int, cooldown_dot_radius(prompt, style))
}

/// The column of the center of cooldown dot `index`, the row of dots being
/// centered in the prompt.
pub open spec fn cooldown_dot_x(prompt: Rectangle, style: PromptStyle, index: int) -> int {
    let spacing = cooldown_dot_spacing(prompt, style);
    sat_add(sat_sub(prompt_center_x(prompt), sat_mul(spacing, 5) / 2), sat_mul(index, spacing))
}

proof fn lemma_dots_len(
    canvas: Seq<u8>,
    width: int,
    height: int,
    start_x: int,
    center_y: int,
    spacing: int,
    count: nat,
    first: int,
    last: int,
    highlight_radius: int,
    highlight_color: Rgba,
    radius: int,
    color: Rgba,
)
    ensures
        spec_dots(
            canvas,
            width,
            height,
            start_x,
            center_y,
            spacing,
            count,
            first,
            last,
            highlight_radius,
            highlight_color,
            radius,
            color,
        ).len() == canvas.len(),
    decreases count,
{
    if count > 0 {
        lemma_dots_len(
            canvas,
            width,
            height,
            start_x,
            center_y,
            spacing,
            (count - 1) as nat,
            first,
            last,
            highlight_radius,
            highlight_color,
            radius,
            color,
        );
    }
}

/// In a row of dots that are further apart than their radius, the center pixel of
/// dot `index` inside the canvas ends up in that dot's color: no later dot reaches it.
proof fn lemma_dot_center_pixel(
    canvas: Seq<u8>,
    width: int,
    height: int,
    start_x: int,
    center_y: int,
    spacing: int,
    count: nat,
    first: int,
    last: int,
    highlight_color: Rgba,
    radius: int,
    color: Rgba,
    index: int,
    channel: int,
)
    requires
        1 <= width <= i32::MAX,
        1 <= height <= i32::MAX,
        canvas.len() == 4 * width * height,
        0 <= index < count,
        0 <= start_x,
        0 <= center_y < height,
        0 <= radius < spacing <= width,
        sat_add(start_x, sat_mul(index, spacing)) < width,
        0 <= channel < 4,
    ensures
        spec_dots(
            canvas,
            width,
            height,
            start_x,
            center_y,
            spacing,
            count,
            first,
            last,
            radius,
            highlight_color,
            radius,
            color,
        )[byte_index(width, sat_add(start_x, sat_mul(index, spacing)), center_y, channel)]
            == color_byte(
            if first <= index < last {
                highlight_color
            } else {
                color
            },
            channel,
        ),
    decreases count,
{
    let x = sat_add(start_x, sat_mul(index, spacing));
    let k = byte_index(width, x, center_y, channel);
    let j = count - 1;
    let previous = spec_dots(
        canvas,
        width,
        height,
        start_x,
        center_y,
        spacing,
        (count - 1) as nat,
        first,
        last,
        radius,
        highlight_color,
        radius,
        color,
    );
    lemma_dots_len(
        canvas,
        width,
        height,
        start_x,
        center_y,
        spacing,
        (count - 1) as nat,
        first,
        last,
        radius,
        highlight_color,
        radius,
        color,
    );
    lemma_pixel_bounds(width, height, x, center_y);
    lemma_index_decomposes(width, x, center_y, channel);
    assert(0 <= k < canvas.len());
    assert(whole_pixel(canvas.len() as int, k));
    if j == index {
        assert(sat_mul(0, 0) == 0);
        assert(in_disc(x, center_y, radius, width, height, x, center_y)) by {
            assert(radius * radius >= 0) by (nonlinear_arith)
                requires
                    radius >= 0,
            ;
            assert(distance(x, x) == 0);
            assert(distance(center_y, center_y) == 0);
            assert(sat_mul(0, 0) == 0);
            assert(sat_add(0, 0) == 0);
            assert(sat_mul(radius, radius) >= 0);
            assert(sat_sub(x, radius) <= x <= sat_add(x, radius));
            assert(x <= sat_sub(width, 1));
            assert(sat_sub(center_y, radius) <= center_y <= sat_add(center_y, radius));
            assert(center_y <= sat_sub(height, 1));
        }
    } else {
        lemma_dot_center_pixel(
            canvas,
            width,
            height,
            start_x,
            center_y,
            spacing,
            (count - 1) as nat,
            first,
            last,
            highlight_color,
            radius,
            color,
            index,
            channel,
        );
        let later_x = sat_add(start_x, sat_mul(j, spacing));
        assert(sat_mul(index, spacing) == index * spacing);
        assert(j * spacing >= index * spacing + spacing) by (nonlinear_arith)
            requires
                j >= index + 1,
                spacing >= 0,
        ;
        assert(later_x >= x + spacing);
        assert(!in_disc(later_x, center_y, radius, width, height, x, center_y));
    }
}

/// The cooldown indicator moves with the animation frame: in frame `frame` the
/// dot `frame % 6` is drawn in the accent color and every other dot in the empty
/// dot color, as their center pixels show whenever the dots are further apart
/// than their radius and the center lies on the canvas.
pub proof fn lemma_cooldown_highlight_follows_frame(
    canvas: Seq<u8>,
    width: int,
    height: int,
    prompt: Rectangle,
    style: PromptStyle,
    frame: u64,
    background: Rgba,
    index: int,
    channel: int,
)
    requires
        1 <= width <= i32::MAX,
        1 <= height <= i32::MAX,
        canvas.len() == 4 * width * height,
        0 <= index < 6,
        0 <= channel < 4,
        cooldown_dot_radius(prompt, style) < cooldown_dot_spacing(prompt, style) <= width,
        cooldown_dot_x(prompt, style, index) < width,
        prompt_center_y(prompt) < height,
    ensures
        spec_cooldown_dots(canvas, width, height, prompt, style, frame, background)[byte_index(
            width,
            cooldown_dot_x(prompt, style, index),
            prompt_center_y(prompt),
            channel,
        )] == color_byte(
            if index == frame % 6 {
                spec_opaque_over(rgba_of(style.feedback_accent_color), background)
            } else {
                spec_opaque_over(rgba_of(style.empty_dot_color), background)
            },
            channel,
        ),
{
    let radius = cooldown_dot_radius(prompt, style);
    let spacing = cooldown_dot_spacing(prompt, style);
    let active = (frame % 6) as int;
    assert(spec_maximum_dot_radius(prompt) >= 0);
    lemma_dot_center_pixel(
        canvas,
        width,
        height,
        sat_sub(prompt_center_x(prompt), sat_mul(spacing, 5) / 2),
        prompt_center_y(prompt),
        spacing,
        6,
        active,
        active + 1,
        spec_opaque_over(rgba_of(style.feedback_accent_color), background),
        radius,
        spec_opaque_over(rgba_of(style.empty_dot_color), background),
        index,
        channel,
    );
}

/// On a surface of at least 80 by 80 pixels, the cooldown feedback of frame
/// `frame` shows dot `frame % 6` in the accent color and the others in the empty
/// dot color (for each dot whose center lies on the surface, with dots further
/// apart than their radius); so when the two colors differ, consecutive frames
/// differ: the indicator moves.
pub proof fn lemma_cooldown_indicator_moves(
    canvas: Seq<u8>,
    width: int,
    height: int,
    style: PromptStyle,
    frame: u64,
    index: int,
    channel: int,
)
    requires
        80 <= width <= i32::MAX,
        80 <= height <= i32::MAX,
        canvas.len() == 4 * width * height,
        0 <= index < 6,
        0 <= channel < 4,
        cooldown_dot_radius(spec_prompt_rectangle(width, height, style), style)
            < cooldown_dot_spacing(spec_prompt_rectangle(width, height, style), style),
        cooldown_dot_x(spec_prompt_rectangle(width, height, style), style, index) < width,
    ensures
        spec_visual_feedback(canvas, width, height, PromptState::Cooldown, style, frame)[byte_index(
            width,
            cooldown_dot_x(spec_prompt_rectangle(width, height, style), style, index),
            prompt_center_y(spec_prompt_rectangle(width, height, style)),
            channel,
        )] == color_byte(
            if index == frame % 6 {
                spec_opaque_over(rgba_of(style.feedback_accent_color), feedback_background(style))
            } else {
                spec_opaque_over(rgba_of(style.empty_dot_color), feedback_background(style))
            },
            channel,
        ),
        index == frame % 6 && frame < u64::MAX && spec_opaque_over(
            rgba_of(style.feedback_accent_color),
            feedback_background(style),
        ) != spec_opaque_over(rgba_of(style.empty_dot_color), feedback_background(style))
            ==> spec_visual_feedback(canvas, width, height, PromptState::Cooldown, style, frame)
            != spec_visual_feedback(
            canvas,
            width,
            height,
            PromptState::Cooldown,
            style,
            (frame + 1) as u64,
        ),
{
    let prompt = spec_prompt_rectangle(width, height, style);
    let feedback = feedback_background(style);
    let filled = spec_fill_prompt(canvas, width, height, prompt, feedback);
    assert(filled.len() == canvas.len());
    assert(prompt_center_y(prompt) < height);
    assert(cooldown_dot_spacing(prompt, style) <= width);
    lemma_cooldown_highlight_follows_frame(
        filled,
        width,
        height,
        prompt,
        style,
        frame,
        feedback,
        index,
        channel,
    );
    if index == frame % 6 && frame < u64::MAX {
        let next = (frame + 1) as u64;
        let accent = spec_opaque_over(rgba_of(style.feedback_accent_color), feedback);
        let empty = spec_opaque_over(rgba_of(style.empty_dot_color), feedback);
        if accent != empty {
            let c = if accent.blue != empty.blue {
                0int
            } else if accent.green != empty.green {
                1int
            } else if accent.red != empty.red {
                2int
            } else {
                3int
            };
            let x = cooldown_dot_x(prompt, style, index);
            let y = prompt_center_y(prompt);
            lemma_cooldown_highlight_follows_frame(filled, width, height, prompt, style, frame, feedback, index, c);
            lemma_cooldown_highlight_follows_frame(filled, width, height, prompt, style, next, feedback, index, c);
            assert(next % 6 != frame % 6);
            assert(color_byte(accent, c) != color_byte(empty, c));
            let k = byte_index(width, x, y, c);
            assert(spec_visual_feedback(canvas, width, height, PromptState::Cooldown, style, frame)[k]
                != spec_visual_feedback(canvas, width, height, PromptState::Cooldown, style, next)[k]);
        }
    }
}

} // verus!
