//! Captured output images: normalization and a bounded software box blur.
//!
//! Pixels are packed rows of four bytes each: blue, green, red, alpha (ARGB8888
//! on a little-endian machine). Byte `byte_index(width, x, y, channel)` holds
//! channel `channel` of the pixel in column `x` and row `y`.

use vstd::prelude::*;

verus! {

pub const BYTES_PER_PIXEL: usize = 4;

/// The largest number of pixels an image may have.
pub const MAX_PIXELS: usize = 16_777_216;

/// A packed, opaque image.
#[derive(Clone, Debug, Eq, PartialEq)]
pub struct BackgroundImage {
    width: usize,
    height: usize,
    pixels: Vec<u8>,
}

/// Why a captured buffer cannot become an image.
#[derive(Clone, Copy, Debug, Eq, PartialEq, Structural)]
pub enum ImageError {
    Dimensions,
    BufferTooSmall,
}

impl ImageError {
    /// The message shown to the user.
    pub fn to_string(&self) -> (message: String)
        ensures
            *self == ImageError::Dimensions ==> message@
                == "captured image dimensions are unsupported"@,
            *self == ImageError::BufferTooSmall ==> message@
                == "captured image buffer is incomplete"@,
    {
        match self {
            ImageError::Dimensions => String::from_str("captured image dimensions are unsupported"),
            ImageError::BufferTooSmall => String::from_str("captured image buffer is incomplete"),
        }
    }
}

/// The position of channel `channel` of pixel (`x`, `y`) in a packed image.
pub open spec fn byte_index(width: int, x: int, y: int, channel: int) -> int {
    (y * width + x) * 4 + channel
}

/// The channel that byte `k` holds.
pub open spec fn channel_of(k: int) -> int {
    k % 4
}

/// The column of the pixel that byte `k` belongs to.
pub open spec fn column_of(width: int, k: int) -> int {
    (k / 4) % width
}

/// The row of the pixel that byte `k` belongs to.
pub open spec fn row_of(width: int, k: int) -> int {
    (k / 4) / width
}

/// Whether `from_argb8888` accepts these dimensions.
pub open spec fn dimensions_supported(width: u32, height: u32, stride: u32) -> bool {
    &&& width > 0
    &&& height > 0
    &&& width * height <= MAX_PIXELS
    &&& stride >= 4 * width
    &&& stride * height <= usize::MAX
}

/// The packed opaque pixels of a captured buffer: row `y` comes from source row `y`,
/// or from the mirrored row when the buffer is upside down, without the row padding
/// of the stride, and every alpha byte is 255.
pub open spec fn normalized(
    source: Seq<u8>,
    width: int,
    height: int,
    stride: int,
    y_inverted: bool,
) -> Seq<u8> {
    Seq::new(
        (4 * width * height) as nat,
        |k: int|
            if channel_of(k) == 3 {
                255u8
            } else {
                let row = row_of(width, k);
                let source_row = if y_inverted {
                    height - 1 - row
                } else {
                    row
                };
                source[source_row * stride + 4 * column_of(width, k) + channel_of(k)]
            },
    )
}

/// The sum of channel `channel` over the pixels in columns `low..high` of row `y`.
pub open spec fn row_sum(
    pixels: Seq<u8>,
    width: int,
    y: int,
    channel: int,
    low: int,
    high: int,
) -> int
    decreases high - low,
{
    if high <= low {
        0
    } else {
        row_sum(pixels, width, y, channel, low, high - 1) + pixels[byte_index(
            width,
            high - 1,
            y,
            channel,
        )]
    }
}

/// The sum of channel `channel` over the pixels in rows `low..high` of column `x`.
pub open spec fn column_sum(
    pixels: Seq<u8>,
    width: int,
    x: int,
    channel: int,
    low: int,
    high: int,
) -> int
    decreases high - low,
{
    if high <= low {
        0
    } else {
        column_sum(pixels, width, x, channel, low, high - 1) + pixels[byte_index(
            width,
            x,
            high - 1,
            channel,
        )]
    }
}

/// The first position of the window of radius `radius` around `i`.
pub open spec fn window_start(i: int, radius: int) -> int {
    if i >= radius {
        i - radius
    } else {
        0
    }
}

/// The last position of the window of radius `radius` around `i`, among `count` positions.
pub open spec fn window_end(i: int, radius: int, count: int) -> int {
    if i + radius < count - 1 {
        i + radius
    } else {
        count - 1
    }
}

/// A channel average, as a byte (an average above 255 cannot arise, and would become 255).
pub open spec fn average(sum: int, count: int) -> u8 {
    if sum / count > 255 {
        255u8
    } else {
        (sum / count) as u8
    }
}

/// One horizontal box pass: every color channel becomes the average over the
/// window of `radius` pixels on each side within the row; alpha becomes 255.
pub open spec fn horizontal_pass(pixels: Seq<u8>, width: int, radius: int) -> Seq<u8> {
    Seq::new(
        pixels.len(),
        |k: int|
            if channel_of(k) == 3 {
                255u8
            } else {
                let x = column_of(width, k);
                let low = window_start(x, radius);
                let high = window_end(x, radius, width);
                average(
                    row_sum(pixels, width, row_of(width, k), channel_of(k), low, high + 1),
                    high - low + 1,
                )
            },
    )
}

/// One vertical box pass: every color channel becomes the average over the
/// window of `radius` pixels on each side within the column; alpha becomes 255.
pub open spec fn vertical_pass(pixels: Seq<u8>, width: int, height: int, radius: int) -> Seq<u8> {
    Seq::new(
        pixels.len(),
        |k: int|
            if channel_of(k) == 3 {
                255u8
            } else {
                let y = row_of(width, k);
                let low = window_start(y, radius);
                let high = window_end(y, radius, height);
                average(
                    column_sum(pixels, width, column_of(width, k), channel_of(k), low, high + 1),
                    high - low + 1,
                )
            },
    )
}

/// One round of the blur: a horizontal pass followed by a vertical pass.
pub open spec fn blur_round(pixels: Seq<u8>, width: int, height: int, radius: int) -> Seq<u8> {
    vertical_pass(horizontal_pass(pixels, width, radius), width, height, radius)
}

/// The radius of each of the three rounds: a third of the requested radius,
/// rounded up, and at least one.
pub open spec fn pass_radius(radius: u32) -> int {
    let third = (radius + 2) / 3;
    if third < 1 {
        1
    } else {
        third
    }
}

/// The blurred pixels: three box rounds, or the pixels unchanged for a zero radius
/// or an image only one pixel wide or high.
pub open spec fn blurred(pixels: Seq<u8>, width: int, height: int, radius: u32) -> Seq<u8> {
    if radius == 0 || width <= 1 || height <= 1 {
        pixels
    } else {
        let r = pass_radius(radius);
        blur_round(blur_round(blur_round(pixels, width, height, r), width, height, r), width, height, r)
    }
}

/// Every alpha byte of a packed image is 255.
pub open spec fn is_opaque(pixels: Seq<u8>) -> bool {
    forall|k: int| 0 <= k < pixels.len() && channel_of(k) == 3 ==> #[trigger] pixels[k] == 255
}

impl BackgroundImage {
    pub closed spec fn spec_width(&self) -> nat {
        self.width as nat
    }

    pub closed spec fn spec_height(&self) -> nat {
        self.height as nat
    }

    pub closed spec fn spec_pixels(&self) -> Seq<u8> {
        self.pixels@
    }

    /// The image is non-empty, within the pixel limit, and holds four bytes per pixel.
    pub closed spec fn well_formed(&self) -> bool {
        &&& self.width >= 1
        &&& self.height >= 1
        &&& self.width * self.height <= MAX_PIXELS
        &&& self.pixels@.len() == 4 * self.width * self.height
    }

    /// Normalizes a captured native-endian ARGB8888 buffer into a packed opaque image.
    ///
    /// Fails with `Dimensions` for an empty or oversized image, a stride shorter than
    /// a row, or a buffer size beyond the address space; then with `BufferTooSmall`
    /// when `source` holds fewer than `stride * height` bytes.
    pub fn from_argb8888(
        width: u32,
        height: u32,
        stride: u32,
        source: &[u8],
        y_inverted: bool,
    ) -> (result: Result<Self, ImageError>)
        ensures
            !dimensions_supported(width, height, stride) ==> result == Err::<Self, ImageError>(
                ImageError::Dimensions,
            ),
            dimensions_supported(width, height, stride) && source@.len() < stride * height
                ==> result == Err::<Self, ImageError>(ImageError::BufferTooSmall),
            dimensions_supported(width, height, stride) && source@.len() >= stride * height ==> (
            result matches Ok(image) && image.well_formed() && image.spec_width() == width
                && image.spec_height() == height && image.spec_pixels() == normalized(
                source@,
                width as int,
                height as int,
                stride as int,
                y_inverted,
            )),
    {
        let width = width as usize;
        let height = height as usize;
        let stride = stride as usize;
        let row_bytes = match width.checked_mul(BYTES_PER_PIXEL) {
            Some(bytes) => bytes,
            None => {
                return Err(ImageError::Dimensions);
            },
        };
        let pixel_count = match width.checked_mul(height) {
            Some(count) => count,
            None => {
                return Err(ImageError::Dimensions);
            },
        };
        if width == 0 || height == 0 || pixel_count > MAX_PIXELS || stride < row_bytes {
            return Err(ImageError::Dimensions);
        }
        let source_size = match stride.checked_mul(height) {
            Some(size) => size,
            None => {
                return Err(ImageError::Dimensions);
            },
        };
        if source.len() < source_size {
            return Err(ImageError::BufferTooSmall);
        }
        let ghost target = normalized(
            source@,
            width as int,
            height as int,
            stride as int,
            y_inverted,
        );
        let mut pixels: Vec<u8> = Vec::new();
        let mut destination_row: usize = 0;
        while destination_row < height
            invariant
                1 <= width,
                width * height <= MAX_PIXELS,
                4 * width <= stride,
                stride * height <= source@.len(),
                stride * height <= usize::MAX,
                destination_row <= height,
                pixels@.len() == 4 * (destination_row * width),
                target.len() == 4 * width * height,
                target == normalized(
                    source@,
                    width as int,
                    height as int,
                    stride as int,
                    y_inverted,
                ),
                forall|k: int| 0 <= k < pixels@.len() ==> #[trigger] pixels@[k] == target[k],
            decreases height - destination_row,
        {
            let source_row = if y_inverted {
                height - destination_row - 1
            } else {
                destination_row
            };
            proof {
                lemma_row_start_in_bounds(source_row as int, stride as int, height as int);
            }
            let source_start = source_row * stride;
            let mut x: usize = 0;
            while x < width
                invariant
                    1 <= width,
                    width * height <= MAX_PIXELS,
                    4 * width <= stride,
                    stride * height <= source@.len(),
                    stride * height <= usize::MAX,
                    destination_row < height,
                    source_row < height,
                    source_row == (if y_inverted {
                        height - destination_row - 1
                    } else {
                        destination_row as int
                    }),
                    source_start == source_row * stride,
                    source_start + stride <= source@.len(),
                    source_start + stride <= stride * height,
                    x <= width,
                    pixels@.len() == 4 * (destination_row * width + x),
                    target.len() == 4 * width * height,
                    target == normalized(
                        source@,
                        width as int,
                        height as int,
                        stride as int,
                        y_inverted,
                    ),
                    forall|k: int| 0 <= k < pixels@.len() ==> #[trigger] pixels@[k] == target[k],
                decreases width - x,
            {
                let base = source_start + 4 * x;
                let ghost first = pixels@.len() as int;
                proof {
                    lemma_pixel_bounds(width as int, height as int, x as int, destination_row as int);
                    assert(first == byte_index(width as int, x as int, destination_row as int, 0));
                    assert forall|c: int| 0 <= c < 4 implies #[trigger] target[first + c] == if c
                        == 3 {
                        255u8
                    } else {
                        source@[base + c]
                    } by {
                        lemma_index_decomposes(width as int, x as int, destination_row as int, c);
                        assert(first + c == byte_index(width as int, x as int, destination_row as int, c));
                    }
                }
                pixels.push(source[base]);
                pixels.push(source[base + 1]);
                pixels.push(source[base + 2]);
                pixels.push(255);
                proof {
                    assert forall|k: int| 0 <= k < pixels@.len() implies #[trigger] pixels@[k] == target[k] by {
                        if k >= first {
                            assert(target[first + (k - first)] == pixels@[k]);
                        }
                    }
                }
                x = x + 1;
            }
            assert(4 * (destination_row * width + width) == 4 * ((destination_row + 1) * width))
                by (nonlinear_arith);
            destination_row = destination_row + 1;
        }
        assert(4 * (height * width) == 4 * width * height) by (nonlinear_arith);
        assert(pixels@ =~= target);
        Ok(BackgroundImage { width, height, pixels })
    }

    /// Blurs the image in place with three rounds of horizontal and vertical box
    /// averaging, each with a third of `radius` (rounded up); alpha stays 255.
    pub fn blur(&mut self, radius: u32)
        requires
            old(self).well_formed(),
        ensures
            final(self).well_formed(),
            final(self).spec_width() == old(self).spec_width(),
            final(self).spec_height() == old(self).spec_height(),
            final(self).spec_pixels() == blurred(
                old(self).spec_pixels(),
                old(self).spec_width() as int,
                old(self).spec_height() as int,
                radius,
            ),
    {
        if radius == 0 || self.width <= 1 || self.height <= 1 {
            return;
        }
        let third: u32 = radius / 3 + if radius % 3 != 0 {
            1
        } else {
            0
        };
        let round_radius: usize = if third < 1 {
            1
        } else {
            third as usize
        };
        assert(round_radius == pass_radius(radius));
        let mut scratch: Vec<u8> = vec![0u8; self.pixels.len()];
        let ghost initial = self.pixels@;
        let ghost w = self.width as int;
        let ghost h = self.height as int;
        let mut round: usize = 0;
        while round < 3
            invariant
                self.well_formed(),
                self.width as int == w,
                self.height as int == h,
                w >= 2,
                h >= 2,
                round <= 3,
                scratch@.len() == self.pixels@.len(),
                self.pixels@ == repeated_rounds(initial, w, h, round_radius as int, round as nat),
            decreases 3 - round,
        {
            blur_horizontal(&self.pixels, &mut scratch, self.width, self.height, round_radius);
            blur_vertical(&scratch, &mut self.pixels, self.width, self.height, round_radius);
            round = round + 1;
        }
        assert(repeated_rounds(initial, w, h, round_radius as int, 3) == blurred(
            initial,
            w,
            h,
            radius,
        )) by {
            reveal_with_fuel(repeated_rounds, 4);
        }
    }

    pub fn width(&self) -> (width: usize)
        ensures
            width == self.spec_width(),
    {
        self.width
    }

    pub fn height(&self) -> (height: usize)
        ensures
            height == self.spec_height(),
    {
        self.height
    }

    pub fn pixels(&self) -> (pixels: &[u8])
        ensures
            pixels@ == self.spec_pixels(),
    {
        self.pixels.as_slice()
    }

    /// A well-formed image holds four bytes for each of its pixels.
    pub proof fn lemma_pixel_bytes(&self)
        requires
            self.well_formed(),
        ensures
            self.spec_pixels().len() == 4 * self.spec_width() * self.spec_height(),
            self.spec_width() >= 1,
            self.spec_height() >= 1,
    {
    }
}

/// The first byte of pixel (`x`, `y`).
fn pixel_start(width: usize, height: usize, x: usize, y: usize) -> (start: usize)
    requires
        x < width,
        y < height,
        width * height <= MAX_PIXELS,
    ensures
        start == byte_index(width as int, x as int, y as int, 0),
        start + 3 < 4 * width * height,
{
    proof {
        lemma_pixel_bounds(width as int, height as int, x as int, y as int);
    }
    (y * width + x) * BYTES_PER_PIXEL
}

/// Adds the three color channels of the pixel at `start` to `sums`.
fn add_pixel(sums: &mut [u64; 3], source: &Vec<u8>, start: usize)
    requires
        start + 2 < source.len(),
        forall|c: int| 0 <= c < 3 ==> old(sums)@[c] + 255 <= u64::MAX,
    ensures
        forall|c: int| 0 <= c < 3 ==> final(sums)@[c] == old(sums)@[c] + source@[start + c],
{
    sums[0] = sums[0] + source[start] as u64;
    sums[1] = sums[1] + source[start + 1] as u64;
    sums[2] = sums[2] + source[start + 2] as u64;
}

/// Removes the three color channels of the pixel at `start` from `sums`.
fn subtract_pixel(sums: &mut [u64; 3], source: &Vec<u8>, start: usize)
    requires
        start + 2 < source.len(),
        forall|c: int| 0 <= c < 3 ==> old(sums)@[c] >= source@[start + c],
    ensures
        forall|c: int| 0 <= c < 3 ==> final(sums)@[c] == old(sums)@[c] - source@[start + c],
{
    sums[0] = sums[0].saturating_sub(source[start] as u64);
    sums[1] = sums[1].saturating_sub(source[start + 1] as u64);
    sums[2] = sums[2].saturating_sub(source[start + 2] as u64);
}

/// Writes the averages of `sums` over `count` pixels into the pixel at `start`,
/// and makes it opaque.
fn write_average(destination: &mut Vec<u8>, start: usize, sums: [u64; 3], count: usize)
    requires
        start + 3 < old(destination).len(),
        count >= 1,
    ensures
        final(destination)@.len() == old(destination)@.len(),
        forall|i: int|
            0 <= i < final(destination)@.len() ==> #[trigger] final(destination)@[i] == if i
                == start + 3 {
                255u8
            } else if start <= i < start + 3 {
                average(sums@[i - start] as int, count as int)
            } else {
                old(destination)@[i]
            },
{
    let divisor = count as u64;
    let mut channel: usize = 0;
    while channel < 3
        invariant
            channel <= 3,
            start + 3 < destination.len(),
            destination@.len() == old(destination)@.len(),
            divisor == count,
            count >= 1,
            forall|i: int|
                0 <= i < destination@.len() ==> #[trigger] destination@[i] == if start <= i
                    < start + channel {
                    average(sums@[i - start] as int, count as int)
                } else {
                    old(destination)@[i]
                },
        decreases 3 - channel,
    {
        let value = sums[channel] / divisor;
        let byte: u8 = if value > 255 {
            255
        } else {
            value as u8
        };
        destination.set(start + channel, byte);
        channel = channel + 1;
    }
    set_alpha(destination, start, 255);
}

/// Sets the alpha byte of the pixel at `start`.
fn set_alpha(pixels: &mut Vec<u8>, start: usize, alpha: u8)
    requires
        start + 3 < old(pixels).len(),
    ensures
        final(pixels)@ == old(pixels)@.update(start + 3, alpha),
{
    pixels.set(start + 3, alpha);
}

/// One horizontal box pass from `source` into `destination`.
fn blur_horizontal(
    source: &Vec<u8>,
    destination: &mut Vec<u8>,
    width: usize,
    height: usize,
    radius: usize,
)
    requires
        width >= 1,
        height >= 1,
        width * height <= MAX_PIXELS,
        source@.len() == 4 * width * height,
        old(destination)@.len() == source@.len(),
    ensures
        final(destination)@ == horizontal_pass(source@, width as int, radius as int),
{
    let ghost w = width as int;
    let ghost r = radius as int;
    let ghost target = horizontal_pass(source@, w, r);
    proof {
        lemma_width_bound(width as int, height as int);
    }
    let mut y: usize = 0;
    while y < height
        invariant
            w == width,
            r == radius,
            width >= 1,
            width <= MAX_PIXELS,
            height >= 1,
            width * height <= MAX_PIXELS,
            source@.len() == 4 * width * height,
            destination@.len() == source@.len(),
            y <= height,
            target == horizontal_pass(source@, w, r),
            forall|k: int|
                0 <= k < destination@.len() && row_of(w, k) < y ==> #[trigger] destination@[k]
                    == target[k],
        decreases height - y,
    {
        let mut sums: [u64; 3] = [0, 0, 0];
        let initial_end: usize = if radius < width - 1 {
            radius
        } else {
            width - 1
        };
        let mut x: usize = 0;
        while x <= initial_end
            invariant
                width >= 1,
                width <= MAX_PIXELS,
                width * height <= MAX_PIXELS,
                y < height,
                initial_end < width,
                x <= initial_end + 1,
                source@.len() == 4 * width * height,
                forall|c: int|
                    0 <= c < 3 ==> #[trigger] sums@[c] == row_sum(source@, w, y as int, c, 0, x as int),
                forall|c: int| 0 <= c < 3 ==> #[trigger] sums@[c] <= 255 * x,
                w == width,
            decreases initial_end + 1 - x,
        {
            let start = pixel_start(width, height, x, y);
            add_pixel(&mut sums, source, start);
            x = x + 1;
        }
        let mut x: usize = 0;
        while x < width
            invariant
                w == width,
                r == radius,
                width >= 1,
                width <= MAX_PIXELS,
                height >= 1,
                width * height <= MAX_PIXELS,
                y < height,
                x <= width,
                source@.len() == 4 * width * height,
                destination@.len() == source@.len(),
                target == horizontal_pass(source@, w, r),
                forall|c: int|
                    0 <= c < 3 ==> #[trigger] sums@[c] == row_sum(
                        source@,
                        w,
                        y as int,
                        c,
                        window_start(x as int, r),
                        window_end(x as int, r, w) + 1,
                    ),
                forall|c: int| 0 <= c < 3 ==> #[trigger] sums@[c] <= 255 * width,
                forall|k: int|
                    0 <= k < destination@.len() && (row_of(w, k) < y || (row_of(w, k) == y
                        && column_of(w, k) < x)) ==> #[trigger] destination@[k] == target[k],
            decreases width - x,
        {
            let start = x.saturating_sub(radius);
            let end = if x.saturating_add(radius) < width - 1 {
                x.saturating_add(radius)
            } else {
                width - 1
            };
            let pixel = pixel_start(width, height, x, y);
            proof {
                assert forall|c: int| 0 <= c < 4 implies #[trigger] target[pixel + c] == if c
                    == 3 {
                    255u8
                } else {
                    average(sums@[c] as int, end - start + 1)
                } by {
                    lemma_index_decomposes(w, x as int, y as int, c);
                }
            }
            write_average(destination, pixel, sums, end - start + 1);
            proof {
                assert forall|k: int|
                    0 <= k < destination@.len() && (row_of(w, k) < y || (row_of(w, k) == y
                        && column_of(w, k) < x + 1)) implies #[trigger] destination@[k]
                    == target[k] by {
                    lemma_index_composes(w, k);
                    if pixel <= k < pixel + 4 {
                        assert(k == pixel + (k - pixel));
                        lemma_index_decomposes(w, x as int, y as int, k - pixel);
                    } else if row_of(w, k) == y && column_of(w, k) == x {
                        assert(k == byte_index(w, x as int, y as int, channel_of(k)));
                    }
                }
            }
            if x >= radius {
                let leaving = pixel_start(width, height, x - radius, y);
                proof {
                    assert forall|c: int| 0 <= c < 3 implies sums@[c] == source@[leaving + c]
                        + row_sum(source@, w, y as int, c, (x - radius) as int + 1, window_end(x as int, r, w) + 1)
                        && sums@[c] >= source@[leaving + c] by {
                        lemma_row_sum_drop_first(
                            source@,
                            w,
                            y as int,
                            c,
                            (x - radius) as int,
                            window_end(x as int, r, w) + 1,
                        );
                        lemma_row_sum_bounds(source@, w, y as int, c, (x - radius) as int + 1, window_end(x as int, r, w) + 1);
                    }
                }
                subtract_pixel(&mut sums, source, leaving);
            }
            if x.saturating_add(radius).saturating_add(1) < width {
                let entering = pixel_start(width, height, x + radius + 1, y);
                proof {
                    assert forall|c: int| 0 <= c < 3 implies #[trigger] sums@[c] <= 255 * (width - 1) by {
                        lemma_row_sum_bounds(source@, w, y as int, c, window_start(x as int + 1, r), window_end(x as int, r, w) + 1);
                    }
                }
                add_pixel(&mut sums, source, entering);
            }
            proof {
                assert forall|c: int| 0 <= c < 3 implies #[trigger] sums@[c] <= 255 * width by {
                    lemma_row_sum_bounds(source@, w, y as int, c, window_start(x as int + 1, r), window_end(x as int + 1, r, w) + 1);
                }
            }
            x = x + 1;
        }
        proof {
            assert forall|k: int|
                0 <= k < destination@.len() && row_of(w, k) < y + 1 implies #[trigger] destination@[k]
                == target[k] by {
                lemma_index_composes(w, k);
            }
        }
        y = y + 1;
    }
    proof {
        assert forall|k: int| 0 <= k < destination@.len() implies destination@[k] == target[k] by {
            lemma_row_bound(w, height as int, k);
        }
    }
    assert(destination@ =~= target);
}

/// One vertical box pass from `source` into `destination`.
fn blur_vertical(
    source: &Vec<u8>,
    destination: &mut Vec<u8>,
    width: usize,
    height: usize,
    radius: usize,
)
    requires
        width >= 1,
        height >= 1,
        width * height <= MAX_PIXELS,
        source@.len() == 4 * width * height,
        old(destination)@.len() == source@.len(),
    ensures
        final(destination)@ == vertical_pass(source@, width as int, height as int, radius as int),
{
    let ghost w = width as int;
    let ghost h = height as int;
    let ghost r = radius as int;
    let ghost target = vertical_pass(source@, w, h, r);
    proof {
        lemma_width_bound(height as int, width as int);
    }
    let mut x: usize = 0;
    while x < width
        invariant
            w == width,
            h == height,
            r == radius,
            width >= 1,
            height <= MAX_PIXELS,
            height >= 1,
            width * height <= MAX_PIXELS,
            source@.len() == 4 * width * height,
            destination@.len() == source@.len(),
            x <= width,
            target == vertical_pass(source@, w, h, r),
            forall|k: int|
                0 <= k < destination@.len() && column_of(w, k) < x ==> #[trigger] destination@[k]
                    == target[k],
        decreases width - x,
    {
        let mut sums: [u64; 3] = [0, 0, 0];
        let initial_end: usize = if radius < height - 1 {
            radius
        } else {
            height - 1
        };
        let mut y: usize = 0;
        while y <= initial_end
            invariant
                height >= 1,
                height <= MAX_PIXELS,
                width * height <= MAX_PIXELS,
                x < width,
                initial_end < height,
                y <= initial_end + 1,
                source@.len() == 4 * width * height,
                forall|c: int|
                    0 <= c < 3 ==> #[trigger] sums@[c] == column_sum(source@, w, x as int, c, 0, y as int),
                forall|c: int| 0 <= c < 3 ==> #[trigger] sums@[c] <= 255 * y,
                w == width,
            decreases initial_end + 1 - y,
        {
            let start = pixel_start(width, height, x, y);
            add_pixel(&mut sums, source, start);
            y = y + 1;
        }
        let mut y: usize = 0;
        while y < height
            invariant
                w == width,
                h == height,
                r == radius,
                width >= 1,
                height >= 1,
                height <= MAX_PIXELS,
                width * height <= MAX_PIXELS,
                x < width,
                y <= height,
                source@.len() == 4 * width * height,
                destination@.len() == source@.len(),
                target == vertical_pass(source@, w, h, r),
                forall|c: int|
                    0 <= c < 3 ==> #[trigger] sums@[c] == column_sum(
                        source@,
                        w,
                        x as int,
                        c,
                        window_start(y as int, r),
                        window_end(y as int, r, h) + 1,
                    ),
                forall|c: int| 0 <= c < 3 ==> #[trigger] sums@[c] <= 255 * height,
                forall|k: int|
                    0 <= k < destination@.len() && (column_of(w, k) < x || (column_of(w, k)
                        == x && row_of(w, k) < y)) ==> #[trigger] destination@[k] == target[k],
            decreases height - y,
        {
            let start = y.saturating_sub(radius);
            let end = if y.saturating_add(radius) < height - 1 {
                y.saturating_add(radius)
            } else {
                height - 1
            };
            let pixel = pixel_start(width, height, x, y);
            proof {
                assert forall|c: int| 0 <= c < 4 implies #[trigger] target[pixel + c] == if c
                    == 3 {
                    255u8
                } else {
                    average(sums@[c] as int, end - start + 1)
                } by {
                    lemma_index_decomposes(w, x as int, y as int, c);
                }
            }
            write_average(destination, pixel, sums, end - start + 1);
            proof {
                assert forall|k: int|
                    0 <= k < destination@.len() && (column_of(w, k) < x || (column_of(w, k)
                        == x && row_of(w, k) < y + 1)) implies #[trigger] destination@[k]
                    == target[k] by {
                    lemma_index_composes(w, k);
                    if pixel <= k < pixel + 4 {
                        assert(k == pixel + (k - pixel));
                        lemma_index_decomposes(w, x as int, y as int, k - pixel);
                    } else if row_of(w, k) == y && column_of(w, k) == x {
                        assert(k == byte_index(w, x as int, y as int, channel_of(k)));
                    }
                }
            }
            if y >= radius {
                let leaving = pixel_start(width, height, x, y - radius);
                proof {
                    assert forall|c: int| 0 <= c < 3 implies sums@[c] == source@[leaving + c]
                        + column_sum(source@, w, x as int, c, (y - radius) as int + 1, window_end(y as int, r, h) + 1)
                        && sums@[c] >= source@[leaving + c] by {
                        lemma_column_sum_drop_first(
                            source@,
                            w,
                            x as int,
                            c,
                            (y - radius) as int,
                            window_end(y as int, r, h) + 1,
                        );
                        lemma_column_sum_bounds(source@, w, x as int, c, (y - radius) as int + 1, window_end(y as int, r, h) + 1);
                    }
                }
                subtract_pixel(&mut sums, source, leaving);
            }
            if y.saturating_add(radius).saturating_add(1) < height {
                let entering = pixel_start(width, height, x, y + radius + 1);
                proof {
                    assert forall|c: int| 0 <= c < 3 implies #[trigger] sums@[c] <= 255 * (height - 1) by {
                        lemma_column_sum_bounds(source@, w, x as int, c, window_start(y as int + 1, r), window_end(y as int, r, h) + 1);
                    }
                }
                add_pixel(&mut sums, source, entering);
            }
            proof {
                assert forall|c: int| 0 <= c < 3 implies #[trigger] sums@[c] <= 255 * height by {
                    lemma_column_sum_bounds(source@, w, x as int, c, window_start(y as int + 1, r), window_end(y as int + 1, r, h) + 1);
                }
            }
            y = y + 1;
        }
        proof {
            assert forall|k: int|
                0 <= k < destination@.len() && column_of(w, k) < x + 1 implies #[trigger] destination@[k]
                == target[k] by {
                lemma_index_composes(w, k);
                if column_of(w, k) == x {
                    lemma_row_bound(w, height as int, k);
                }
            }
        }
        x = x + 1;
    }
    proof {
        assert forall|k: int| 0 <= k < destination@.len() implies destination@[k] == target[k] by {
            lemma_index_composes(w, k);
        }
    }
    assert(destination@ =~= target);
}

/// A row sum without its first pixel.
proof fn lemma_row_sum_drop_first(pixels: Seq<u8>, width: int, y: int, c: int, low: int, high: int)
    requires
        low < high,
    ensures
        row_sum(pixels, width, y, c, low, high) == pixels[byte_index(width, low, y, c)]
            + row_sum(pixels, width, y, c, low + 1, high),
    decreases high - low,
{
    if low + 1 < high {
        lemma_row_sum_drop_first(pixels, width, y, c, low, high - 1);
    } else {
        assert(row_sum(pixels, width, y, c, low, low) == 0);
        assert(row_sum(pixels, width, y, c, low + 1, high) == 0);
    }
}

/// A column sum without its first pixel.
proof fn lemma_column_sum_drop_first(pixels: Seq<u8>, width: int, x: int, c: int, low: int, high: int)
    requires
        low < high,
    ensures
        column_sum(pixels, width, x, c, low, high) == pixels[byte_index(width, x, low, c)]
            + column_sum(pixels, width, x, c, low + 1, high),
    decreases high - low,
{
    if low + 1 < high {
        lemma_column_sum_drop_first(pixels, width, x, c, low, high - 1);
    } else {
        assert(column_sum(pixels, width, x, c, low, low) == 0);
        assert(column_sum(pixels, width, x, c, low + 1, high) == 0);
    }
}

/// A row sum of bytes lies between zero and 255 per pixel.
proof fn lemma_row_sum_bounds(pixels: Seq<u8>, width: int, y: int, c: int, low: int, high: int)
    ensures
        0 <= row_sum(pixels, width, y, c, low, high),
        low <= high ==> row_sum(pixels, width, y, c, low, high) <= 255 * (high - low),
        high < low ==> row_sum(pixels, width, y, c, low, high) == 0,
    decreases high - low,
{
    if low < high {
        lemma_row_sum_bounds(pixels, width, y, c, low, high - 1);
    }
}

/// A column sum of bytes lies between zero and 255 per pixel.
proof fn lemma_column_sum_bounds(pixels: Seq<u8>, width: int, x: int, c: int, low: int, high: int)
    ensures
        0 <= column_sum(pixels, width, x, c, low, high),
        low <= high ==> column_sum(pixels, width, x, c, low, high) <= 255 * (high - low),
        high < low ==> column_sum(pixels, width, x, c, low, high) == 0,
    decreases high - low,
{
    if low < high {
        lemma_column_sum_bounds(pixels, width, x, c, low, high - 1);
    }
}

/// In a non-empty image, each side is at most the pixel count.
proof fn lemma_width_bound(width: int, height: int)
    requires
        width >= 1,
        height >= 1,
        width * height <= MAX_PIXELS,
    ensures
        width <= MAX_PIXELS,
{
    assert(width <= width * height) by (nonlinear_arith)
        requires
            width >= 1,
            height >= 1,
    ;
}

/// Every byte of a packed image belongs to one of its rows.
proof fn lemma_row_bound(width: int, height: int, k: int)
    requires
        width >= 1,
        0 <= k < 4 * width * height,
    ensures
        row_of(width, k) < height,
{
    lemma_index_composes(width, k);
    let x = column_of(width, k);
    let y = row_of(width, k);
    let c = channel_of(k);
    assert(y < height) by (nonlinear_arith)
        requires
            k == (y * width + x) * 4 + c,
            0 <= x,
            0 <= c,
            width >= 1,
            k < 4 * width * height,
    ;
}

/// `count` blur rounds applied one after the other.
pub open spec fn repeated_rounds(
    pixels: Seq<u8>,
    width: int,
    height: int,
    radius: int,
    count: nat,
) -> Seq<u8>
    decreases count,
{
    if count == 0 {
        pixels
    } else {
        blur_round(repeated_rounds(pixels, width, height, radius, (count - 1) as nat), width, height, radius)
    }
}

/// Byte `k` is channel `channel_of(k)` of pixel (`column_of`, `row_of`).
pub proof fn lemma_index_composes(width: int, k: int)
    requires
        width > 0,
        k >= 0,
    ensures
        k == byte_index(width, column_of(width, k), row_of(width, k), channel_of(k)),
        0 <= column_of(width, k) < width,
        0 <= channel_of(k) < 4,
        row_of(width, k) >= 0,
{
    let p = k / 4;
    vstd::arithmetic::div_mod::lemma_fundamental_div_mod(k, 4);
    vstd::arithmetic::div_mod::lemma_fundamental_div_mod(p, width);
    assert(p >= 0) by (nonlinear_arith)
        requires
            k >= 0,
            p == k / 4,
    ;
    assert(p / width >= 0) by (nonlinear_arith)
        requires
            p >= 0,
            width > 0,
    ;
    assert(k == (p / width * width + p % width) * 4 + k % 4) by (nonlinear_arith)
        requires
            k == 4 * p + k % 4,
            p == width * (p / width) + p % width,
    ;
}

/// The coordinates of pixel (`x`, `y`) and channel `channel` are recovered from its byte.
pub proof fn lemma_index_decomposes(width: int, x: int, y: int, channel: int)
    requires
        width > 0,
        0 <= x < width,
        0 <= y,
        0 <= channel < 4,
    ensures
        channel_of(byte_index(width, x, y, channel)) == channel,
        column_of(width, byte_index(width, x, y, channel)) == x,
        row_of(width, byte_index(width, x, y, channel)) == y,
{
    let p = y * width + x;
    let k = p * 4 + channel;
    vstd::arithmetic::div_mod::lemma_fundamental_div_mod_converse(k, 4, p, channel);
    vstd::arithmetic::div_mod::lemma_fundamental_div_mod_converse(p, width, y, x);
}

/// Every pixel's bytes lie inside the packed image.
pub proof fn lemma_pixel_bounds(width: int, height: int, x: int, y: int)
    requires
        0 <= x < width,
        0 <= y < height,
    ensures
        0 <= byte_index(width, x, y, 0),
        byte_index(width, x, y, 3) < 4 * width * height,
        byte_index(width, x, y, 0) == 4 * (y * width + x),
        y * width + x + 1 <= width * height,
{
    assert(y * width + x + 1 <= width * height) by (nonlinear_arith)
        requires
            0 <= x < width,
            0 <= y < height,
    ;
    assert(0 <= y * width) by (nonlinear_arith)
        requires
            0 <= x < width,
            0 <= y,
    ;
    assert(4 * width * height == 4 * (width * height)) by (nonlinear_arith);
}

/// A row of `stride` bytes that starts at `row * stride` lies within `height` rows.
proof fn lemma_row_start_in_bounds(row: int, stride: int, height: int)
    requires
        0 <= row < height,
        0 <= stride,
    ensures
        0 <= row * stride,
        row * stride + stride <= stride * height,
{
    assert(row * stride + stride <= stride * height) by (nonlinear_arith)
        requires
            0 <= row < height,
            0 <= stride,
    ;
    assert(0 <= row * stride) by (nonlinear_arith)
        requires
            0 <= row,
            0 <= stride,
    ;
}

/// A normalized capture is fully opaque, whatever alpha the compositor supplied.
pub proof fn lemma_normalized_is_opaque(
    source: Seq<u8>,
    width: int,
    height: int,
    stride: int,
    y_inverted: bool,
)
    ensures
        is_opaque(normalized(source, width, height, stride, y_inverted)),
{
}

/// Blurring keeps an image opaque, and a radius of zero keeps it sharp: the
/// pixels are unchanged.
pub proof fn lemma_blur_keeps_opaque_and_zero_is_sharp(
    pixels: Seq<u8>,
    width: int,
    height: int,
    radius: u32,
)
    ensures
        is_opaque(pixels) ==> is_opaque(blurred(pixels, width, height, radius)),
        blurred(pixels, width, height, 0) == pixels,
{
}

/// Every byte of channel `channel` lies in `low..=high`.
pub open spec fn channel_within(pixels: Seq<u8>, channel: int, low: int, high: int) -> bool {
    forall|k: int|
        0 <= k < pixels.len() && channel_of(k) == channel ==> low <= #[trigger] pixels[k] <= high
}

proof fn lemma_channel_byte_within(
    pixels: Seq<u8>,
    width: int,
    height: int,
    x: int,
    y: int,
    channel: int,
    low: int,
    high: int,
)
    requires
        pixels.len() == 4 * width * height,
        0 <= x < width,
        0 <= y < height,
        0 <= channel < 4,
        channel_within(pixels, channel, low, high),
    ensures
        low <= pixels[byte_index(width, x, y, channel)] <= high,
{
    lemma_pixel_bounds(width, height, x, y);
    lemma_index_decomposes(width, x, y, channel);
    let k = byte_index(width, x, y, channel);
    assert(0 <= k < pixels.len());
    assert(low <= pixels[k] <= high);
}

proof fn lemma_row_sum_within(
    pixels: Seq<u8>,
    width: int,
    height: int,
    y: int,
    channel: int,
    first: int,
    end: int,
    low: int,
    high: int,
)
    requires
        pixels.len() == 4 * width * height,
        0 <= first <= end <= width,
        0 <= y < height,
        0 <= channel < 4,
        channel_within(pixels, channel, low, high),
    ensures
        low * (end - first) <= row_sum(pixels, width, y, channel, first, end) <= high * (end
            - first),
    decreases end - first,
{
    if first < end {
        lemma_row_sum_within(pixels, width, height, y, channel, first, end - 1, low, high);
        assert(row_sum(pixels, width, y, channel, first, end) == row_sum(pixels, width, y, channel, first, end - 1)
            + pixels[byte_index(width, end - 1, y, channel)]);
        lemma_channel_byte_within(pixels, width, height, end - 1, y, channel, low, high);
        assert(low * (end - first) == low * (end - 1 - first) + low) by (nonlinear_arith);
        assert(high * (end - first) == high * (end - 1 - first) + high) by (nonlinear_arith);
    } else {
        assert(low * (end - first) == 0 && high * (end - first) == 0) by (nonlinear_arith)
            requires
                end == first,
        ;
    }
}

proof fn lemma_column_sum_within(
    pixels: Seq<u8>,
    width: int,
    height: int,
    x: int,
    channel: int,
    first: int,
    end: int,
    low: int,
    high: int,
)
    requires
        pixels.len() == 4 * width * height,
        0 <= first <= end <= height,
        0 <= x < width,
        0 <= channel < 4,
        channel_within(pixels, channel, low, high),
    ensures
        low * (end - first) <= column_sum(pixels, width, x, channel, first, end) <= high * (end
            - first),
    decreases end - first,
{
    if first < end {
        lemma_column_sum_within(pixels, width, height, x, channel, first, end - 1, low, high);
        assert(column_sum(pixels, width, x, channel, first, end) == column_sum(pixels, width, x, channel, first, end - 1)
            + pixels[byte_index(width, x, end - 1, channel)]);
        lemma_channel_byte_within(pixels, width, height, x, end - 1, channel, low, high);
        assert(low * (end - first) == low * (end - 1 - first) + low) by (nonlinear_arith);
        assert(high * (end - first) == high * (end - 1 - first) + high) by (nonlinear_arith);
    } else {
        assert(low * (end - first) == 0 && high * (end - first) == 0) by (nonlinear_arith)
            requires
                end == first,
        ;
    }
}

proof fn lemma_average_within(sum: int, count: int, low: int, high: int)
    requires
        count > 0,
        low * count <= sum <= high * count,
        0 <= low <= high <= 255,
    ensures
        low <= average(sum, count) <= high,
{
    vstd::arithmetic::div_mod::lemma_div_is_ordered(low * count, sum, count);
    vstd::arithmetic::div_mod::lemma_div_is_ordered(sum, high * count, count);
    vstd::arithmetic::div_mod::lemma_div_by_multiple(low, count);
    vstd::arithmetic::div_mod::lemma_div_by_multiple(high, count);
}

proof fn lemma_horizontal_pass_within(
    pixels: Seq<u8>,
    width: int,
    height: int,
    radius: int,
    channel: int,
    low: int,
    high: int,
)
    requires
        pixels.len() == 4 * width * height,
        width >= 1,
        radius >= 0,
        0 <= channel < 3,
        0 <= low <= high <= 255,
        channel_within(pixels, channel, low, high),
    ensures
        horizontal_pass(pixels, width, radius).len() == pixels.len(),
        channel_within(horizontal_pass(pixels, width, radius), channel, low, high),
{
    let passed = horizontal_pass(pixels, width, radius);
    assert forall|k: int| 0 <= k < passed.len() && channel_of(k) == channel implies low
        <= #[trigger] passed[k] <= high by {
        lemma_index_composes(width, k);
        lemma_row_bound(width, height, k);
        let x = column_of(width, k);
        let first = window_start(x, radius);
        let last = window_end(x, radius, width);
        lemma_row_sum_within(pixels, width, height, row_of(width, k), channel, first, last + 1, low, high);
        lemma_average_within(
            row_sum(pixels, width, row_of(width, k), channel, first, last + 1),
            last - first + 1,
            low,
            high,
        );
    }
}

proof fn lemma_vertical_pass_within(
    pixels: Seq<u8>,
    width: int,
    height: int,
    radius: int,
    channel: int,
    low: int,
    high: int,
)
    requires
        pixels.len() == 4 * width * height,
        width >= 1,
        height >= 1,
        radius >= 0,
        0 <= channel < 3,
        0 <= low <= high <= 255,
        channel_within(pixels, channel, low, high),
    ensures
        vertical_pass(pixels, width, height, radius).len() == pixels.len(),
        channel_within(vertical_pass(pixels, width, height, radius), channel, low, high),
{
    let passed = vertical_pass(pixels, width, height, radius);
    assert forall|k: int| 0 <= k < passed.len() && channel_of(k) == channel implies low
        <= #[trigger] passed[k] <= high by {
        lemma_index_composes(width, k);
        lemma_row_bound(width, height, k);
        let y = row_of(width, k);
        let first = window_start(y, radius);
        let last = window_end(y, radius, height);
        lemma_column_sum_within(pixels, width, height, column_of(width, k), channel, first, last + 1, low, high);
        lemma_average_within(
            column_sum(pixels, width, column_of(width, k), channel, first, last + 1),
            last - first + 1,
            low,
            high,
        );
    }
}

proof fn lemma_round_within(
    pixels: Seq<u8>,
    width: int,
    height: int,
    radius: int,
    channel: int,
    low: int,
    high: int,
)
    requires
        pixels.len() == 4 * width * height,
        width >= 1,
        height >= 1,
        radius >= 0,
        0 <= channel < 3,
        0 <= low <= high <= 255,
        channel_within(pixels, channel, low, high),
    ensures
        blur_round(pixels, width, height, radius).len() == pixels.len(),
        channel_within(blur_round(pixels, width, height, radius), channel, low, high),
{
    lemma_horizontal_pass_within(pixels, width, height, radius, channel, low, high);
    lemma_vertical_pass_within(
        horizontal_pass(pixels, width, radius),
        width,
        height,
        radius,
        channel,
        low,
        high,
    );
}

/// Blurring averages each color channel with itself only: when every byte of a
/// color channel lies in `low..=high` (for instance between that channel's least
/// and greatest value), so does every byte of that channel after the blur. The
/// image keeps its size.
pub proof fn lemma_blur_keeps_channel_range(
    pixels: Seq<u8>,
    width: int,
    height: int,
    radius: u32,
    channel: int,
    low: int,
    high: int,
)
    requires
        width >= 1,
        height >= 1,
        pixels.len() == 4 * width * height,
        0 <= channel < 3,
        channel_within(pixels, channel, low, high),
    ensures
        blurred(pixels, width, height, radius).len() == pixels.len(),
        channel_within(blurred(pixels, width, height, radius), channel, low, high),
{
    if !(radius == 0 || width <= 1 || height <= 1) {
        let r = pass_radius(radius);
        let floor = if low >= 0 { low } else { 0 };
        let capped = if high <= 255 { high } else { 255 };
        assert(channel_within(pixels, channel, floor, capped));
        lemma_pixel_bounds(width, height, 0, 0);
        lemma_index_decomposes(width, 0, 0, channel);
        assert(channel_of(channel) == channel);
        assert(floor <= pixels[channel] <= capped);
        lemma_round_within(pixels, width, height, r, channel, floor, capped);
        let once = blur_round(pixels, width, height, r);
        lemma_round_within(once, width, height, r, channel, floor, capped);
        let twice = blur_round(once, width, height, r);
        lemma_round_within(twice, width, height, r, channel, floor, capped);
    }
}


/// Some byte of channel `channel` of `pixels` is at most `value`.
pub open spec fn channel_reaches_down(pixels: Seq<u8>, channel: int, value: int) -> bool {
    exists|j: int| 0 <= j < pixels.len() && channel_of(j) == channel && #[trigger] pixels[j] <= value
}

/// Some byte of channel `channel` of `pixels` is at least `value`.
pub open spec fn channel_reaches_up(pixels: Seq<u8>, channel: int, value: int) -> bool {
    exists|j: int| 0 <= j < pixels.len() && channel_of(j) == channel && value <= #[trigger] pixels[j]
}

/// Each color byte of `after` lies between the least and the greatest byte of
/// the same channel in `before`.
pub open spec fn within_channel_extremes(before: Seq<u8>, after: Seq<u8>) -> bool {
    forall|i: int|
        #![trigger after[i]]
        0 <= i < after.len() && channel_of(i) < 3 ==> channel_reaches_down(
            before,
            channel_of(i),
            after[i] as int,
        ) && channel_reaches_up(before, channel_of(i), after[i] as int)
}

/// Blurring keeps the image's size; an opaque image stays opaque; each color
/// byte afterwards lies between the least and the greatest byte of its channel
/// before; and a radius of zero, or an image one pixel wide or high, is left
/// unchanged.
pub proof fn lemma_blur_stays_between_channel_extremes(
    pixels: Seq<u8>,
    width: int,
    height: int,
    radius: u32,
)
    requires
        width >= 1,
        height >= 1,
        pixels.len() == 4 * width * height,
    ensures
        blurred(pixels, width, height, radius).len() == pixels.len(),
        is_opaque(pixels) ==> is_opaque(blurred(pixels, width, height, radius)),
        within_channel_extremes(pixels, blurred(pixels, width, height, radius)),
        radius == 0 || width <= 1 || height <= 1 ==> blurred(pixels, width, height, radius)
            == pixels,
{
    let result = blurred(pixels, width, height, radius);
    lemma_blur_keeps_channel_range(pixels, width, height, radius, 0, 0, 255);
    lemma_blur_keeps_opaque_and_zero_is_sharp(pixels, width, height, radius);
    assert forall|c: int, low: int, high: int|
        0 <= c < 3 && #[trigger] channel_within(pixels, c, low, high) implies channel_within(
        result,
        c,
        low,
        high,
    ) by {
        lemma_blur_keeps_channel_range(pixels, width, height, radius, c, low, high);
    }
    lemma_extremes_from_ranges(pixels, result);
}

/// `after` keeps to the channel extremes of `before` when every range that holds
/// a color channel of `before` also holds that channel of `after`.
proof fn lemma_extremes_from_ranges(before: Seq<u8>, after: Seq<u8>)
    requires
        after.len() == before.len(),
        forall|c: int, low: int, high: int|
            0 <= c < 3 && #[trigger] channel_within(before, c, low, high) ==> channel_within(
                after,
                c,
                low,
                high,
            ),
    ensures
        within_channel_extremes(before, after),
{
    assert forall|i: int|
        #![trigger after[i]]
        0 <= i < after.len() && channel_of(i) < 3 implies channel_reaches_down(
        before,
        channel_of(i),
        after[i] as int,
    ) && channel_reaches_up(before, channel_of(i), after[i] as int) by {
        let c = channel_of(i);
        let value = after[i] as int;
        if !channel_reaches_down(before, c, value) {
            assert(channel_within(before, c, value + 1, 255));
            assert(channel_within(after, c, value + 1, 255));
        }
        if !channel_reaches_up(before, c, value) {
            assert(channel_within(before, c, 0, value - 1));
            assert(channel_within(after, c, 0, value - 1));
        }
    }
}

/// Whether every pixel of a packed image has the same bytes.
pub open spec fn is_uniform(pixels: Seq<u8>) -> bool {
    forall|k: int|
        0 <= k < pixels.len() ==> #[trigger] pixels[k] == pixels[channel_of(k)]
}

/// An opaque image of one color is left unchanged by blurring.
pub proof fn lemma_uniform_image_is_blur_fixed_point(
    pixels: Seq<u8>,
    width: int,
    height: int,
    radius: u32,
)
    requires
        width >= 1,
        height >= 1,
        pixels.len() == 4 * width * height,
        is_opaque(pixels),
        is_uniform(pixels),
    ensures
        blurred(pixels, width, height, radius) == pixels,
{
    let result = blurred(pixels, width, height, radius);
    lemma_blur_keeps_opaque_and_zero_is_sharp(pixels, width, height, radius);
    lemma_pixel_bounds(width, height, 0, 0);
    assert forall|c: int| 0 <= c < 3 implies channel_within(
        result,
        c,
        pixels[c] as int,
        pixels[c] as int,
    ) by {
        assert(channel_of(c) == c);
        assert forall|k: int| 0 <= k < pixels.len() && channel_of(k) == c implies pixels[c]
            <= #[trigger] pixels[k] <= pixels[c] by {}
        lemma_blur_keeps_channel_range(pixels, width, height, radius, c, pixels[c] as int, pixels[c] as int);
    }
    assert forall|k: int| 0 <= k < pixels.len() implies #[trigger] result[k] == pixels[k] by {
        let c = channel_of(k);
        if c < 3 {
            assert(channel_within(result, c, pixels[c] as int, pixels[c] as int));
        }
    }
    assert(result =~= pixels);
}

/// The image mirrored across its diagonal: pixel (`x`, `y`) of the result, which
/// is `height` pixels wide and `width` high, is pixel (`y`, `x`) of `pixels`.
pub open spec fn transposed(pixels: Seq<u8>, width: int, height: int) -> Seq<u8> {
    Seq::new(
        pixels.len(),
        |k: int|
            pixels[byte_index(width, row_of(height, k), column_of(height, k), channel_of(k))],
    )
}

/// Every row of the image is of one color: each byte equals the byte of the same
/// channel in the first pixel of its row.
pub open spec fn rows_uniform(pixels: Seq<u8>, width: int) -> bool {
    forall|k: int|
        0 <= k < pixels.len() ==> #[trigger] pixels[k] == pixels[byte_index(
            width,
            0,
            row_of(width, k),
            channel_of(k),
        )]
}

proof fn lemma_transposed_byte(pixels: Seq<u8>, width: int, height: int, x: int, y: int, c: int)
    requires
        width >= 1,
        height >= 1,
        pixels.len() == 4 * width * height,
        0 <= x < height,
        0 <= y < width,
        0 <= c < 4,
    ensures
        0 <= byte_index(height, x, y, c) < pixels.len(),
        0 <= byte_index(width, y, x, c) < pixels.len(),
        transposed(pixels, width, height)[byte_index(height, x, y, c)] == pixels[byte_index(
            width,
            y,
            x,
            c,
        )],
{
    lemma_pixel_bounds(height, width, x, y);
    lemma_pixel_bounds(width, height, y, x);
    assert(4 * width * height == 4 * height * width) by (nonlinear_arith);
    lemma_index_decomposes(height, x, y, c);
}

proof fn lemma_row_sum_transposed(
    pixels: Seq<u8>,
    width: int,
    height: int,
    x: int,
    c: int,
    low: int,
    high: int,
)
    requires
        width >= 1,
        height >= 1,
        pixels.len() == 4 * width * height,
        0 <= x < width,
        0 <= c < 4,
        0 <= low <= high <= height,
    ensures
        row_sum(transposed(pixels, width, height), height, x, c, low, high) == column_sum(
            pixels,
            width,
            x,
            c,
            low,
            high,
        ),
    decreases high - low,
{
    if low < high {
        lemma_row_sum_transposed(pixels, width, height, x, c, low, high - 1);
        lemma_transposed_byte(pixels, width, height, high - 1, x, c);
    }
}

proof fn lemma_column_sum_transposed(
    pixels: Seq<u8>,
    width: int,
    height: int,
    y: int,
    c: int,
    low: int,
    high: int,
)
    requires
        width >= 1,
        height >= 1,
        pixels.len() == 4 * width * height,
        0 <= y < height,
        0 <= c < 4,
        0 <= low <= high <= width,
    ensures
        column_sum(transposed(pixels, width, height), height, y, c, low, high) == row_sum(
            pixels,
            width,
            y,
            c,
            low,
            high,
        ),
    decreases high - low,
{
    if low < high {
        lemma_column_sum_transposed(pixels, width, height, y, c, low, high - 1);
        lemma_transposed_byte(pixels, width, height, y, high - 1, c);
    }
}

/// A horizontal pass over the transposed image is the transposed vertical pass.
proof fn lemma_horizontal_pass_transposed(pixels: Seq<u8>, width: int, height: int, radius: int)
    requires
        width >= 1,
        height >= 1,
        radius >= 0,
        pixels.len() == 4 * width * height,
    ensures
        horizontal_pass(transposed(pixels, width, height), height, radius) == transposed(
            vertical_pass(pixels, width, height, radius),
            width,
            height,
        ),
{
    let left = horizontal_pass(transposed(pixels, width, height), height, radius);
    let right = transposed(vertical_pass(pixels, width, height, radius), width, height);
    assert(4 * width * height == 4 * height * width) by (nonlinear_arith);
    assert forall|k: int| 0 <= k < left.len() implies left[k] == right[k] by {
        lemma_index_composes(height, k);
        lemma_row_bound(height, width, k);
        let x = column_of(height, k);
        let y = row_of(height, k);
        let c = channel_of(k);
        lemma_transposed_byte(pixels, width, height, x, y, c);
        lemma_index_decomposes(width, y, x, c);
        if c < 3 {
            lemma_row_sum_transposed(
                pixels,
                width,
                height,
                y,
                c,
                window_start(x, radius),
                window_end(x, radius, height) + 1,
            );
        }
    }
    assert(left =~= right);
}

/// A vertical pass over the transposed image is the transposed horizontal pass.
proof fn lemma_vertical_pass_transposed(pixels: Seq<u8>, width: int, height: int, radius: int)
    requires
        width >= 1,
        height >= 1,
        radius >= 0,
        pixels.len() == 4 * width * height,
    ensures
        vertical_pass(transposed(pixels, width, height), height, width, radius) == transposed(
            horizontal_pass(pixels, width, radius),
            width,
            height,
        ),
{
    let left = vertical_pass(transposed(pixels, width, height), height, width, radius);
    let right = transposed(horizontal_pass(pixels, width, radius), width, height);
    assert(4 * width * height == 4 * height * width) by (nonlinear_arith);
    assert forall|k: int| 0 <= k < left.len() implies left[k] == right[k] by {
        lemma_index_composes(height, k);
        lemma_row_bound(height, width, k);
        let x = column_of(height, k);
        let y = row_of(height, k);
        let c = channel_of(k);
        lemma_transposed_byte(pixels, width, height, x, y, c);
        lemma_index_decomposes(width, y, x, c);
        if c < 3 {
            lemma_column_sum_transposed(
                pixels,
                width,
                height,
                x,
                c,
                window_start(y, radius),
                window_end(y, radius, width) + 1,
            );
        }
    }
    assert(left =~= right);
}

proof fn lemma_uniform_row_sum(
    pixels: Seq<u8>,
    width: int,
    height: int,
    y: int,
    c: int,
    low: int,
    high: int,
)
    requires
        width >= 1,
        pixels.len() == 4 * width * height,
        rows_uniform(pixels, width),
        0 <= y < height,
        0 <= c < 4,
        0 <= low <= high <= width,
    ensures
        row_sum(pixels, width, y, c, low, high) == (high - low) * pixels[byte_index(
            width,
            0,
            y,
            c,
        )],
    decreases high - low,
{
    if low < high {
        lemma_uniform_row_sum(pixels, width, height, y, c, low, high - 1);
        lemma_pixel_bounds(width, height, high - 1, y);
        lemma_index_decomposes(width, high - 1, y, c);
        let v = pixels[byte_index(width, 0, y, c)] as int;
        assert(pixels[byte_index(width, high - 1, y, c)] == v);
        assert((high - low) * v == (high - 1 - low) * v + v) by (nonlinear_arith);
    } else {
        assert((high - low) * pixels[byte_index(width, 0, y, c)] == 0) by (nonlinear_arith)
            requires
                high == low,
        ;
    }
}

proof fn lemma_uniform_column_sum(
    pixels: Seq<u8>,
    width: int,
    height: int,
    x: int,
    c: int,
    low: int,
    high: int,
)
    requires
        width >= 1,
        pixels.len() == 4 * width * height,
        rows_uniform(pixels, width),
        0 <= x < width,
        0 <= c < 4,
        0 <= low <= high <= height,
    ensures
        column_sum(pixels, width, x, c, low, high) == column_sum(pixels, width, 0, c, low, high),
    decreases high - low,
{
    if low < high {
        lemma_uniform_column_sum(pixels, width, height, x, c, low, high - 1);
        lemma_pixel_bounds(width, height, x, high - 1);
        lemma_index_decomposes(width, x, high - 1, c);
    }
}

/// A horizontal pass leaves an opaque image whose rows are each of one color unchanged.
proof fn lemma_horizontal_pass_keeps_uniform_rows(pixels: Seq<u8>, width: int, height: int, radius: int)
    requires
        width >= 1,
        height >= 1,
        radius >= 0,
        pixels.len() == 4 * width * height,
        rows_uniform(pixels, width),
        is_opaque(pixels),
    ensures
        horizontal_pass(pixels, width, radius) == pixels,
{
    let passed = horizontal_pass(pixels, width, radius);
    assert forall|k: int| 0 <= k < pixels.len() implies passed[k] == pixels[k] by {
        lemma_index_composes(width, k);
        lemma_row_bound(width, height, k);
        let x = column_of(width, k);
        let y = row_of(width, k);
        let c = channel_of(k);
        if c < 3 {
            let low = window_start(x, radius);
            let high = window_end(x, radius, width);
            lemma_uniform_row_sum(pixels, width, height, y, c, low, high + 1);
            let v = pixels[byte_index(width, 0, y, c)] as int;
            vstd::arithmetic::div_mod::lemma_div_multiples_vanish(v, high + 1 - low);
            assert((high + 1 - low) * v == (high + 1 - low) * v);
        }
    }
    assert(passed =~= pixels);
}

/// A vertical pass keeps an image opaque and each of its rows of one color.
proof fn lemma_vertical_pass_keeps_rows_uniform(pixels: Seq<u8>, width: int, height: int, radius: int)
    requires
        width >= 1,
        height >= 1,
        radius >= 0,
        pixels.len() == 4 * width * height,
        rows_uniform(pixels, width),
    ensures
        vertical_pass(pixels, width, height, radius).len() == pixels.len(),
        rows_uniform(vertical_pass(pixels, width, height, radius), width),
        is_opaque(vertical_pass(pixels, width, height, radius)),
{
    let passed = vertical_pass(pixels, width, height, radius);
    assert forall|k: int| 0 <= k < passed.len() implies #[trigger] passed[k] == passed[byte_index(
        width,
        0,
        row_of(width, k),
        channel_of(k),
    )] by {
        lemma_index_composes(width, k);
        lemma_row_bound(width, height, k);
        let x = column_of(width, k);
        let y = row_of(width, k);
        let c = channel_of(k);
        lemma_pixel_bounds(width, height, 0, y);
        lemma_index_decomposes(width, 0, y, c);
        if c < 3 {
            lemma_uniform_column_sum(
                pixels,
                width,
                height,
                x,
                c,
                window_start(y, radius),
                window_end(y, radius, height) + 1,
            );
        }
    }
}

/// One blur round on the transposed image of an opaque image with rows of one
/// color is the transposed round, and the round keeps the rows of one color.
proof fn lemma_round_transposed(pixels: Seq<u8>, width: int, height: int, radius: int)
    requires
        width >= 1,
        height >= 1,
        radius >= 0,
        pixels.len() == 4 * width * height,
        rows_uniform(pixels, width),
        is_opaque(pixels),
    ensures
        blur_round(transposed(pixels, width, height), height, width, radius) == transposed(
            blur_round(pixels, width, height, radius),
            width,
            height,
        ),
        blur_round(pixels, width, height, radius).len() == pixels.len(),
        rows_uniform(blur_round(pixels, width, height, radius), width),
        is_opaque(blur_round(pixels, width, height, radius)),
{
    lemma_horizontal_pass_keeps_uniform_rows(pixels, width, height, radius);
    let down = vertical_pass(pixels, width, height, radius);
    lemma_vertical_pass_keeps_rows_uniform(pixels, width, height, radius);
    lemma_horizontal_pass_keeps_uniform_rows(down, width, height, radius);
    lemma_horizontal_pass_transposed(pixels, width, height, radius);
    lemma_vertical_pass_transposed(down, width, height, radius);
}

/// Blurring treats rows and columns alike: for an opaque image whose rows are
/// each of one color, blurring the image mirrored across its diagonal gives the
/// mirrored blur. A blur that smears only along rows, or only along columns,
/// breaks this, since it leaves one of the two images unchanged and not the other.
pub proof fn lemma_blur_commutes_with_transposition(
    pixels: Seq<u8>,
    width: int,
    height: int,
    radius: u32,
)
    requires
        width >= 1,
        height >= 1,
        pixels.len() == 4 * width * height,
        rows_uniform(pixels, width),
        is_opaque(pixels),
    ensures
        blurred(transposed(pixels, width, height), height, width, radius) == transposed(
            blurred(pixels, width, height, radius),
            width,
            height,
        ),
{
    if !(radius == 0 || width <= 1 || height <= 1) {
        let r = pass_radius(radius);
        lemma_round_transposed(pixels, width, height, r);
        let once = blur_round(pixels, width, height, r);
        lemma_round_transposed(once, width, height, r);
        let twice = blur_round(once, width, height, r);
        lemma_round_transposed(twice, width, height, r);
    }
}

proof fn lemma_column_sum_below(
    pixels: Seq<u8>,
    width: int,
    height: int,
    x: int,
    c: int,
    low: int,
    high: int,
    bound: int,
    darker: int,
)
    requires
        width >= 1,
        pixels.len() == 4 * width * height,
        0 <= x < width,
        0 <= c < 4,
        0 <= low <= darker < high <= height,
        channel_within(pixels, c, 0, bound),
        pixels[byte_index(width, x, darker, c)] < bound,
    ensures
        column_sum(pixels, width, x, c, low, high) < (high - low) * bound,
    decreases high - low,
{
    lemma_column_sum_within(pixels, width, height, x, c, low, high - 1, 0, bound);
    lemma_channel_byte_within(pixels, width, height, x, high - 1, c, 0, bound);
    if darker < high - 1 {
        lemma_column_sum_below(pixels, width, height, x, c, low, high - 1, bound, darker);
    }
    assert((high - low) * bound == (high - 1 - low) * bound + bound) by (nonlinear_arith);
}

proof fn lemma_average_below(sum: int, count: int, bound: int)
    requires
        count > 0,
        0 <= sum < count * bound,
    ensures
        average(sum, count) < bound,
{
    vstd::arithmetic::div_mod::lemma_fundamental_div_mod(sum, count);
    vstd::arithmetic::div_mod::lemma_mod_bound(sum, count);
    assert(sum / count < bound) by (nonlinear_arith)
        requires
            count > 0,
            sum == count * (sum / count) + sum % count,
            sum % count >= 0,
            sum < count * bound,
    ;
}

/// A vertical pass darkens a pixel whose window holds a pixel darker than the
/// brightest value of the channel.
proof fn lemma_vertical_pass_darkens(
    pixels: Seq<u8>,
    width: int,
    height: int,
    radius: int,
    x: int,
    y: int,
    c: int,
    bound: int,
    darker: int,
)
    requires
        width >= 1,
        height >= 1,
        radius >= 1,
        pixels.len() == 4 * width * height,
        0 <= x < width,
        0 <= y < height,
        0 <= darker < height,
        y - 1 <= darker <= y + 1,
        0 <= c < 3,
        channel_within(pixels, c, 0, bound),
        pixels[byte_index(width, x, darker, c)] < bound,
    ensures
        vertical_pass(pixels, width, height, radius)[byte_index(width, x, y, c)] < bound,
{
    lemma_pixel_bounds(width, height, x, y);
    lemma_index_decomposes(width, x, y, c);
    let low = window_start(y, radius);
    let high = window_end(y, radius, height);
    lemma_column_sum_below(pixels, width, height, x, c, low, high + 1, bound, darker);
    lemma_column_sum_within(pixels, width, height, x, c, low, high + 1, 0, bound);
    assert(0 * (high + 1 - low) == 0);
    lemma_average_below(
        column_sum(pixels, width, x, c, low, high + 1),
        high + 1 - low,
        bound,
    );
}

/// Blurring dims a brightest row next to a darker one: in an opaque image whose
/// rows are each of one color, when no row is brighter in a color channel than
/// row `y` and a neighbouring row is darker, every pixel of row `y` comes out
/// darker in that channel (for a nonzero radius on an image at least two pixels
/// wide and high).
pub proof fn lemma_blur_dims_brightest_row(
    pixels: Seq<u8>,
    width: int,
    height: int,
    radius: u32,
    y: int,
    neighbour: int,
    c: int,
    x: int,
)
    requires
        width >= 2,
        height >= 2,
        radius > 0,
        pixels.len() == 4 * width * height,
        rows_uniform(pixels, width),
        is_opaque(pixels),
        0 <= c < 3,
        0 <= y < height,
        0 <= neighbour < height,
        neighbour == y - 1 || neighbour == y + 1,
        0 <= x < width,
        channel_within(pixels, c, 0, pixels[byte_index(width, 0, y, c)] as int),
        pixels[byte_index(width, 0, neighbour, c)] < pixels[byte_index(width, 0, y, c)],
    ensures
        blurred(pixels, width, height, radius)[byte_index(width, x, y, c)] < pixels[byte_index(
            width,
            0,
            y,
            c,
        )],
{
    let v = pixels[byte_index(width, 0, y, c)] as int;
    let r = pass_radius(radius);
    lemma_pixel_bounds(width, height, x, neighbour);
    lemma_index_decomposes(width, x, neighbour, c);
    assert(pixels[byte_index(width, x, neighbour, c)] < v);
    lemma_pixel_bounds(width, height, 0, y);
    lemma_index_decomposes(width, 0, y, c);
    assert(channel_of(byte_index(width, 0, y, c)) == c);

    lemma_round_transposed(pixels, width, height, r);
    lemma_horizontal_pass_keeps_uniform_rows(pixels, width, height, r);
    let once = blur_round(pixels, width, height, r);
    lemma_vertical_pass_within(pixels, width, height, r, c, 0, v);
    lemma_vertical_pass_darkens(pixels, width, height, r, x, y, c, v, neighbour);

    lemma_round_transposed(once, width, height, r);
    lemma_horizontal_pass_keeps_uniform_rows(once, width, height, r);
    let twice = blur_round(once, width, height, r);
    lemma_vertical_pass_within(once, width, height, r, c, 0, v);
    lemma_vertical_pass_darkens(once, width, height, r, x, y, c, v, y);

    lemma_horizontal_pass_keeps_uniform_rows(twice, width, height, r);
    lemma_vertical_pass_darkens(twice, width, height, r, x, y, c, v, y);
}

} // verus!
