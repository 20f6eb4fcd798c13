//! What the library asks of other crates and of std, each call with the
//! contract that it is trusted to keep.

use vstd::prelude::*;
use crate::raster::offset;

verus! {

/// The generator of `rand` that random draws are made with.
#[verifier::external_type_specification]
#[verifier::external_body]
pub struct ExStdRng(rand::rngs::StdRng);

/// The resampling filters that images are resized with.
#[derive(Clone, Copy, Debug, PartialEq, Eq, Structural)]
pub enum Filter {
    /// Linear interpolation.
    Triangle,
    /// The Catmull-Rom cubic.
    CatmullRom,
}

/// The samples that `image::imageops::resize` gives for an image of
/// `width` by `height` samples, resized to `nwidth` by `nheight`.
pub uninterp spec fn resized(
    pixels: Seq<u8>,
    width: u32,
    height: u32,
    nwidth: u32,
    nheight: u32,
    filter: Filter,
) -> Seq<u8>;

/// The longest side, old or new, that a resize takes. The routine finds
/// the place of each new sample among the old ones in 32-bit floating
/// point. With sides up to here those places are off by less than a
/// hundredth of a sample, so that the old sample nearest to a place always
/// gets a weight of about a half or more and the weights never add up to
/// nothing.
pub const RESIZE_LIMIT: u32 = 0x8000;

/// Whether an image of `width` by `height` samples can be resized to
/// `nwidth` by `nheight`: no side is longer than `RESIZE_LIMIT`, and the
/// buffers that the resize works in can be allocated, which are four 32-bit
/// numbers for each sample of `width` by `nheight`, and the result.
pub open spec fn resize_fits(width: u32, height: u32, nwidth: u32, nheight: u32) -> bool {
    &&& width <= RESIZE_LIMIT
    &&& height <= RESIZE_LIMIT
    &&& nwidth <= RESIZE_LIMIT
    &&& nheight <= RESIZE_LIMIT
    &&& 16 * (width * nheight) <= isize::MAX
    &&& nwidth * nheight <= isize::MAX
}

/// The largest coordinate that the drawing of an outline takes: the routine
/// computes in 32-bit floating point, which is exact up to here.
pub const DRAW_LIMIT: i32 = 0x100_0000;

/// The largest magnitude of a kernel entry for which a 3 by 3 sum of
/// products with samples stays inside 32 bits.
pub const KERNEL_LIMIT: i32 = 900_000;

/// Whether `(x, y)` lies on the outline of the rectangle whose top left
/// corner is `(left, top)`.
pub open spec fn on_outline(left: int, top: int, width: int, height: int, x: int, y: int) -> bool {
    let right = left + width - 1;
    let bottom = top + height - 1;
    &&& left <= x <= right
    &&& top <= y <= bottom
    &&& (x == left || x == right || y == top || y == bottom)
}

/// The index nearest to `i` among `0..n`.
pub open spec fn nearest(i: int, n: int) -> int {
    if i < 0 {
        0
    } else if i >= n {
        n - 1
    } else {
        i
    }
}

/// One product of a 3 by 3 correlation at `(x, y)`: the kernel's entry in
/// row `ky` and column `kx` times the sample under it, the image continued
/// beyond its edges by its nearest sample.
pub open spec fn tap(
    pixels: Seq<u8>,
    width: int,
    height: int,
    kernel: Seq<i32>,
    x: int,
    y: int,
    kx: int,
    ky: int,
) -> int {
    kernel[ky * 3 + kx] * pixels[offset(
        width,
        nearest(x + kx - 1, width),
        nearest(y + ky - 1, height),
    )]
}

/// The correlation of an image with a 3 by 3 kernel at `(x, y)`.
pub open spec fn correlation(
    pixels: Seq<u8>,
    width: int,
    height: int,
    kernel: Seq<i32>,
    x: int,
    y: int,
) -> int {
    tap(pixels, width, height, kernel, x, y, 0, 0) + tap(pixels, width, height, kernel, x, y, 1, 0)
        + tap(pixels, width, height, kernel, x, y, 2, 0) + tap(
        pixels,
        width,
        height,
        kernel,
        x,
        y,
        0,
        1,
    ) + tap(pixels, width, height, kernel, x, y, 1, 1) + tap(
        pixels,
        width,
        height,
        kernel,
        x,
        y,
        2,
        1,
    ) + tap(pixels, width, height, kernel, x, y, 0, 2) + tap(
        pixels,
        width,
        height,
        kernel,
        x,
        y,
        1,
        2,
    ) + tap(pixels, width, height, kernel, x, y, 2, 2)
}

/// A number cut off at 0 and 255.
pub open spec fn saturate(v: int) -> u8 {
    if v <= 0 {
        0
    } else if v >= 255 {
        255
    } else {
        v as u8
    }
}

/// `rand::Rng::gen_range` on the inclusive range from `low` to `high`: some
/// number of that range. That function panics on an empty range.
#[verifier::external_body]
pub(crate) fn uniform_between(rng: &mut rand::rngs::StdRng, low: u64, high: u64) -> (r: u64)
    requires
        low <= high,
    ensures
        low <= r <= high,
{
    rand::Rng::gen_range(rng, low..=high)
}

/// `image::imageops::resize` on a grayscale image. The result has the new
/// width and height; where they are the old ones, that function copies the
/// image. It panics where its buffers cannot be allocated, and where the
/// weights of the old samples around a new one add up to nothing, which
/// its 32-bit floating point lets happen with sides of many millions; so
/// the sides are kept at `RESIZE_LIMIT` or below.
#[verifier::external_body]
pub(crate) fn resize(
    pixels: &Vec<u8>,
    width: u32,
    height: u32,
    nwidth: u32,
    nheight: u32,
    filter: Filter,
) -> (out: Vec<u8>)
    requires
        pixels@.len() == width * height,
        resize_fits(width, height, nwidth, nheight),
    ensures
        out@ == resized(pixels@, width, height, nwidth, nheight, filter),
        out@.len() == nwidth * nheight,
        nwidth == width && nheight == height ==> out@ == pixels@,
{
    let kind = match filter {
        Filter::Triangle => image::imageops::FilterType::Triangle,
        Filter::CatmullRom => image::imageops::FilterType::CatmullRom,
    };
    let source = image::GrayImage::from_raw(width, height, pixels.clone()).unwrap();
    image::imageops::resize(&source, nwidth, nheight, kind).into_raw()
}

/// `imageproc::filter::filter3x3` on a grayscale image, with a kernel of
/// 32-bit integers: each sample of the result is the correlation at its
/// place, cut off at 0 and 255. That function adds up in 32 bits,
/// so the kernel's entries are kept small enough for that.
#[verifier::external_body]
pub(crate) fn filter3x3(pixels: &Vec<u8>, width: u32, height: u32, kernel: &[i32; 9]) -> (out: Vec<
    u8,
>)
    requires
        pixels@.len() == width * height,
        forall|i: int| 0 <= i < 9 ==> -KERNEL_LIMIT <= #[trigger] kernel@[i] <= KERNEL_LIMIT,
    ensures
        out@.len() == pixels@.len(),
        forall|x: int, y: int|
            0 <= x < width && 0 <= y < height ==> #[trigger] out@[offset(width as int, x, y)]
                == saturate(correlation(pixels@, width as int, height as int, kernel@, x, y)),
{
    let source = image::GrayImage::from_raw(width, height, pixels.clone()).unwrap();
    imageproc::filter::filter3x3::<image::Luma<u8>, i32, u8>(&source, kernel).into_raw()
}

/// `imageproc::drawing::draw_hollow_rect_mut` on a grayscale image: the
/// samples on the outline of the rectangle, as far as it lies on the image,
/// become `color`, and no other sample changes. That function
/// refuses a rectangle without width or height and computes in 32-bit
/// floating point, so the coordinates are kept where that is exact.
#[verifier::external_body]
pub(crate) fn draw_hollow_rect(
    pixels: &mut Vec<u8>,
    width: u32,
    height: u32,
    left: i32,
    top: i32,
    rect_width: u32,
    rect_height: u32,
    color: u8,
)
    requires
        old(pixels)@.len() == width * height,
        width <= DRAW_LIMIT,
        height <= DRAW_LIMIT,
        rect_width >= 1,
        rect_height >= 1,
        -DRAW_LIMIT <= left,
        -DRAW_LIMIT <= top,
        left + rect_width <= DRAW_LIMIT,
        top + rect_height <= DRAW_LIMIT,
    ensures
        final(pixels)@.len() == old(pixels)@.len(),
        forall|x: int, y: int|
            0 <= x < width && 0 <= y < height ==> #[trigger] final(pixels)@[offset(
                width as int,
                x,
                y,
            )] == (if on_outline(left as int, top as int, rect_width as int, rect_height as int, x, y) {
                color
            } else {
                old(pixels)@[offset(width as int, x, y)]
            }),
{
    let mut canvas = image::GrayImage::from_raw(width, height, std::mem::take(pixels)).unwrap();
    let rect = imageproc::rect::Rect::at(left, top).of_size(rect_width, rect_height);
    imageproc::drawing::draw_hollow_rect_mut(&mut canvas, rect, image::Luma([color]));
    *pixels = canvas.into_raw();
}

/// How many bytes the UTF-8 encoding of a character has whose first byte
/// is `byte`, and 0 where no encoding starts with that byte.
pub open spec fn width_by_first_byte(byte: u8) -> int {
    if byte <= 0x7f {
        1
    } else if 0xc2 <= byte <= 0xdf {
        2
    } else if 0xe0 <= byte <= 0xef {
        3
    } else if 0xf0 <= byte <= 0xf4 {
        4
    } else {
        0
    }
}

/// `utf8_width::get_width`: the width that the first byte of an encoding
/// stands for, which that function finds by comparing the byte with the
/// ends of four ranges.
#[verifier::external_body]
pub(crate) fn utf8_width_of(byte: u8) -> (n: usize)
    ensures
        n == width_by_first_byte(byte),
{
    utf8_width::get_width(byte)
}

/// `String::from_iter` on the characters of a list: the string of those
/// characters.
#[verifier::external_body]
pub(crate) fn string_of(chars: &Vec<char>) -> (s: String)
    ensures
        s@ == chars@,
{
    String::from_iter(chars.iter())
}

/// `String::from` on a character: the string of that one character.
#[verifier::external_body]
pub(crate) fn string_of_char(c: char) -> (s: String)
    ensures
        s@ == seq![c],
{
    String::from(c)
}

} // verus!
