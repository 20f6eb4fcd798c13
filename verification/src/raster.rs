//! Grayscale images.

use vstd::prelude::*;
use crate::error::Error;
use crate::bindings::{
    correlation, draw_hollow_rect, filter3x3, on_outline, resize, resize_fits, resized, saturate,
    Filter, DRAW_LIMIT, KERNEL_LIMIT, RESIZE_LIMIT,
};

verus! {

/// A grid of 8-bit grayscale samples, stored row by row from the top.
#[derive(Debug)]
pub struct Image {
    width: u32,
    height: u32,
    data: Vec<u8>,
}

/// The position of sample `(x, y)` in a row-major buffer of rows `width` wide.
pub open spec fn offset(width: int, x: int, y: int) -> int {
    y * width + x
}

/// A sample inside a `width` by `height` grid has its place inside the buffer.
pub proof fn lemma_offset_in_range(width: int, height: int, x: int, y: int)
    requires
        0 <= x < width,
        0 <= y < height,
    ensures
        0 <= offset(width, x, y) < width * height,
        y * width <= offset(width, x, y) < (y + 1) * width,
{
    assert(y * width + x < (y + 1) * width) by (nonlinear_arith)
        requires
            x < width,
    ;
    assert((y + 1) * width <= height * width) by (nonlinear_arith)
        requires
            y + 1 <= height,
            0 <= width,
    ;
    assert(0 <= y * width) by (nonlinear_arith)
        requires
            0 <= y,
            0 <= width,
    ;
    assert(height * width == width * height) by (nonlinear_arith);
}

/// The product of two 32-bit numbers is less than 2 to the 64th.
pub proof fn lemma_product_fits(a: u32, b: u32)
    ensures
        0 <= a * b <= 0xffff_fffe_0000_0001,
{
    assert(0 <= a * b <= 0xffff_ffff * 0xffff_ffff) by (nonlinear_arith)
        requires
            0 <= a <= 0xffff_ffff,
            0 <= b <= 0xffff_ffff,
    ;
}

/// Two different samples of a grid have different places in the buffer.
pub proof fn lemma_offset_injective(width: int, x1: int, y1: int, x2: int, y2: int)
    requires
        0 <= x1 < width,
        0 <= x2 < width,
        0 <= y1,
        0 <= y2,
        offset(width, x1, y1) == offset(width, x2, y2),
    ensures
        x1 == x2,
        y1 == y2,
{
    if y1 < y2 {
        assert((y1 + 1) * width <= y2 * width) by (nonlinear_arith)
            requires
                y1 + 1 <= y2,
                0 <= width,
        ;
        assert((y1 + 1) * width == y1 * width + width) by (nonlinear_arith);
    } else if y2 < y1 {
        assert((y2 + 1) * width <= y1 * width) by (nonlinear_arith)
            requires
                y2 + 1 <= y1,
                0 <= width,
        ;
        assert((y2 + 1) * width == y2 * width + width) by (nonlinear_arith);
    }
}

impl View for Image {
    type V = Seq<u8>;

    /// The samples, row by row.
    closed spec fn view(&self) -> Seq<u8> {
        self.data@
    }
}

impl Image {
    /// The number of samples in a row.
    pub closed spec fn spec_width(&self) -> u32 {
        self.width
    }

    /// The number of rows.
    pub closed spec fn spec_height(&self) -> u32 {
        self.height
    }

    /// The buffer holds exactly one sample for each place of the grid.
    pub open spec fn wf(&self) -> bool {
        self@.len() == self.spec_width() * self.spec_height()
    }

    /// The sample in column `x` of row `y`.
    pub open spec fn at(&self, x: int, y: int) -> u8 {
        self@[offset(self.spec_width() as int, x, y)]
    }

    /// Whether `(x, y)` names a sample of this image.
    pub open spec fn contains(&self, x: int, y: int) -> bool {
        0 <= x < self.spec_width() && 0 <= y < self.spec_height()
    }

    /// The samples of the part that is `width` wide and `height` high and
    /// has its top left corner at `(x, y)`, row by row.
    pub open spec fn cropped(&self, x: int, y: int, width: int, height: int) -> Seq<u8> {
        Seq::new((width * height) as nat, |i: int| self.at(x + i % width, y + i / width))
    }

    /// Whether two images have the same width and height.
    pub open spec fn same_shape(&self, other: &Image) -> bool {
        self.spec_width() == other.spec_width() && self.spec_height() == other.spec_height()
    }

    /// The buffer of an image is no longer than a buffer can be.
    pub proof fn lemma_len_fits(&self)
        ensures
            self@.len() <= usize::MAX,
    {
        assert(self.data.len() == self.data@.len());
    }

    /// Images of one shape with the same buffer have the same samples.
    pub proof fn lemma_at_equal(&self, other: Image, x: int, y: int)
        requires
            self@ == other@,
            self.same_shape(&other),
        ensures
            self.at(x, y) == other.at(x, y),
    {
    }

    /// The sample at place `i` of the buffer is the one in column
    /// `i % width` of row `i / width`.
    pub proof fn lemma_at_index(&self, i: int)
        requires
            self.wf(),
            0 <= i < self@.len(),
        ensures
            self.spec_width() > 0,
            self.contains(i % (self.spec_width() as int), i / (self.spec_width() as int)),
            self@[i] == self.at(i % (self.spec_width() as int), i / (self.spec_width() as int)),
    {
        let w = self.spec_width() as int;
        let h = self.spec_height() as int;
        if w == 0 {
            assert(w * h == 0) by (nonlinear_arith)
                requires
                    w == 0,
            ;
        }
        vstd::arithmetic::div_mod::lemma_fundamental_div_mod(i, w);
        vstd::arithmetic::div_mod::lemma_div_pos_is_pos(i, w);
        vstd::arithmetic::div_mod::lemma_mod_bound(i, w);
        assert(w * (i / w) == (i / w) * w) by (nonlinear_arith);
        if i / w >= h {
            assert((i / w) * w >= h * w) by (nonlinear_arith)
                requires
                    i / w >= h,
                    w > 0,
            ;
            assert(h * w == w * h) by (nonlinear_arith);
        }
    }

    /// Makes an image of a buffer, which must hold `width * height` samples.
    pub fn from_vec(width: u32, height: u32, data: Vec<u8>) -> (r: Result<Image, Error>)
        ensures
            data@.len() == width * height <==> r is Ok,
            r matches Ok(img) ==> img.wf() && img@ == data@ && img.spec_width() == width
                && img.spec_height() == height,
            r matches Err(e) ==> e == Error::DimensionMismatch,
    {
        proof {
            lemma_product_fits(width, height);
        }
        let expected: u64 = (width as u64) * (height as u64);
        if data.len() as u64 == expected {
            Ok(Image { width, height, data })
        } else {
            Err(Error::DimensionMismatch)
        }
    }

    /// Makes an image in which every sample is `value`.
    pub fn from_pixel(width: u32, height: u32, value: u8) -> (r: Image)
        requires
            width * height <= isize::MAX,
        ensures
            r.wf(),
            r.spec_width() == width,
            r.spec_height() == height,
            forall|i: int| 0 <= i < r@.len() ==> r@[i] == value,
    {
        assert(0 <= width * height) by (nonlinear_arith);
        let n: usize = (width as usize) * (height as usize);
        let data = vec![value; n];
        Image { width, height, data }
    }

    /// An image of the same width and height with other samples.
    pub fn with_samples(&self, data: Vec<u8>) -> (r: Image)
        requires
            self.wf(),
            data@.len() == self@.len(),
        ensures
            r.wf(),
            r.same_shape(self),
            r@ == data@,
    {
        Image { width: self.width, height: self.height, data }
    }

    #[verifier::when_used_as_spec(spec_width)]
    pub fn width(&self) -> (w: u32)
        ensures
            w == self.spec_width(),
    {
        self.width
    }

    #[verifier::when_used_as_spec(spec_height)]
    pub fn height(&self) -> (h: u32)
        ensures
            h == self.spec_height(),
    {
        self.height
    }

    /// The samples, row by row.
    pub fn as_vec(&self) -> (v: &Vec<u8>)
        ensures
            v@ == self@,
    {
        &self.data
    }

    /// Gives up the image for its buffer.
    pub fn into_vec(self) -> (v: Vec<u8>)
        ensures
            v@ == self@,
    {
        self.data
    }

    /// Reads the sample in column `x` of row `y`.
    pub fn get_pixel(&self, x: u32, y: u32) -> (v: u8)
        requires
            self.wf(),
            self.contains(x as int, y as int),
        ensures
            v == self.at(x as int, y as int),
    {
        proof {
            lemma_offset_in_range(self.width as int, self.height as int, x as int, y as int);
            self.lemma_len_fits();
        }
        let i: usize = (y as usize) * (self.width as usize) + (x as usize);
        self.data[i]
    }

    /// Writes the sample in column `x` of row `y`.
    pub fn put_pixel(&mut self, x: u32, y: u32, value: u8)
        requires
            old(self).wf(),
            old(self).contains(x as int, y as int),
        ensures
            final(self).wf(),
            final(self).same_shape(old(self)),
            final(self)@ == old(self)@.update(
                offset(old(self).spec_width() as int, x as int, y as int),
                value,
            ),
            forall|x2: int, y2: int|
                old(self).contains(x2, y2) ==> #[trigger] final(self).at(x2, y2) == (if x2 == x
                    && y2 == y {
                    value
                } else {
                    old(self).at(x2, y2)
                }),
    {
        proof {
            lemma_offset_in_range(self.width as int, self.height as int, x as int, y as int);
            self.lemma_len_fits();
        }
        let i: usize = (y as usize) * (self.width as usize) + (x as usize);
        self.data.set(i, value);
        proof {
            assert forall|x2: int, y2: int| old(self).contains(x2, y2) implies #[trigger] self.at(
                x2,
                y2,
            ) == (if x2 == x && y2 == y {
                value
            } else {
                old(self).at(x2, y2)
            }) by {
                lemma_offset_in_range(self.width as int, self.height as int, x2, y2);
                if offset(self.width as int, x2, y2) == offset(self.width as int, x as int, y as int) {
                    lemma_offset_injective(self.width as int, x2, y2, x as int, y as int);
                }
            }
        }
    }

    /// Copies `other` onto this image, its top left corner at `(x, y)`.
    /// Refuses an image that would reach beyond the right or the lower edge.
    pub fn copy_from(&mut self, other: &Image, x: u32, y: u32) -> (r: Result<(), Error>)
        requires
            old(self).wf(),
            other.wf(),
        ensures
            final(self).wf(),
            final(self).same_shape(old(self)),
            r is Ok <==> x + other.spec_width() <= old(self).spec_width() && y + other.spec_height()
                <= old(self).spec_height(),
            r matches Err(e) ==> e == Error::DimensionMismatch && final(self)@ == old(self)@,
            r is Ok ==> forall|x2: int, y2: int|
                old(self).contains(x2, y2) ==> #[trigger] final(self).at(x2, y2) == (if x <= x2 < x
                    + other.spec_width() && y <= y2 < y + other.spec_height() {
                    other.at(x2 - x, y2 - y)
                } else {
                    old(self).at(x2, y2)
                }),
    {
        let w = other.width;
        let h = other.height;
        if w > self.width || x > self.width - w || h > self.height || y > self.height - h {
            return Err(Error::DimensionMismatch);
        }
        let mut row: u32 = 0;
        while row < h
            invariant
                self.wf(),
                other.wf(),
                self.same_shape(old(self)),
                w == other.spec_width(),
                h == other.spec_height(),
                x + w <= self.spec_width(),
                y + h <= self.spec_height(),
                row <= h,
                forall|x2: int, y2: int|
                    old(self).contains(x2, y2) ==> #[trigger] self.at(x2, y2) == (if x <= x2 < x + w
                        && y <= y2 < y + row {
                        other.at(x2 - x, y2 - y)
                    } else {
                        old(self).at(x2, y2)
                    }),
            decreases h - row,
        {
            let mut col: u32 = 0;
            while col < w
                invariant
                    self.wf(),
                    other.wf(),
                    self.same_shape(old(self)),
                    w == other.spec_width(),
                    h == other.spec_height(),
                    x + w <= self.spec_width(),
                    y + h <= self.spec_height(),
                    row < h,
                    col <= w,
                    forall|x2: int, y2: int|
                        old(self).contains(x2, y2) ==> #[trigger] self.at(x2, y2) == (if x <= x2
                            < x + w && (y <= y2 < y + row || (y2 == y + row && x2 < x + col)) {
                            other.at(x2 - x, y2 - y)
                        } else {
                            old(self).at(x2, y2)
                        }),
                decreases w - col,
            {
                let value = other.get_pixel(col, row);
                self.put_pixel(x + col, y + row, value);
                col = col + 1;
            }
            row = row + 1;
        }
        Ok(())
    }

    /// The part of the image that is `width` wide and `height` high and has
    /// its top left corner at `(x, y)`.
    pub fn crop(&self, x: u32, y: u32, width: u32, height: u32) -> (r: Image)
        requires
            self.wf(),
            x + width <= self.spec_width(),
            y + height <= self.spec_height(),
        ensures
            r.wf(),
            r.spec_width() == width,
            r.spec_height() == height,
            forall|x2: int, y2: int|
                r.contains(x2, y2) ==> #[trigger] r.at(x2, y2) == self.at(x + x2, y + y2),
            r@ == self.cropped(x as int, y as int, width as int, height as int),
    {
        let mut data: Vec<u8> = Vec::new();
        let mut row: u32 = 0;
        while row < height
            invariant
                self.wf(),
                x + width <= self.spec_width(),
                y + height <= self.spec_height(),
                row <= height,
                data@.len() == row * width,
                forall|x2: int, y2: int|
                    0 <= x2 < width && 0 <= y2 < row ==> #[trigger] data@[offset(
                        width as int,
                        x2,
                        y2,
                    )] == self.at(x + x2, y + y2),
            decreases height - row,
        {
            let mut col: u32 = 0;
            while col < width
                invariant
                    self.wf(),
                    x + width <= self.spec_width(),
                    y + height <= self.spec_height(),
                    row < height,
                    col <= width,
                    data@.len() == row * width + col,
                    forall|x2: int, y2: int|
                        0 <= x2 < width && (0 <= y2 < row || (y2 == row && x2 < col))
                            ==> #[trigger] data@[offset(width as int, x2, y2)] == self.at(
                            x + x2,
                            y + y2,
                        ),
                decreases width - col,
            {
                let value = self.get_pixel(x + col, y + row);
                proof {
                    assert forall|x2: int, y2: int|
                        0 <= x2 < width && (0 <= y2 < row || (y2 == row && x2 < col))
                            implies offset(width as int, x2, y2) < row * width + col by {
                        if y2 < row {
                            lemma_offset_in_range(width as int, row as int, x2, y2);
                            assert(width * row == row * width) by (nonlinear_arith);
                        }
                    }
                }
                data.push(value);
                col = col + 1;
            }
            proof {
                assert((row + 1) * width == row * width + width) by (nonlinear_arith);
            }
            row = row + 1;
        }
        proof {
            assert(height * width == width * height) by (nonlinear_arith);
        }
        let r = Image { width, height, data };
        proof {
            assert(0 <= width * height) by (nonlinear_arith);
            assert forall|i: int| 0 <= i < r@.len() implies r@[i] == self.cropped(
                x as int,
                y as int,
                width as int,
                height as int,
            )[i] by {
                r.lemma_at_index(i);
            }
            assert(r@ =~= self.cropped(x as int, y as int, width as int, height as int));
        }
        r
    }
}

impl Image {
    /// Whether this image can be resized to `nwidth` by `nheight`.
    pub fn can_resize(&self, nwidth: u32, nheight: u32) -> (ok: bool)
        ensures
            ok == resize_fits(self.spec_width(), self.spec_height(), nwidth, nheight),
    {
        Self::fits_resize(self.width, self.height, nwidth, nheight)
    }

    /// Whether an image of `width` by `height` samples can be resized to
    /// `nwidth` by `nheight`.
    pub fn fits_resize(width: u32, height: u32, nwidth: u32, nheight: u32) -> (ok: bool)
        ensures
            ok == resize_fits(width, height, nwidth, nheight),
    {
        proof {
            lemma_product_fits(width, nheight);
            lemma_product_fits(nwidth, nheight);
        }
        let limit: u128 = isize::MAX as u128;
        let work: u128 = 16 * ((width as u128) * (nheight as u128));
        let out: u128 = (nwidth as u128) * (nheight as u128);
        width <= RESIZE_LIMIT && height <= RESIZE_LIMIT && nwidth <= RESIZE_LIMIT && nheight
            <= RESIZE_LIMIT && work <= limit && out <= limit
    }

    /// The image resized to `nwidth` by `nheight` samples.
    pub fn resize(&self, nwidth: u32, nheight: u32, filter: Filter) -> (r: Image)
        requires
            self.wf(),
            resize_fits(self.spec_width(), self.spec_height(), nwidth, nheight),
        ensures
            r.wf(),
            r.spec_width() == nwidth,
            r.spec_height() == nheight,
            r@ == resized(self@, self.spec_width(), self.spec_height(), nwidth, nheight, filter),
            r.same_shape(self) ==> r@ == self@,
    {
        let data = resize(&self.data, self.width, self.height, nwidth, nheight, filter);
        Image { width: nwidth, height: nheight, data }
    }

    /// The correlation of the image with a 3 by 3 kernel, given row by row,
    /// each result cut off at 0 and 255. Beyond its edges the image counts
    /// as continued by its nearest sample.
    pub fn filter3x3(&self, kernel: &[i32; 9]) -> (r: Image)
        requires
            self.wf(),
            forall|i: int| 0 <= i < 9 ==> -KERNEL_LIMIT <= #[trigger] kernel@[i] <= KERNEL_LIMIT,
        ensures
            r.wf(),
            r.same_shape(self),
            forall|x: int, y: int|
                self.contains(x, y) ==> #[trigger] r.at(x, y) == saturate(
                    correlation(
                        self@,
                        self.spec_width() as int,
                        self.spec_height() as int,
                        kernel@,
                        x,
                        y,
                    ),
                ),
    {
        let data = filter3x3(&self.data, self.width, self.height, kernel);
        Image { width: self.width, height: self.height, data }
    }

    /// Paints the outline of a rectangle, as far as it lies on the image.
    pub fn draw_hollow_rect(
        &mut self,
        left: i32,
        top: i32,
        rect_width: u32,
        rect_height: u32,
        color: u8,
    )
        requires
            old(self).wf(),
            old(self).spec_width() <= DRAW_LIMIT,
            old(self).spec_height() <= DRAW_LIMIT,
            rect_width >= 1,
            rect_height >= 1,
            -DRAW_LIMIT <= left,
            -DRAW_LIMIT <= top,
            left + rect_width <= DRAW_LIMIT,
            top + rect_height <= DRAW_LIMIT,
        ensures
            final(self).wf(),
            final(self).same_shape(old(self)),
            forall|x: int, y: int|
                old(self).contains(x, y) ==> #[trigger] final(self).at(x, y) == (if on_outline(
                    left as int,
                    top as int,
                    rect_width as int,
                    rect_height as int,
                    x,
                    y,
                ) {
                    color
                } else {
                    old(self).at(x, y)
                }),
    {
        draw_hollow_rect(
            &mut self.data,
            self.width,
            self.height,
            left,
            top,
            rect_width,
            rect_height,
            color,
        );
    }
}

impl Clone for Image {
    fn clone(&self) -> (r: Image)
        ensures
            r@ == self@,
            r.spec_width() == self.spec_width(),
            r.spec_height() == self.spec_height(),
    {
        Image { width: self.width, height: self.height, data: self.data.clone() }
    }
}

} // verus!
