//! The canvas on which the glyphs of a line of text are painted.

use vstd::prelude::*;
use crate::error::Error;
use crate::raster::{lemma_offset_in_range, lemma_product_fits, offset};

verus! {

/// A colour as red, green and blue.
pub type Rgb = (u8, u8, u8);

/// One channel of a painted sample: `front` laid over `back` with the
/// opacity `alpha`, each share rounded down.
pub open spec fn mixed(front: u8, alpha: u8, back: u8) -> u8 {
    (front * alpha / 255 + back * (255 - alpha) / 255) as u8
}

/// A colour laid over another with the opacity `alpha`.
pub open spec fn laid_over(front: Rgb, alpha: u8, back: Rgb) -> Rgb {
    (mixed(front.0, alpha, back.0), mixed(front.1, alpha, back.1), mixed(front.2, alpha, back.2))
}

fn mix(front: u8, alpha: u8, back: u8) -> (m: u8)
    ensures
        m == mixed(front, alpha, back),
{
    assert(front * alpha <= 255 * alpha && back * (255 - alpha) <= 255 * (255 - alpha)
        && front * alpha >= 0 && back * (255 - alpha) >= 0) by (nonlinear_arith)
        requires
            0 <= front <= 255,
            0 <= back <= 255,
            0 <= alpha <= 255,
    ;
    let over: u32 = (front as u32) * (alpha as u32) / 255;
    let under: u32 = (back as u32) * (255 - alpha as u32) / 255;
    (over + under) as u8
}

/// A picture in colour on which the glyphs of a line of text are painted,
/// one sample at a time. It remembers the rightmost column that was
/// painted on.
pub struct GlyphCanvas {
    width: u32,
    height: u32,
    data: Vec<u8>,
    right_border: u32,
}

impl GlyphCanvas {
    pub closed spec fn spec_width(&self) -> u32 {
        self.width
    }

    pub closed spec fn spec_height(&self) -> u32 {
        self.height
    }

    /// The rightmost column that was painted on, and 0 before any was.
    pub closed spec fn spec_right_border(&self) -> u32 {
        self.right_border
    }

    /// The channels of all samples, row by row, three for each sample.
    pub closed spec fn channels(&self) -> Seq<u8> {
        self.data@
    }

    /// The buffer holds three channels for each sample, and the rightmost
    /// painted column is a column of the picture.
    pub open spec fn wf(&self) -> bool {
        &&& self.channels().len() == 3 * (self.spec_width() * self.spec_height())
        &&& self.spec_right_border() < self.spec_width() || self.spec_right_border() == 0
    }

    /// The colour of the sample in column `x` of row `y`.
    pub open spec fn at(&self, x: int, y: int) -> Rgb {
        let i = 3 * offset(self.spec_width() as int, x, y);
        (self.channels()[i], self.channels()[i + 1], self.channels()[i + 2])
    }

    pub open spec fn contains(&self, x: int, y: int) -> bool {
        0 <= x < self.spec_width() && 0 <= y < self.spec_height()
    }

    /// Whether a call of `plot` for `(x, y)` paints: the place lies on
    /// the picture and is not its top left corner.
    pub open spec fn paints(&self, x: int, y: int) -> bool {
        self.contains(x, y) && !(x == 0 && y == 0)
    }

    /// A canvas of one colour. Refuses a size whose buffer cannot be
    /// allocated.
    pub fn new(width: u32, height: u32, background: Rgb) -> (r: Result<GlyphCanvas, Error>)
        ensures
            r is Ok <==> 3 * (width * height) <= isize::MAX,
            r matches Err(e) ==> e == Error::DimensionMismatch,
            r matches Ok(canvas) ==> {
                &&& canvas.wf()
                &&& canvas.spec_width() == width
                &&& canvas.spec_height() == height
                &&& canvas.spec_right_border() == 0
                &&& forall|x: int, y: int|
                    canvas.contains(x, y) ==> #[trigger] canvas.at(x, y) == background
            },
    {
        proof {
            lemma_product_fits(width, height);
        }
        let area: u128 = (width as u128) * (height as u128);
        if 3 * area > isize::MAX as u128 {
            return Err(Error::DimensionMismatch);
        }
        let n: usize = area as usize;
        let mut data: Vec<u8> = Vec::new();
        let mut i: usize = 0;
        while i < n
            invariant
                i <= n,
                3 * n <= usize::MAX,
                data@.len() == 3 * i,
                forall|j: int|
                    0 <= j < 3 * i ==> #[trigger] data@[j] == (if j % 3 == 0 {
                        background.0
                    } else if j % 3 == 1 {
                        background.1
                    } else {
                        background.2
                    }),
            decreases n - i,
        {
            data.push(background.0);
            data.push(background.1);
            data.push(background.2);
            i = i + 1;
        }
        let canvas = GlyphCanvas { width, height, data, right_border: 0 };
        proof {
            assert forall|x: int, y: int| canvas.contains(x, y) implies #[trigger] canvas.at(x, y)
                == background by {
                lemma_offset_in_range(width as int, height as int, x, y);
            }
        }
        Ok(canvas)
    }

    #[verifier::when_used_as_spec(spec_width)]
    pub fn width(&self) -> (w: u32)
        ensures
            w == self.spec_width(),
    {
        self.width
    }

    #[verifier::when_used_as_spec(spec_height)]
    pub fn height(&self) -> (h: u32)
        ensures
            h == self.spec_height(),
    {
        self.height
    }

    #[verifier::when_used_as_spec(spec_right_border)]
    pub fn right_border(&self) -> (x: u32)
        ensures
            x == self.spec_right_border(),
    {
        self.right_border
    }

    /// The colour of the sample in column `x` of row `y`.
    pub fn get_pixel(&self, x: u32, y: u32) -> (c: Rgb)
        requires
            self.wf(),
            self.contains(x as int, y as int),
        ensures
            c == self.at(x as int, y as int),
    {
        proof {
            lemma_offset_in_range(self.width as int, self.height as int, x as int, y as int);
            assert(self.data.len() == self.data@.len());
        }
        let i: usize = 3 * ((y as usize) * (self.width as usize) + (x as usize));
        (self.data[i], self.data[i + 1], self.data[i + 2])
    }

    /// Paints one sample of a glyph: lays `color` with the opacity `alpha`
    /// over the sample at `(x, y)`. A place beyond the picture is passed
    /// over, and so is the top left corner.
    pub fn plot(&mut self, x: i32, y: i32, color: Rgb, alpha: u8)
        requires
            old(self).wf(),
        ensures
            final(self).wf(),
            final(self).spec_width() == old(self).spec_width(),
            final(self).spec_height() == old(self).spec_height(),
            final(self).spec_right_border() == (if old(self).paints(x as int, y as int) && x > old(
                self,
            ).spec_right_border() {
                x as u32
            } else {
                old(self).spec_right_border()
            }),
            forall|x2: int, y2: int|
                old(self).contains(x2, y2) ==> #[trigger] final(self).at(x2, y2) == (if x2 == x
                    && y2 == y && old(self).paints(x as int, y as int) {
                    laid_over(color, alpha, old(self).at(x2, y2))
                } else {
                    old(self).at(x2, y2)
                }),
    {
        if x < 0 || x as i64 >= self.width as i64 || y < 0 || y as i64 >= self.height as i64 || (x
            == 0 && y == 0) {
            return ;
        }
        if x as u32 > self.right_border {
            self.right_border = x as u32;
        }
        proof {
            lemma_offset_in_range(self.width as int, self.height as int, x as int, y as int);
            assert(self.data.len() == self.data@.len());
        }
        let i: usize = 3 * ((y as usize) * (self.width as usize) + (x as usize));
        let red = mix(color.0, alpha, self.data[i]);
        let green = mix(color.1, alpha, self.data[i + 1]);
        let blue = mix(color.2, alpha, self.data[i + 2]);
        self.data.set(i, red);
        self.data.set(i + 1, green);
        self.data.set(i + 2, blue);
        proof {
            assert forall|x2: int, y2: int| old(self).contains(x2, y2) implies #[trigger] self.at(
                x2,
                y2,
            ) == (if x2 == x && y2 == y {
                laid_over(color, alpha, old(self).at(x2, y2))
            } else {
                old(self).at(x2, y2)
            }) by {
                lemma_offset_in_range(self.width as int, self.height as int, x2, y2);
                if offset(self.width as int, x2, y2) == offset(self.width as int, x as int, y as int) {
                    crate::raster::lemma_offset_injective(
                        self.width as int,
                        x2,
                        y2,
                        x as int,
                        y as int,
                    );
                }
            }
        }
    }

    /// The painted part of the picture: its columns up to the rightmost
    /// painted one, as width, height and channels row by row.
    pub fn finish(&self) -> (r: (u32, u32, Vec<u8>))
        requires
            self.wf(),
        ensures
            r.0 == (if self.spec_width() == 0 {
                0
            } else {
                self.spec_right_border() + 1
            }),
            r.1 == self.spec_height(),
            r.2@.len() == 3 * (r.0 * r.1),
            forall|x: int, y: int|
                0 <= x < r.0 && 0 <= y < r.1 ==> {
                    let i = 3 * #[trigger] offset(r.0 as int, x, y);
                    (r.2@[i], r.2@[i + 1], r.2@[i + 2]) == self.at(x, y)
                },
    {
        let width: u32 = if self.width == 0 {
            0
        } else {
            self.right_border + 1
        };
        let height = self.height;
        let mut out: Vec<u8> = Vec::new();
        let mut y: u32 = 0;
        while y < height
            invariant
                self.wf(),
                width <= self.spec_width(),
                height == self.spec_height(),
                y <= height,
                out@.len() == 3 * (y * width),
                forall|x2: int, y2: int|
                    0 <= x2 < width && 0 <= y2 < y ==> {
                        let i = 3 * #[trigger] offset(width as int, x2, y2);
                        (out@[i], out@[i + 1], out@[i + 2]) == self.at(x2, y2)
                    },
            decreases height - y,
        {
            let mut x: u32 = 0;
            while x < width
                invariant
                    self.wf(),
                    width <= self.spec_width(),
                    height == self.spec_height(),
                    y < height,
                    x <= width,
                    out@.len() == 3 * (y * width + x),
                    forall|x2: int, y2: int|
                        0 <= x2 < width && (0 <= y2 < y || (y2 == y && x2 < x)) ==> {
                            let i = 3 * #[trigger] offset(width as int, x2, y2);
                            (out@[i], out@[i + 1], out@[i + 2]) == self.at(x2, y2)
                        },
                decreases width - x,
            {
                let c = self.get_pixel(x, y);
                proof {
                    assert forall|x2: int, y2: int|
                        0 <= x2 < width && (0 <= y2 < y || (y2 == y && x2 < x)) implies offset(
                        width as int,
                        x2,
                        y2,
                    ) < y * width + x by {
                        if y2 < y {
                            lemma_offset_in_range(width as int, y as int, x2, y2);
                            assert(width * y == y * width) by (nonlinear_arith);
                        }
                    }
                }
                out.push(c.0);
                out.push(c.1);
                out.push(c.2);
                x = x + 1;
            }
            proof {
                assert((y + 1) * width == y * width + width) by (nonlinear_arith);
            }
            y = y + 1;
        }
        proof {
            assert(width * height == height * width) by (nonlinear_arith);
        }
        (width, height, out)
    }
}

} // verus!
