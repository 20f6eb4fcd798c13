//! The degradations of a picture of text: an occluding box, a size that
//! fits after a warp, blur by resizing, sharpening and embossing, and the
//! plan that says which of them are applied.

use vstd::prelude::*;
use crate::effect_helper::cv::{rectangle, Rect};
use crate::effect_helper::math::Random;
use crate::error::Error;
use crate::bindings::{
    correlation, resize_fits, resized, saturate, uniform_between, Filter, DRAW_LIMIT,
};
use crate::raster::{lemma_product_fits, Image};

verus! {

/// The kernel that sharpens: the centre nine times, less its eight neighbours.
pub const SHARP_KERNEL: [i32; 9] = [-1, -1, -1, -1, 9, -1, -1, -1, -1];

/// The kernel that embosses: an edge from the top left to the bottom right.
pub const EMBOSS_KERNEL: [i32; 9] = [-2, -1, 0, -1, 1, 1, 0, 1, 2];

/// One in millionths, the unit of probabilities and factors.
pub const WHOLE: u32 = 1_000_000;

/// The degradations that make a rendered text look photographed, each
/// with the probability that it is applied, in millionths.
#[derive(Clone, Copy, Debug)]
pub struct CvUtil {
    pub box_prob: u32,
    pub perspective_prob: u32,
    pub perspective_x: Random,
    pub perspective_y: Random,
    pub perspective_z: Random,
    pub blur_prob: u32,
    pub blur_sigma: Random,
    pub filter_prob: u32,
    pub emboss_prob: u32,
    pub sharp_prob: u32,
}

/// One degradation of an image.
#[derive(Clone, Copy, Debug, PartialEq, Eq, Structural)]
pub enum Effect {
    /// A box is drawn over the image.
    Box,
    /// The image is turned in space by these angles about the x, y and z
    /// axis, each in millionths of a degree, and seen in perspective.
    Perspective { x: i64, y: i64, z: i64 },
    /// A Gaussian blur of this standard deviation, in millionths.
    Blur { sigma: i64 },
    /// The image is embossed.
    Emboss,
    /// The image is sharpened.
    Sharp,
}

/// One draw for each gate of the pipeline, each of them a number of
/// millionths below `WHOLE`: a gate opens where its draw is less than the
/// probability set for it.
#[derive(Clone, Copy, Debug, PartialEq, Eq, Structural)]
pub struct Gates {
    pub draw_box: u32,
    pub perspective: u32,
    pub blur: u32,
    pub filter: u32,
    pub emboss: u32,
}

/// The width and height to which a crop of `new_width` by `new_height`
/// samples is resized so that it keeps its proportions and fits in
/// `raw_width` by `raw_height`: the full height where the width then fits,
/// else the full width. A side that is no whole number is rounded up.
pub open spec fn fitted(new_width: u32, new_height: u32, raw_width: u32, raw_height: u32) -> (
    int,
    int,
) {
    let by_height = (new_width * raw_height + new_height - 1) / (new_height as int);
    if by_height <= raw_width {
        (by_height, raw_height as int)
    } else {
        (raw_width as int, (new_height * raw_width + new_width - 1) / (new_width as int))
    }
}

/// A fitted size exceeds neither the width nor the height it is fitted to.
pub proof fn lemma_fitted_fits(new_width: u32, new_height: u32, raw_width: u32, raw_height: u32)
    requires
        new_width >= 1,
        new_height >= 1,
    ensures
        0 <= fitted(new_width, new_height, raw_width, raw_height).0 <= raw_width,
        0 <= fitted(new_width, new_height, raw_width, raw_height).1 <= raw_height,
{
    let nw = new_width as int;
    let nh = new_height as int;
    let rw = raw_width as int;
    let rh = raw_height as int;
    let by_height = (nw * rh + nh - 1) / nh;
    assert(nw * rh >= 0 && nh * rw >= 0) by (nonlinear_arith)
        requires
            nw >= 0,
            rh >= 0,
            nh >= 0,
            rw >= 0,
    ;
    vstd::arithmetic::div_mod::lemma_div_pos_is_pos(nw * rh + nh - 1, nh);
    vstd::arithmetic::div_mod::lemma_div_pos_is_pos(nh * rw + nw - 1, nw);
    if by_height > rw {
        let by_width = (nh * rw + nw - 1) / nw;
        vstd::arithmetic::div_mod::lemma_fundamental_div_mod(nw * rh + nh - 1, nh);
        vstd::arithmetic::div_mod::lemma_fundamental_div_mod(nh * rw + nw - 1, nw);
        vstd::arithmetic::div_mod::lemma_mod_bound(nw * rh + nh - 1, nh);
        vstd::arithmetic::div_mod::lemma_mod_bound(nh * rw + nw - 1, nw);
        assert(nh * by_height >= nh * (rw + 1)) by (nonlinear_arith)
            requires
                by_height >= rw + 1,
                nh >= 1,
        ;
        assert(nh * (rw + 1) == nh * rw + nh) by (nonlinear_arith);
        if by_width > rh {
            assert(nw * by_width >= nw * (rh + 1)) by (nonlinear_arith)
                requires
                    by_width >= rh + 1,
                    nw >= 1,
            ;
            assert(nw * (rh + 1) == nw * rh + nw) by (nonlinear_arith);
        }
    }
}

/// The length of a reduced side: `side` divided by `scale` millionths,
/// rounded down.
pub open spec fn reduced(side: u32, scale: u32) -> int {
    side * WHOLE / (scale as int)
}

/// The length of a side of the canvas on which a box is drawn: `side`
/// times `alpha` millionths, rounded up.
pub open spec fn padded_side(side: u32, alpha: u32) -> int {
    (side * alpha + (WHOLE - 1)) / (WHOLE as int)
}

/// Whether an image of `width` by `height` samples can get a box on a
/// canvas `alpha` millionths as large: the canvas is larger than the image
/// on either side, it can be drawn on, and it can be allocated and resized.
pub open spec fn box_canvas_fits(width: u32, height: u32, alpha: u32) -> bool {
    let canvas_width = padded_side(width, alpha);
    let canvas_height = padded_side(height, alpha);
    &&& width < canvas_width < DRAW_LIMIT
    &&& height < canvas_height < DRAW_LIMIT
    &&& canvas_width * canvas_height <= isize::MAX
    &&& resize_fits(canvas_width as u32, canvas_height as u32, width, height)
}

/// Where an image and a box go on the canvas: the image's top left corner
/// is at `(left, top)`, the box's at `(box_left, box_top)`.
#[derive(Clone, Copy, Debug, PartialEq, Eq, Structural)]
pub struct BoxPlacement {
    pub top: u32,
    pub left: u32,
    pub box_left: u32,
    pub box_top: u32,
    pub box_width: u32,
    pub box_height: u32,
    pub color: u8,
    pub thickness: u32,
}

impl BoxPlacement {
    /// The rectangle of the box.
    pub open spec fn rect(self) -> Rect {
        Rect {
            left: self.box_left as i32,
            top: self.box_top as i32,
            width: self.box_width,
            height: self.box_height,
        }
    }

    /// The image lies on the canvas with a margin above and to its left.
    /// The box starts in that margin, ends on the canvas and reaches to the
    /// image's last column and row or beyond. Its frame is one or two
    /// samples thick and of a gray no darker than 50.
    pub open spec fn valid(self, width: u32, height: u32, alpha: u32) -> bool {
        let canvas_width = padded_side(width, alpha);
        let canvas_height = padded_side(height, alpha);
        &&& 1 <= self.top <= canvas_height - height
        &&& 1 <= self.left <= canvas_width - width
        &&& 1 <= self.box_left <= self.left
        &&& 1 <= self.box_top <= self.top
        &&& width + self.left - self.box_left <= self.box_width <= canvas_width - self.box_left
        &&& height + self.top - self.box_top <= self.box_height <= canvas_height - self.box_top
        &&& 50 <= self.color
        &&& 1 <= self.thickness <= 2
    }

    /// The sample at `(x, y)` of the canvas: the box's colour on its frame,
    /// else the image where it lies, else black.
    pub open spec fn canvas_at(self, img: Image, x: int, y: int) -> u8 {
        if self.rect().on_frame(self.thickness, x, y) {
            self.color
        } else if self.left <= x < self.left + img.spec_width() && self.top <= y < self.top
            + img.spec_height() {
            img.at(x - self.left, y - self.top)
        } else {
            0
        }
    }

    /// The canvas with image and box, row by row.
    pub open spec fn canvas(self, img: Image, alpha: u32) -> Seq<u8> {
        let canvas_width = padded_side(img.spec_width(), alpha);
        let canvas_height = padded_side(img.spec_height(), alpha);
        Seq::new(
            (canvas_width * canvas_height) as nat,
            |i: int| self.canvas_at(img, i % canvas_width, i / canvas_width),
        )
    }
}

/// The width and height of the canvas for a box, where there is one.
fn box_canvas(width: u32, height: u32, alpha: u32) -> (r: Result<(u32, u32), Error>)
    ensures
        match r {
            Ok(size) => {
                &&& WHOLE <= alpha
                &&& box_canvas_fits(width, height, alpha)
                &&& size.0 == padded_side(width, alpha)
                &&& size.1 == padded_side(height, alpha)
            },
            Err(e) => if alpha < WHOLE {
                e == Error::InvalidConfiguration
            } else {
                e == Error::DimensionMismatch && !box_canvas_fits(width, height, alpha)
            },
        },
{
    if alpha < WHOLE {
        return Err(Error::InvalidConfiguration);
    }
    proof {
        lemma_product_fits(width, alpha);
        lemma_product_fits(height, alpha);
    }
    let canvas_width: u64 = ((width as u64) * (alpha as u64) + (WHOLE as u64 - 1)) / (WHOLE as u64);
    let canvas_height: u64 = ((height as u64) * (alpha as u64) + (WHOLE as u64 - 1)) / (
    WHOLE as u64);
    if canvas_width <= width as u64 || canvas_width >= DRAW_LIMIT as u64 || canvas_height
        <= height as u64 || canvas_height >= DRAW_LIMIT as u64 {
        return Err(Error::DimensionMismatch);
    }
    proof {
        lemma_product_fits(canvas_width as u32, canvas_height as u32);
    }
    if canvas_width * canvas_height > isize::MAX as u64 {
        return Err(Error::DimensionMismatch);
    }
    if !Image::fits_resize(canvas_width as u32, canvas_height as u32, width, height) {
        return Err(Error::DimensionMismatch);
    }
    Ok((canvas_width as u32, canvas_height as u32))
}

fn placement_valid(placement: &BoxPlacement, width: u32, height: u32, alpha: u32, size: (u32, u32)) -> (ok:
    bool)
    requires
        size.0 == padded_side(width, alpha),
        size.1 == padded_side(height, alpha),
        width < size.0,
        height < size.1,
    ensures
        ok == placement.valid(width, height, alpha),
{
    let p = placement;
    1 <= p.top && p.top <= size.1 - height && 1 <= p.left && p.left <= size.0 - width && 1
        <= p.box_left && p.box_left <= p.left && 1 <= p.box_top && p.box_top <= p.top
        && p.box_left <= size.0 && p.box_top <= size.1 && (width as u64) + (p.left as u64) - (
    p.box_left as u64) <= p.box_width as u64 && p.box_width <= size.0 - p.box_left && (
    height as u64) + (p.top as u64) - (p.box_top as u64) <= p.box_height as u64 && p.box_height
        <= size.1 - p.box_top && 50 <= p.color && 1 <= p.thickness && p.thickness <= 2
}

fn reduce(side: u32, scale: u32) -> (r: u32)
    requires
        WHOLE <= scale,
    ensures
        r == reduced(side, scale),
        r <= side,
{
    proof {
        assert(0 <= side * WHOLE <= side * scale) by (nonlinear_arith)
            requires
                0 <= side,
                0 <= WHOLE <= scale,
        ;
        lemma_product_fits(side, scale);
        vstd::arithmetic::div_mod::lemma_div_is_ordered(
            side * WHOLE,
            side * scale,
            scale as int,
        );
        assert(side * scale == scale * side) by (nonlinear_arith);
        vstd::arithmetic::div_mod::lemma_div_multiples_vanish(side as int, scale as int);
        vstd::arithmetic::div_mod::lemma_div_pos_is_pos(side * WHOLE, scale as int);
    }
    ((side as u64) * (WHOLE as u64) / (scale as u64)) as u32
}

/// The samples of an image that was resized to its sides divided by
/// `scale` millionths, and back.
pub open spec fn down_up(img: Image, scale: u32) -> Seq<u8> {
    let width = img.spec_width();
    let height = img.spec_height();
    let small_width = reduced(width, scale) as u32;
    let small_height = reduced(height, scale) as u32;
    resized(
        resized(img@, width, height, small_width, small_height, Filter::Triangle),
        small_width,
        small_height,
        width,
        height,
        Filter::Triangle,
    )
}

impl CvUtil {
    /// The probabilities of embossing and of sharpening make one.
    pub open spec fn wf(&self) -> bool {
        self.emboss_prob + self.sharp_prob == WHOLE
    }

    /// The effects that are applied, in their order, for given draws: the
    /// box, the perspective and the blur each where its gate opens; after a
    /// blur, where the filter's gate opens, one of embossing and sharpening.
    /// Angles and deviation are the draws cut off at the ends of the
    /// intervals set for them.
    pub open spec fn plan(&self, gates: Gates, angles: (i64, i64, i64), sigma: i64) -> Seq<Effect> {
        let first = if gates.draw_box < self.box_prob {
            seq![Effect::Box]
        } else {
            seq![]
        };
        let second = if gates.perspective < self.perspective_prob {
            seq![
                Effect::Perspective {
                    x: self.perspective_x.cut(angles.0),
                    y: self.perspective_y.cut(angles.1),
                    z: self.perspective_z.cut(angles.2),
                },
            ]
        } else {
            seq![]
        };
        let third = if gates.blur < self.blur_prob {
            seq![Effect::Blur { sigma: self.blur_sigma.cut(sigma) }]
        } else {
            seq![]
        };
        let fourth = if gates.blur < self.blur_prob && gates.filter < self.filter_prob {
            if gates.emboss < self.emboss_prob {
                seq![Effect::Emboss]
            } else {
                seq![Effect::Sharp]
            }
        } else {
            seq![]
        };
        first + second + third + fourth
    }

    /// Draws the gates of the pipeline.
    pub fn draw_gates(rng: &mut rand::rngs::StdRng) -> (gates: Gates)
        ensures
            gates.draw_box < WHOLE,
            gates.perspective < WHOLE,
            gates.blur < WHOLE,
            gates.filter < WHOLE,
            gates.emboss < WHOLE,
    {
        let top: u64 = WHOLE as u64 - 1;
        Gates {
            draw_box: uniform_between(rng, 0, top) as u32,
            perspective: uniform_between(rng, 0, top) as u32,
            blur: uniform_between(rng, 0, top) as u32,
            filter: uniform_between(rng, 0, top) as u32,
            emboss: uniform_between(rng, 0, top) as u32,
        }
    }

    /// Decides which effects are applied to an image, and in which order.
    /// `angles` and `sigma` are draws from the distributions set for the
    /// perspective and the blur. Refuses a configuration in which the
    /// probabilities of embossing and of sharpening do not make one.
    pub fn plan_effect(&self, gates: Gates, angles: (i64, i64, i64), sigma: i64) -> (r: Result<
        Vec<Effect>,
        Error,
    >)
        ensures
            r is Ok <==> self.wf(),
            r matches Ok(plan) ==> plan@ == self.plan(gates, angles, sigma),
            r matches Err(e) ==> e == Error::InvalidConfiguration,
    {
        if self.emboss_prob as u64 + self.sharp_prob as u64 != WHOLE as u64 {
            return Err(Error::InvalidConfiguration);
        }
        let mut plan: Vec<Effect> = Vec::new();
        if gates.draw_box < self.box_prob {
            plan.push(Effect::Box);
        }
        if gates.perspective < self.perspective_prob {
            plan.push(
                Effect::Perspective {
                    x: self.perspective_x.sample(angles.0),
                    y: self.perspective_y.sample(angles.1),
                    z: self.perspective_z.sample(angles.2),
                },
            );
        }
        if gates.blur < self.blur_prob {
            plan.push(Effect::Blur { sigma: self.blur_sigma.sample(sigma) });
            if gates.filter < self.filter_prob {
                if gates.emboss < self.emboss_prob {
                    plan.push(Effect::Emboss);
                } else {
                    plan.push(Effect::Sharp);
                }
            }
        }
        proof {
            assert(plan@ =~= self.plan(gates, angles, sigma));
        }
        Ok(plan)
    }

    /// Cuts the text out of a warped image and brings it back to the size
    /// of the image before the warp. `bounds` are the first and last column
    /// and the first and last row of the text on the warped image, as
    /// `(min_x, min_y, max_x, max_y)`. The crop is resized, with its
    /// proportions kept, to fit in `raw_width` by `raw_height`.
    pub fn fit_warped(
        warped: &Image,
        bounds: (u32, u32, u32, u32),
        raw_width: u32,
        raw_height: u32,
    ) -> (r: Result<Image, Error>)
        requires
            warped.wf(),
        ensures
            match r {
                Ok(img) => {
                    let (min_x, min_y, max_x, max_y) = bounds;
                    let new_width = (max_x - min_x + 1) as u32;
                    let new_height = (max_y - min_y + 1) as u32;
                    let size = fitted(new_width, new_height, raw_width, raw_height);
                    &&& min_x <= max_x < warped.spec_width()
                    &&& min_y <= max_y < warped.spec_height()
                    &&& resize_fits(new_width, new_height, size.0 as u32, size.1 as u32)
                    &&& img.wf()
                    &&& img.spec_width() == size.0
                    &&& img.spec_height() == size.1
                    &&& img.spec_width() <= raw_width
                    &&& img.spec_height() <= raw_height
                    &&& size.0 == new_width && size.1 == new_height ==> img@ == warped.cropped(
                        min_x as int,
                        min_y as int,
                        new_width as int,
                        new_height as int,
                    )
                    &&& img@ == resized(
                        warped.cropped(
                            min_x as int,
                            min_y as int,
                            new_width as int,
                            new_height as int,
                        ),
                        new_width,
                        new_height,
                        size.0 as u32,
                        size.1 as u32,
                        Filter::Triangle,
                    )
                },
                Err(e) => {
                    let (min_x, min_y, max_x, max_y) = bounds;
                    let new_width = (max_x - min_x + 1) as u32;
                    let new_height = (max_y - min_y + 1) as u32;
                    let size = fitted(new_width, new_height, raw_width, raw_height);
                    &&& e == Error::DimensionMismatch
                    &&& !(min_x <= max_x < warped.spec_width() && min_y <= max_y
                        < warped.spec_height() && resize_fits(
                        new_width,
                        new_height,
                        size.0 as u32,
                        size.1 as u32,
                    ))
                },
            },
    {
        let (min_x, min_y, max_x, max_y) = bounds;
        if min_x > max_x || max_x >= warped.width() || min_y > max_y || max_y >= warped.height() {
            return Err(Error::DimensionMismatch);
        }
        let new_width: u32 = max_x - min_x + 1;
        let new_height: u32 = max_y - min_y + 1;
        proof {
            lemma_product_fits(new_width, raw_height);
            lemma_product_fits(new_height, raw_width);
            lemma_fitted_fits(new_width, new_height, raw_width, raw_height);
        }
        let by_height: u64 = ((new_width as u64) * (raw_height as u64) + (new_height as u64) - 1) / (
        new_height as u64);
        let (width, height): (u32, u32) = if by_height <= raw_width as u64 {
            (by_height as u32, raw_height)
        } else {
            let by_width: u64 = ((new_height as u64) * (raw_width as u64) + (new_width as u64) - 1)
                / (new_width as u64);
            (raw_width, by_width as u32)
        };
        let crop = warped.crop(min_x, min_y, new_width, new_height);
        if !crop.can_resize(width, height) {
            return Err(Error::DimensionMismatch);
        }
        Ok(crop.resize(width, height, Filter::Triangle))
    }

    /// Blurs an image as enlarging a small picture does: resizes it to its
    /// sides divided by `scale` millionths, and back.
    pub fn apply_down_up_with(img: &Image, scale: u32) -> (r: Result<Image, Error>)
        requires
            img.wf(),
        ensures
            match r {
                Ok(out) => {
                    &&& WHOLE <= scale <= 2 * WHOLE
                    &&& resize_fits(
                        img.spec_width(),
                        img.spec_height(),
                        img.spec_width(),
                        img.spec_height(),
                    )
                    &&& out.wf()
                    &&& out.same_shape(img)
                    &&& out@ == down_up(*img, scale)
                },
                Err(e) => if WHOLE <= scale <= 2 * WHOLE {
                    e == Error::DimensionMismatch && !resize_fits(
                        img.spec_width(),
                        img.spec_height(),
                        img.spec_width(),
                        img.spec_height(),
                    )
                } else {
                    e == Error::InvalidConfiguration
                },
            },
    {
        if scale < WHOLE || scale > 2 * WHOLE {
            return Err(Error::InvalidConfiguration);
        }
        let width = img.width();
        let height = img.height();
        if !img.can_resize(width, height) {
            return Err(Error::DimensionMismatch);
        }
        let small_width = reduce(width, scale);
        let small_height = reduce(height, scale);
        proof {
            assert(width * small_height <= width * height) by (nonlinear_arith)
                requires
                    small_height <= height,
                    0 <= width,
            ;
            assert(small_width * small_height <= width * height) by (nonlinear_arith)
                requires
                    0 <= small_height <= height,
                    0 <= small_width <= width,
            ;
            assert(small_width * height <= width * height) by (nonlinear_arith)
                requires
                    small_width <= width,
                    0 <= height,
            ;
        }
        let small = img.resize(small_width, small_height, Filter::Triangle);
        Ok(small.resize(width, height, Filter::Triangle))
    }

    /// Blurs an image as enlarging a small picture does, by a factor drawn
    /// between one and two.
    pub fn apply_down_up(img: &Image, rng: &mut rand::rngs::StdRng) -> (r: Result<Image, Error>)
        requires
            img.wf(),
        ensures
            r is Ok <==> resize_fits(
                        img.spec_width(),
                        img.spec_height(),
                        img.spec_width(),
                        img.spec_height(),
                    ),
            r matches Err(e) ==> e == Error::DimensionMismatch,
            r matches Ok(out) ==> out.wf() && out.same_shape(img) && exists|scale: u32|
                WHOLE <= scale <= 2 * WHOLE && out@ == #[trigger] down_up(*img, scale),
    {
        let scale = uniform_between(rng, WHOLE as u64, 2 * (WHOLE as u64)) as u32;
        let r = Self::apply_down_up_with(img, scale);
        proof {
            if r is Ok {
                assert(r->Ok_0@ == down_up(*img, scale));
            }
        }
        r
    }

    /// Draws a box over an image as `placement` says: puts the image on a
    /// black canvas `alpha` millionths as large, draws the frame of the box
    /// over it, and resizes the canvas to the size of the image.
    pub fn draw_box_with(img: &Image, alpha: u32, placement: BoxPlacement) -> (r: Result<
        Image,
        Error,
    >)
        requires
            img.wf(),
        ensures
            match r {
                Ok(out) => {
                    &&& WHOLE <= alpha
                    &&& box_canvas_fits(img.spec_width(), img.spec_height(), alpha)
                    &&& placement.valid(img.spec_width(), img.spec_height(), alpha)
                    &&& out.wf()
                    &&& out.same_shape(img)
                    &&& out@ == resized(
                        placement.canvas(*img, alpha),
                        padded_side(img.spec_width(), alpha) as u32,
                        padded_side(img.spec_height(), alpha) as u32,
                        img.spec_width(),
                        img.spec_height(),
                        Filter::Triangle,
                    )
                },
                Err(e) => if alpha < WHOLE {
                    e == Error::InvalidConfiguration
                } else if !box_canvas_fits(img.spec_width(), img.spec_height(), alpha) {
                    e == Error::DimensionMismatch
                } else {
                    e == Error::InvalidConfiguration && !placement.valid(
                        img.spec_width(),
                        img.spec_height(),
                        alpha,
                    )
                },
            },
    {
        let width = img.width();
        let height = img.height();
        let size = match box_canvas(width, height, alpha) {
            Ok(size) => size,
            Err(e) => {
                return Err(e);
            },
        };
        if !placement_valid(&placement, width, height, alpha, size) {
            return Err(Error::InvalidConfiguration);
        }
        let mut canvas = Image::from_pixel(size.0, size.1, 0);
        let ghost blank = canvas;
        match canvas.copy_from(img, placement.left, placement.top) {
            Ok(()) => {},
            Err(e) => {
                return Err(e);
            },
        }
        let rect = Rect {
            left: placement.box_left as i32,
            top: placement.box_top as i32,
            width: placement.box_width,
            height: placement.box_height,
        };
        rectangle(&mut canvas, rect, placement.color, placement.thickness);
        proof {
            assert(0 <= size.0 * size.1) by (nonlinear_arith);
            assert forall|i: int| 0 <= i < canvas@.len() implies canvas@[i] == placement.canvas(
                *img,
                alpha,
            )[i] by {
                canvas.lemma_at_index(i);
                blank.lemma_at_index(i);
            }
            assert(canvas@ =~= placement.canvas(*img, alpha));
        }
        Ok(canvas.resize(width, height, Filter::Triangle))
    }

    /// Draws a box over an image: one of the boxes that `draw_box_with`
    /// draws, its place, colour and thickness drawn at random.
    pub fn draw_box(img: &Image, alpha: u32, rng: &mut rand::rngs::StdRng) -> (r: Result<
        Image,
        Error,
    >)
        requires
            img.wf(),
        ensures
            match r {
                Ok(out) => {
                    &&& WHOLE <= alpha
                    &&& box_canvas_fits(img.spec_width(), img.spec_height(), alpha)
                    &&& out.wf()
                    &&& out.same_shape(img)
                    &&& exists|placement: BoxPlacement|
                        #[trigger] placement.valid(img.spec_width(), img.spec_height(), alpha)
                            && out@ == resized(
                            placement.canvas(*img, alpha),
                            padded_side(img.spec_width(), alpha) as u32,
                            padded_side(img.spec_height(), alpha) as u32,
                            img.spec_width(),
                            img.spec_height(),
                            Filter::Triangle,
                        )
                },
                Err(e) => if alpha < WHOLE {
                    e == Error::InvalidConfiguration
                } else {
                    e == Error::DimensionMismatch && !box_canvas_fits(
                        img.spec_width(),
                        img.spec_height(),
                        alpha,
                    )
                },
            },
    {
        let width = img.width();
        let height = img.height();
        let size = match box_canvas(width, height, alpha) {
            Ok(size) => size,
            Err(e) => {
                return Err(e);
            },
        };
        let top = uniform_between(rng, 1, (size.1 - height) as u64) as u32;
        let left = uniform_between(rng, 1, (size.0 - width) as u64) as u32;
        let box_left = uniform_between(rng, 1, left as u64) as u32;
        let box_top = uniform_between(rng, 1, top as u64) as u32;
        let box_width = uniform_between(
            rng,
            (width + left - box_left) as u64,
            (size.0 - box_left) as u64,
        ) as u32;
        let box_height = uniform_between(
            rng,
            (height + top - box_top) as u64,
            (size.1 - box_top) as u64,
        ) as u32;
        let color = uniform_between(rng, 50, 255) as u8;
        let thickness = uniform_between(rng, 1, 2) as u32;
        let placement = BoxPlacement {
            top,
            left,
            box_left,
            box_top,
            box_width,
            box_height,
            color,
            thickness,
        };
        Self::draw_box_with(img, alpha, placement)
    }

    /// Embosses an image.
    pub fn apply_emboss(img: &Image) -> (r: Image)
        requires
            img.wf(),
        ensures
            r.wf(),
            r.same_shape(img),
            forall|x: int, y: int|
                img.contains(x, y) ==> #[trigger] r.at(x, y) == saturate(
                    correlation(
                        img@,
                        img.spec_width() as int,
                        img.spec_height() as int,
                        EMBOSS_KERNEL@,
                        x,
                        y,
                    ),
                ),
    {
        img.filter3x3(&EMBOSS_KERNEL)
    }

    /// Sharpens an image.
    pub fn apply_sharp(img: &Image) -> (r: Image)
        requires
            img.wf(),
        ensures
            r.wf(),
            r.same_shape(img),
            forall|x: int, y: int|
                img.contains(x, y) ==> #[trigger] r.at(x, y) == saturate(
                    correlation(
                        img@,
                        img.spec_width() as int,
                        img.spec_height() as int,
                        SHARP_KERNEL@,
                        x,
                        y,
                    ),
                ),
    {
        img.filter3x3(&SHARP_KERNEL)
    }
}

} // verus!
