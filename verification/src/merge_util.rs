//! Merging a foreground into a background, and the pool of backgrounds.

use vstd::prelude::*;
use vstd::string::StringExecFns;
use crate::cv_util::WHOLE;
use crate::effect_helper::math::{Random, MILLION};
use crate::effect_helper::poisson_editing::{
    blend, is_region, lemma_region_inside, Blend, Gradient, Region,
};
use crate::error::Error;
use crate::bindings::{resize_fits, resized, uniform_between, Filter};
use crate::raster::{lemma_product_fits, offset, Image};

verus! {

/// How many sweeps a blend runs after the one that its preparation runs.
pub const BLEND_SWEEPS: usize = 500;

/// How a foreground is merged into a background: the distributions of the
/// random choices, and the probability, in millionths, that the result is
/// inverted.
#[derive(Clone, Copy, Debug)]
pub struct MergeUtil {
    pub height_diff: Random,
    pub bg_alpha: Random,
    pub bg_beta: Random,
    pub font_alpha: Random,
    pub reverse_prob: u32,
}

/// One draw from each distribution of a `MergeUtil`, in millionths.
#[derive(Clone, Copy, Debug, PartialEq, Eq, Structural)]
pub struct MergeDraws {
    pub height_diff: i64,
    pub bg_alpha: i64,
    pub bg_beta: i64,
    pub font_alpha: i64,
}

/// A background sample under changed light: `pixel` times `alpha` plus
/// `beta`, both in millionths, rounded down and kept between 50 and 255.
pub open spec fn jitter(pixel: u8, alpha: i64, beta: i64) -> u8 {
    let v = pixel * alpha + beta;
    if v < 50 * MILLION {
        50
    } else if v >= 255 * MILLION {
        255
    } else {
        (v / (MILLION as int)) as u8
    }
}

/// A foreground sample as ink: its distance from white times `alpha`
/// millionths, rounded down and kept between 0 and 255.
pub open spec fn ink(pixel: u8, alpha: i64) -> u8 {
    let v = (255 - pixel) * alpha;
    if v <= 0 {
        0
    } else if v >= 255 * MILLION {
        255
    } else {
        (v / (MILLION as int)) as u8
    }
}

/// The height that a foreground gets on a background: the background's
/// height less `diff` millionths, rounded down, and no less than zero.
pub open spec fn target_height(bg_height: u32, diff: i64) -> int {
    let v = bg_height * MILLION - diff;
    if v <= 0 {
        0
    } else if v / (MILLION as int) >= u32::MAX {
        u32::MAX as int
    } else {
        v / (MILLION as int)
    }
}

/// The width that a foreground gets with its height: the one that keeps
/// its proportions, rounded down, but at least one and at most the
/// background's width. A foreground without height counts as endlessly
/// wide where it has a width and is to get a height.
pub open spec fn target_width(font_width: u32, font_height: u32, height: int, bg_width: u32) -> int {
    let wide = if font_height == 0 {
        if font_width * height > 0 {
            bg_width as int
        } else {
            0
        }
    } else {
        font_width * height / (font_height as int)
    };
    if wide < 1 {
        1
    } else if wide > bg_width {
        bg_width as int
    } else {
        wide
    }
}

/// Whether a foreground of `font_width` by `font_height` samples can be
/// put on a background: the background has a width, the foreground's new
/// height leaves a row free above it, the foreground can be resized, and
/// the canvas can be allocated.
pub open spec fn pad_fits(
    font_width: u32,
    font_height: u32,
    bg_height: u32,
    bg_width: u32,
    diff: i64,
) -> bool {
    let height = target_height(bg_height, diff);
    let width = target_width(font_width, font_height, height, bg_width);
    &&& bg_width >= 1
    &&& height < bg_height
    &&& resize_fits(font_width, font_height, width as u32, height as u32)
    &&& bg_width * bg_height <= isize::MAX
}

/// Whether `out` is the foreground `font`, resized and put on a black
/// canvas of the background's size with its top left corner at
/// `(left, top)`.
pub open spec fn is_padding(
    font: Image,
    bg_height: u32,
    bg_width: u32,
    diff: i64,
    top: u32,
    left: u32,
    out: Image,
) -> bool {
    let height = target_height(bg_height, diff);
    let width = target_width(font.spec_width(), font.spec_height(), height, bg_width);
    let scaled = resized(
        font@,
        font.spec_width(),
        font.spec_height(),
        width as u32,
        height as u32,
        Filter::CatmullRom,
    );
    &&& out.wf()
    &&& out.spec_width() == bg_width
    &&& out.spec_height() == bg_height
    &&& 1 <= top <= bg_height - height
    &&& left <= bg_width - width
    &&& forall|x: int, y: int|
        out.contains(x, y) ==> #[trigger] out.at(x, y) == (if left <= x < left + width && top <= y
            < top + height {
            scaled[offset(width, x - left, y - top)]
        } else {
            0
        })
}

fn resize_height(bg_height: u32, diff: i64) -> (h: u32)
    ensures
        h == target_height(bg_height, diff),
{
    assert(0 <= bg_height * MILLION <= 0xffff_ffff * 1_000_000) by (nonlinear_arith)
        requires
            0 <= bg_height <= 0xffff_ffff,
            MILLION == 1_000_000,
    ;
    let v: i128 = (bg_height as i128) * (MILLION as i128) - (diff as i128);
    if v <= 0 {
        0
    } else {
        let q: i128 = v / (MILLION as i128);
        if q >= u32::MAX as i128 {
            u32::MAX
        } else {
            q as u32
        }
    }
}

fn resize_width(font_width: u32, font_height: u32, height: u32, bg_width: u32) -> (w: u32)
    requires
        bg_width >= 1,
    ensures
        w == target_width(font_width, font_height, height as int, bg_width),
        1 <= w <= bg_width,
{
    proof {
        lemma_product_fits(font_width, height);
    }
    let product: u64 = (font_width as u64) * (height as u64);
    let wide: u64 = if font_height == 0 {
        if product > 0 {
            bg_width as u64
        } else {
            0
        }
    } else {
        product / (font_height as u64)
    };
    if wide < 1 {
        1
    } else if wide > bg_width as u64 {
        bg_width
    } else {
        wide as u32
    }
}

impl MergeUtil {
    /// Every interval of the configuration has its ends in order.
    pub open spec fn wf(&self) -> bool {
        &&& self.height_diff.wf()
        &&& self.bg_alpha.wf()
        &&& self.bg_beta.wf()
        &&& self.font_alpha.wf()
    }

    /// Puts a foreground on a black canvas of the background's size, with
    /// its top left corner at `(left, top)`: resizes it to the background's
    /// height less the cut-off draw `height_draw`, its proportions kept as
    /// far as the background's width allows.
    pub fn random_pad_with(
        &self,
        font_img: &Image,
        bg_height: u32,
        bg_width: u32,
        height_draw: i64,
        top: u32,
        left: u32,
    ) -> (r: Result<Image, Error>)
        requires
            font_img.wf(),
        ensures
            match r {
                Ok(out) => {
                    &&& pad_fits(
                        font_img.spec_width(),
                        font_img.spec_height(),
                        bg_height,
                        bg_width,
                        self.height_diff.cut(height_draw),
                    )
                    &&& is_padding(
                        *font_img,
                        bg_height,
                        bg_width,
                        self.height_diff.cut(height_draw),
                        top,
                        left,
                        out,
                    )
                },
                Err(e) => {
                    let diff = self.height_diff.cut(height_draw);
                    let height = target_height(bg_height, diff);
                    let width = target_width(
                        font_img.spec_width(),
                        font_img.spec_height(),
                        height,
                        bg_width,
                    );
                    &&& e == Error::DimensionMismatch
                    &&& !(pad_fits(
                        font_img.spec_width(),
                        font_img.spec_height(),
                        bg_height,
                        bg_width,
                        diff,
                    ) && 1 <= top <= bg_height - height && left <= bg_width - width)
                },
            },
    {
        let diff = self.height_diff.sample(height_draw);
        let height = resize_height(bg_height, diff);
        if bg_width < 1 || height >= bg_height {
            return Err(Error::DimensionMismatch);
        }
        let width = resize_width(font_img.width(), font_img.height(), height, bg_width);
        proof {
            lemma_product_fits(bg_width, bg_height);
        }
        if !font_img.can_resize(width, height) || (bg_width as u64) * (bg_height as u64)
            > isize::MAX as u64 {
            return Err(Error::DimensionMismatch);
        }
        if top < 1 || top > bg_height - height || left > bg_width - width {
            return Err(Error::DimensionMismatch);
        }
        let scaled = font_img.resize(width, height, Filter::CatmullRom);
        let mut padded = Image::from_pixel(bg_width, bg_height, 0);
        let ghost blank = padded;
        match padded.copy_from(&scaled, left, top) {
            Ok(()) => {},
            Err(e) => {
                return Err(e);
            },
        }
        proof {
            assert forall|x: int, y: int| padded.contains(x, y) implies #[trigger] padded.at(x, y)
                == (if left <= x < left + width && top <= y < top + height {
                scaled@[offset(width as int, x - left, y - top)]
            } else {
                0
            }) by {
                assert(blank.contains(x, y));
                crate::raster::lemma_offset_in_range(
                    bg_width as int,
                    bg_height as int,
                    x,
                    y,
                );
            }
        }
        Ok(padded)
    }

    /// Puts a foreground at a random place on a black canvas of the
    /// background's size, a row or more below its upper edge.
    pub fn random_pad(
        &self,
        font_img: &Image,
        bg_height: u32,
        bg_width: u32,
        height_draw: i64,
        rng: &mut rand::rngs::StdRng,
    ) -> (r: Result<Image, Error>)
        requires
            font_img.wf(),
        ensures
            r is Ok <==> pad_fits(
                font_img.spec_width(),
                font_img.spec_height(),
                bg_height,
                bg_width,
                self.height_diff.cut(height_draw),
            ),
            r matches Err(e) ==> e == Error::DimensionMismatch,
            r matches Ok(out) ==> out.spec_width() == bg_width && out.spec_height() == bg_height
                && exists|top: u32, left: u32| #[trigger]
                is_padding(
                    *font_img,
                    bg_height,
                    bg_width,
                    self.height_diff.cut(height_draw),
                    top,
                    left,
                    out,
                ),
    {
        let diff = self.height_diff.sample(height_draw);
        let height = resize_height(bg_height, diff);
        if bg_width < 1 || height >= bg_height {
            return Err(Error::DimensionMismatch);
        }
        let width = resize_width(font_img.width(), font_img.height(), height, bg_width);
        let top = uniform_between(rng, 1, (bg_height - height) as u64) as u32;
        let left = uniform_between(rng, 0, (bg_width - width) as u64) as u32;
        self.random_pad_with(font_img, bg_height, bg_width, height_draw, top, left)
    }

    /// Changes the light of a background: each sample times the cut-off
    /// draw `alpha_draw` plus the cut-off draw `beta_draw`, kept between 50
    /// and 255.
    pub fn random_change_bgcolor(&self, bg_img: &Image, alpha_draw: i64, beta_draw: i64) -> (r:
        Image)
        requires
            bg_img.wf(),
        ensures
            r.wf(),
            r.same_shape(bg_img),
            forall|i: int|
                0 <= i < bg_img@.len() ==> #[trigger] r@[i] == jitter(
                    bg_img@[i],
                    self.bg_alpha.cut(alpha_draw),
                    self.bg_beta.cut(beta_draw),
                ),
    {
        let alpha = self.bg_alpha.sample(alpha_draw);
        let beta = self.bg_beta.sample(beta_draw);
        let pixels = bg_img.as_vec();
        let n = pixels.len();
        let mut out: Vec<u8> = Vec::new();
        let mut i: usize = 0;
        while i < n
            invariant
                i <= n,
                n == pixels@.len(),
                out@.len() == i,
                forall|j: int| 0 <= j < i ==> #[trigger] out@[j] == jitter(pixels@[j], alpha, beta),
            decreases n - i,
        {
            assert(-0x8000_0000_0000_0000 * 255 <= pixels@[i as int] * alpha
                <= 0x8000_0000_0000_0000 * 255) by (nonlinear_arith)
                requires
                    0 <= pixels@[i as int] <= 255,
                    -0x8000_0000_0000_0000 <= alpha <= 0x8000_0000_0000_0000,
            ;
            let v: i128 = (pixels[i] as i128) * (alpha as i128) + (beta as i128);
            let sample: u8 = if v < 50 * (MILLION as i128) {
                50
            } else if v >= 255 * (MILLION as i128) {
                255
            } else {
                (v / (MILLION as i128)) as u8
            };
            out.push(sample);
            i = i + 1;
        }
        bg_img.with_samples(out)
    }

    /// Whether `out` is what the steps of a merge make of a foreground and
    /// a background: `lit` is the background under changed light, `padded`
    /// the foreground on its canvas, `source` the canvas as ink, `blended`
    /// the ink blended into the lit background where the canvas is light,
    /// and `out` is `blended`, inverted where `reverse` says so.
    pub open spec fn steps(
        &self,
        font: Image,
        bg: Image,
        draws: MergeDraws,
        place: (u32, u32),
        reverse: bool,
        lit: Image,
        padded: Image,
        source: Image,
        blended: Image,
        out: Image,
    ) -> bool {
        &&& lit.wf()
        &&& lit.same_shape(&bg)
        &&& forall|i: int|
            0 <= i < bg@.len() ==> #[trigger] lit@[i] == jitter(
                bg@[i],
                self.bg_alpha.cut(draws.bg_alpha),
                self.bg_beta.cut(draws.bg_beta),
            )
        &&& is_padding(
            font,
            bg.spec_height(),
            bg.spec_width(),
            self.height_diff.cut(draws.height_diff),
            place.0,
            place.1,
            padded,
        )
        &&& source.wf()
        &&& source.same_shape(&padded)
        &&& forall|i: int|
            0 <= i < padded@.len() ==> #[trigger] source@[i] == ink(
                padded@[i],
                self.font_alpha.cut(draws.font_alpha),
            )
        &&& (Blend {
            source,
            mask: padded,
            target: lit,
            on_source: (0, 0),
            on_target: (0, 0),
            gradient: Gradient::Maximum,
        }).gives((BLEND_SWEEPS + 1) as nat, blended)
        &&& out.wf()
        &&& out.same_shape(&bg)
        &&& forall|i: int|
            0 <= i < blended@.len() ==> #[trigger] out@[i] == (if reverse {
                (255 - blended@[i]) as u8
            } else {
                blended@[i]
            })
    }

    /// Whether `out` is the merge of a foreground into a background for
    /// given draws, with the foreground's top left corner at row `place.0`
    /// and column `place.1`.
    pub open spec fn gives(
        &self,
        font: Image,
        bg: Image,
        draws: MergeDraws,
        place: (u32, u32),
        reverse: bool,
        out: Image,
    ) -> bool {
        exists|lit: Image, padded: Image, source: Image, blended: Image| #[trigger]
            self.steps(font, bg, draws, place, reverse, lit, padded, source, blended, out)
    }

    /// Merges a foreground into a background: changes the light of the
    /// background, puts the foreground on a canvas of the background's size
    /// with its top left corner at row `place.0` and column `place.1`,
    /// takes the canvas as ink, blends the ink into the background where
    /// the canvas is light, and inverts the result where `reverse` says so.
    pub fn poisson_edit_with(
        &self,
        font_img: &Image,
        bg_img: &Image,
        draws: MergeDraws,
        place: (u32, u32),
        reverse: bool,
    ) -> (r: Result<Image, Error>)
        requires
            font_img.wf(),
            bg_img.wf(),
        ensures
            match r {
                Ok(out) => {
                    &&& pad_fits(
                        font_img.spec_width(),
                        font_img.spec_height(),
                        bg_img.spec_height(),
                        bg_img.spec_width(),
                        self.height_diff.cut(draws.height_diff),
                    )
                    &&& self.gives(*font_img, *bg_img, draws, place, reverse, out)
                },
                Err(e) => {
                    let diff = self.height_diff.cut(draws.height_diff);
                    let height = target_height(bg_img.spec_height(), diff);
                    let width = target_width(
                        font_img.spec_width(),
                        font_img.spec_height(),
                        height,
                        bg_img.spec_width(),
                    );
                    &&& e == Error::DimensionMismatch
                    &&& !(pad_fits(
                        font_img.spec_width(),
                        font_img.spec_height(),
                        bg_img.spec_height(),
                        bg_img.spec_width(),
                        diff,
                    ) && 1 <= place.0 <= bg_img.spec_height() - height && place.1
                        <= bg_img.spec_width() - width)
                },
            },
    {
        let lit = self.random_change_bgcolor(bg_img, draws.bg_alpha, draws.bg_beta);
        let padded = match self.random_pad_with(
            font_img,
            lit.height(),
            lit.width(),
            draws.height_diff,
            place.0,
            place.1,
        ) {
            Ok(padded) => padded,
            Err(e) => {
                return Err(e);
            },
        };
        let alpha = self.font_alpha.sample(draws.font_alpha);
        let source = inked(&padded, alpha);
        let ghost lit0 = lit;
        let ghost padded0 = padded;
        let ghost source0 = source;
        let blended = match blend(source, padded, lit, (0, 0), (0, 0), Gradient::Maximum, BLEND_SWEEPS) {
            Ok(blended) => blended,
            Err(e) => {
                proof {
                    let region = choose|region: Region| #[trigger]
                        is_region(padded0, region) && !(region.fits((0, 0), source0)
                            && region.fits((0, 0), lit0));
                    lemma_region_inside(padded0, region);
                    assert(false);
                }
                return Err(e);
            },
        };
        let out = if reverse {
            inverted(&blended)
        } else {
            blended
        };
        proof {
            assert(self.steps(
                *font_img,
                *bg_img,
                draws,
                place,
                reverse,
                lit0,
                padded0,
                source0,
                blended,
                out,
            ));
        }
        Ok(out)
    }

    /// Merges a foreground into a background, the place of the foreground
    /// and the reversal drawn at random: one of the merges that
    /// `poisson_edit_with` makes for the same draws. The result is reversed
    /// where a draw below one is less than `reverse_prob`: never where that
    /// is zero, always where it is one or more.
    pub fn poisson_edit(
        &self,
        font_img: &Image,
        bg_img: &Image,
        draws: MergeDraws,
        rng: &mut rand::rngs::StdRng,
    ) -> (r: Result<Image, Error>)
        requires
            font_img.wf(),
            bg_img.wf(),
        ensures
            r is Ok <==> pad_fits(
                font_img.spec_width(),
                font_img.spec_height(),
                bg_img.spec_height(),
                bg_img.spec_width(),
                self.height_diff.cut(draws.height_diff),
            ),
            r matches Err(e) ==> e == Error::DimensionMismatch,
            r matches Ok(out) ==> out.wf() && out.same_shape(bg_img) && exists|
                place: (u32, u32),
                reverse: bool,
            |
                {
                    &&& #[trigger] self.gives(*font_img, *bg_img, draws, place, reverse, out)
                    &&& reverse ==> self.reverse_prob > 0
                    &&& !reverse ==> self.reverse_prob < WHOLE
                },
    {
        let bg_height = bg_img.height();
        let bg_width = bg_img.width();
        let diff = self.height_diff.sample(draws.height_diff);
        let height = resize_height(bg_height, diff);
        if bg_width < 1 || height >= bg_height {
            return Err(Error::DimensionMismatch);
        }
        let width = resize_width(font_img.width(), font_img.height(), height, bg_width);
        let top = uniform_between(rng, 1, (bg_height - height) as u64) as u32;
        let left = uniform_between(rng, 0, (bg_width - width) as u64) as u32;
        let reverse = uniform_between(rng, 0, WHOLE as u64 - 1) < self.reverse_prob as u64;
        let r = self.poisson_edit_with(font_img, bg_img, draws, (top, left), reverse);
        proof {
            if r is Ok {
                assert(self.gives(*font_img, *bg_img, draws, (top, left), reverse, r->Ok_0));
            }
        }
        r
    }

    /// A merge that is not reversed leaves the lit background as it is
    /// wherever the foreground does not lie.
    pub proof fn lemma_merge_keeps_the_background(
        &self,
        font: Image,
        bg: Image,
        draws: MergeDraws,
        place: (u32, u32),
        out: Image,
        x: int,
        y: int,
    )
        requires
            bg.wf(),
            self.gives(font, bg, draws, place, false, out),
            out.contains(x, y),
            ({
                let height = target_height(bg.spec_height(), self.height_diff.cut(draws.height_diff));
                let width = target_width(
                    font.spec_width(),
                    font.spec_height(),
                    height,
                    bg.spec_width(),
                );
                !(place.1 <= x < place.1 + width && place.0 <= y < place.0 + height)
            }),
        ensures
            out.at(x, y) == jitter(
                bg.at(x, y),
                self.bg_alpha.cut(draws.bg_alpha),
                self.bg_beta.cut(draws.bg_beta),
            ),
    {
        let (lit, padded, source, blended) = choose|
            lit: Image,
            padded: Image,
            source: Image,
            blended: Image,
        | #[trigger]
            self.steps(font, bg, draws, place, false, lit, padded, source, blended, out);
        let setup = Blend {
            source,
            mask: padded,
            target: lit,
            on_source: (0, 0),
            on_target: (0, 0),
            gradient: Gradient::Maximum,
        };
        let i = offset(bg.spec_width() as int, x, y);
        crate::raster::lemma_offset_in_range(
            bg.spec_width() as int,
            bg.spec_height() as int,
            x,
            y,
        );
        assert(padded.at(x, y) == 0);
        crate::effect_helper::poisson_editing::lemma_blend_keeps_the_rest(
            setup,
            (BLEND_SWEEPS + 1) as nat,
            blended,
            x,
            y,
        );
        assert(out@[i] == blended@[i]);
        assert(lit@[i] == jitter(
            bg@[i],
            self.bg_alpha.cut(draws.bg_alpha),
            self.bg_beta.cut(draws.bg_beta),
        ));
    }
}

/// The samples of a canvas as ink.
fn inked(padded: &Image, alpha: i64) -> (r: Image)
    requires
        padded.wf(),
    ensures
        r.wf(),
        r.same_shape(padded),
        forall|i: int| 0 <= i < padded@.len() ==> #[trigger] r@[i] == ink(padded@[i], alpha),
{
    let pixels = padded.as_vec();
    let n = pixels.len();
    let mut out: Vec<u8> = Vec::new();
    let mut i: usize = 0;
    while i < n
        invariant
            i <= n,
            n == pixels@.len(),
            out@.len() == i,
            forall|j: int| 0 <= j < i ==> #[trigger] out@[j] == ink(pixels@[j], alpha),
        decreases n - i,
    {
        let distance: i128 = 255 - (pixels[i] as i128);
        assert(-0x8000_0000_0000_0000 * 255 <= distance * alpha <= 0x8000_0000_0000_0000 * 255)
            by (nonlinear_arith)
            requires
                0 <= distance <= 255,
                -0x8000_0000_0000_0000 <= alpha <= 0x8000_0000_0000_0000,
        ;
        let v: i128 = distance * (alpha as i128);
        let sample: u8 = if v <= 0 {
            0
        } else if v >= 255 * (MILLION as i128) {
            255
        } else {
            (v / (MILLION as i128)) as u8
        };
        out.push(sample);
        i = i + 1;
    }
    padded.with_samples(out)
}

/// An image with every sample replaced by its distance from white.
fn inverted(img: &Image) -> (r: Image)
    requires
        img.wf(),
    ensures
        r.wf(),
        r.same_shape(img),
        forall|i: int| 0 <= i < img@.len() ==> #[trigger] r@[i] == 255 - img@[i],
{
    let pixels = img.as_vec();
    let n = pixels.len();
    let mut out: Vec<u8> = Vec::new();
    let mut i: usize = 0;
    while i < n
        invariant
            i <= n,
            n == pixels@.len(),
            out@.len() == i,
            forall|j: int| 0 <= j < i ==> #[trigger] out@[j] == 255 - pixels@[j],
        decreases n - i,
    {
        out.push(255 - pixels[i]);
        i = i + 1;
    }
    img.with_samples(out)
}


/// The size to which a picture of `own_width` by `own_height` samples is
/// brought so that it covers `width` by `height`: its own where it covers
/// them; else, with its proportions kept and a side that is no whole number
/// rounded up, the wanted height where the width is then enough, and the
/// wanted width where it is not.
pub open spec fn cover_size(own_width: u32, own_height: u32, width: usize, height: usize) -> (
    int,
    int,
) {
    if own_width >= width && own_height >= height {
        (own_width as int, own_height as int)
    } else {
        let by_height = (own_width * height + own_height - 1) / (own_height as int);
        if by_height >= width {
            (by_height, height as int)
        } else {
            (width as int, (own_height * width + own_width - 1) / (own_width as int))
        }
    }
}

/// The size to which a picture with samples is brought covers the wanted
/// width and height.
pub proof fn lemma_cover_size_covers(own_width: u32, own_height: u32, width: usize, height: usize)
    requires
        own_width >= 1,
        own_height >= 1,
    ensures
        cover_size(own_width, own_height, width, height).0 >= width,
        cover_size(own_width, own_height, width, height).1 >= height,
{
    let ow = own_width as int;
    let oh = own_height as int;
    let w = width as int;
    let h = height as int;
    if !(ow >= w && oh >= h) {
        let by_height = (ow * h + oh - 1) / oh;
        if by_height < w {
            let by_width = (oh * w + ow - 1) / ow;
            assert(ow * h >= 0 && oh * w >= 0) by (nonlinear_arith)
                requires
                    ow >= 0,
                    oh >= 0,
                    w >= 0,
                    h >= 0,
            ;
            vstd::arithmetic::div_mod::lemma_fundamental_div_mod(ow * h + oh - 1, oh);
            vstd::arithmetic::div_mod::lemma_mod_bound(ow * h + oh - 1, oh);
            vstd::arithmetic::div_mod::lemma_fundamental_div_mod(oh * w + ow - 1, ow);
            vstd::arithmetic::div_mod::lemma_mod_bound(oh * w + ow - 1, ow);
            // The height-led width falls short, so the picture is narrow for
            // its height: ow * h <= oh * (w - 1).
            assert(oh * by_height <= oh * (w - 1)) by (nonlinear_arith)
                requires
                    by_height <= w - 1,
                    oh >= 1,
            ;
            assert(oh * (w - 1) == oh * w - oh) by (nonlinear_arith);
            if by_width < h {
                assert(ow * by_width <= ow * (h - 1)) by (nonlinear_arith)
                    requires
                        by_width <= h - 1,
                        ow >= 1,
                ;
                assert(ow * (h - 1) == ow * h - ow) by (nonlinear_arith);
            }
        }
    }
}

/// Whether a picture can serve as a background of `width` by `height`
/// samples: it covers that size, or it has samples and can be resized to
/// the size at which it does.
pub open spec fn usable(img: Image, width: usize, height: usize) -> bool {
    let size = cover_size(img.spec_width(), img.spec_height(), width, height);
    if img.spec_width() >= width && img.spec_height() >= height {
        true
    } else {
        &&& img.spec_width() >= 1
        &&& img.spec_height() >= 1
        &&& size.0 <= u32::MAX
        &&& size.1 <= u32::MAX
        &&& resize_fits(img.spec_width(), img.spec_height(), size.0 as u32, size.1 as u32)
    }
}

/// The samples of a picture brought to its covering size.
pub open spec fn covering(img: Image, width: usize, height: usize) -> Seq<u8> {
    let size = cover_size(img.spec_width(), img.spec_height(), width, height);
    if img.spec_width() >= width && img.spec_height() >= height {
        img@
    } else {
        resized(
            img@,
            img.spec_width(),
            img.spec_height(),
            size.0 as u32,
            size.1 as u32,
            Filter::CatmullRom,
        )
    }
}

/// Whether `out` is a part of `width` by `height` samples of a picture
/// brought to its covering size.
pub open spec fn is_cut(img: Image, width: usize, height: usize, out: Image) -> bool {
    let size = cover_size(img.spec_width(), img.spec_height(), width, height);
    exists|scaled: Image, x: int, y: int|
        {
            &&& scaled.wf()
            &&& scaled.spec_width() == size.0
            &&& scaled.spec_height() == size.1
            &&& scaled@ == covering(img, width, height)
            &&& 0 <= x <= size.0 - width
            &&& 0 <= y <= size.1 - height
            &&& out.wf()
            &&& out.spec_width() == width
            &&& out.spec_height() == height
            &&& out@ == #[trigger] scaled.cropped(x, y, width as int, height as int)
        }
}

/// The usable pictures among `images`, in their order.
pub open spec fn kept(images: Seq<Image>, width: usize, height: usize) -> Seq<Image>
    decreases images.len(),
{
    if images.len() == 0 {
        Seq::empty()
    } else {
        let rest = kept(images.drop_last(), width, height);
        if usable(images.last(), width, height) {
            rest.push(images.last())
        } else {
            rest
        }
    }
}

/// Whether a file with this extension is taken for a picture.
pub fn is_picture(extension: &str) -> (yes: bool)
    ensures
        yes == (extension@ == "png"@ || extension@ == "jpg"@ || extension@ == "jpeg"@),
{
    let extension = extension.to_owned();
    extension == String::from_str("png") || extension == String::from_str("jpg") || extension
        == String::from_str("jpeg")
}

/// The size to which a picture is brought, where it can serve.
fn cover(img: &Image, width: usize, height: usize) -> (r: Option<(u32, u32)>)
    ensures
        r is Some <==> usable(*img, width, height),
        r matches Some(size) ==> size.0 == cover_size(
            img.spec_width(),
            img.spec_height(),
            width,
            height,
        ).0 && size.1 == cover_size(img.spec_width(), img.spec_height(), width, height).1
            && width <= size.0 && height <= size.1,
{
    let own_width = img.width();
    let own_height = img.height();
    if own_width as usize >= width && own_height as usize >= height {
        return Some((own_width, own_height));
    }
    if own_width < 1 || own_height < 1 {
        return None;
    }
    assert(0 <= own_width * height <= 0xffff_ffff * 0xffff_ffff_ffff_ffff && 0 <= own_height
        * width <= 0xffff_ffff * 0xffff_ffff_ffff_ffff) by (nonlinear_arith)
        requires
            0 <= own_width <= 0xffff_ffff,
            0 <= own_height <= 0xffff_ffff,
            0 <= width <= 0xffff_ffff_ffff_ffff,
            0 <= height <= 0xffff_ffff_ffff_ffff,
    ;
    let by_height: u128 = ((own_width as u128) * (height as u128) + (own_height as u128) - 1) / (
    own_height as u128);
    proof {
        lemma_cover_size_covers(own_width, own_height, width, height);
    }
    let size: (u128, u128) = if by_height >= width as u128 {
        (by_height, height as u128)
    } else {
        let by_width: u128 = ((own_height as u128) * (width as u128) + (own_width as u128) - 1) / (
        own_width as u128);
        (width as u128, by_width)
    };
    if size.0 > u32::MAX as u128 || size.1 > u32::MAX as u128 {
        return None;
    }
    if !img.can_resize(size.0 as u32, size.1 as u32) {
        return None;
    }
    Some((size.0 as u32, size.1 as u32))
}

/// A pool of backgrounds, each of the same width and height.
#[derive(Clone, Debug)]
pub struct BgFactory {
    images: Vec<Image>,
    height: usize,
    width: usize,
    bg_dir: String,
}

impl BgFactory {
    /// The backgrounds of the pool, in their order.
    pub closed spec fn pool(&self) -> Seq<Image> {
        self.images@
    }

    /// The height of each background.
    pub closed spec fn spec_height(&self) -> usize {
        self.height
    }

    /// The width of each background.
    pub closed spec fn spec_width(&self) -> usize {
        self.width
    }

    /// The name of the place that the pictures came from.
    pub closed spec fn spec_bg_dir(&self) -> Seq<char> {
        self.bg_dir@
    }

    /// The number of backgrounds.
    pub open spec fn spec_len(&self) -> usize {
        self.pool().len() as usize
    }

    /// The pool is not empty, and each background has the pool's width and
    /// height.
    pub open spec fn wf(&self) -> bool {
        &&& 0 < self.pool().len() <= usize::MAX
        &&& forall|i: int|
            0 <= i < self.pool().len() ==> {
                &&& (#[trigger] self.pool()[i]).wf()
                &&& self.pool()[i].spec_width() == self.spec_width()
                &&& self.pool()[i].spec_height() == self.spec_height()
            }
    }

    /// Makes a pool of the usable pictures among `images`: each is brought
    /// to a size that covers `width` by `height`, and a part of that size is
    /// cut from it at a random place. `dir` names the place that the
    /// pictures came from. Refuses to make a pool without a background.
    pub fn new(
        dir: String,
        images: Vec<Image>,
        height: usize,
        width: usize,
        rng: &mut rand::rngs::StdRng,
    ) -> (r: Result<BgFactory, Error>)
        requires
            forall|i: int| 0 <= i < images@.len() ==> (#[trigger] images@[i]).wf(),
        ensures
            r is Ok <==> kept(images@, width, height).len() > 0,
            r matches Err(e) ==> e == Error::EmptyResourcePool,
            r matches Ok(pool) ==> {
                &&& pool.wf()
                &&& pool.spec_height() == height
                &&& pool.spec_width() == width
                &&& pool.spec_bg_dir() == dir@
                &&& pool.pool().len() == kept(images@, width, height).len()
                &&& forall|k: int|
                    0 <= k < pool.pool().len() ==> is_cut(
                        kept(images@, width, height)[k],
                        width,
                        height,
                        #[trigger] pool.pool()[k],
                    )
            },
    {
        let n = images.len();
        let mut cuts: Vec<Image> = Vec::new();
        let mut i: usize = 0;
        while i < n
            invariant
                i <= n,
                n == images@.len(),
                forall|j: int| 0 <= j < images@.len() ==> (#[trigger] images@[j]).wf(),
                cuts@.len() == kept(images@.take(i as int), width, height).len(),
                cuts@.len() <= i,
                forall|k: int|
                    0 <= k < cuts@.len() ==> {
                        &&& (#[trigger] cuts@[k]).wf()
                        &&& cuts@[k].spec_width() == width
                        &&& cuts@[k].spec_height() == height
                        &&& is_cut(
                            kept(images@.take(i as int), width, height)[k],
                            width,
                            height,
                            cuts@[k],
                        )
                    },
            decreases n - i,
        {
            let img = &images[i];
            proof {
                assert(images@.take(i + 1).drop_last() =~= images@.take(i as int));
                assert(images@.take(i + 1).last() == images@[i as int]);
            }
            if let Some(size) = cover(img, width, height) {
                let cut = if size.0 == img.width() && size.1 == img.height() {
                    Self::cut(img, img, width as u32, height as u32, rng)
                } else {
                    let scaled = img.resize(size.0, size.1, Filter::CatmullRom);
                    Self::cut(img, &scaled, width as u32, height as u32, rng)
                };
                cuts.push(cut);
            }
            i = i + 1;
        }
        proof {
            assert(images@.take(n as int) =~= images@);
        }
        if cuts.len() == 0 {
            return Err(Error::EmptyResourcePool);
        }
        Ok(BgFactory { images: cuts, height, width, bg_dir: dir })
    }

    /// Cuts a part of `width` by `height` samples from `scaled`, the picture
    /// `img` at its covering size, at a random place.
    fn cut(img: &Image, scaled: &Image, width: u32, height: u32, rng: &mut rand::rngs::StdRng) -> (out:
        Image)
        requires
            scaled.wf(),
            scaled.spec_width() == cover_size(
                img.spec_width(),
                img.spec_height(),
                width as usize,
                height as usize,
            ).0,
            scaled.spec_height() == cover_size(
                img.spec_width(),
                img.spec_height(),
                width as usize,
                height as usize,
            ).1,
            scaled@ == covering(*img, width as usize, height as usize),
            width <= scaled.spec_width(),
            height <= scaled.spec_height(),
        ensures
            out.wf(),
            out.spec_width() == width,
            out.spec_height() == height,
            is_cut(*img, width as usize, height as usize, out),
    {
        let x = uniform_between(rng, 0, (scaled.width() - width) as u64) as u32;
        let y = uniform_between(rng, 0, (scaled.height() - height) as u64) as u32;
        let out = scaled.crop(x, y, width, height);
        proof {
            assert(out@ == scaled.cropped(x as int, y as int, width as int, height as int));
        }
        out
    }

    #[verifier::when_used_as_spec(spec_height)]
    pub fn height(&self) -> (h: usize)
        ensures
            h == self.spec_height(),
    {
        self.height
    }

    #[verifier::when_used_as_spec(spec_width)]
    pub fn width(&self) -> (w: usize)
        ensures
            w == self.spec_width(),
    {
        self.width
    }

    /// The name of the place that the pictures came from.
    pub fn bg_dir(&self) -> (dir: &String)
        ensures
            dir@ == self.spec_bg_dir(),
    {
        &self.bg_dir
    }

    #[verifier::when_used_as_spec(spec_len)]
    pub fn len(&self) -> (n: usize)
        requires
            self.wf(),
        ensures
            n == self.spec_len(),
            n == self.pool().len(),
    {
        self.images.len()
    }

    /// The place of one of the backgrounds, drawn at random.
    pub fn random_index(&self, rng: &mut rand::rngs::StdRng) -> (index: usize)
        requires
            self.wf(),
        ensures
            index < self.pool().len(),
    {
        uniform_between(rng, 0, (self.images.len() - 1) as u64) as usize
    }

    /// One of the backgrounds, drawn at random.
    pub fn random(&self, rng: &mut rand::rngs::StdRng) -> (img: &Image)
        requires
            self.wf(),
        ensures
            exists|i: int| 0 <= i < self.pool().len() && *img == #[trigger] self.pool()[i],
            img.wf(),
            img.spec_width() == self.spec_width(),
            img.spec_height() == self.spec_height(),
    {
        let index = self.random_index(rng);
        self.index(index)
    }

    /// The background at place `index`.
    pub fn index(&self, index: usize) -> (img: &Image)
        requires
            self.wf(),
            index < self.pool().len(),
        ensures
            *img == self.pool()[index as int],
            img.wf(),
            img.spec_width() == self.spec_width(),
            img.spec_height() == self.spec_height(),
    {
        &self.images[index]
    }

    /// The background at place `index`, if the pool has that many.
    pub fn get(&self, index: usize) -> (r: Option<&Image>)
        requires
            self.wf(),
        ensures
            r is Some <==> index < self.pool().len(),
            r matches Some(img) ==> *img == self.pool()[index as int] && img.wf(),
    {
        if index < self.images.len() {
            Some(&self.images[index])
        } else {
            None
        }
    }
}

} // verus!
