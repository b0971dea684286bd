//! Letterbox geometry: how a frame sits in the square model input.
//!
//! The frame is scaled by `canvas_size / width` and centred vertically, with
//! bars above and below. Only vertical padding exists, so the transform needs a
//! frame that is at least as wide as it is tall; a narrower frame is refused.
//! The horizontal axis maps to itself.

use vstd::prelude::*;
use vstd::arithmetic::div_mod::{lemma_fundamental_div_mod, lemma_mod_bound};
use crate::error::ConfigurationError;
use crate::fixed::{floor_div, lemma_div_bound, ratio_raw, saturate, saturate_to_i32, Fixed};

verus! {

/// Number of canvas rows that the content of a `width` by `height` frame
/// takes: `height * canvas_size / width`, rounded to the nearest whole number,
/// a half rounding up.
pub open spec fn content_rows(width: int, height: int, canvas_size: int) -> int {
    (2 * height * canvas_size + width) / (2 * width)
}

/// The frame has no width, or is no taller than wide and yet so flat that its
/// content comes to less than half a row of the canvas.
pub open spec fn is_degenerate(width: int, height: int, canvas_size: int) -> bool {
    width == 0 || (height <= width && 2 * height * canvas_size < width)
}

/// The frame has a width, is no taller than wide, and its content comes to at
/// least half a row of the canvas.
pub open spec fn accepts_frame(width: int, height: int, canvas_size: int) -> bool {
    0 < width && height <= width && width <= 2 * height * canvas_size
}

/// Raw source-frame coordinate of the raw canvas coordinate `y`:
/// `(y - pad_y / canvas_size) / (content_height / canvas_size)`, rounded down
/// and saturated.
pub open spec fn source_y_raw(canvas_size: int, pad_y: int, content_height: int, y: int) -> int {
    saturate((y * canvas_size - pad_y * 65536) / content_height)
}

/// Raw canvas coordinate of the raw source-frame coordinate `y`:
/// `y * (content_height / canvas_size) + pad_y / canvas_size`, rounded down and
/// saturated.
pub open spec fn canvas_y_raw(canvas_size: int, pad_y: int, content_height: int, y: int) -> int {
    saturate((y * content_height + pad_y * 65536) / canvas_size)
}

/// Placement of one frame's content on the canvas, in canvas pixels.
#[derive(Clone, Copy, Debug, PartialEq, Eq)]
pub struct LetterboxGeometry {
    /// Canvas pixels per frame pixel.
    pub content_scale: Fixed,
    /// Width of the bar left of the content; always zero.
    pub pad_x: u32,
    /// Height of the bar above the content.
    pub pad_y: u32,
    /// Width of the content; always the canvas size.
    pub content_width: u32,
    /// Height of the content.
    pub content_height: u32,
    /// Side of the square canvas.
    pub canvas_size: u32,
}

impl LetterboxGeometry {
    /// The content has at least one row, fits the canvas and is centred.
    pub open spec fn wf(self) -> bool {
        &&& 0 < self.content_height <= self.canvas_size
        &&& self.content_width == self.canvas_size
        &&& self.pad_x == 0
        &&& self.pad_y == (self.canvas_size - self.content_height) / 2
    }

    /// The geometry that `compute` gives for a frame it accepts.
    pub open spec fn of_frame(width: u32, height: u32, canvas_size: u32) -> LetterboxGeometry {
        let rows = content_rows(width as int, height as int, canvas_size as int);
        LetterboxGeometry {
            content_scale: Fixed { raw: ratio_raw(canvas_size as int, width as int) as i32 },
            pad_x: 0,
            pad_y: ((canvas_size - rows) / 2) as u32,
            content_width: canvas_size,
            content_height: rows as u32,
            canvas_size,
        }
    }

    /// Geometry of a `width` by `height` frame on a canvas of side
    /// `canvas_size`.
    ///
    /// A frame without width is degenerate, a frame taller than wide is
    /// narrow, and a frame whose content rounds to no row is degenerate; in
    /// that order.
    pub fn compute(width: u32, height: u32, canvas_size: u32) -> (r: Result<
        LetterboxGeometry,
        ConfigurationError,
    >)
        ensures
            match r {
                Ok(g) => {
                    &&& accepts_frame(width as int, height as int, canvas_size as int)
                    &&& g == Self::of_frame(width, height, canvas_size)
                    &&& g.content_height == content_rows(
                        width as int,
                        height as int,
                        canvas_size as int,
                    )
                    &&& 2 * width * g.content_height <= 2 * height * canvas_size + width < 2
                        * width * g.content_height + 2 * width
                    &&& g.content_scale@ == ratio_raw(canvas_size as int, width as int)
                    &&& g.wf()
                },
                Err(ConfigurationError::NarrowFrame) => 0 < width < height,
                Err(ConfigurationError::DegenerateFrame) => is_degenerate(
                    width as int,
                    height as int,
                    canvas_size as int,
                ),
                Err(_) => false,
            },
    {
        if width == 0 {
            return Err(ConfigurationError::DegenerateFrame);
        }
        if height > width {
            return Err(ConfigurationError::NarrowFrame);
        }
        let w: i128 = width as i128;
        let h: i128 = height as i128;
        let s: i128 = canvas_size as i128;
        assert(0 <= h * s <= w * s && w * s <= 0x1_0000_0000_0000_0000) by (nonlinear_arith)
            requires
                0 <= h <= w <= 0xffff_ffff,
                0 <= s <= 0xffff_ffff,
        ;
        let rows: i128 = floor_div(2 * (h * s) + w, 2 * w);
        proof {
            lemma_rows_fit(w as int, h as int, s as int);
            assert(2 * (h * s) == 2 * h * s) by (nonlinear_arith);
            assert(rows * (2 * w) == 2 * w * rows) by (nonlinear_arith);
            assert(rows >= 1 ==> 2 * w * rows >= 2 * w) by (nonlinear_arith)
                requires
                    w > 0,
            ;
            assert(rows == 0 ==> 2 * w * rows == 0) by (nonlinear_arith);
        }
        if rows == 0 {
            return Err(ConfigurationError::DegenerateFrame);
        }
        let scale: i128 = floor_div(s * 65536, w);
        proof {
            lemma_div_bound((s * 65536) as int, w as int);
        }
        Ok(
            LetterboxGeometry {
                content_scale: Fixed { raw: saturate_to_i32(scale) },
                pad_x: 0,
                pad_y: ((s - rows) / 2) as u32,
                content_width: canvas_size,
                content_height: rows as u32,
                canvas_size,
            },
        )
    }

    /// Maps a canvas-space vertical coordinate to source-frame space.
    pub fn source_y(&self, canvas_y: Fixed) -> (r: Fixed)
        requires
            self.wf(),
        ensures
            r@ == source_y_raw(
                self.canvas_size as int,
                self.pad_y as int,
                self.content_height as int,
                canvas_y@,
            ),
    {
        let y: i128 = canvas_y.raw as i128;
        let s: i128 = self.canvas_size as i128;
        assert(-0x8000_0000_0000_0000 <= y * s <= 0x8000_0000_0000_0000) by (nonlinear_arith)
            requires
                -0x8000_0000 <= y <= 0x7fff_ffff,
                0 <= s <= 0xffff_ffff,
        ;
        let num: i128 = y * s - (self.pad_y as i128) * 65536;
        let q: i128 = floor_div(num, self.content_height as i128);
        Fixed { raw: saturate_to_i32(q) }
    }

    /// Maps a source-frame vertical coordinate to canvas space.
    pub fn canvas_y(&self, source_y: Fixed) -> (r: Fixed)
        requires
            self.wf(),
        ensures
            r@ == canvas_y_raw(
                self.canvas_size as int,
                self.pad_y as int,
                self.content_height as int,
                source_y@,
            ),
    {
        let y: i128 = source_y.raw as i128;
        let c: i128 = self.content_height as i128;
        assert(-0x8000_0000_0000_0000 <= y * c <= 0x8000_0000_0000_0000) by (nonlinear_arith)
            requires
                -0x8000_0000 <= y <= 0x7fff_ffff,
                0 <= c <= 0xffff_ffff,
        ;
        let num: i128 = y * c + (self.pad_y as i128) * 65536;
        let q: i128 = floor_div(num, self.canvas_size as i128);
        Fixed { raw: saturate_to_i32(q) }
    }
}

/// The content of a frame that is no taller than wide takes between zero rows
/// and the whole canvas.
pub proof fn lemma_rows_fit(width: int, height: int, canvas_size: int)
    requires
        0 < width,
        0 <= height <= width,
        0 <= canvas_size,
    ensures
        0 <= content_rows(width, height, canvas_size) <= canvas_size,
{
    let num = 2 * height * canvas_size + width;
    let den = 2 * width;
    assert(0 <= 2 * height * canvas_size <= den * canvas_size) by (nonlinear_arith)
        requires
            0 <= height <= width,
            0 <= canvas_size,
            den == 2 * width,
    ;
    lemma_fundamental_div_mod(num, den);
    lemma_mod_bound(num, den);
    lemma_div_bound(num, den);
    let q = num / den;
    let r = num % den;
    assert(q <= canvas_size) by (nonlinear_arith)
        requires
            num == den * q + r,
            0 <= r,
            num <= den * canvas_size + width,
            den == 2 * width,
            0 < width,
            0 <= canvas_size,
    ;
}

/// A frame with a width that is no taller than wide has content of at least
/// one row exactly where that content comes to at least half a row.
pub proof fn lemma_rows_positive(width: int, height: int, canvas_size: int)
    requires
        0 < width,
        0 <= height <= width,
        0 <= canvas_size,
    ensures
        0 < content_rows(width, height, canvas_size) <==> width <= 2 * height * canvas_size,
{
    let num = 2 * height * canvas_size + width;
    let den = 2 * width;
    lemma_rows_fit(width, height, canvas_size);
    lemma_fundamental_div_mod(num, den);
    lemma_mod_bound(num, den);
    let q = num / den;
    let r = num % den;
    assert(den * q == 0 <==> q == 0) by (nonlinear_arith)
        requires
            den > 0,
    ;
    assert(q > 0 ==> den * q >= den) by (nonlinear_arith)
        requires
            den > 0,
    ;
}

/// Where the bars above and below the content are equally high, the middle of
/// the canvas is the middle of the frame.
pub proof fn lemma_midpoint_is_fixed(g: LetterboxGeometry)
    requires
        g.wf(),
        (g.canvas_size - g.content_height) % 2 == 0,
    ensures
        source_y_raw(g.canvas_size as int, g.pad_y as int, g.content_height as int, 32768) == 32768,
{
    let s = g.canvas_size as int;
    let c = g.content_height as int;
    let p = g.pad_y as int;
    assert(2 * p == s - c);
    assert((32768 * s - p * 65536) == 32768 * c);
    assert((32768 * c) / c == 32768) by (nonlinear_arith)
        requires
            c > 0,
    ;
}

/// Mapping a canvas coordinate to the frame and back loses at most one raw
/// unit, and never gains: the result is the coordinate or the value just
/// below it. This holds wherever the frame coordinate did not saturate.
pub proof fn lemma_round_trip(g: LetterboxGeometry, y: int)
    requires
        g.wf(),
        -0x8000_0000 <= y <= 0x7fff_ffff,
        -0x8000_0000 <= (y * g.canvas_size - g.pad_y * 65536) / (g.content_height as int)
            <= 0x7fff_ffff,
    ensures
        y - 1 <= canvas_y_raw(
            g.canvas_size as int,
            g.pad_y as int,
            g.content_height as int,
            source_y_raw(g.canvas_size as int, g.pad_y as int, g.content_height as int, y),
        ) <= y,
{
    let s = g.canvas_size as int;
    let c = g.content_height as int;
    let p = g.pad_y * 65536;
    let num = y * s - p;
    let src = num / c;
    lemma_fundamental_div_mod(num, c);
    lemma_mod_bound(num, c);
    let rem = num % c;
    assert(src * c == c * src) by (nonlinear_arith);
    // src * c + p lies in (y * s - c, y * s].
    let back_num = src * c + p;
    assert(back_num == y * s - rem);
    lemma_fundamental_div_mod(back_num, s);
    lemma_mod_bound(back_num, s);
    let back = back_num / s;
    let back_rem = back_num % s;
    assert(y - 1 <= back <= y) by (nonlinear_arith)
        requires
            back_num == s * back + back_rem,
            0 <= back_rem < s,
            back_num == y * s - rem,
            0 <= rem < c,
            c <= s,
    ;
}

} // verus!
