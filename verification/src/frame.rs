//! Preparing a frame for the network: scaling it into the square canvas with
//! bars above and below, and laying the canvas out plane by plane.
//!
//! Pixel buffers hold three bytes per pixel, red, green and blue, row by row
//! from the top. Resampling is done by the `image` crate; where its result
//! goes on the canvas, and how the canvas is laid out, is decided here.

use vstd::prelude::*;
use vstd::arithmetic::div_mod::lemma_fundamental_div_mod_converse;
use crate::error::ConfigurationError;
use crate::letterbox::{accepts_frame, is_degenerate, LetterboxGeometry};

verus! {

/// Longest side of a frame or canvas that can be resampled.
pub const MAX_SIDE: u32 = 4096;

/// A decoded frame: `width × height` pixels of three bytes each.
#[derive(Debug)]
pub struct Frame {
    pub width: u32,
    pub height: u32,
    pub pixels: Vec<u8>,
}

/// The pixels of a `width × height` image after resampling to
/// `new_width × new_height` with a triangle filter, as `image` computes them.
pub uninterp spec fn resized_rgb(
    pixels: Seq<u8>,
    width: int,
    height: int,
    new_width: int,
    new_height: int,
) -> Seq<u8>;

/// Resamples an image with `image::imageops::resize` and the triangle filter.
///
/// The result is a function of the pixels and the four dimensions alone, and
/// holds three bytes for each pixel of the new size. The sides are limited to
/// 4096 pixels: within that limit the crate's intermediate buffers can be
/// allocated and its single-precision sampling positions stay inside the
/// image, so that it neither overflows nor divides by a zero weight.
#[verifier::external_body]
fn resize_rgb(pixels: &Vec<u8>, width: u32, height: u32, new_width: u32, new_height: u32) -> (r:
    Vec<u8>)
    requires
        pixels@.len() == 3 * width * height,
        width <= MAX_SIDE,
        height <= MAX_SIDE,
        new_width <= MAX_SIDE,
        new_height <= MAX_SIDE,
    ensures
        r@ == resized_rgb(
            pixels@,
            width as int,
            height as int,
            new_width as int,
            new_height as int,
        ),
        r@.len() == 3 * new_width * new_height,
{
    let source = image::ImageBuffer::<image::Rgb<u8>, &[u8]>::from_raw(
        width,
        height,
        pixels.as_slice(),
    ).unwrap();
    let filter = image::imageops::FilterType::Triangle;
    image::imageops::resize(&source, new_width, new_height, filter).into_raw()
}

/// `n` bytes of zero: black pixels.
pub open spec fn blank(n: int) -> Seq<u8> {
    Seq::new(n as nat, |i: int| 0u8)
}

/// A canvas of side `canvas_size` that is black but for `content`, which
/// starts `pad_y` rows from the top.
pub open spec fn letterboxed(content: Seq<u8>, canvas_size: int, pad_y: int, rows: int) -> Seq<
    u8,
> {
    blank(3 * canvas_size * pad_y) + content + blank(3 * canvas_size * (canvas_size - pad_y - rows))
}

/// The bytes of `pixels`, which holds `n` pixels, plane by plane: all red
/// values, then all green ones, then all blue ones.
pub open spec fn planar(pixels: Seq<u8>, n: int) -> Seq<u8> {
    Seq::new((3 * n) as nat, |i: int| pixels[3 * (i % n) + i / n])
}

/// In the planar layout, value `c` of pixel `p` stands at place `p` of plane
/// `c`.
pub proof fn lemma_planar_index(pixels: Seq<u8>, n: int, c: int, p: int)
    requires
        0 <= c < 3,
        0 <= p < n,
    ensures
        0 <= c * n + p < planar(pixels, n).len(),
        planar(pixels, n)[c * n + p] == pixels[3 * p + c],
{
    let at = c * n + p;
    assert(0 <= c * n && at < 3 * n) by (nonlinear_arith)
        requires
            at == c * n + p,
            0 <= c < 3,
            0 <= p < n,
    ;
    lemma_fundamental_div_mod_converse(at, n, c, p);
}

/// Appends `n` zero bytes.
fn push_blank(canvas: &mut Vec<u8>, n: usize)
    ensures
        final(canvas)@ == old(canvas)@ + blank(n as int),
{
    let mut i: usize = 0;
    while i < n
        invariant
            i <= n,
            canvas@ == old(canvas)@ + blank(i as int),
        decreases n - i,
    {
        canvas.push(0u8);
        i += 1;
        assert(canvas@ =~= old(canvas)@ + blank(i as int));
    }
}

/// Appends a copy of `bytes`.
fn push_all(canvas: &mut Vec<u8>, bytes: &Vec<u8>)
    ensures
        final(canvas)@ == old(canvas)@ + bytes@,
{
    let mut i: usize = 0;
    while i < bytes.len()
        invariant
            i <= bytes.len(),
            canvas@ == old(canvas)@ + bytes@.take(i as int),
        decreases bytes.len() - i,
    {
        canvas.push(bytes[i]);
        i += 1;
        assert(canvas@ =~= old(canvas)@ + bytes@.take(i as int));
    }
    assert(bytes@.take(bytes.len() as int) =~= bytes@);
}

/// Three times a product of two sides of at most 4096 fits any `usize`.
proof fn lemma_area_fits(a: int, b: int)
    requires
        0 <= a <= 4096,
        0 <= b <= 4096,
    ensures
        0 <= a * b <= 16777216,
        0 <= 3 * a * b <= 50331648,
{
    assert(0 <= a * b <= 16777216) by (nonlinear_arith)
        requires
            0 <= a <= 4096,
            0 <= b <= 4096,
    ;
    assert(3 * a * b == 3 * (a * b)) by (nonlinear_arith);
}

/// Puts the resampled content on a black canvas, `geometry.pad_y` rows from
/// the top.
pub fn place_on_canvas(content: &Vec<u8>, geometry: &LetterboxGeometry) -> (r: Result<
    Vec<u8>,
    ConfigurationError,
>)
    requires
        geometry.wf(),
    ensures
        match r {
            Ok(canvas) => {
                &&& geometry.canvas_size <= MAX_SIDE
                &&& content@.len() == 3 * geometry.canvas_size * geometry.content_height
                &&& canvas@ == letterboxed(
                    content@,
                    geometry.canvas_size as int,
                    geometry.pad_y as int,
                    geometry.content_height as int,
                )
                &&& canvas@.len() == 3 * geometry.canvas_size * geometry.canvas_size
            },
            Err(ConfigurationError::FrameTooLarge) => geometry.canvas_size > MAX_SIDE,
            Err(ConfigurationError::MalformedFrame) => geometry.canvas_size <= MAX_SIDE
                && content@.len() != 3 * geometry.canvas_size * geometry.content_height,
            Err(_) => false,
        },
{
    if geometry.canvas_size > MAX_SIDE {
        return Err(ConfigurationError::FrameTooLarge);
    }
    let size: usize = geometry.canvas_size as usize;
    let rows: usize = geometry.content_height as usize;
    let pad: usize = geometry.pad_y as usize;
    let below: usize = size - pad - rows;
    proof {
        lemma_area_fits(size as int, rows as int);
        lemma_area_fits(size as int, pad as int);
        lemma_area_fits(size as int, below as int);
        lemma_area_fits(size as int, size as int);
        assert(3 * size * pad + 3 * size * rows + 3 * size * below == 3 * size * size)
            by (nonlinear_arith)
            requires
                pad + rows + below == size,
        ;
    }
    if content.len() != 3 * size * rows {
        return Err(ConfigurationError::MalformedFrame);
    }
    let mut canvas: Vec<u8> = Vec::new();
    push_blank(&mut canvas, 3 * size * pad);
    push_all(&mut canvas, content);
    push_blank(&mut canvas, 3 * size * below);
    assert(canvas@ =~= letterboxed(content@, size as int, pad as int, rows as int));
    Ok(canvas)
}

/// The canvas for `frame`: the frame scaled to the canvas's width, centred
/// vertically, with black bars above and below.
///
/// The pixel buffer is checked first, then the sizes, then the frame's shape.
pub fn letterbox_frame(frame: &Frame, canvas_size: u32) -> (r: Result<
    Vec<u8>,
    ConfigurationError,
>)
    ensures
        match r {
            Ok(canvas) => {
                let g = LetterboxGeometry::of_frame(frame.width, frame.height, canvas_size);
                &&& frame.pixels@.len() == 3 * frame.width * frame.height
                &&& frame.width <= MAX_SIDE
                &&& canvas_size <= MAX_SIDE
                &&& accepts_frame(frame.width as int, frame.height as int, canvas_size as int)
                &&& canvas@ == letterboxed(
                    resized_rgb(
                        frame.pixels@,
                        frame.width as int,
                        frame.height as int,
                        canvas_size as int,
                        g.content_height as int,
                    ),
                    canvas_size as int,
                    g.pad_y as int,
                    g.content_height as int,
                )
                &&& canvas@.len() == 3 * canvas_size * canvas_size
            },
            Err(ConfigurationError::MalformedFrame) => frame.pixels@.len() != 3 * frame.width
                * frame.height,
            Err(ConfigurationError::FrameTooLarge) => {
                &&& frame.pixels@.len() == 3 * frame.width * frame.height
                &&& (frame.width > MAX_SIDE || frame.height > MAX_SIDE || canvas_size > MAX_SIDE)
            },
            Err(ConfigurationError::DegenerateFrame) => {
                &&& frame.pixels@.len() == 3 * frame.width * frame.height
                &&& frame.width <= MAX_SIDE && frame.height <= MAX_SIDE && canvas_size <= MAX_SIDE
                &&& is_degenerate(frame.width as int, frame.height as int, canvas_size as int)
            },
            Err(ConfigurationError::NarrowFrame) => {
                &&& frame.pixels@.len() == 3 * frame.width * frame.height
                &&& frame.width <= MAX_SIDE && frame.height <= MAX_SIDE && canvas_size <= MAX_SIDE
                &&& 0 < frame.width < frame.height
            },
            Err(_) => false,
        },
{
    let w: u128 = frame.width as u128;
    let h: u128 = frame.height as u128;
    assert(0 <= w * h <= 0xffff_ffff_ffff_ffff && 3 * w * h == 3 * (w * h)) by (nonlinear_arith)
        requires
            0 <= w <= 0xffff_ffff,
            0 <= h <= 0xffff_ffff,
    ;
    if frame.pixels.len() as u128 != 3 * (w * h) {
        return Err(ConfigurationError::MalformedFrame);
    }
    if frame.width > MAX_SIDE || frame.height > MAX_SIDE || canvas_size > MAX_SIDE {
        return Err(ConfigurationError::FrameTooLarge);
    }
    let geometry: LetterboxGeometry = match LetterboxGeometry::compute(
        frame.width,
        frame.height,
        canvas_size,
    ) {
        Ok(g) => g,
        Err(e) => {
            return Err(e);
        },
    };
    let content: Vec<u8> = resize_rgb(
        &frame.pixels,
        frame.width,
        frame.height,
        canvas_size,
        geometry.content_height,
    );
    place_on_canvas(&content, &geometry)
}

/// The canvas plane by plane, as the network's input tensor orders it: the
/// red values of all pixels, then the green ones, then the blue ones.
pub fn to_planar(canvas: &Vec<u8>, canvas_size: u32) -> (r: Result<Vec<u8>, ConfigurationError>)
    ensures
        match r {
            Ok(planes) => {
                &&& canvas@.len() == 3 * canvas_size * canvas_size
                &&& planes@ == planar(canvas@, canvas_size * canvas_size)
            },
            Err(ConfigurationError::MalformedFrame) => canvas@.len() != 3 * canvas_size
                * canvas_size,
            Err(_) => false,
        },
{
    let s: u128 = canvas_size as u128;
    assert(0 <= s * s <= 0xffff_ffff_ffff_ffff && 3 * s * s == 3 * (s * s)) by (nonlinear_arith)
        requires
            0 <= s <= 0xffff_ffff,
    ;
    if canvas.len() as u128 != 3 * (s * s) {
        return Err(ConfigurationError::MalformedFrame);
    }
    let len: usize = canvas.len();
    let n: usize = (s * s) as usize;
    let mut planes: Vec<u8> = Vec::new();
    let mut c: usize = 0;
    while c < 3
        invariant
            c <= 3,
            canvas@.len() == 3 * n,
            3 * n <= usize::MAX,
            planes@ == planar(canvas@, n as int).take(c * n),
        decreases 3 - c,
    {
        let mut p: usize = 0;
        while p < n
            invariant
                c < 3,
                p <= n,
                canvas@.len() == 3 * n,
                3 * n <= usize::MAX,
                planes@ == planar(canvas@, n as int).take(c * n + p),
            decreases n - p,
        {
            let ghost at = c * n + p;
            proof {
                lemma_planar_index(canvas@, n as int, c as int, p as int);
            }
            planes.push(canvas[3 * p + c]);
            p += 1;
            assert(planes@ =~= planar(canvas@, n as int).take(at + 1));
        }
        c += 1;
        assert(c * n == (c - 1) * n + n) by (nonlinear_arith);
    }
    assert(planar(canvas@, n as int).take(3 * n) =~= planar(canvas@, n as int));
    Ok(planes)
}

} // verus!
