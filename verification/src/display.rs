//! Showing detections: window pixels from camera bytes, and the marks that
//! are painted over them.
//!
//! A window is a buffer of `width × height` pixels, row by row from the top,
//! each pixel one `0x00RRGGBB` value.

use vstd::prelude::*;
use crate::detection::HandDetails;
use crate::fixed::{floor_div, Fixed};

verus! {

/// Half the side of the square that marks the wrist, less the centre pixel.
pub const WRIST_RADIUS: usize = 3;

/// The pixel `0x00RRGGBB`.
pub open spec fn packed(r: u8, g: u8, b: u8) -> int {
    r * 65536 + g * 256 + b
}

/// Pixel index of the normalised coordinate with raw value `l` along an axis
/// of `size` pixels: `l × size`, rounded down, and moved into the window
/// where it lies outside.
pub open spec fn window_pixel_of(l: int, size: int) -> int {
    let at = (l * size) / 65536;
    if at < 0 {
        0
    } else if at > size - 1 {
        size - 1
    } else {
        at
    }
}

/// Where one hand is marked in a window, in pixels.
#[derive(Clone, Copy, Debug, PartialEq, Eq)]
pub struct HandMark {
    pub xmin: usize,
    pub ymin: usize,
    pub xmax: usize,
    pub ymax: usize,
    pub wrist_x: usize,
    pub wrist_y: usize,
}

/// The mark of `hand` in a window of `width × height` pixels.
pub open spec fn mark_of(hand: HandDetails, width: int, height: int) -> HandMark {
    HandMark {
        xmin: window_pixel_of(hand.bbox.xmin@, width) as usize,
        ymin: window_pixel_of(hand.bbox.ymin@, height) as usize,
        xmax: window_pixel_of(hand.bbox.xmax@, width) as usize,
        ymax: window_pixel_of(hand.bbox.ymax@, height) as usize,
        wrist_x: window_pixel_of(hand.wrist.x@, width) as usize,
        wrist_y: window_pixel_of(hand.wrist.y@, height) as usize,
    }
}

/// The pixel lies on the outline of the box: on its top or bottom row between
/// the two sides, or on its left or right column between top and bottom.
pub open spec fn on_outline(x: int, y: int, mark: HandMark) -> bool {
    ||| mark.xmin <= x <= mark.xmax && (y == mark.ymin || y == mark.ymax)
    ||| mark.ymin <= y <= mark.ymax && (x == mark.xmin || x == mark.xmax)
}

/// The pixel lies on the wrist mark: at most `WRIST_RADIUS` pixels from the
/// wrist along both axes.
pub open spec fn on_wrist(x: int, y: int, mark: HandMark) -> bool {
    &&& mark.wrist_x - WRIST_RADIUS <= x <= mark.wrist_x + WRIST_RADIUS
    &&& mark.wrist_y - WRIST_RADIUS <= y <= mark.wrist_y + WRIST_RADIUS
}

/// What the pixel at `(x, y)` shows once the mark is painted over `under`:
/// the wrist mark lies over the outline, the outline over the picture.
pub open spec fn painted(
    under: u32,
    x: int,
    y: int,
    mark: HandMark,
    box_colour: u32,
    wrist_colour: u32,
) -> u32 {
    if on_wrist(x, y, mark) {
        wrist_colour
    } else if on_outline(x, y, mark) {
        box_colour
    } else {
        under
    }
}

/// Window pixels from camera bytes: each three bytes, red, green and blue,
/// become one pixel. Bytes beyond the last full pixel are left out.
pub fn pack_rgb(bytes: &Vec<u8>) -> (pixels: Vec<u32>)
    ensures
        pixels@.len() == bytes@.len() / 3,
        forall|i: int|
            0 <= i < pixels@.len() ==> (#[trigger] pixels@[i]) == packed(
                bytes@[3 * i],
                bytes@[3 * i + 1],
                bytes@[3 * i + 2],
            ),
{
    let len: usize = bytes.len();
    let n: usize = len / 3;
    let mut pixels: Vec<u32> = Vec::new();
    let mut i: usize = 0;
    while i < n
        invariant
            len == bytes@.len(),
            n == len / 3,
            i <= n,
            pixels@.len() == i,
            forall|k: int|
                0 <= k < i ==> (#[trigger] pixels@[k]) == packed(
                    bytes@[3 * k],
                    bytes@[3 * k + 1],
                    bytes@[3 * k + 2],
                ),
        decreases n - i,
    {
        let r: u32 = bytes[3 * i] as u32;
        let g: u32 = bytes[3 * i + 1] as u32;
        let b: u32 = bytes[3 * i + 2] as u32;
        pixels.push(r * 65536 + g * 256 + b);
        i += 1;
    }
    pixels
}

/// Pixel index of a normalised coordinate along an axis of `size` pixels.
pub fn window_pixel(l: Fixed, size: usize) -> (r: usize)
    requires
        size > 0,
    ensures
        r == window_pixel_of(l@, size as int),
        r < size,
{
    let wide: i128 = l.raw as i128;
    let n: i128 = size as i128;
    assert(-0x8000_0000_0000_0000_0000_0000 <= wide * n <= 0x8000_0000_0000_0000_0000_0000)
        by (nonlinear_arith)
        requires
            -0x8000_0000 <= wide <= 0x7fff_ffff,
            0 <= n <= 0xffff_ffff_ffff_ffff,
    ;
    let at: i128 = floor_div(wide * n, 65536);
    if at < 0 {
        0
    } else if at > n - 1 {
        size - 1
    } else {
        at as usize
    }
}

/// Where `hand` is marked in a window of `width × height` pixels.
pub fn hand_mark(hand: &HandDetails, width: usize, height: usize) -> (mark: HandMark)
    requires
        width > 0,
        height > 0,
    ensures
        mark == mark_of(*hand, width as int, height as int),
        mark.xmin < width && mark.xmax < width && mark.wrist_x < width,
        mark.ymin < height && mark.ymax < height && mark.wrist_y < height,
{
    HandMark {
        xmin: window_pixel(hand.bbox.xmin, width),
        ymin: window_pixel(hand.bbox.ymin, height),
        xmax: window_pixel(hand.bbox.xmax, width),
        ymax: window_pixel(hand.bbox.ymax, height),
        wrist_x: window_pixel(hand.wrist.x, width),
        wrist_y: window_pixel(hand.wrist.y, height),
    }
}

/// Whether `at` lies within `radius` of `centre`.
fn near(at: usize, centre: usize, radius: usize) -> (r: bool)
    ensures
        r == (centre - radius <= at <= centre + radius),
{
    if at >= centre {
        at - centre <= radius
    } else {
        centre - at <= radius
    }
}

/// Paints the outline of the hand's box and its wrist mark into a window of
/// rows of `width` pixels. Every pixel of the buffer is a pixel of the
/// window: pixel `i` lies in column `i % width` of row `i / width`.
pub fn mark_hand(
    buffer: &mut Vec<u32>,
    width: usize,
    mark: &HandMark,
    box_colour: u32,
    wrist_colour: u32,
)
    requires
        width > 0,
    ensures
        final(buffer)@.len() == old(buffer)@.len(),
        forall|i: int|
            0 <= i < final(buffer)@.len() ==> (#[trigger] final(buffer)@[i]) == painted(
                old(buffer)@[i],
                i % (width as int),
                i / (width as int),
                *mark,
                box_colour,
                wrist_colour,
            ),
{
    let mut i: usize = 0;
    while i < buffer.len()
        invariant
            width > 0,
            i <= buffer@.len(),
            buffer@.len() == old(buffer)@.len(),
            forall|k: int|
                0 <= k < i ==> (#[trigger] buffer@[k]) == painted(
                    old(buffer)@[k],
                    k % (width as int),
                    k / (width as int),
                    *mark,
                    box_colour,
                    wrist_colour,
                ),
            forall|k: int| i <= k < buffer@.len() ==> (#[trigger] buffer@[k]) == old(buffer)@[k],
        decreases buffer.len() - i,
    {
        let x: usize = i % width;
        let y: usize = i / width;
        let wrist: bool = near(x, mark.wrist_x, WRIST_RADIUS) && near(y, mark.wrist_y, WRIST_RADIUS);
        let sides: bool = mark.ymin <= y && y <= mark.ymax && (x == mark.xmin || x == mark.xmax);
        let ends: bool = mark.xmin <= x && x <= mark.xmax && (y == mark.ymin || y == mark.ymax);
        if wrist {
            buffer.set(i, wrist_colour);
        } else if sides || ends {
            buffer.set(i, box_colour);
        }
        i += 1;
    }
}

} // verus!
