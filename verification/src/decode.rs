//! Decoding one anchor's regression values into a box and a landmark.
//!
//! A row of the regression tensor holds `[dx, dy, dw, dh, lm_x, lm_y, ...]` in
//! pixels of the model input. Decoding divides by the input size, scales by the
//! anchor's extent and offsets by the anchor's centre. The results are in
//! canvas space.

use vstd::prelude::*;
use crate::anchors::Anchor;
use crate::detection::{Box, Landmark};
use crate::fixed::{lemma_div_bound, mul_raw, saturate, Fixed};
use crate::tensor::Tensor;

verus! {

/// Raw value of `(d / input_size) * extent`.
pub open spec fn scaled_raw(d: int, extent: int, input_size: int) -> int {
    mul_raw(d / input_size, extent)
}

/// Raw value of `(d / input_size) * extent + center`.
pub open spec fn offset_raw(d: int, extent: int, center: int, input_size: int) -> int {
    saturate(scaled_raw(d, extent, input_size) + center)
}

/// The box that the regression values `dx, dy, dw, dh` describe around
/// `anchor`: its centre is the anchor's centre moved by the scaled offsets, its
/// size the scaled `dw` and `dh`, and its corners lie half the size to either
/// side of the centre.
pub open spec fn decoded_box(dx: int, dy: int, dw: int, dh: int, anchor: Anchor, input_size: int) -> Box {
    let center_x = offset_raw(dx, anchor.w@, anchor.x_center@, input_size);
    let center_y = offset_raw(dy, anchor.h@, anchor.y_center@, input_size);
    let w = scaled_raw(dw, anchor.w@, input_size);
    let h = scaled_raw(dh, anchor.h@, input_size);
    Box {
        xmin: Fixed { raw: saturate(center_x - w / 2) as i32 },
        ymin: Fixed { raw: saturate(center_y - h / 2) as i32 },
        xmax: Fixed { raw: saturate(center_x + w / 2) as i32 },
        ymax: Fixed { raw: saturate(center_y + h / 2) as i32 },
    }
}

/// The point that the regression values `lx, ly` describe relative to
/// `anchor`.
pub open spec fn decoded_landmark(lx: int, ly: int, anchor: Anchor, input_size: int) -> Landmark {
    Landmark {
        x: Fixed { raw: offset_raw(lx, anchor.w@, anchor.x_center@, input_size) as i32 },
        y: Fixed { raw: offset_raw(ly, anchor.h@, anchor.y_center@, input_size) as i32 },
    }
}

/// A box decoded from a width and a height that are not negative, around an
/// anchor whose extent is not negative, has its corners in order.
pub proof fn lemma_decoded_box_ordered(
    dx: int,
    dy: int,
    dw: int,
    dh: int,
    anchor: Anchor,
    input_size: int,
)
    requires
        0 < input_size,
        0 <= dw,
        0 <= dh,
        0 <= anchor.w@,
        0 <= anchor.h@,
    ensures
        decoded_box(dx, dy, dw, dh, anchor, input_size).xmin@ <= decoded_box(
            dx,
            dy,
            dw,
            dh,
            anchor,
            input_size,
        ).xmax@,
        decoded_box(dx, dy, dw, dh, anchor, input_size).ymin@ <= decoded_box(
            dx,
            dy,
            dw,
            dh,
            anchor,
            input_size,
        ).ymax@,
{
    lemma_scaled_not_negative(dw, anchor.w@, input_size);
    lemma_scaled_not_negative(dh, anchor.h@, input_size);
}

/// Scaling a value that is not negative by an extent that is not negative
/// gives a value that is not negative.
proof fn lemma_scaled_not_negative(d: int, extent: int, input_size: int)
    requires
        0 < input_size,
        0 <= d,
        0 <= extent,
    ensures
        0 <= scaled_raw(d, extent, input_size),
        0 <= scaled_raw(d, extent, input_size) / 2,
{
    lemma_div_bound(d, input_size);
    let q = d / input_size;
    assert(0 <= q * extent) by (nonlinear_arith)
        requires
            0 <= q,
            0 <= extent,
    ;
    lemma_div_bound(q * extent, 65536);
}

/// `(d / input_size) * extent`.
fn scaled(d: Fixed, extent: Fixed, input_size: u32) -> (r: Fixed)
    requires
        input_size > 0,
    ensures
        r@ == scaled_raw(d@, extent@, input_size as int),
{
    d.div_int(input_size).saturating_mul(extent)
}

/// Bounding box of anchor number `best_score_idx`, in canvas space.
pub fn get_bbox(
    best_score_idx: usize,
    coords: &Tensor,
    anchors: &Vec<Anchor>,
    input_size: u32,
) -> (r: Box)
    requires
        input_size > 0,
        best_score_idx < anchors@.len(),
        coords.is_batch(),
        coords.rows() == anchors@.len(),
        coords.width() >= 4,
    ensures
        r == decoded_box(
            coords.spec_at(best_score_idx as int, 0)@,
            coords.spec_at(best_score_idx as int, 1)@,
            coords.spec_at(best_score_idx as int, 2)@,
            coords.spec_at(best_score_idx as int, 3)@,
            anchors@[best_score_idx as int],
            input_size as int,
        ),
{
    let dx: Fixed = coords.at(best_score_idx, 0);
    let dy: Fixed = coords.at(best_score_idx, 1);
    let dw: Fixed = coords.at(best_score_idx, 2);
    let dh: Fixed = coords.at(best_score_idx, 3);
    let anchor: Anchor = anchors[best_score_idx];
    let center_x: Fixed = scaled(dx, anchor.w, input_size).saturating_add(anchor.x_center);
    let center_y: Fixed = scaled(dy, anchor.h, input_size).saturating_add(anchor.y_center);
    let half_w: Fixed = scaled(dw, anchor.w, input_size).half();
    let half_h: Fixed = scaled(dh, anchor.h, input_size).half();
    Box {
        xmin: center_x.saturating_sub(half_w),
        ymin: center_y.saturating_sub(half_h),
        xmax: center_x.saturating_add(half_w),
        ymax: center_y.saturating_add(half_h),
    }
}

/// Landmark of anchor number `best_score_idx`, in canvas space; its two
/// regression values stand in columns `coords_x_idx` and `coords_y_idx`.
pub fn get_landmark(
    best_score_idx: usize,
    coords: &Tensor,
    anchors: &Vec<Anchor>,
    coords_x_idx: usize,
    coords_y_idx: usize,
    input_size: u32,
) -> (r: Landmark)
    requires
        input_size > 0,
        best_score_idx < anchors@.len(),
        coords.is_batch(),
        coords.rows() == anchors@.len(),
        coords_x_idx < coords.width(),
        coords_y_idx < coords.width(),
    ensures
        r == decoded_landmark(
            coords.spec_at(best_score_idx as int, coords_x_idx as int)@,
            coords.spec_at(best_score_idx as int, coords_y_idx as int)@,
            anchors@[best_score_idx as int],
            input_size as int,
        ),
{
    let x: Fixed = coords.at(best_score_idx, coords_x_idx);
    let y: Fixed = coords.at(best_score_idx, coords_y_idx);
    let anchor: Anchor = anchors[best_score_idx];
    Landmark {
        x: scaled(x, anchor.w, input_size).saturating_add(anchor.x_center),
        y: scaled(y, anchor.h, input_size).saturating_add(anchor.y_center),
    }
}

} // verus!
