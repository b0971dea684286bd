//! Intersection over union of two boxes.

use vstd::prelude::*;
use crate::detection::Box;
use crate::fixed::{floor_div, lemma_div_bound, Fixed};

verus! {

/// `x` where it is positive, else zero.
pub open spec fn positive_part(x: int) -> int {
    if x > 0 {
        x
    } else {
        0
    }
}

/// The smaller of two integers.
pub open spec fn lesser(x: int, y: int) -> int {
    if x <= y {
        x
    } else {
        y
    }
}

/// The greater of two integers.
pub open spec fn greater(x: int, y: int) -> int {
    if x >= y {
        x
    } else {
        y
    }
}

/// Area of a box in squared raw units: the product of its two extents where
/// that is positive, else zero.
pub open spec fn box_area(b: Box) -> int {
    positive_part((b.xmax@ - b.xmin@) * (b.ymax@ - b.ymin@))
}

/// Area that two boxes share, in squared raw units.
pub open spec fn intersection_area(a: Box, b: Box) -> int {
    positive_part(lesser(a.xmax@, b.xmax@) - greater(a.xmin@, b.xmin@)) * positive_part(
        lesser(a.ymax@, b.ymax@) - greater(a.ymin@, b.ymin@),
    )
}

/// Area that two boxes cover together, in squared raw units.
pub open spec fn union_area(a: Box, b: Box) -> int {
    box_area(a) + box_area(b) - intersection_area(a, b)
}

/// Raw value of the intersection over union: the shared area over the covered
/// area, rounded down to a multiple of `1 / 65536`; zero where the two boxes
/// cover no area.
pub open spec fn iou_raw(a: Box, b: Box) -> int {
    if union_area(a, b) > 0 {
        (intersection_area(a, b) * 65536) / union_area(a, b)
    } else {
        0
    }
}

/// A product of two integers of at most 33 bits fits in 66 bits.
proof fn lemma_product_bound(x: int, y: int)
    requires
        -0x1_0000_0000 <= x <= 0x1_0000_0000,
        -0x1_0000_0000 <= y <= 0x1_0000_0000,
    ensures
        -0x1_0000_0000_0000_0000 <= x * y <= 0x1_0000_0000_0000_0000,
{
    assert(-0x1_0000_0000_0000_0000 <= x * y <= 0x1_0000_0000_0000_0000) by (nonlinear_arith)
        requires
            -0x1_0000_0000 <= x <= 0x1_0000_0000,
            -0x1_0000_0000 <= y <= 0x1_0000_0000,
    ;
}

/// The shared area is never negative and never more than either box's area.
pub proof fn lemma_intersection_within(a: Box, b: Box)
    ensures
        0 <= intersection_area(a, b) <= box_area(a),
        intersection_area(a, b) <= box_area(b),
        intersection_area(a, b) <= union_area(a, b),
{
    let ix = positive_part(lesser(a.xmax@, b.xmax@) - greater(a.xmin@, b.xmin@));
    let iy = positive_part(lesser(a.ymax@, b.ymax@) - greater(a.ymin@, b.ymin@));
    assert(0 <= ix * iy) by (nonlinear_arith)
        requires
            0 <= ix,
            0 <= iy,
    ;
    if ix > 0 && iy > 0 {
        let wa = a.xmax@ - a.xmin@;
        let ha = a.ymax@ - a.ymin@;
        let wb = b.xmax@ - b.xmin@;
        let hb = b.ymax@ - b.ymin@;
        assert(ix * iy <= wa * ha) by (nonlinear_arith)
            requires
                0 < ix <= wa,
                0 < iy <= ha,
        ;
        assert(ix * iy <= wb * hb) by (nonlinear_arith)
            requires
                0 < ix <= wb,
                0 < iy <= hb,
        ;
    } else {
        assert(ix * iy == 0) by (nonlinear_arith)
            requires
                ix == 0 || iy == 0,
        ;
    }
}

/// The overlap measure lies between `0` and `1.0`.
pub proof fn lemma_iou_range(a: Box, b: Box)
    ensures
        0 <= iou_raw(a, b) <= 65536,
{
    lemma_intersection_within(a, b);
    let i = intersection_area(a, b);
    let u = union_area(a, b);
    if u > 0 {
        lemma_div_bound(i * 65536, u);
        vstd::arithmetic::div_mod::lemma_fundamental_div_mod(i * 65536, u);
        vstd::arithmetic::div_mod::lemma_mod_bound(i * 65536, u);
        let q = (i * 65536) / u;
        let r = (i * 65536) % u;
        assert(q <= 65536) by (nonlinear_arith)
            requires
                i * 65536 == u * q + r,
                0 <= r,
                0 <= i <= u,
                u > 0,
        ;
    }
}

/// The overlap measure does not depend on the order of its arguments.
pub proof fn lemma_iou_symmetric(a: Box, b: Box)
    ensures
        iou_raw(a, b) == iou_raw(b, a),
{
    assert(intersection_area(a, b) == intersection_area(b, a));
}

/// A box of positive width and height overlaps itself completely.
pub proof fn lemma_iou_identical(a: Box)
    requires
        a.xmin@ < a.xmax@,
        a.ymin@ < a.ymax@,
    ensures
        iou_raw(a, a) == 65536,
{
    let w = a.xmax@ - a.xmin@;
    let h = a.ymax@ - a.ymin@;
    assert(w * h > 0) by (nonlinear_arith)
        requires
            w > 0,
            h > 0,
    ;
    let area = w * h;
    assert(intersection_area(a, a) == area);
    assert(union_area(a, a) == area);
    assert((area * 65536) / area == 65536) by (nonlinear_arith)
        requires
            area > 0,
    ;
}

/// Two boxes that are apart along one axis, or that only touch, overlap by
/// zero.
pub proof fn lemma_iou_disjoint(a: Box, b: Box)
    requires
        a.xmax@ <= b.xmin@ || b.xmax@ <= a.xmin@ || a.ymax@ <= b.ymin@ || b.ymax@ <= a.ymin@,
    ensures
        iou_raw(a, b) == 0,
{
    let ix = positive_part(lesser(a.xmax@, b.xmax@) - greater(a.xmin@, b.xmin@));
    let iy = positive_part(lesser(a.ymax@, b.ymax@) - greater(a.ymin@, b.ymin@));
    lemma_intersection_within(a, b);
    if a.xmax@ <= b.xmin@ || b.xmax@ <= a.xmin@ {
        assert(ix == 0);
    } else {
        assert(iy == 0);
    }
    assert(ix * iy == 0) by (nonlinear_arith)
        requires
            ix == 0 || iy == 0,
    ;
    let u = union_area(a, b);
    if u > 0 {
        assert(0int / u == 0) by (nonlinear_arith)
            requires
                u > 0,
        ;
    }
}

/// Length that two intervals share, zero where they are apart.
fn overlap_extent(lo_a: Fixed, hi_a: Fixed, lo_b: Fixed, hi_b: Fixed) -> (r: i128)
    ensures
        r == positive_part(lesser(hi_a@, hi_b@) - greater(lo_a@, lo_b@)),
        0 <= r <= 0x1_0000_0000,
{
    let hi: i128 = if hi_a.raw <= hi_b.raw {
        hi_a.raw as i128
    } else {
        hi_b.raw as i128
    };
    let lo: i128 = if lo_a.raw >= lo_b.raw {
        lo_a.raw as i128
    } else {
        lo_b.raw as i128
    };
    if hi > lo {
        hi - lo
    } else {
        0
    }
}

/// Area of one box, clamped at zero.
fn clamped_area(b: &Box) -> (r: i128)
    ensures
        r == box_area(*b),
        0 <= r <= 0x1_0000_0000_0000_0000,
{
    let w: i128 = (b.xmax.raw as i128) - (b.xmin.raw as i128);
    let h: i128 = (b.ymax.raw as i128) - (b.ymin.raw as i128);
    proof {
        lemma_product_bound(w as int, h as int);
    }
    let p: i128 = w * h;
    if p > 0 {
        p
    } else {
        0
    }
}

/// Intersection over union of two boxes.
///
/// The two areas are clamped at zero, so the result is never negative and the
/// division is never by zero: two boxes that cover no area overlap by zero.
pub fn intersection_over_union(box_a: &Box, box_b: &Box) -> (r: Fixed)
    ensures
        r@ == iou_raw(*box_a, *box_b),
        0 <= r@ <= 65536,
        union_area(*box_a, *box_b) > 0 ==> r@ * union_area(*box_a, *box_b) <= intersection_area(
            *box_a,
            *box_b,
        ) * 65536 < r@ * union_area(*box_a, *box_b) + union_area(*box_a, *box_b),
        union_area(*box_a, *box_b) <= 0 ==> r@ == 0,
        *box_a == *box_b && box_a.xmin@ < box_a.xmax@ && box_a.ymin@ < box_a.ymax@ ==> r@ == 65536,
        box_a.xmax@ <= box_b.xmin@ || box_b.xmax@ <= box_a.xmin@ || box_a.ymax@ <= box_b.ymin@
            || box_b.ymax@ <= box_a.ymin@ ==> r@ == 0,
{
    let ix: i128 = overlap_extent(box_a.xmin, box_a.xmax, box_b.xmin, box_b.xmax);
    let iy: i128 = overlap_extent(box_a.ymin, box_a.ymax, box_b.ymin, box_b.ymax);
    proof {
        lemma_product_bound(ix as int, iy as int);
        lemma_intersection_within(*box_a, *box_b);
        lemma_iou_range(*box_a, *box_b);
        if *box_a == *box_b && box_a.xmin@ < box_a.xmax@ && box_a.ymin@ < box_a.ymax@ {
            lemma_iou_identical(*box_a);
        }
        if box_a.xmax@ <= box_b.xmin@ || box_b.xmax@ <= box_a.xmin@ || box_a.ymax@ <= box_b.ymin@
            || box_b.ymax@ <= box_a.ymin@ {
            lemma_iou_disjoint(*box_a, *box_b);
        }
    }
    let intersection: i128 = ix * iy;
    let area_a: i128 = clamped_area(box_a);
    let area_b: i128 = clamped_area(box_b);
    let union: i128 = area_a + area_b - intersection;
    if union > 0 {
        let q: i128 = floor_div(intersection * 65536, union);
        Fixed { raw: q as i32 }
    } else {
        Fixed { raw: 0 }
    }
}

} // verus!
