//! From raw tensors to candidates: thresholding, decoding, and the mapping
//! from canvas space to source-frame space.

use vstd::prelude::*;
use crate::anchors::Anchor;
use crate::decode::{decoded_box, decoded_landmark, get_bbox, get_landmark};
use crate::detection::{Box, HandDetails, Landmark};
use crate::fixed::Fixed;
use crate::letterbox::{source_y_raw, LetterboxGeometry};
use crate::suppress::{listed, strictly_increasing};
use crate::tensor::Tensor;

verus! {

/// Column of a regression row that holds the landmark's horizontal value.
pub const LANDMARK_X_COLUMN: usize = 4;

/// Column of a regression row that holds the landmark's vertical value.
pub const LANDMARK_Y_COLUMN: usize = 5;

/// Least number of values in a regression row.
pub const MIN_ROW_WIDTH: usize = 6;

/// Source-frame coordinate of a canvas coordinate under `g`.
pub open spec fn to_source_y(g: LetterboxGeometry, y: Fixed) -> Fixed {
    Fixed {
        raw: source_y_raw(g.canvas_size as int, g.pad_y as int, g.content_height as int, y@) as i32,
    }
}

/// The canvas-space box `b` in source-frame space: its vertical coordinates
/// are mapped, its horizontal ones stay.
pub open spec fn to_source_box(g: LetterboxGeometry, b: Box) -> Box {
    Box { xmin: b.xmin, ymin: to_source_y(g, b.ymin), xmax: b.xmax, ymax: to_source_y(g, b.ymax) }
}

/// The canvas-space point `p` in source-frame space.
pub open spec fn to_source_landmark(g: LetterboxGeometry, p: Landmark) -> Landmark {
    Landmark { x: p.x, y: to_source_y(g, p.y) }
}

/// The detection that anchor number `i` stands for, in source-frame space.
pub open spec fn candidate_at(
    i: int,
    scores: Tensor,
    coords: Tensor,
    anchors: Seq<Anchor>,
    input_size: int,
    g: LetterboxGeometry,
) -> HandDetails {
    HandDetails {
        score: scores.spec_at(i, 0),
        bbox: to_source_box(
            g,
            decoded_box(
                coords.spec_at(i, 0)@,
                coords.spec_at(i, 1)@,
                coords.spec_at(i, 2)@,
                coords.spec_at(i, 3)@,
                anchors[i],
                input_size,
            ),
        ),
        wrist: to_source_landmark(
            g,
            decoded_landmark(
                coords.spec_at(i, 4)@,
                coords.spec_at(i, 5)@,
                anchors[i],
                input_size,
            ),
        ),
    }
}

/// The detections of the first `n` anchors whose score is strictly above the
/// threshold, in the order of the anchors.
pub open spec fn candidates(
    n: nat,
    scores: Tensor,
    coords: Tensor,
    anchors: Seq<Anchor>,
    input_size: int,
    g: LetterboxGeometry,
    threshold: int,
) -> Seq<HandDetails>
    decreases n,
{
    if n == 0 {
        Seq::empty()
    } else {
        let before = candidates((n - 1) as nat, scores, coords, anchors, input_size, g, threshold);
        if scores.spec_at(n - 1, 0)@ > threshold {
            before.push(candidate_at(n - 1, scores, coords, anchors, input_size, g))
        } else {
            before
        }
    }
}

/// The first `k` records of `s`, or all of `s` where it has fewer.
pub open spec fn top(s: Seq<HandDetails>, k: int) -> Seq<HandDetails> {
    if s.len() <= k {
        s
    } else {
        s.take(k)
    }
}

/// There are no more candidates than anchors, every candidate scores above
/// the threshold, and where no score is above the threshold there is no
/// candidate.
pub proof fn lemma_candidates(
    n: nat,
    scores: Tensor,
    coords: Tensor,
    anchors: Seq<Anchor>,
    input_size: int,
    g: LetterboxGeometry,
    threshold: int,
)
    ensures
        candidates(n, scores, coords, anchors, input_size, g, threshold).len() <= n,
        forall|k: int|
            0 <= k < candidates(n, scores, coords, anchors, input_size, g, threshold).len() ==> (
            #[trigger] candidates(n, scores, coords, anchors, input_size, g, threshold)[k]).score@
                > threshold,
        (forall|i: int| 0 <= i < n ==> (#[trigger] scores.spec_at(i, 0))@ <= threshold)
            ==> candidates(n, scores, coords, anchors, input_size, g, threshold).len() == 0,
    decreases n,
{
    if n > 0 {
        lemma_candidates((n - 1) as nat, scores, coords, anchors, input_size, g, threshold);
        if forall|i: int| 0 <= i < n ==> (#[trigger] scores.spec_at(i, 0))@ <= threshold {
            assert(scores.spec_at(n - 1, 0)@ <= threshold);
        }
    }
}

/// The numbers of the first `n` anchors whose score is strictly above the
/// threshold, ascending.
pub open spec fn passing_places(n: nat, scores: Tensor, threshold: int) -> Seq<int>
    decreases n,
{
    if n == 0 {
        Seq::empty()
    } else {
        let before = passing_places((n - 1) as nat, scores, threshold);
        if scores.spec_at(n - 1, 0)@ > threshold {
            before.push(n - 1)
        } else {
            before
        }
    }
}

/// The candidates are the detections of exactly the anchors whose score is
/// strictly above the threshold, in the order of the anchors.
pub proof fn lemma_passing_places(
    n: nat,
    scores: Tensor,
    coords: Tensor,
    anchors: Seq<Anchor>,
    input_size: int,
    g: LetterboxGeometry,
    threshold: int,
)
    ensures
        passing_places(n, scores, threshold).len() == candidates(
            n,
            scores,
            coords,
            anchors,
            input_size,
            g,
            threshold,
        ).len(),
        strictly_increasing(passing_places(n, scores, threshold)),
        forall|k: int|
            0 <= k < passing_places(n, scores, threshold).len() ==> {
                &&& 0 <= (#[trigger] passing_places(n, scores, threshold)[k]) < n
                &&& scores.spec_at(passing_places(n, scores, threshold)[k], 0)@ > threshold
                &&& candidates(n, scores, coords, anchors, input_size, g, threshold)[k]
                    == candidate_at(
                    passing_places(n, scores, threshold)[k],
                    scores,
                    coords,
                    anchors,
                    input_size,
                    g,
                )
            },
        forall|i: int|
            0 <= i < n && (#[trigger] scores.spec_at(i, 0))@ > threshold ==> listed(
                passing_places(n, scores, threshold),
                i,
            ),
    decreases n,
{
    let places = passing_places(n, scores, threshold);
    if n > 0 {
        let before = passing_places((n - 1) as nat, scores, threshold);
        lemma_passing_places((n - 1) as nat, scores, coords, anchors, input_size, g, threshold);
        assert forall|i: int|
            0 <= i < n && (#[trigger] scores.spec_at(i, 0))@ > threshold implies listed(
            places,
            i,
        ) by {
            if i < n - 1 {
                assert(listed(before, i));
                let k = choose|k: int| 0 <= k < before.len() && #[trigger] before[k] == i;
                assert(places[k] == i);
            } else {
                assert(places[places.len() - 1] == i);
            }
        }
    }
}

/// Maps a canvas-space box to source-frame space.
pub fn source_box(geometry: &LetterboxGeometry, bbox: Box) -> (r: Box)
    requires
        geometry.wf(),
    ensures
        r == to_source_box(*geometry, bbox),
{
    Box {
        xmin: bbox.xmin,
        ymin: geometry.source_y(bbox.ymin),
        xmax: bbox.xmax,
        ymax: geometry.source_y(bbox.ymax),
    }
}

/// Maps a canvas-space point to source-frame space.
pub fn source_landmark(geometry: &LetterboxGeometry, point: Landmark) -> (r: Landmark)
    requires
        geometry.wf(),
    ensures
        r == to_source_landmark(*geometry, point),
{
    Landmark { x: point.x, y: geometry.source_y(point.y) }
}

/// The detections of the anchors whose score is strictly above
/// `score_threshold`, in the order of the anchors, in source-frame space.
pub fn collect_candidates(
    scores: &Tensor,
    coords: &Tensor,
    anchors: &Vec<Anchor>,
    input_size: u32,
    geometry: &LetterboxGeometry,
    score_threshold: Fixed,
) -> (found: Vec<HandDetails>)
    requires
        input_size > 0,
        geometry.wf(),
        scores.has_rows(anchors@.len() as int, 1),
        coords.is_batch(),
        coords.rows() == anchors@.len(),
        coords.width() >= MIN_ROW_WIDTH,
    ensures
        found@ == candidates(
            anchors@.len(),
            *scores,
            *coords,
            anchors@,
            input_size as int,
            *geometry,
            score_threshold@,
        ),
{
    let mut found: Vec<HandDetails> = Vec::new();
    let mut i: usize = 0;
    while i < anchors.len()
        invariant
            input_size > 0,
            geometry.wf(),
            scores.has_rows(anchors@.len() as int, 1),
            coords.is_batch(),
            coords.rows() == anchors@.len(),
            coords.width() >= MIN_ROW_WIDTH,
            i <= anchors.len(),
            found@ == candidates(
                i as nat,
                *scores,
                *coords,
                anchors@,
                input_size as int,
                *geometry,
                score_threshold@,
            ),
        decreases anchors.len() - i,
    {
        let score: Fixed = scores.at(i, 0);
        if score.gt(score_threshold) {
            let bbox: Box = get_bbox(i, coords, anchors, input_size);
            let wrist: Landmark = get_landmark(
                i,
                coords,
                anchors,
                LANDMARK_X_COLUMN,
                LANDMARK_Y_COLUMN,
                input_size,
            );
            found.push(
                HandDetails {
                    score,
                    bbox: source_box(geometry, bbox),
                    wrist: source_landmark(geometry, wrist),
                },
            );
        }
        i += 1;
    }
    found
}

} // verus!
