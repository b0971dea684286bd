//! The detector: a configuration, the anchor grid built from it, and the
//! per-frame pipeline.

use vstd::prelude::*;
use crate::anchors::{
    anchor_count, generate_anchors, grid_anchors, layout_count, lemma_anchor_count, level_count,
    Anchor, ScaleLevel,
};
use crate::detection::HandDetails;
use crate::error::ConfigurationError;
use crate::fixed::{ratio_raw, Fixed};
use crate::letterbox::{accepts_frame, is_degenerate, LetterboxGeometry};
use crate::pipeline::{candidates, collect_candidates, lemma_candidates, top, MIN_ROW_WIDTH};
use crate::suppress::{apply_nms, greedy_select, scores_descend, sort_by_score};
use crate::tensor::Tensor;

verus! {

/// What a detector is built from.
#[derive(Debug)]
pub struct DetectorConfig {
    /// Side of the square model input, in pixels.
    pub canvas_size: u32,
    /// The feature maps of the network, in the order of its output rows.
    pub layout: Vec<ScaleLevel>,
    /// A detection needs a score strictly above this.
    pub score_threshold: Fixed,
    /// A detection is dropped where it overlaps an accepted one by this much
    /// or more.
    pub iou_threshold: Fixed,
    /// Most detections that one frame reports.
    pub top_k: usize,
}

impl DetectorConfig {
    /// The configuration of the 256-pixel palm detector: four feature maps
    /// with 3072 anchors in all, a score threshold of `1.0`, an overlap
    /// threshold of `0.3`, and at most two hands.
    pub fn standard() -> (config: DetectorConfig)
        ensures
            config.canvas_size == 256,
            config.layout@ == seq![
                ScaleLevel { stride: 8, map_size: 32, anchors_per_cell: 2 },
                ScaleLevel { stride: 16, map_size: 16, anchors_per_cell: 2 },
                ScaleLevel { stride: 32, map_size: 8, anchors_per_cell: 2 },
                ScaleLevel { stride: 32, map_size: 8, anchors_per_cell: 6 },
            ],
            layout_count(config.layout@) == 3072,
            config.score_threshold@ == 65536,
            config.iou_threshold@ == ratio_raw(3, 10),
            config.top_k == 2,
    {
        let mut layout: Vec<ScaleLevel> = Vec::new();
        layout.push(ScaleLevel { stride: 8, map_size: 32, anchors_per_cell: 2 });
        layout.push(ScaleLevel { stride: 16, map_size: 16, anchors_per_cell: 2 });
        layout.push(ScaleLevel { stride: 32, map_size: 8, anchors_per_cell: 2 });
        layout.push(ScaleLevel { stride: 32, map_size: 8, anchors_per_cell: 6 });
        proof {
            let l = layout@;
            assert(l =~= seq![
                ScaleLevel { stride: 8, map_size: 32, anchors_per_cell: 2 },
                ScaleLevel { stride: 16, map_size: 16, anchors_per_cell: 2 },
                ScaleLevel { stride: 32, map_size: 8, anchors_per_cell: 2 },
                ScaleLevel { stride: 32, map_size: 8, anchors_per_cell: 6 },
            ]);
            let l3 = l.drop_last();
            let l2 = l3.drop_last();
            let l1 = l2.drop_last();
            assert(l1.last() == l[0] && l2.last() == l[1] && l3.last() == l[2] && l.last() == l[3]);
            assert(level_count(l[0]) == 2048 && level_count(l[1]) == 512 && level_count(l[2]) == 128
                && level_count(l[3]) == 384) by {
                assert(32nat * 32nat * 2nat == 2048 && 16nat * 16nat * 2nat == 512 && 8nat * 8nat
                    * 2nat == 128 && 8nat * 8nat * 6nat == 384) by (nonlinear_arith);
            }
            assert(layout_count(l1.drop_last()) == 0);
            assert(layout_count(l1) == 2048);
            assert(layout_count(l2) == 2560);
            assert(layout_count(l3) == 2688);
            assert(layout_count(l) == 3072);
        }
        DetectorConfig {
            canvas_size: 256,
            layout,
            score_threshold: Fixed::from_int(1),
            iou_threshold: Fixed::from_ratio(3, 10),
            top_k: 2,
        }
    }
}

/// The tensors fit a grid of `anchors` anchors: the scores are one batch of
/// one value per anchor, the regression values one batch of at least six
/// values per anchor.
pub open spec fn shapes_match(scores: Tensor, coords: Tensor, anchors: nat) -> bool {
    &&& scores.has_rows(anchors as int, 1)
    &&& coords.is_batch()
    &&& coords.rows() == anchors
    &&& coords.width() >= MIN_ROW_WIDTH
}

/// What the detector reports for tensors that fit its grid and a frame with
/// geometry `g`: the candidates above the score threshold, ranked by score,
/// thinned by greedy suppression, cut to the first `top_k`.
pub open spec fn detections(
    config: DetectorConfig,
    g: LetterboxGeometry,
    scores: Tensor,
    coords: Tensor,
) -> Seq<HandDetails> {
    top(
        greedy_select(
            sort_by_score(
                candidates(
                    layout_count(config.layout@),
                    scores,
                    coords,
                    grid_anchors(config.layout@, config.canvas_size as int),
                    config.canvas_size as int,
                    g,
                    config.score_threshold@,
                ),
            ),
            config.iou_threshold@,
        ),
        config.top_k as int,
    )
}

/// A hand detector: its configuration and the anchor grid that belongs to
/// it. The grid never changes after construction.
pub struct HandDetector {
    config: DetectorConfig,
    anchors: Vec<Anchor>,
}

impl HandDetector {
    #[verifier::type_invariant]
    spec fn inv(self) -> bool {
        &&& self.config.canvas_size > 0
        &&& self.anchors@ == grid_anchors(self.config.layout@, self.config.canvas_size as int)
    }

    /// The configuration that the detector was built from.
    pub closed spec fn spec_config(&self) -> DetectorConfig {
        self.config
    }

    /// Builds the detector and its anchor grid.
    ///
    /// A canvas of size zero is refused, and so is a layout whose anchors
    /// cannot be counted in a `usize`.
    pub fn new(config: DetectorConfig) -> (r: Result<HandDetector, ConfigurationError>)
        ensures
            match r {
                Ok(detector) => {
                    &&& config.canvas_size > 0
                    &&& layout_count(config.layout@) <= usize::MAX
                    &&& detector.spec_config() == config
                },
                Err(ConfigurationError::EmptyCanvas) => config.canvas_size == 0,
                Err(ConfigurationError::LayoutTooLarge) => config.canvas_size > 0 && layout_count(
                    config.layout@,
                ) > usize::MAX,
                Err(_) => false,
            },
    {
        if config.canvas_size == 0 {
            return Err(ConfigurationError::EmptyCanvas);
        }
        if anchor_count(&config.layout).is_none() {
            return Err(ConfigurationError::LayoutTooLarge);
        }
        let anchors: Vec<Anchor> = generate_anchors(config.canvas_size, &config.layout);
        Ok(HandDetector { config, anchors })
    }

    /// The configuration.
    pub fn config(&self) -> (r: &DetectorConfig)
        ensures
            *r == self.spec_config(),
            r.canvas_size > 0,
    {
        proof {
            use_type_invariant(self);
        }
        &self.config
    }

    /// The anchor grid, in the order of the tensor rows.
    pub fn anchors(&self) -> (r: &Vec<Anchor>)
        ensures
            r@ == grid_anchors(
                self.spec_config().layout@,
                self.spec_config().canvas_size as int,
            ),
            r@.len() == layout_count(self.spec_config().layout@),
    {
        proof {
            use_type_invariant(self);
            lemma_anchor_count(self.config.layout@, self.config.canvas_size as int);
        }
        &self.anchors
    }

    /// Detections of one frame, in source-frame space, best first.
    ///
    /// `scores` and `coords` are the two output tensors that the network gave
    /// for the letterboxed frame. The frame is checked first, then the
    /// tensors' shapes. Finding nothing is no error: the result is then empty.
    pub fn detect(
        &self,
        frame_width: u32,
        frame_height: u32,
        scores: &Tensor,
        coords: &Tensor,
    ) -> (r: Result<Vec<HandDetails>, ConfigurationError>)
        ensures
            match r {
                Ok(hands) => {
                    let config = self.spec_config();
                    let g = LetterboxGeometry::of_frame(
                        frame_width,
                        frame_height,
                        config.canvas_size,
                    );
                    &&& accepts_frame(
                        frame_width as int,
                        frame_height as int,
                        config.canvas_size as int,
                    )
                    &&& shapes_match(*scores, *coords, layout_count(config.layout@))
                    &&& hands@ == detections(config, g, *scores, *coords)
                    &&& hands@.len() <= config.top_k
                    &&& scores_descend(hands@)
                    &&& (forall|i: int|
                        0 <= i < layout_count(config.layout@) ==> (#[trigger] scores.spec_at(
                            i,
                            0,
                        ))@ <= config.score_threshold@) ==> hands@.len() == 0
                },
                Err(ConfigurationError::DegenerateFrame) => is_degenerate(
                    frame_width as int,
                    frame_height as int,
                    self.spec_config().canvas_size as int,
                ),
                Err(ConfigurationError::NarrowFrame) => 0 < frame_width < frame_height,
                Err(ConfigurationError::ShapeMismatch) => {
                    &&& accepts_frame(
                        frame_width as int,
                        frame_height as int,
                        self.spec_config().canvas_size as int,
                    )
                    &&& !shapes_match(
                        *scores,
                        *coords,
                        layout_count(self.spec_config().layout@),
                    )
                },
                Err(_) => false,
            },
    {
        proof {
            use_type_invariant(self);
            lemma_anchor_count(self.config.layout@, self.config.canvas_size as int);
        }
        let geometry: LetterboxGeometry = match LetterboxGeometry::compute(
            frame_width,
            frame_height,
            self.config.canvas_size,
        ) {
            Ok(g) => g,
            Err(e) => {
                return Err(e);
            },
        };
        let n: usize = self.anchors.len();
        if !scores.is_batch_of_rows(n, 1) {
            return Err(ConfigurationError::ShapeMismatch);
        }
        if coords.shape.len() != 3 {
            return Err(ConfigurationError::ShapeMismatch);
        }
        let width: usize = coords.shape[2];
        if width < MIN_ROW_WIDTH || !coords.is_batch_of_rows(n, width) {
            return Err(ConfigurationError::ShapeMismatch);
        }
        let found: Vec<HandDetails> = collect_candidates(
            scores,
            coords,
            &self.anchors,
            self.config.canvas_size,
            &geometry,
            self.config.score_threshold,
        );
        let mut hands: Vec<HandDetails> = apply_nms(found, self.config.iou_threshold);
        let ghost accepted = hands@;
        hands.truncate(self.config.top_k);
        proof {
            let k = self.config.top_k as int;
            if k <= accepted.len() {
                assert(accepted.subrange(0, k) =~= accepted.take(k));
            }
            assert(hands@ == top(accepted, k));
            assert(scores_descend(hands@)) by {
                assert forall|i: int, j: int| 0 <= i < j < hands@.len() implies hands@[i].score@
                    >= hands@[j].score@ by {
                    assert(accepted[i].score@ >= accepted[j].score@);
                }
            }
            lemma_candidates(
                n as nat,
                *scores,
                *coords,
                self.anchors@,
                self.config.canvas_size as int,
                geometry,
                self.config.score_threshold@,
            );
        }
        Ok(hands)
    }
}

} // verus!
