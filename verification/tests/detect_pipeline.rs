use fingers::anchors::ScaleLevel;
use fingers::detection::{Box, HandDetails, Landmark};
use fingers::detector::{DetectorConfig, HandDetector};
use fingers::error::ConfigurationError;
use fingers::fixed::Fixed;
use fingers::letterbox::LetterboxGeometry;
use fingers::tensor::Tensor;

/// A detector with four anchors, centred on the quarters of a 256 canvas.
fn small_detector(top_k: usize) -> HandDetector {
    let config = DetectorConfig {
        canvas_size: 256,
        layout: vec![ScaleLevel { stride: 128, map_size: 2, anchors_per_cell: 1 }],
        score_threshold: Fixed::from_int(1),
        iou_threshold: Fixed::from_ratio(3, 10),
        top_k,
    };
    HandDetector::new(config).unwrap()
}

fn scores(values: &[i32]) -> Tensor {
    Tensor {
        shape: vec![1, values.len(), 1],
        data: values.iter().map(|v| Fixed::from_raw(*v)).collect(),
    }
}

/// Regression rows in whole pixels.
fn coords(width: usize, values: &[i32]) -> Tensor {
    Tensor {
        shape: vec![1, values.len() / width, width],
        data: values.iter().map(|v| Fixed::from_int(*v)).collect(),
    }
}

/// Four rows that put a box of 64 by 48 pixels near each anchor.
fn four_rows() -> Tensor {
    coords(
        6,
        &[
            32, 16, 64, 48, 0, 16, //
            32, 16, 64, 48, 0, 16, //
            32, 16, 64, 48, 0, 16, //
            32, 16, 64, 48, 0, 16,
        ],
    )
}

fn raw_box(xmin: i32, ymin: i32, xmax: i32, ymax: i32) -> Box {
    Box {
        xmin: Fixed::from_raw(xmin),
        ymin: Fixed::from_raw(ymin),
        xmax: Fixed::from_raw(xmax),
        ymax: Fixed::from_raw(ymax),
    }
}

#[test]
fn scores_below_threshold_give_an_empty_result() {
    let detector = small_detector(2);
    let result = detector.detect(640, 480, &scores(&[0, 65535, -70000, 100]), &four_rows());
    assert_eq!(result, Ok(Vec::new()));
}

#[test]
fn score_equal_to_threshold_is_not_a_detection() {
    let detector = small_detector(2);
    let result = detector.detect(640, 480, &scores(&[65536, 65536, 65536, 65536]), &four_rows());
    assert_eq!(result, Ok(Vec::new()));
    let result = detector.detect(640, 480, &scores(&[65536, 65537, 65536, 65536]), &four_rows());
    assert_eq!(result.unwrap().len(), 1);
}

#[test]
fn decoded_box_is_reported_in_frame_space() {
    let detector = small_detector(2);
    let result = detector.detect(640, 480, &scores(&[131072, 0, 0, 0]), &four_rows()).unwrap();
    // Anchor 0 sits at (0.25, 0.25). In canvas space the box is centred on
    // (0.375, 0.3125) with half size (0.125, 0.09375), and the wrist is at
    // (0.25, 0.3125). With 32 rows of padding and 192 rows of content the
    // vertical coordinates become (y - 0.125) / 0.75.
    let expected = HandDetails {
        score: Fixed::from_int(2),
        bbox: raw_box(16384, 8192, 32768, 24576),
        wrist: Landmark { x: Fixed::from_raw(16384), y: Fixed::from_raw(16384) },
    };
    assert_eq!(result, vec![expected]);
}

#[test]
fn forward_transform_recovers_the_canvas_box() {
    let detector = small_detector(2);
    let result = detector.detect(640, 480, &scores(&[131072, 0, 0, 0]), &four_rows()).unwrap();
    let g = LetterboxGeometry::compute(640, 480, 256).unwrap();
    let reported = result[0];
    let canvas_box = Box {
        xmin: reported.bbox.xmin,
        ymin: g.canvas_y(reported.bbox.ymin),
        xmax: reported.bbox.xmax,
        ymax: g.canvas_y(reported.bbox.ymax),
    };
    // The box as decoded by hand: centre (0.375, 0.3125), size (0.25, 0.1875).
    assert_eq!(canvas_box, raw_box(16384, 14336, 32768, 26624));
    assert_eq!(g.canvas_y(reported.wrist.y).raw(), 20480);
}

#[test]
fn result_is_cut_to_top_k_and_sorted() {
    // Four boxes far apart from each other, so none suppresses another.
    let detector = small_detector(2);
    let s = scores(&[70000, 90000, 80000, 100000]);
    let result = detector.detect(640, 480, &s, &four_rows()).unwrap();
    assert_eq!(result.len(), 2);
    assert_eq!(result[0].score.raw(), 100000);
    assert_eq!(result[1].score.raw(), 90000);
    assert_eq!(small_detector(3).detect(640, 480, &s, &four_rows()).unwrap().len(), 3);
    let all = small_detector(10).detect(640, 480, &s, &four_rows()).unwrap();
    let order: Vec<i32> = all.iter().map(|d| d.score.raw()).collect();
    assert_eq!(order, vec![100000, 90000, 80000, 70000]);
    assert!(small_detector(0).detect(640, 480, &s, &four_rows()).unwrap().is_empty());
}

#[test]
fn overlapping_detections_are_merged() {
    let detector = small_detector(2);
    // Rows 0 and 1 decode to the same place: row 1 moves left by the distance
    // between the two anchors. Row 3 stays apart.
    let c = coords(
        6,
        &[
            32, 16, 64, 48, 0, 16, //
            -96, 16, 64, 48, 0, 16, //
            32, 16, 64, 48, 0, 16, //
            32, 16, 64, 48, 0, 16,
        ],
    );
    let result = detector.detect(640, 480, &scores(&[90000, 95000, 0, 80000]), &c).unwrap();
    assert_eq!(result.len(), 2);
    assert_eq!(result[0].score.raw(), 95000);
    assert_eq!(result[0].bbox, raw_box(16384, 8192, 32768, 24576));
    assert_eq!(result[1].score.raw(), 80000);
}

#[test]
fn equal_scores_are_reported_in_anchor_order() {
    let detector = small_detector(4);
    let c = coords(
        6,
        &[
            0, 0, 64, 48, 1, 0, //
            0, 0, 64, 48, 2, 0, //
            0, 0, 64, 48, 3, 0, //
            0, 0, 64, 48, 4, 0,
        ],
    );
    let result = detector.detect(640, 480, &scores(&[70000, 70000, 70000, 70000]), &c).unwrap();
    let xs: Vec<i32> = result.iter().map(|d| d.wrist.x.raw()).collect();
    assert_eq!(xs, vec![16384 + 256, 49152 + 512, 16384 + 768, 49152 + 1024]);
}

#[test]
fn wrong_score_shape_is_a_mismatch() {
    let detector = small_detector(2);
    let mismatch = Err(ConfigurationError::ShapeMismatch);
    assert_eq!(detector.detect(640, 480, &scores(&[0, 0, 0]), &four_rows()), mismatch);
    assert_eq!(detector.detect(640, 480, &scores(&[0, 0, 0, 0, 0]), &four_rows()), mismatch);
    let flat = Tensor { shape: vec![4], data: vec![Fixed::from_int(0); 4] };
    assert_eq!(detector.detect(640, 480, &flat, &four_rows()), mismatch);
    let wide = Tensor { shape: vec![1, 4, 2], data: vec![Fixed::from_int(0); 8] };
    assert_eq!(detector.detect(640, 480, &wide, &four_rows()), mismatch);
    let short = Tensor { shape: vec![1, 4, 1], data: vec![Fixed::from_int(0); 3] };
    assert_eq!(detector.detect(640, 480, &short, &four_rows()), mismatch);
}

#[test]
fn wrong_coords_shape_is_a_mismatch() {
    let detector = small_detector(2);
    let s = scores(&[0, 0, 0, 0]);
    let mismatch = Err(ConfigurationError::ShapeMismatch);
    let narrow = coords(5, &[0; 20]);
    assert_eq!(detector.detect(640, 480, &s, &narrow), mismatch);
    let few = coords(6, &[0; 18]);
    assert_eq!(detector.detect(640, 480, &s, &few), mismatch);
    let flat = Tensor { shape: vec![4, 6], data: vec![Fixed::from_int(0); 24] };
    assert_eq!(detector.detect(640, 480, &s, &flat), mismatch);
    let long = Tensor { shape: vec![1, 4, 6], data: vec![Fixed::from_int(0); 25] };
    assert_eq!(detector.detect(640, 480, &s, &long), mismatch);
    let wide = coords(18, &[0; 72]);
    assert_eq!(detector.detect(640, 480, &s, &wide), Ok(Vec::new()));
}

#[test]
fn standard_detector_refuses_2944_rows() {
    let detector = HandDetector::new(DetectorConfig::standard()).unwrap();
    let s = Tensor { shape: vec![1, 2944, 1], data: vec![Fixed::from_int(0); 2944] };
    let c = Tensor { shape: vec![1, 2944, 18], data: vec![Fixed::from_int(0); 2944 * 18] };
    assert_eq!(detector.detect(640, 480, &s, &c), Err(ConfigurationError::ShapeMismatch));
    let s = Tensor { shape: vec![1, 3072, 1], data: vec![Fixed::from_int(0); 3072] };
    let c = Tensor { shape: vec![1, 3072, 18], data: vec![Fixed::from_int(0); 3072 * 18] };
    assert_eq!(detector.detect(640, 480, &s, &c), Ok(Vec::new()));
}

#[test]
fn frame_is_checked_before_the_tensors() {
    let detector = small_detector(2);
    let bad = scores(&[0]);
    assert_eq!(
        detector.detect(0, 480, &bad, &four_rows()),
        Err(ConfigurationError::DegenerateFrame)
    );
    assert_eq!(
        detector.detect(640, 0, &bad, &four_rows()),
        Err(ConfigurationError::DegenerateFrame)
    );
    assert_eq!(detector.detect(480, 640, &bad, &four_rows()), Err(ConfigurationError::NarrowFrame));
    assert_eq!(detector.detect(640, 480, &bad, &four_rows()), Err(ConfigurationError::ShapeMismatch));
}

#[test]
fn canvas_of_size_zero_is_refused() {
    let config = DetectorConfig {
        canvas_size: 0,
        layout: Vec::new(),
        score_threshold: Fixed::from_int(1),
        iou_threshold: Fixed::from_ratio(3, 10),
        top_k: 2,
    };
    assert!(matches!(HandDetector::new(config), Err(ConfigurationError::EmptyCanvas)));
}

#[test]
fn layout_beyond_counting_is_refused() {
    let config = DetectorConfig {
        canvas_size: 256,
        layout: vec![ScaleLevel { stride: 1, map_size: u32::MAX, anchors_per_cell: u32::MAX }],
        score_threshold: Fixed::from_int(1),
        iou_threshold: Fixed::from_ratio(3, 10),
        top_k: 2,
    };
    assert!(matches!(HandDetector::new(config), Err(ConfigurationError::LayoutTooLarge)));
}

#[test]
fn standard_configuration_values() {
    let config = DetectorConfig::standard();
    assert_eq!(config.canvas_size, 256);
    assert_eq!(config.layout.len(), 4);
    assert_eq!(config.layout[3], ScaleLevel { stride: 32, map_size: 8, anchors_per_cell: 6 });
    assert_eq!(config.score_threshold.raw(), 65536);
    assert_eq!(config.iou_threshold.raw(), 19660);
    assert_eq!(config.top_k, 2);
    let detector = HandDetector::new(config).unwrap();
    assert_eq!(detector.config().canvas_size, 256);
}

#[test]
fn detector_without_anchors_takes_empty_tensors() {
    let config = DetectorConfig {
        canvas_size: 256,
        layout: Vec::new(),
        score_threshold: Fixed::from_int(1),
        iou_threshold: Fixed::from_ratio(3, 10),
        top_k: 2,
    };
    let detector = HandDetector::new(config).unwrap();
    let s = Tensor { shape: vec![1, 0, 1], data: Vec::new() };
    let c = Tensor { shape: vec![1, 0, 6], data: Vec::new() };
    assert_eq!(detector.detect(640, 480, &s, &c), Ok(Vec::new()));
}
