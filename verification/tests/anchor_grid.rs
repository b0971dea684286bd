use fingers::anchors::{anchor_count, generate_anchors, Anchor, ScaleLevel};
use fingers::detector::{DetectorConfig, HandDetector};
use fingers::fixed::Fixed;

fn level(stride: u32, map_size: u32, anchors_per_cell: u32) -> ScaleLevel {
    ScaleLevel { stride, map_size, anchors_per_cell }
}

fn anchor(x: i32, y: i32) -> Anchor {
    Anchor {
        x_center: Fixed::from_raw(x),
        y_center: Fixed::from_raw(y),
        w: Fixed::from_raw(65536),
        h: Fixed::from_raw(65536),
    }
}

#[test]
fn standard_layout_has_3072_anchors() {
    let config = DetectorConfig::standard();
    assert_eq!(anchor_count(&config.layout), Some(3072));
    let detector = HandDetector::new(config).unwrap();
    assert_eq!(detector.anchors().len(), 3072);
    assert_ne!(detector.anchors().len(), 2944);
}

#[test]
fn count_is_sum_of_cells_times_anchors_per_cell() {
    let layout = vec![level(4, 3, 5), level(2, 7, 1), level(9, 1, 4)];
    let expected = 3 * 3 * 5 + 7 * 7 + 4;
    assert_eq!(anchor_count(&layout), Some(expected));
    assert_eq!(generate_anchors(64, &layout).len(), expected);
}

#[test]
fn empty_layout_and_empty_levels_have_no_anchors() {
    assert_eq!(anchor_count(&Vec::new()), Some(0));
    assert!(generate_anchors(256, &Vec::new()).is_empty());
    let layout = vec![level(8, 0, 2), level(8, 4, 0)];
    assert_eq!(anchor_count(&layout), Some(0));
    assert!(generate_anchors(256, &layout).is_empty());
}

#[test]
fn count_that_does_not_fit_is_none() {
    let layout = vec![level(1, u32::MAX, u32::MAX)];
    assert_eq!(anchor_count(&layout), None);
    let layout = vec![level(1, 65536, 65536), level(1, 65536, 65536)];
    assert_eq!(anchor_count(&layout), Some(1usize << 49));
}

#[test]
fn anchors_come_level_by_level_row_by_row_cell_by_cell() {
    let layout = vec![level(128, 2, 1), level(256, 1, 2)];
    let anchors = generate_anchors(256, &layout);
    let expected = vec![
        anchor(16384, 16384),
        anchor(49152, 16384),
        anchor(16384, 49152),
        anchor(49152, 49152),
        anchor(32768, 32768),
        anchor(32768, 32768),
    ];
    assert_eq!(anchors, expected);
}

#[test]
fn standard_grid_centres() {
    let detector = HandDetector::new(DetectorConfig::standard()).unwrap();
    let anchors = detector.anchors();
    // Level 0: stride 8, two anchors per cell; (0 + 0.5) * 8 / 256 = 1 / 64.
    assert_eq!(anchors[0], anchor(1024, 1024));
    assert_eq!(anchors[1], anchor(1024, 1024));
    // Second cell of the first row: (1 + 0.5) * 8 / 256 = 3 / 64.
    assert_eq!(anchors[2], anchor(3072, 1024));
    // First cell of the second row.
    assert_eq!(anchors[64], anchor(1024, 3072));
    // Level 1 starts at 2048: stride 16, (0 + 0.5) * 16 / 256 = 1 / 32.
    assert_eq!(anchors[2048], anchor(2048, 2048));
    // Level 2 starts at 2560: stride 32, 1 / 16.
    assert_eq!(anchors[2560], anchor(4096, 4096));
    // Level 3 starts at 2688, six anchors per cell.
    assert_eq!(anchors[2688], anchor(4096, 4096));
    assert_eq!(anchors[2693], anchor(4096, 4096));
    assert_eq!(anchors[2694], anchor(12288, 4096));
    // The last anchor is the bottom right cell: (7 + 0.5) * 32 / 256.
    assert_eq!(anchors[3071], anchor(61440, 61440));
    for a in anchors.iter() {
        assert_eq!(a.w.raw(), 65536);
        assert_eq!(a.h.raw(), 65536);
    }
}

#[test]
fn centre_rounds_down_and_saturates() {
    // (0 + 0.5) * 1 / 3 = 1 / 6 -> floor(65536 / 6) = 10922.
    let anchors = generate_anchors(3, &vec![level(1, 1, 1)]);
    assert_eq!(anchors, vec![anchor(10922, 10922)]);
    // A stride far larger than the input saturates the centre.
    let anchors = generate_anchors(1, &vec![level(u32::MAX, 1, 1)]);
    assert_eq!(anchors, vec![anchor(i32::MAX, i32::MAX)]);
}
