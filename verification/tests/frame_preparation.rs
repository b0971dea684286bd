use fingers::error::ConfigurationError;
use fingers::frame::{letterbox_frame, place_on_canvas, to_planar, Frame, MAX_SIDE};
use fingers::letterbox::LetterboxGeometry;

fn uniform(width: u32, height: u32, colour: [u8; 3]) -> Frame {
    let mut pixels = Vec::new();
    for _ in 0..(width * height) {
        pixels.extend_from_slice(&colour);
    }
    Frame { width, height, pixels }
}

#[test]
fn frame_of_the_content_size_is_copied_between_the_bars() {
    // Four pixels wide, two high, on a canvas of side four: one black row
    // above, one below.
    let pixels: Vec<u8> = (1..=24).collect();
    let frame = Frame { width: 4, height: 2, pixels: pixels.clone() };
    let canvas = letterbox_frame(&frame, 4).unwrap();
    let mut expected = vec![0u8; 12];
    expected.extend_from_slice(&pixels);
    expected.extend_from_slice(&[0u8; 12]);
    assert_eq!(canvas, expected);
}

#[test]
fn uniform_frame_shrinks_to_a_uniform_band() {
    let frame = uniform(8, 4, [10, 200, 30]);
    let canvas = letterbox_frame(&frame, 4).unwrap();
    assert_eq!(canvas.len(), 48);
    let row = [10u8, 200, 30, 10, 200, 30, 10, 200, 30, 10, 200, 30];
    assert_eq!(&canvas[0..12], &[0u8; 12]);
    assert_eq!(&canvas[12..24], &row);
    assert_eq!(&canvas[24..36], &row);
    assert_eq!(&canvas[36..48], &[0u8; 12]);
}

#[test]
fn uniform_frame_grows_to_a_uniform_band() {
    let frame = uniform(2, 1, [255, 0, 128]);
    let canvas = letterbox_frame(&frame, 6).unwrap();
    // Three rows of content, one row above, two below.
    assert_eq!(canvas.len(), 108);
    assert!(canvas[0..18].iter().all(|b| *b == 0));
    for pixel in canvas[18..72].chunks(3) {
        assert_eq!(pixel, &[255, 0, 128]);
    }
    assert!(canvas[72..108].iter().all(|b| *b == 0));
}

#[test]
fn shrinking_averages_neighbours() {
    // A row of two black and two white pixels, halved: one black, one white.
    let frame = Frame {
        width: 4,
        height: 1,
        pixels: vec![0, 0, 0, 0, 0, 0, 255, 255, 255, 255, 255, 255],
    };
    let canvas = letterbox_frame(&frame, 2).unwrap();
    assert_eq!(canvas.len(), 12);
    // content_rows = round(1 * 2 / 4) = 1, no padding above, one row below.
    assert!(canvas[0] < 128 && canvas[3] > 128);
    assert_ne!(&canvas[0..6], &frame.pixels[0..6]);
    assert_eq!(&canvas[6..12], &[0u8; 6]);
}

#[test]
fn square_frame_has_no_bars() {
    let pixels: Vec<u8> = (0..27).collect();
    let frame = Frame { width: 3, height: 3, pixels: pixels.clone() };
    assert_eq!(letterbox_frame(&frame, 3), Ok(pixels));
}

#[test]
fn pixel_buffer_must_match_the_dimensions() {
    let frame = Frame { width: 4, height: 2, pixels: vec![0; 23] };
    assert_eq!(letterbox_frame(&frame, 4), Err(ConfigurationError::MalformedFrame));
    let frame = Frame { width: 4, height: 2, pixels: vec![0; 25] };
    assert_eq!(letterbox_frame(&frame, 4), Err(ConfigurationError::MalformedFrame));
    let frame = Frame { width: u32::MAX, height: u32::MAX, pixels: Vec::new() };
    assert_eq!(letterbox_frame(&frame, 4), Err(ConfigurationError::MalformedFrame));
}

#[test]
fn sides_beyond_the_limit_are_refused() {
    assert_eq!(MAX_SIDE, 4096);
    let frame = Frame { width: 4097, height: 0, pixels: Vec::new() };
    assert_eq!(letterbox_frame(&frame, 4), Err(ConfigurationError::FrameTooLarge));
    let frame = Frame { width: 0, height: 4097, pixels: Vec::new() };
    assert_eq!(letterbox_frame(&frame, 4), Err(ConfigurationError::FrameTooLarge));
    let frame = uniform(4, 2, [1, 2, 3]);
    assert_eq!(letterbox_frame(&frame, 4097), Err(ConfigurationError::FrameTooLarge));
}

#[test]
fn frame_shape_is_checked_last() {
    let frame = Frame { width: 0, height: 0, pixels: Vec::new() };
    assert_eq!(letterbox_frame(&frame, 4), Err(ConfigurationError::DegenerateFrame));
    let frame = Frame { width: 4096, height: 0, pixels: Vec::new() };
    assert_eq!(letterbox_frame(&frame, 4), Err(ConfigurationError::DegenerateFrame));
    let frame = uniform(2, 4, [1, 2, 3]);
    assert_eq!(letterbox_frame(&frame, 4), Err(ConfigurationError::NarrowFrame));
    let frame = uniform(4, 2, [1, 2, 3]);
    assert_eq!(letterbox_frame(&frame, 0), Err(ConfigurationError::DegenerateFrame));
}

#[test]
fn content_is_placed_below_the_upper_bar() {
    let g = LetterboxGeometry::compute(4, 1, 3).unwrap();
    // round(3 / 4) = 1 row of content, one row above, one below.
    assert_eq!(g.content_height, 1);
    assert_eq!(g.pad_y, 1);
    let content = vec![1u8, 2, 3, 4, 5, 6, 7, 8, 9];
    let canvas = place_on_canvas(&content, &g).unwrap();
    let expected = vec![
        0u8, 0, 0, 0, 0, 0, 0, 0, 0, //
        1, 2, 3, 4, 5, 6, 7, 8, 9, //
        0, 0, 0, 0, 0, 0, 0, 0, 0,
    ];
    assert_eq!(canvas, expected);
}

#[test]
fn uneven_bars_put_the_extra_row_below() {
    let g = LetterboxGeometry::compute(2, 1, 4).unwrap();
    assert_eq!(g.content_height, 2);
    assert_eq!(g.pad_y, 1);
    let g = LetterboxGeometry::compute(4, 1, 4).unwrap();
    assert_eq!(g.content_height, 1);
    assert_eq!(g.pad_y, 1);
    let content = vec![9u8; 12];
    let canvas = place_on_canvas(&content, &g).unwrap();
    assert_eq!(canvas.len(), 48);
    assert_eq!(&canvas[0..12], &[0u8; 12]);
    assert_eq!(&canvas[12..24], &[9u8; 12]);
    assert_eq!(&canvas[24..48], &[0u8; 24]);
}

#[test]
fn content_of_the_wrong_size_is_refused() {
    let g = LetterboxGeometry::compute(4, 1, 3).unwrap();
    assert_eq!(place_on_canvas(&vec![0u8; 8], &g), Err(ConfigurationError::MalformedFrame));
    assert_eq!(place_on_canvas(&vec![0u8; 10], &g), Err(ConfigurationError::MalformedFrame));
    let g = LetterboxGeometry::compute(4, 1, 5000).unwrap();
    assert_eq!(place_on_canvas(&Vec::new(), &g), Err(ConfigurationError::FrameTooLarge));
}

#[test]
fn planes_hold_one_channel_each() {
    let canvas = vec![
        1u8, 2, 3, 4, 5, 6, //
        7, 8, 9, 10, 11, 12,
    ];
    let planes = to_planar(&canvas, 2).unwrap();
    assert_eq!(planes, vec![1, 4, 7, 10, 2, 5, 8, 11, 3, 6, 9, 12]);
}

#[test]
fn planes_of_small_canvases() {
    assert_eq!(to_planar(&Vec::new(), 0), Ok(Vec::new()));
    assert_eq!(to_planar(&vec![7, 8, 9], 1), Ok(vec![7, 8, 9]));
}

#[test]
fn planes_need_a_canvas_of_the_right_size() {
    assert_eq!(to_planar(&vec![0u8; 11], 2), Err(ConfigurationError::MalformedFrame));
    assert_eq!(to_planar(&vec![0u8; 13], 2), Err(ConfigurationError::MalformedFrame));
    assert_eq!(to_planar(&vec![0u8; 12], 0), Err(ConfigurationError::MalformedFrame));
    assert_eq!(to_planar(&Vec::new(), u32::MAX), Err(ConfigurationError::MalformedFrame));
}

#[test]
fn letterboxed_frame_goes_through_to_planes() {
    let frame = uniform(4, 2, [10, 20, 30]);
    let canvas = letterbox_frame(&frame, 4).unwrap();
    let planes = to_planar(&canvas, 4).unwrap();
    let plane = |v: u8| vec![0, 0, 0, 0, v, v, v, v, v, v, v, v, 0, 0, 0, 0];
    let mut expected = plane(10);
    expected.extend(plane(20));
    expected.extend(plane(30));
    assert_eq!(planes, expected);
}
