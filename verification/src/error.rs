//! The ways in which the detector refuses its input.

use vstd::prelude::*;

verus! {

/// A configuration or input that the detector cannot work with.
///
/// Finding no hand is not among these: it is an empty result.
#[derive(Clone, Copy, Debug, PartialEq, Eq)]
pub enum ConfigurationError {
    /// The canvas size is zero.
    EmptyCanvas,
    /// The anchor layout describes more anchors than can be counted.
    LayoutTooLarge,
    /// The frame has no width, or its content comes to no row of the canvas.
    DegenerateFrame,
    /// The frame is taller than it is wide.
    NarrowFrame,
    /// A tensor's shape does not match the anchor grid.
    ShapeMismatch,
    /// A pixel buffer does not hold three bytes for each pixel of its image.
    MalformedFrame,
    /// A frame or canvas has a side of more than 4096 pixels.
    FrameTooLarge,
}

} // verus!
