//! The records that the detector reports.
//!
//! Coordinates are normalised: `0` is the left or top edge and `1.0` the right
//! or bottom edge of the space that the record lives in. A record that comes
//! out of decoding lives in canvas space (the square model input, padding
//! included); a record that the pipeline reports lives in source-frame space.

use vstd::prelude::*;
use crate::fixed::Fixed;

verus! {

/// An axis-aligned bounding box, given by two corners.
///
/// Nothing forces `xmin <= xmax` or `ymin <= ymax`: a degenerate decode may
/// produce an inverted box, and the overlap measure treats it as empty.
#[derive(Clone, Copy, Debug, PartialEq, Eq)]
pub struct Box {
    pub xmin: Fixed,
    pub ymin: Fixed,
    pub xmax: Fixed,
    pub ymax: Fixed,
}

/// A single point.
#[derive(Clone, Copy, Debug, PartialEq, Eq)]
pub struct Landmark {
    pub x: Fixed,
    pub y: Fixed,
}

/// One detected hand: the raw confidence of its anchor, its box and its wrist.
#[derive(Clone, Copy, Debug, PartialEq, Eq)]
pub struct HandDetails {
    pub score: Fixed,
    pub bbox: Box,
    pub wrist: Landmark,
}

} // verus!
