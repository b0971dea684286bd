//! Hand detection around a single-shot detector network, in fixed-point
//! arithmetic.
//!
//! The network itself runs elsewhere. This crate prepares its input from a
//! camera frame, turns its two output tensors into ranked, deduplicated
//! detections in the coordinate space of the frame, and marks them in a window.
//!
//! Every coordinate and score is a [`fixed::Fixed`]: a signed value with
//! sixteen fractional bits whose operations saturate and round down, so that
//! the result of each step is stated exactly.

pub mod fixed;
pub mod error;
pub mod detection;
pub mod tensor;
pub mod anchors;
pub mod letterbox;
pub mod frame;
pub mod decode;
pub mod overlap;
pub mod suppress;
pub mod pipeline;
pub mod detector;
pub mod display;
