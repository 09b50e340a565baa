//! Post-processing of object-detector output and a debounced presence
//! controller for display brightness.
//!
//! One frame passes through `tensor` (raw tensor to candidates), `mapper`
//! (network space to frame pixels), `suppress` with `overlap` (confidence
//! filter and non-maximum suppression) and `presence` (the two-state
//! controller); `postprocess` joins the first three, `settings` holds what
//! can be set from outside, and `faults` says how the loop goes on after a
//! failure.
//!
//! All quantities are integers. Scores and network-space geometry are
//! fixed-point numbers counted in steps of `1 / UNIT`; pixel coordinates are
//! whole pixels and times are milliseconds.

pub mod fixed;
pub mod tensor;
pub mod mapper;
pub mod overlap;
pub mod suppress;
pub mod postprocess;
pub mod presence;
pub mod settings;
pub mod faults;
