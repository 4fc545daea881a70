//! A verified line reducer.
//!
//! The library cleans a stream of text lines, interprets each line under a
//! configurable policy (a count of leading lines to ignore, blank-line
//! termination, strict or silent handling of non-numeric lines), and plans a
//! left fold over the numeric values that survive. Numeric values are carried
//! as their decimal literal text; turning a literal into a machine float and
//! applying the arithmetic itself is left to the (unverified) binary around
//! the library.

pub mod fold;
pub mod interpret;
pub mod numeric;
pub mod reducer;
pub mod text;
