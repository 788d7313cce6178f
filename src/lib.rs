//! Harris corner detection on 8-bit grayscale frames, in exact integer
//! arithmetic, with greedy non-maximum suppression of the response surface.

pub mod conv;
pub mod harris;
pub mod select;
pub mod detect;
pub mod laws;
