//! Pictures as expression trees over pixel coordinates and time: the tree, its
//! stack-machine form, the machine that runs it on lanes of pixels, and the
//! scan that turns the results into RGBA bytes.
//!
//! Every number that a picture computes with is an IEEE 754 single-precision
//! value held as its bit pattern in a `u32`. The arithmetic itself is not part
//! of this crate: each function that needs it takes a lane unit, a function
//! that applies one [`ops::Op`] to whole lanes at once.

pub mod actual_picture;
pub mod aptnode;
pub mod coordinatesystem;
pub mod generate;
pub mod mono;
pub mod ops;
pub mod stackmachine;
