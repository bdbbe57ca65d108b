//! The fragmenters, one for each codec.

pub mod g711;
pub mod g722;
pub mod opus;
pub mod vp8;
pub mod vp9;
pub mod h264;
