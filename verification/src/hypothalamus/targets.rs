//! Target-specific image builders.

pub mod gba;
