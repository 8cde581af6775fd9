//! Wernicke: the editor-facing side of Cranium, translating positions and
//! file names between the editor protocol and the compiler.

pub mod text;
pub mod analysis;
pub mod dispatch;
