//! A markup-to-terminal rendering library.
//!
//! The core consumes text annotated with nested bracketed style tags
//! (bold, italic, underline, named or hex colors, gradients, rainbow
//! sweeps) and produces a byte string of ANSI SGR escape sequences
//! interleaved with the literal text, diffing against the previously
//! emitted terminal state so that redundant escapes are suppressed.
//! All color math is fixed-point; no floating point is used anywhere.

pub mod buffer;
pub mod cli;
pub mod color;
pub mod emit;
pub mod laws;
pub mod phase;
pub mod render;
pub mod rules;
pub mod size;
pub mod style;
