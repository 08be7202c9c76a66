//! A verified core for a line-oriented text display engine in the style of
//! the classic `cat` utility: line numbering, blank-line squeezing, and
//! visualization of control and high-bit bytes, with greedy regrouping of
//! UTF-8 continuation bytes in raw display mode.
//!
//! The engine is pure: it consumes raw bytes and appends display bytes to a
//! caller-supplied sink. Reading sources and writing to standard output are
//! left to the surrounding program.

pub mod classify;
pub mod codepoint;
pub mod config;
pub mod engine;
pub mod laws;
pub mod line;
pub mod render;
