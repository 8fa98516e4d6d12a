//! A vertically scrolling, looping marquee of text lines.
//!
//! The crate holds the per-frame scroll engine, the text layout that feeds
//! it, and the parsing of the few settings the marquee takes. Positions and
//! sizes are whole pixels.

pub mod cli_args;
pub mod color;
pub mod cycle;
pub mod data;
pub mod file_utils;
pub mod layout;
pub mod pattern;
pub mod scroll;
pub mod string_utils;
