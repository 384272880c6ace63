//! Bitmap-font text rendering and immediate-mode panel layout over a raw
//! RGBA pixel buffer.
//!
//! The crate parses a line-oriented bitmap-font description into a glyph
//! store, rasterizes scaled, ligature-aware glyphs into a pixel buffer, and
//! composes widgets (text runs, tabbed panels) on top of a rectangle-cutting
//! layout engine with per-region hit testing.

pub mod explorer;
pub mod font;
pub mod pixel;
pub mod widget;
