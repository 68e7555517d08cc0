//! Glyph outlines as SVG path data, and runs of glyphs laid out along a
//! baseline.
//!
//! A font backend decomposes a glyph at some size into outline events and
//! measures its bounding box. This library takes it from there: `recorder`
//! writes the events as path commands, `glyph` anchors one glyph at a point,
//! and `layout` places a run of glyphs from left to right with a fixed
//! letter spacing. `element` wraps finished path data into a `path` element
//! of the `svg` crate.
//!
//! All coordinates are integers on a grid of the caller's choosing.

pub mod decimal;
pub mod element;
pub mod geometry;
pub mod glyph;
pub mod layout;
pub mod recorder;

pub use crate::element::{filled_path, path_attributes};
pub use crate::geometry::{OutOfRange, Point, Rect};
pub use crate::glyph::{Glyph, ScaledGlyph};
pub use crate::layout::{layout, text, LayoutError, VMetrics};
pub use crate::recorder::{Builder, Segment};
