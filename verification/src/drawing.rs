//! Pixel-plane geometry shared with the rendering layer: a point and
//! the terminal's dimensions. The drawing itself (lines, glyphs, image
//! transmission) lives with the renderer outside this crate's core.

use vstd::prelude::*;

verus! {

/// A point on the pixel plane.
#[derive(Debug, Clone, Copy, PartialEq, Eq, Structural)]
pub struct Position {
    pub x: usize,
    pub y: usize,
}

/// Terminal size, in pixels and in character cells.
#[derive(Debug, Clone, Copy, PartialEq, Eq, Structural)]
pub struct Dimensions {
    pub width: usize,
    pub height: usize,
    pub cols: usize,
    pub rows: usize,
}

} // verus!
