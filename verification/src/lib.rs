//! Cuts a raster image into a rectangular grid of interlocking jigsaw pieces.
//!
//! The library plans, for every internal edge of the grid, which of the two
//! adjacent cells carries the protruding tab and which the matching recess,
//! renders the eight canonical tab and recess silhouettes as bezier boundary
//! templates, and rasterizes each cell into an RGBA piece image whose pixels
//! are either fully transparent or copies of the source image.

use vstd::prelude::*;

pub mod curve;
pub mod grid;
pub mod pipeline;
pub mod raster;
pub mod rng;

verus! {

/// Everything that can go wrong while cutting an image into pieces.
#[derive(Clone, Copy, Debug, PartialEq, Eq, Structural)]
pub enum JigsawError {
    /// A grid dimension is zero.
    InvalidGrid,
    /// The grid does not fit the address space of this machine.
    GridTooLarge,
    /// The coin vector does not hold one coin per internal edge.
    CoinCountMismatch,
    /// The cell geometry is too small for the curve proportions.
    DegenerateGeometry,
    /// A rendered boundary curve never crossed the probed row.
    EmptyCurve,
}

} // verus!
