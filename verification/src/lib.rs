//! Renders planar integrated-circuit layout cells into raster drawing plans.
//!
//! Layout geometry arrives in integer database units; a human-authored rule
//! sheet assigns visual styles to numeric layers.  The library turns both into
//! an ordered, styled, scaled drawing plan.  All numeric style and coordinate
//! values are exact rationals, so every step of the pipeline is verified.
//!
//! The pipeline, leaves first: `gds` models the layout source, `scan` and
//! `loader` read the rule sheet into a `context::Context`, `style` resolves
//! each layer's cascading style, `prepare` filters and sorts one cell's
//! geometry, `plot` derives the affine `transform` and canvas size, and
//! `render` emits the deterministic command plan a raster backend executes.

pub mod color;
pub mod context;
pub mod gds;
pub mod geometry;
pub mod loader;
pub mod plot;
pub mod prepare;
pub mod rat;
pub mod render;
pub mod scan;
pub mod style;
pub mod transform;

use vstd::prelude::*;

verus! {

/// Why a stylesheet line or a render request was refused.
///
/// The first six variants are configuration errors: the offending line must
/// not contribute any state.  The last three refuse a render request whose
/// geometry or scale cannot produce a canvas.
#[derive(Clone, Copy, Debug, PartialEq, Eq, Structural)]
pub enum Error {
    /// The first token of a stylesheet line names no known directive.
    UnknownDirective,
    /// A style attribute keyword is not one of the recognized attributes.
    UnknownAttribute,
    /// A `pattern` value is not a recognized fill pattern.
    UnknownPattern,
    /// A numeric literal is malformed or out of machine range.
    BadNumber,
    /// A color literal is not `#RRGGBB`.
    BadColor,
    /// A directive names fewer arguments than it needs.
    MissingArgument,
    /// The visible extents of the cell are empty: nothing can be scaled.
    NoVisibleGeometry,
    /// The requested canvas size or resolution is not positive.
    BadScaleTarget,
    /// An exact coordinate or size left the machine range.
    Overflow,
}

} // verus!
