//! Core of a destructible 2D terrain engine.
//!
//! The terrain is a scalar field of occupancy values held in fixed-size
//! chunks ([`grid::MapData`]), tiled over an unbounded world by a sparse
//! registry ([`chunks::ChunkGrid`]). A pointer drag is rasterized into a
//! dense run of cell edits ([`path::PathRasterizer`]), boundary contours
//! are extracted from the field by marching squares and reduced to minimal
//! polygons ([`contour`]), a coarse pixel-occupancy mask is derived from an
//! entity's bounding-box hierarchy ([`mask`]), and single pixels are
//! written into a raw image surface ([`image_writer::ImageWriter`]).
//!
//! Everything here is synchronous and single-threaded: one update cycle
//! edits the field, then re-extracts contours, then rebuilds masks.

use vstd::prelude::*;

pub mod chunks;
pub mod contour;
pub mod grid;
pub mod image_writer;
pub mod mask;
pub mod path;

verus! {

/// The recoverable failures of the terrain core.
///
/// Grid accesses outside `width`/`height` report `OutOfBounds`; registering
/// a chunk at a coordinate that already holds one reports `DuplicateChunk`.
#[derive(Clone, Copy, PartialEq, Eq, Structural, Debug)]
pub enum TerrainError {
    OutOfBounds,
    DuplicateChunk,
}

} // verus!
