//! A streaming text-to-raster layout engine.
//!
//! The engine consumes a character stream and incrementally lays it out as
//! word-wrapped lines on a fixed-size canvas, using glyph widths supplied by a
//! metrics provider. The canvas is modelled as the sequence of draw operations
//! the engine emits; a host replays them onto a real raster backend.

pub mod decode;
pub mod engine;
pub mod error;
pub mod laws;
pub mod metrics;
pub mod model;
pub mod prelude;
