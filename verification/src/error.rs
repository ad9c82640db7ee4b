//! Failures a host can meet while feeding the engine.
//!
//! Every kind is fatal to the call it arises in: nothing is retried. A word
//! wider than the usable line width is deliberately *not* an error — the
//! engine draws it whole and accepts the visual overflow, and content below
//! the canvas keeps being laid out at increasing y.

use vstd::prelude::*;

verus! {

/// The distinct failure kinds surfaced to a host.
#[derive(Clone, Copy, Debug, PartialEq, Eq, Structural)]
pub enum LayoutError {
    /// The font bytes were missing or corrupt.
    FontLoad,
    /// The input source (a path or buffer) could not be read.
    SourceLoad,
    /// The input bytes were not valid UTF-8 text.
    InvalidEncoding,
    /// The metrics provider failed to produce a width.
    Measurement,
}

} // verus!
