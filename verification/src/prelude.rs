//! All essential symbols in a simple consumable form.

pub use crate::decode::decode_text;
pub use crate::engine::{DrawOp, Rgba, TextImage, DEFAULT_FONT_SIZE, DEFAULT_MARGIN};
pub use crate::error::LayoutError;
pub use crate::metrics::{CharTableMetrics, Metrics};
