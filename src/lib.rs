//! Greedy word-wrap layout of left-to-right text on a page of fixed width,
//! a dense remapping of the glyph identifiers a layout uses, and a culling
//! query that turns laid-out glyphs into pixel-snapped quads.
//!
//! Coordinates are integers counting 1/64 px; point sizes and scale factors
//! count 1/64 of their unit.
pub mod codepoints;
pub mod cull;
pub mod error;
pub mod glyph_store;
pub mod text;
pub mod typesetter;
pub mod units;

pub use cull::{PositionedGlyph, Rect, SnappedRect};
pub use error::{FontError, GlError, GlyphStoreCreationError, TypesetError};
pub use codepoints::{CodepointRange, CodepointRanges};
pub use glyph_store::{GlyphBounds, GlyphMapping, GlyphStore, OutlineBuilder};
pub use typesetter::{FontMetrics, GlyphPosition, LineStyle, ShapedGlyph, TextFont, Typesetter};
