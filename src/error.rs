//! Failures reported by layout and by glyph store construction.
use vstd::prelude::*;

verus! {

/// A font could not decode a table or resolve a character or glyph.
#[derive(Clone, Copy, Debug, PartialEq, Eq, Structural)]
pub enum FontError {
    UnmappedCodepoint,
    GlyphNotFound,
    Malformed,
}

/// The rendering backend could not build the outline buffers.
#[derive(Clone, Copy, Debug, PartialEq, Eq, Structural)]
pub struct GlError {
    pub code: u32,
}

/// Why a glyph store could not be built.
#[derive(Clone, Copy, Debug, PartialEq, Eq, Structural)]
pub enum GlyphStoreCreationError {
    FontError(FontError),
    GlError(GlError),
}

/// Why text could not be laid out.
#[derive(Clone, Copy, Debug, PartialEq, Eq, Structural)]
pub enum TypesetError {
    FontError(FontError),
    /// The font reports zero design units per em.
    ZeroUnitsPerEm,
    /// A pen position would leave the coordinate range.
    CoordinateOverflow,
}

} // verus!
