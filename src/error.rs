//! Failures reported by the atlas builder and the cache format.
use vstd::prelude::*;

verus! {

/// Why an atlas operation failed.
#[derive(Clone, Copy, Debug, PartialEq, Eq, Structural)]
pub enum AtlasError {
    /// The glyph, with its margin, does not fit strictly inside one page.
    TooLarge { width: u32, height: u32, page_size: u32 },
    /// The glyph already has a location.
    DuplicateGlyph { glyph_id: u16 },
    /// Placing the glyph needs a page beyond the largest page index.
    OutOfPages,
    /// The index file was written by another version of the format.
    VersionMismatch { expected: u32, found: u32 },
    /// The index file ends before the data that its header announces.
    Truncated,
    /// The atlas holds more locations than the index file can count.
    TooManyLocations,
    /// The atlas holds more pages than the index file can count.
    TooManyPages,
    /// A stored page image is not a square of the expected size.
    WrongPageSize { index: u16, width: u32, height: u32, expected: u32 },
    /// A pixel buffer's length does not match its dimensions.
    PixelCount,
    /// A pixel block does not lie inside the page it is copied to.
    OutOfBounds,
}

} // verus!
