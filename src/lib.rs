//! Glyph atlas packing and its on-disk cache format.

pub mod atlas;
pub mod cache_key;
pub mod error;
pub mod glyph_bounds;
pub mod index_file;
pub mod location;
pub mod order;
pub mod page;
pub mod shaping;
