//! A pre-rendered bitmap font ("glyph atlas"): a single image holding
//! rasterized glyphs, metadata describing where each glyph sits, and a layout
//! engine that turns a string into per-character draw positions using
//! per-glyph advance/offset metrics and pairwise kerning adjustments.

pub mod font;
pub mod layout;
pub mod atlas;
pub mod meta;

pub use font::CharInfo;
pub use font::FontMeta;
pub use font::RenderedFont;
pub use layout::OutputPosition;
pub use meta::MetaDecodeError;
pub use meta::decode_metadata;
pub use meta::encode_metadata;
pub use atlas::DecodingError;
pub use atlas::EncodingError;
pub use atlas::load_atlas;
pub use atlas::encode_atlas;
