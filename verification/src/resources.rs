//! What fragments hold of fonts, images and browsing contexts: font metrics
//! and glyph runs as the font system reports them, and the ids under which
//! the constellation knows nested browsing contexts. The renderer's keys for
//! fonts and images are `webrender_api`'s own types.
use vstd::prelude::*;

verus! {

/// Metrics of a font, in app units, as the font system reports them.
#[derive(Clone, Copy, Debug, PartialEq, Eq, Structural)]
pub struct GfxFontMetrics {
    pub underline_size: i32,
    pub underline_offset: i32,
    pub strikeout_size: i32,
    pub strikeout_offset: i32,
    pub leading: i32,
    pub x_height: i32,
    pub em_size: i32,
    pub ascent: i32,
    pub descent: i32,
    pub max_advance: i32,
    pub average_advance: i32,
    pub line_gap: i32,
}

/// A run of shaped glyphs, of which fragments read the number of entries.
#[derive(Clone, Copy, Debug, PartialEq, Eq, Structural)]
pub struct GlyphStore {
    pub len: isize,
}

/// The renderer's key for a font instance, carried through as it is.
#[verifier::external_type_specification]
#[verifier::external_body]
pub struct ExFontInstanceKey(webrender_api::FontInstanceKey);

/// The renderer's key for an image, carried through as it is.
#[verifier::external_type_specification]
#[verifier::external_body]
pub struct ExImageKey(webrender_api::ImageKey);

/// Identifies the pipeline of a nested browsing context.
#[derive(Clone, Copy, Debug, PartialEq, Eq, Structural)]
pub struct PipelineId {
    pub namespace_id: u32,
    pub index: u32,
}

/// Identifies a nested browsing context.
#[derive(Clone, Copy, Debug, PartialEq, Eq, Structural)]
pub struct BrowsingContextId {
    pub namespace_id: u32,
    pub index: u32,
}

} // verus!
