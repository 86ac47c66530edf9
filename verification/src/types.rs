//! Plain data that the outline generator reads and writes.

use vstd::prelude::*;

verus! {

/// Identity of the texture that holds a glyph's pixels.
///
/// Two glyphs can share a draw batch only if their textures are the same.
#[derive(Clone, Copy, Debug, PartialEq, Eq, Structural)]
pub enum TextureId {
    /// A texture addressed by the bits of its slot in an asset store.
    Index(u64),
    /// A texture addressed by a universally unique identifier.
    Uuid(u128),
}

/// A rectangle of a texture atlas, in whole pixels.
///
/// The generator only carries rectangles along; it never inspects them, so a degenerate
/// rectangle is passed on as it is.
#[derive(Clone, Copy, Debug, PartialEq, Eq, Structural)]
pub struct AtlasRect {
    pub min_x: u32,
    pub min_y: u32,
    pub max_x: u32,
    pub max_y: u32,
}

/// One laid-out glyph: where its pixels live.
///
/// The glyph's pen position stays with the caller; an [`Instance`] names its glyph by
/// index so the caller can add the offset to the position.
#[derive(Clone, Copy, Debug, PartialEq, Eq, Structural)]
pub struct Glyph {
    pub texture: TextureId,
    pub rect: AtlasRect,
}

/// The two groups of outline instances.
#[derive(Clone, Copy, Debug, PartialEq, Eq, Structural)]
pub enum Layer {
    /// Drawn in the full outline color.
    Core,
    /// The outer edge of every column, drawn in the attenuated color when
    /// anti-aliasing is on.
    Rim,
}

/// Outline settings of one text, in whole device pixels.
#[derive(Clone, Copy, Debug, PartialEq, Eq, Structural)]
pub struct OutlineSpec {
    /// Requested outline width: the logical width times the scale factor, rounded up.
    pub width: i32,
    /// Whether the outer edge of the outline is drawn as a separate, fainter rim.
    pub anti_aliasing: bool,
}

/// One copy of a glyph, displaced by a whole number of pixels.
#[derive(Clone, Copy, Debug, PartialEq, Eq, Structural)]
pub struct Instance {
    /// Index of the text that the glyph belongs to.
    pub owner: usize,
    /// Index of the glyph in its text's glyph list.
    pub glyph: usize,
    pub offset_x: i32,
    pub offset_y: i32,
    /// The glyph's atlas rectangle.
    pub rect: AtlasRect,
    pub layer: Layer,
}

/// One draw call: the instances `start .. start + len` of the instance sequence, all
/// of one text, one texture and one layer.
#[derive(Clone, Copy, Debug, PartialEq, Eq, Structural)]
pub struct Batch {
    pub owner: usize,
    pub texture: TextureId,
    pub layer: Layer,
    pub start: usize,
    pub len: usize,
}

impl Batch {
    /// The index just past the batch's last instance.
    pub open spec fn end(self) -> int {
        self.start + self.len
    }
}

/// Tells whether two glyphs can be drawn from the same texture.
pub fn same_texture(a: &Glyph, b: &Glyph) -> (same: bool)
    ensures
        same == (a.texture == b.texture),
{
    a.texture == b.texture
}

} // verus!
