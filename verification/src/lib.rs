//! Outline geometry for rendered text.
//!
//! An outline is drawn by placing extra copies of every glyph around the glyph's own
//! position. The copies follow a radial pattern of integer offsets, are split into an
//! opaque core layer and a faint rim layer, and are grouped into draw batches that
//! address contiguous ranges of one instance sequence.
//!
//! The library works on plain data. Positions, colors and transforms stay with the
//! caller: an instance names its text and its glyph by index and carries a whole-pixel
//! offset and a layer, and a batch names its text, its texture and its layer.
//!
//! - [`radial`]: square roots, rounded up.
//! - [`pattern`]: the radial pattern and its two layers.
//! - [`expander`]: the instances of one glyph.
//! - [`runs`]: runs of glyphs that share a texture, and what they put into the output.
//! - [`batching`]: the instances and batches of one text.
//! - [`extract`]: the passes over all texts of a frame.
//! - [`tiling`]: batches that lie end to end.
//! - [`plugin`]: configuration.

pub mod batching;
pub mod expander;
pub mod extract;
pub mod pattern;
pub mod plugin;
pub mod radial;
pub mod runs;
pub mod seq_lemmas;
pub mod tiling;
pub mod types;
