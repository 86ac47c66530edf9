//! Configuration of the outline generator.

use vstd::prelude::*;

verus! {

/// The largest outline radius that is ever drawn, in device pixels.
///
/// The cost of an outline grows with the square of its radius. A text that asks for a
/// wider outline gets one of this width.
#[derive(Clone, Copy, Debug, PartialEq, Eq, Structural)]
pub struct TextOutlineMaxWidth {
    pub max_width: u16,
}

/// Settings with which the outline generator is installed.
#[derive(Clone, Copy, Debug, PartialEq, Eq, Structural)]
pub struct SlowTextOutlinePlugin {
    pub max_width: u16,
}

impl SlowTextOutlinePlugin {
    /// The radius cap that the generator works with once it is installed.
    pub fn max_width_resource(&self) -> (resource: TextOutlineMaxWidth)
        ensures
            resource.max_width == self.max_width,
    {
        TextOutlineMaxWidth { max_width: self.max_width }
    }
}

impl Default for SlowTextOutlinePlugin {
    /// Outlines of up to eight pixels.
    fn default() -> (plugin: Self)
        ensures
            plugin.max_width == 8,
    {
        Self { max_width: 8u16 }
    }
}

} // verus!
