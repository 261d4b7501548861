//! Drawing: the quad and the batched renderer.

pub mod renderer2d;
pub mod shapes;

use vstd::prelude::*;

verus! {

/// Whether a surface can be configured to `width` by `height`: a surface
/// of no extent, as a minimised window has it, is left as it is.
pub fn can_configure_surface(width: u32, height: u32) -> (configurable: bool)
    ensures
        configurable == (width > 0 && height > 0),
{
    width > 0 && height > 0
}

} // verus!
