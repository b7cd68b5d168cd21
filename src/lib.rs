//! The integer side of a ray tracer: the frame buffer that pixels are
//! rendered into, the loop that fills it, the budget that bounds how often a
//! ray may bounce, and the RGB byte layout that images are read from and
//! written to.
use vstd::prelude::*;

pub mod frame;
pub mod pixbytes;
pub mod render;

verus! {

} // verus!
