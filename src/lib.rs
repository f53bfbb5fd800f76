//! A fixed-capacity bump allocator: requests are served by advancing an offset into a
//! buffer reserved up front, rounding each start up to the requested alignment, and
//! nothing is reclaimed before the whole buffer is released or reset.
use vstd::prelude::*;

pub mod align;
pub mod arena;
pub mod bump;
pub mod laws;

pub use align::{align_up, MAX_ALIGN};
pub use arena::{AllocError, Arena, Region};
pub use bump::{BumpAllocator, BUFFER_SIZE};

verus! {

} // verus!
