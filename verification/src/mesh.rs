//! Index types of index buffers.

use vstd::prelude::*;

verus! {

/// Marker trait for types that can be used as indices in index
/// buffer.
pub trait IndexType {}

impl IndexType for u8 {}

impl IndexType for u16 {}

impl IndexType for u32 {}

} // verus!
