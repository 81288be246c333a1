//! Size of the material table shared with the shaders.

use vstd::prelude::*;

verus! {

/// Number of entries in the GPU material table (block ids 0..NUM_MATERIALS).
pub const NUM_MATERIALS: usize = 57;

} // verus!
