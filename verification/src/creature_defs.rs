//! Creature species ids and the defaults of creature definitions.

use vstd::prelude::*;

verus! {

pub const CREATURE_DUSKWEAVER: u8 = 0;
pub const CREATURE_HOLLOWCALL: u8 = 1;

/// Number of species slots in the creature registry.
pub const MAX_CREATURE_TYPES: usize = 16;

/// Pack size bound of a creature definition that does not give one.
pub fn default_one() -> (n: u8)
    ensures
        n == 1,
{
    1
}

} // verus!
