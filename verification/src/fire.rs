//! Fire: what a burned block turns into.

use vstd::prelude::*;
use crate::grid::{BT_AIR, BT_BED, BT_BENCH, BT_CRATE, BT_DIRT, BT_WOOD_WALL};

verus! {

/// Block type left behind by a burned block: a wooden wall collapses and furniture
/// (bench, bed, crate) is gone (air); anything else leaves charred dirt.
pub open spec fn spec_burn_replacement(bt: u32) -> u32 {
    if bt == BT_WOOD_WALL || bt == BT_BENCH || bt == BT_BED || bt == BT_CRATE {
        BT_AIR
    } else {
        BT_DIRT
    }
}

/// What block type replaces a burned block.
pub fn burn_replacement_pub(bt: u32) -> (r: u32)
    ensures
        r == spec_burn_replacement(bt),
{
    burn_replacement(bt)
}

fn burn_replacement(bt: u32) -> (r: u32)
    ensures
        r == spec_burn_replacement(bt),
{
    if bt == BT_WOOD_WALL {
        BT_AIR
    } else if bt == BT_BENCH || bt == BT_BED || bt == BT_CRATE {
        BT_AIR
    } else {
        BT_DIRT
    }
}

} // verus!
