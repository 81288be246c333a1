//! Small facts about masking with constants, shared by the bit-field modules.

use vstd::prelude::*;

verus! {

/// Bounds of masked u8 fields.
pub proof fn lemma_u8_masks(x: u8)
    by (bit_vector)
    ensures
        x & 3u8 < 4,
        x & 7u8 < 8,
        x & 0xFu8 < 16,
        (x >> 5u8) & 3u8 < 4,
        (x >> 4u8) & 0xFu8 < 16,
{
}

/// Bounds of masked u16 fields.
pub proof fn lemma_u16_masks(x: u16)
    by (bit_vector)
    ensures
        x & 3u16 < 4,
        x & 7u16 < 8,
        x & 0xFu16 < 16,
        0xFu16 & 0xFu16 == 0xFu16,
{
}

/// Bounds of masked u32 fields.
pub proof fn lemma_u32_masks(x: u32)
    by (bit_vector)
    ensures
        x & 0xFFu32 < 256,
        x & 0x1Fu32 < 32,
        x & 7u32 < 8,
        x & 3u32 < 4,
        x & 0xFu32 < 16,
{
}

} // verus!
