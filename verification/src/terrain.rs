//! Per-tile terrain data packed in a u32:
//!   bits 0-3 type, 4-8 vegetation, 9-12 grain, 13-14 roughness, 15-19 richness,
//!   20-23 moisture retention, 24-28 compaction (foot traffic), 29-31 dig holes.

use vstd::prelude::*;

verus! {

pub const TERRAIN_GRASS: u32 = 0;
pub const TERRAIN_CHALKY: u32 = 1;
pub const TERRAIN_ROCKY: u32 = 2;
pub const TERRAIN_CLAY: u32 = 3;
pub const TERRAIN_GRAVEL: u32 = 4;
pub const TERRAIN_PEAT: u32 = 5;
pub const TERRAIN_MARSH: u32 = 6;
pub const TERRAIN_LOAM: u32 = 7;
pub const TERRAIN_IRON_STAIN: u32 = 8;
pub const TERRAIN_COPPER_STAIN: u32 = 9;
pub const TERRAIN_FLINT_BEARING: u32 = 10;
pub const TERRAIN_LEAF_LITTER: u32 = 11;
pub const TERRAIN_SAND: u32 = 12;

/// The terrain word for the given fields (compaction and dig holes start at 0).
pub open spec fn spec_pack_terrain(
    terrain_type: u32,
    vegetation: u32,
    grain: u32,
    roughness: u32,
    richness: u32,
    moisture_ret: u32,
) -> u32 {
    (terrain_type & 0xFu32) | ((vegetation & 0x1Fu32) << 4u32) | ((grain & 0xFu32) << 9u32) | ((
    roughness & 0x3u32) << 13u32) | ((richness & 0x1Fu32) << 15u32) | ((moisture_ret & 0xFu32)
        << 20u32)
}

/// Pack terrain fields into a terrain word; each field is cut to its width.
pub fn pack_terrain(
    terrain_type: u32,
    vegetation: u32,
    grain: u32,
    roughness: u32,
    richness: u32,
    moisture_ret: u32,
) -> (t: u32)
    ensures
        t == spec_pack_terrain(terrain_type, vegetation, grain, roughness, richness, moisture_ret),
{
    (terrain_type & 0xF) | ((vegetation & 0x1F) << 4u32) | ((grain & 0xF) << 9u32) | ((roughness
        & 0x3) << 13u32) | ((richness & 0x1F) << 15u32) | ((moisture_ret & 0xF) << 20u32)
}

pub open spec fn spec_terrain_type(t: u32) -> u32 {
    t & 0xFu32
}

pub open spec fn spec_terrain_vegetation(t: u32) -> u32 {
    (t >> 4u32) & 0x1Fu32
}

pub open spec fn spec_terrain_grain(t: u32) -> u32 {
    (t >> 9u32) & 0xFu32
}

pub open spec fn spec_terrain_roughness(t: u32) -> u32 {
    (t >> 13u32) & 0x3u32
}

pub open spec fn spec_terrain_richness(t: u32) -> u32 {
    (t >> 15u32) & 0x1Fu32
}

pub open spec fn spec_terrain_moisture(t: u32) -> u32 {
    (t >> 20u32) & 0xFu32
}

pub open spec fn spec_terrain_compaction(t: u32) -> u32 {
    (t >> 24u32) & 0x1Fu32
}

pub open spec fn spec_terrain_dig_holes(t: u32) -> u32 {
    (t >> 29u32) & 0x7u32
}

/// Terrain type of a terrain word.
pub fn terrain_type(t: u32) -> (r: u32)
    ensures
        r == spec_terrain_type(t),
{
    t & 0xF
}

/// Soil richness (0-31).
pub fn terrain_richness(t: u32) -> (r: u32)
    ensures
        r == spec_terrain_richness(t),
{
    (t >> 15u32) & 0x1F
}

/// Compaction (0-31).
pub fn terrain_compaction(t: u32) -> (r: u32)
    ensures
        r == spec_terrain_compaction(t),
{
    (t >> 24u32) & 0x1F
}

/// Surface roughness (0-3).
pub fn terrain_roughness(t: u32) -> (r: u32)
    ensures
        r == spec_terrain_roughness(t),
{
    (t >> 13u32) & 0x3
}

/// Dig hole count (0-7).
pub fn terrain_dig_holes(t: u32) -> (r: u32)
    ensures
        r == spec_terrain_dig_holes(t),
{
    (t >> 29u32) & 0x7
}

/// The word with compaction replaced by c (bits 24-28), everything else kept.
pub open spec fn with_compaction(t: u32, c: u32) -> u32 {
    (t & 0xE0FFFFFFu32) | (c << 24u32)
}

/// The word with the dig-hole count replaced by d (bits 29-31), everything else kept.
pub open spec fn with_dig_holes(t: u32, d: u32) -> u32 {
    (t & 0x1FFFFFFFu32) | (d << 29u32)
}

/// Increase compaction by `amount`, clamped to 31; all other fields are kept.
pub fn terrain_add_compaction(t: &mut u32, amount: u32)
    requires
        spec_terrain_compaction(*old(t)) + amount <= u32::MAX,
    ensures
        *final(t) == with_compaction(
            *old(t),
            if spec_terrain_compaction(*old(t)) + amount <= 31 {
                (spec_terrain_compaction(*old(t)) + amount) as u32
            } else {
                31u32
            },
        ),
{
    let cur = (*t >> 24u32) & 0x1F;
    let sum = cur + amount;
    let new = if sum <= 31 {
        sum
    } else {
        31
    };
    *t = (*t & 0xE0FFFFFF) | (new << 24u32);
}

/// Decay compaction by 1 (natural decompaction over time); no change at 0.
pub fn terrain_decay_compaction(t: &mut u32)
    ensures
        *final(t) == (if spec_terrain_compaction(*old(t)) > 0 {
            with_compaction(*old(t), (spec_terrain_compaction(*old(t)) - 1) as u32)
        } else {
            *old(t)
        }),
{
    let cur = (*t >> 24u32) & 0x1F;
    if cur > 0 {
        *t = (*t & 0xE0FFFFFF) | ((cur - 1) << 24u32);
    }
}

/// Add a dig hole (at most 7 per tile).
pub fn terrain_add_dig_hole(t: &mut u32)
    ensures
        *final(t) == (if spec_terrain_dig_holes(*old(t)) < 7 {
            with_dig_holes(*old(t), (spec_terrain_dig_holes(*old(t)) + 1) as u32)
        } else {
            *old(t)
        }),
{
    let cur = (*t >> 29u32) & 0x7;
    if cur < 7 {
        *t = (*t & 0x1FFFFFFF) | ((cur + 1) << 29u32);
    }
}

/// Remove a dig hole (healing); no change at 0.
pub fn terrain_remove_dig_hole(t: &mut u32)
    ensures
        *final(t) == (if spec_terrain_dig_holes(*old(t)) > 0 {
            with_dig_holes(*old(t), (spec_terrain_dig_holes(*old(t)) - 1) as u32)
        } else {
            *old(t)
        }),
{
    let cur = (*t >> 29u32) & 0x7;
    if cur > 0 {
        *t = (*t & 0x1FFFFFFF) | ((cur - 1) << 29u32);
    }
}

/// Every field of a packed terrain word reads back as given (cut to its width), with
/// compaction and dig holes at 0.
pub proof fn lemma_pack_terrain_roundtrip(
    terrain_type: u32,
    vegetation: u32,
    grain: u32,
    roughness: u32,
    richness: u32,
    moisture_ret: u32,
)
    ensures
        spec_terrain_type(spec_pack_terrain(terrain_type, vegetation, grain, roughness, richness, moisture_ret))
            == terrain_type & 0xF,
        spec_terrain_vegetation(spec_pack_terrain(terrain_type, vegetation, grain, roughness, richness, moisture_ret))
            == vegetation & 0x1F,
        spec_terrain_grain(spec_pack_terrain(terrain_type, vegetation, grain, roughness, richness, moisture_ret))
            == grain & 0xF,
        spec_terrain_roughness(spec_pack_terrain(terrain_type, vegetation, grain, roughness, richness, moisture_ret))
            == roughness & 0x3,
        spec_terrain_richness(spec_pack_terrain(terrain_type, vegetation, grain, roughness, richness, moisture_ret))
            == richness & 0x1F,
        spec_terrain_moisture(spec_pack_terrain(terrain_type, vegetation, grain, roughness, richness, moisture_ret))
            == moisture_ret & 0xF,
        spec_terrain_compaction(spec_pack_terrain(terrain_type, vegetation, grain, roughness, richness, moisture_ret))
            == 0,
        spec_terrain_dig_holes(spec_pack_terrain(terrain_type, vegetation, grain, roughness, richness, moisture_ret))
            == 0,
{
    lemma_pack_terrain_bits(terrain_type, vegetation, grain, roughness, richness, moisture_ret);
}

proof fn lemma_pack_terrain_bits(a: u32, v: u32, g: u32, r: u32, c: u32, m: u32)
    by (bit_vector)
    ensures
        ((a & 0xFu32) | ((v & 0x1Fu32) << 4u32) | ((g & 0xFu32) << 9u32) | ((r & 0x3u32) << 13u32)
            | ((c & 0x1Fu32) << 15u32) | ((m & 0xFu32) << 20u32)) & 0xFu32 == a & 0xF,
        (((a & 0xFu32) | ((v & 0x1Fu32) << 4u32) | ((g & 0xFu32) << 9u32) | ((r & 0x3u32) << 13u32)
            | ((c & 0x1Fu32) << 15u32) | ((m & 0xFu32) << 20u32)) >> 4u32) & 0x1Fu32 == v & 0x1F,
        (((a & 0xFu32) | ((v & 0x1Fu32) << 4u32) | ((g & 0xFu32) << 9u32) | ((r & 0x3u32) << 13u32)
            | ((c & 0x1Fu32) << 15u32) | ((m & 0xFu32) << 20u32)) >> 9u32) & 0xFu32 == g & 0xF,
        (((a & 0xFu32) | ((v & 0x1Fu32) << 4u32) | ((g & 0xFu32) << 9u32) | ((r & 0x3u32) << 13u32)
            | ((c & 0x1Fu32) << 15u32) | ((m & 0xFu32) << 20u32)) >> 13u32) & 0x3u32 == r & 0x3,
        (((a & 0xFu32) | ((v & 0x1Fu32) << 4u32) | ((g & 0xFu32) << 9u32) | ((r & 0x3u32) << 13u32)
            | ((c & 0x1Fu32) << 15u32) | ((m & 0xFu32) << 20u32)) >> 15u32) & 0x1Fu32 == c & 0x1F,
        (((a & 0xFu32) | ((v & 0x1Fu32) << 4u32) | ((g & 0xFu32) << 9u32) | ((r & 0x3u32) << 13u32)
            | ((c & 0x1Fu32) << 15u32) | ((m & 0xFu32) << 20u32)) >> 20u32) & 0xFu32 == m & 0xF,
        (((a & 0xFu32) | ((v & 0x1Fu32) << 4u32) | ((g & 0xFu32) << 9u32) | ((r & 0x3u32) << 13u32)
            | ((c & 0x1Fu32) << 15u32) | ((m & 0xFu32) << 20u32)) >> 24u32) & 0x1Fu32 == 0,
        (((a & 0xFu32) | ((v & 0x1Fu32) << 4u32) | ((g & 0xFu32) << 9u32) | ((r & 0x3u32) << 13u32)
            | ((c & 0x1Fu32) << 15u32) | ((m & 0xFu32) << 20u32)) >> 29u32) & 0x7u32 == 0,
{
}

/// Setting the compaction or dig-hole field changes only that field, and the field
/// reads back as set (for values that fit).
pub proof fn lemma_terrain_field_updates(t: u32, c: u32, d: u32)
    requires
        c < 32,
        d < 8,
    ensures
        spec_terrain_compaction(with_compaction(t, c)) == c,
        spec_terrain_dig_holes(with_compaction(t, c)) == spec_terrain_dig_holes(t),
        with_compaction(t, c) & 0x00FFFFFFu32 == t & 0x00FFFFFFu32,
        spec_terrain_dig_holes(with_dig_holes(t, d)) == d,
        spec_terrain_compaction(with_dig_holes(t, d)) == spec_terrain_compaction(t),
        with_dig_holes(t, d) & 0x00FFFFFFu32 == t & 0x00FFFFFFu32,
        with_dig_holes(t, spec_terrain_dig_holes(t)) == t,
        with_compaction(t, spec_terrain_compaction(t)) == t,
{
    lemma_terrain_update_bits(t, c, d);
}

proof fn lemma_terrain_update_bits(t: u32, c: u32, d: u32)
    by (bit_vector)
    requires
        c < 32,
        d < 8,
    ensures
        (((t & 0xE0FFFFFFu32) | (c << 24u32)) >> 24u32) & 0x1Fu32 == c,
        (((t & 0xE0FFFFFFu32) | (c << 24u32)) >> 29u32) & 0x7u32 == (t >> 29u32) & 0x7u32,
        ((t & 0xE0FFFFFFu32) | (c << 24u32)) & 0x00FFFFFFu32 == t & 0x00FFFFFFu32,
        (((t & 0x1FFFFFFFu32) | (d << 29u32)) >> 29u32) & 0x7u32 == d,
        (((t & 0x1FFFFFFFu32) | (d << 29u32)) >> 24u32) & 0x1Fu32 == (t >> 24u32) & 0x1Fu32,
        ((t & 0x1FFFFFFFu32) | (d << 29u32)) & 0x00FFFFFFu32 == t & 0x00FFFFFFu32,
        (t & 0x1FFFFFFFu32) | (((t >> 29u32) & 0x7u32) << 29u32) == t,
        (t & 0xE0FFFFFFu32) | (((t >> 24u32) & 0x1Fu32) << 24u32) == t,
        (t >> 29u32) & 0x7u32 < 8,
        (t >> 24u32) & 0x1Fu32 < 32,
{
}

/// Removing a dig hole undoes adding one (below the cap of 7), and adding one undoes
/// removing one (above 0).
pub proof fn lemma_dig_hole_inverse(t: u32)
    ensures
        spec_terrain_dig_holes(t) < 7 ==> ({
            let added = with_dig_holes(t, (spec_terrain_dig_holes(t) + 1) as u32);
            with_dig_holes(added, (spec_terrain_dig_holes(added) - 1) as u32) == t
        }),
        spec_terrain_dig_holes(t) > 0 ==> ({
            let removed = with_dig_holes(t, (spec_terrain_dig_holes(t) - 1) as u32);
            with_dig_holes(removed, (spec_terrain_dig_holes(removed) + 1) as u32) == t
        }),
{
    let d = spec_terrain_dig_holes(t);
    lemma_terrain_update_bits(t, 0, 0);
    if d < 7 {
        let added = with_dig_holes(t, (d + 1) as u32);
        lemma_terrain_update_bits(t, 0, (d + 1) as u32);
        lemma_dig_twice(t, (d + 1) as u32, d);
    }
    if d > 0 {
        lemma_terrain_update_bits(t, 0, (d - 1) as u32);
        lemma_dig_twice(t, (d - 1) as u32, d);
    }
}

proof fn lemma_dig_twice(t: u32, d1: u32, d2: u32)
    by (bit_vector)
    requires
        d1 < 8,
        d2 < 8,
        d2 == (t >> 29u32) & 0x7u32,
    ensures
        (((t & 0x1FFFFFFFu32) | (d1 << 29u32)) & 0x1FFFFFFFu32) | (d2 << 29u32) == t,
{
}

/// Texture grain scale, surface roughness and moisture retention of a terrain type.
pub open spec fn spec_terrain_surface(tt: u32) -> (u32, u32, u32) {
    if tt == TERRAIN_CHALKY {
        (6, 1, 3)
    } else if tt == TERRAIN_FLINT_BEARING {
        (6, 2, 3)
    } else if tt == TERRAIN_ROCKY || tt == TERRAIN_IRON_STAIN || tt == TERRAIN_COPPER_STAIN {
        (12, 3, 1)
    } else if tt == TERRAIN_GRAVEL {
        (10, 2, 3)
    } else if tt == TERRAIN_GRASS {
        (4, 1, 8)
    } else if tt == TERRAIN_LOAM {
        (3, 1, 10)
    } else if tt == TERRAIN_MARSH {
        (5, 1, 14)
    } else if tt == TERRAIN_CLAY {
        (4, 1, 12)
    } else if tt == TERRAIN_PEAT {
        (3, 0, 13)
    } else if tt == TERRAIN_LEAF_LITTER {
        (2, 0, 11)
    } else if tt == TERRAIN_SAND {
        (8, 0, 2)
    } else {
        (5, 1, 6)
    }
}

/// Grain scale, roughness and moisture retention that terrain generation stores for
/// a terrain type: coarse rough rock, fine smooth organic soils, wet clays and peat.
pub fn terrain_surface(terrain_type: u32) -> (r: (u32, u32, u32))
    ensures
        r == spec_terrain_surface(terrain_type),
{
    let grain = if terrain_type == TERRAIN_CHALKY || terrain_type == TERRAIN_FLINT_BEARING {
        6
    } else if terrain_type == TERRAIN_ROCKY || terrain_type == TERRAIN_IRON_STAIN
        || terrain_type == TERRAIN_COPPER_STAIN {
        12
    } else if terrain_type == TERRAIN_GRAVEL {
        10
    } else if terrain_type == TERRAIN_GRASS {
        4
    } else if terrain_type == TERRAIN_LOAM {
        3
    } else if terrain_type == TERRAIN_MARSH {
        5
    } else if terrain_type == TERRAIN_CLAY {
        4
    } else if terrain_type == TERRAIN_PEAT {
        3
    } else if terrain_type == TERRAIN_LEAF_LITTER {
        2
    } else if terrain_type == TERRAIN_SAND {
        8
    } else {
        5
    };
    let roughness = if terrain_type == TERRAIN_ROCKY || terrain_type == TERRAIN_IRON_STAIN
        || terrain_type == TERRAIN_COPPER_STAIN {
        3
    } else if terrain_type == TERRAIN_GRAVEL || terrain_type == TERRAIN_FLINT_BEARING {
        2
    } else if terrain_type == TERRAIN_CHALKY {
        1
    } else if terrain_type == TERRAIN_PEAT || terrain_type == TERRAIN_LEAF_LITTER
        || terrain_type == TERRAIN_SAND {
        0
    } else {
        1
    };
    let moisture = if terrain_type == TERRAIN_CLAY {
        12
    } else if terrain_type == TERRAIN_LOAM {
        10
    } else if terrain_type == TERRAIN_LEAF_LITTER {
        11
    } else if terrain_type == TERRAIN_MARSH {
        14
    } else if terrain_type == TERRAIN_GRASS {
        8
    } else if terrain_type == TERRAIN_PEAT {
        13
    } else if terrain_type == TERRAIN_CHALKY || terrain_type == TERRAIN_FLINT_BEARING {
        3
    } else if terrain_type == TERRAIN_GRAVEL {
        3
    } else if terrain_type == TERRAIN_ROCKY || terrain_type == TERRAIN_IRON_STAIN
        || terrain_type == TERRAIN_COPPER_STAIN {
        1
    } else if terrain_type == TERRAIN_SAND {
        2
    } else {
        6
    };
    (grain, roughness, moisture)
}

} // verus!
