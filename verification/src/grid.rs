//! Block grid: block type ids, the packed block word, the wall-data layer,
//! the legacy thin-wall encoding and edge blocking between tiles.

use vstd::prelude::*;

verus! {

/// Width of the world grid in tiles.
pub const GRID_W: u32 = 512;
/// Height of the world grid in tiles.
pub const GRID_H: u32 = 512;
/// Number of tiles in the world grid.
pub const GRID_SIZE: usize = 262144;

// Block type ids (u32 for direct comparison with extracted block types).
pub const BT_AIR: u32 = 0;
pub const BT_STONE: u32 = 1;
pub const BT_GROUND: u32 = 2;
pub const BT_WATER: u32 = 3;
pub const BT_WALL: u32 = 4;
pub const BT_GLASS: u32 = 5;
pub const BT_FIREPLACE: u32 = 6;
pub const BT_CEILING_LIGHT: u32 = 7;
pub const BT_TREE: u32 = 8;
pub const BT_BENCH: u32 = 9;
pub const BT_FLOOR_LAMP: u32 = 10;
pub const BT_TABLE_LAMP: u32 = 11;
pub const BT_FAN: u32 = 12;
pub const BT_COMPOST: u32 = 13;
pub const BT_INSULATED: u32 = 14;
pub const BT_PIPE: u32 = 15;
pub const BT_PUMP: u32 = 16;
pub const BT_TANK: u32 = 17;
pub const BT_VALVE: u32 = 18;
pub const BT_OUTLET: u32 = 19;
pub const BT_INLET: u32 = 20;
pub const BT_WOOD_WALL: u32 = 21;
pub const BT_STEEL_WALL: u32 = 22;
pub const BT_SANDSTONE: u32 = 23;
pub const BT_GRANITE: u32 = 24;
pub const BT_LIMESTONE: u32 = 25;
pub const BT_WOOD_FLOOR: u32 = 26;
pub const BT_STONE_FLOOR: u32 = 27;
pub const BT_CONCRETE_FLOOR: u32 = 28;
pub const BT_CANNON: u32 = 29;
pub const BT_BED: u32 = 30;
pub const BT_BERRY_BUSH: u32 = 31;
pub const BT_DUG_GROUND: u32 = 32;
pub const BT_CRATE: u32 = 33;
pub const BT_ROCK: u32 = 34;
pub const BT_MUD_WALL: u32 = 35;
pub const BT_WIRE: u32 = 36;
pub const BT_SOLAR: u32 = 37;
pub const BT_BATTERY_S: u32 = 38;
pub const BT_BATTERY_M: u32 = 39;
pub const BT_BATTERY_L: u32 = 40;
pub const BT_WIND_TURBINE: u32 = 41;
pub const BT_SWITCH: u32 = 42;
pub const BT_DIMMER: u32 = 43;
pub const BT_DIAGONAL: u32 = 44;
pub const BT_BREAKER: u32 = 45;
pub const BT_RESTRICTOR: u32 = 46;
pub const BT_CROP: u32 = 47;
pub const BT_FLOODLIGHT: u32 = 48;
pub const BT_LIQUID_PIPE: u32 = 49;
pub const BT_PIPE_BRIDGE: u32 = 50;
pub const BT_WIRE_BRIDGE: u32 = 51;
pub const BT_LIQUID_INTAKE: u32 = 52;
pub const BT_LIQUID_PUMP: u32 = 53;
pub const BT_LIQUID_OUTPUT: u32 = 54;
pub const BT_WALL_TORCH: u32 = 55;
pub const BT_WALL_LAMP: u32 = 56;
pub const BT_WORKBENCH: u32 = 57;
pub const BT_KILN: u32 = 58;
pub const BT_WELL: u32 = 59;
pub const BT_ROUGH_FLOOR: u32 = 60;
pub const BT_SAW_HORSE: u32 = 61;
pub const BT_CAMPFIRE: u32 = 62;
pub const BT_LOW_WALL: u32 = 63;
pub const BT_SNARE: u32 = 64;
pub const BT_DUSTWHISKER: u32 = 65;
pub const BT_HOLLOW_REED: u32 = 66;
pub const BT_THORNBRAKE: u32 = 67;
pub const BT_SALTBRUSH: u32 = 68;
pub const BT_DUSKBLOOM: u32 = 69;
pub const BT_CHARCOAL_MOUND: u32 = 70;
pub const BT_SALVAGE_CRATE: u32 = 71;
pub const BT_CRATER: u32 = 72;
pub const BT_ROUGH_TABLE: u32 = 73;
pub const BT_STOOL: u32 = 74;
pub const BT_DRYING_RACK: u32 = 75;
/// The dirt tile: the ground block under its older name.
pub const BT_DIRT: u32 = BT_GROUND;

// ---------------------------------------------------------------------
// The packed block word: [type:8 | height:8 | flags:8 | roof_height:8]
// ---------------------------------------------------------------------

/// The block word that holds a type, a height byte and a flags byte.
pub open spec fn spec_make_block(block_type: u8, height: u8, flags: u8) -> u32 {
    (block_type as u32) | ((height as u32) << 8u32) | ((flags as u32) << 16u32)
}

/// Block type: bits 0-7.
pub open spec fn spec_block_type(b: u32) -> u32 {
    b & 0xFFu32
}

/// Raw height byte: bits 8-15.
pub open spec fn spec_block_height_raw(b: u32) -> u8 {
    ((b >> 8u32) & 0xFFu32) as u8
}

/// Flags byte: bits 16-23 (bit 0 door, bit 1 roof, bit 2 open).
pub open spec fn spec_block_flags(b: u32) -> u8 {
    ((b >> 16u32) & 0xFFu32) as u8
}

/// Roof height: bits 24-31.
pub open spec fn spec_roof_height(b: u32) -> u8 {
    ((b >> 24u32) & 0xFFu32) as u8
}

/// Pack a block into a u32: type in bits 0-7, height in bits 8-15, flags in bits 16-23,
/// roof height 0.
pub fn make_block(block_type: u8, height: u8, flags: u8) -> (b: u32)
    ensures
        b == spec_make_block(block_type, height, flags),
{
    (block_type as u32) | ((height as u32) << 8u32) | ((flags as u32) << 16u32)
}

/// Block type of a block word.
pub fn block_type_rs(b: u32) -> (r: u32)
    ensures
        r == spec_block_type(b),
        r < 256,
{
    proof {
        lemma_low_byte_bound(b);
    }
    b & 0xFF
}

/// Flags byte of a block word.
pub fn block_flags_rs(b: u32) -> (r: u8)
    ensures
        r == spec_block_flags(b),
{
    ((b >> 16u32) & 0xFF) as u8
}

/// Raw height byte of a block word (for walls it also holds the edge bitmask,
/// for pipes and wires the connection mask).
pub fn block_height_raw(b: u32) -> (r: u8)
    ensures
        r == spec_block_height_raw(b),
{
    ((b >> 8u32) & 0xFF) as u8
}

/// Roof height of a block word.
pub fn roof_height_rs(b: u32) -> (r: u8)
    ensures
        r == spec_roof_height(b),
{
    ((b >> 24u32) & 0xFF) as u8
}

/// Visible height: the raw height byte, with wall types keeping only its low 4 bits
/// (their high bits are the legacy edge bitmask).
pub open spec fn spec_block_height(b: u32) -> u8 {
    if is_wall_type(spec_block_type(b)) {
        spec_block_height_raw(b) & 0x0Fu8
    } else {
        spec_block_height_raw(b)
    }
}

/// Visible height of a block.
pub fn block_height_rs(b: u32) -> (r: u8)
    ensures
        r == spec_block_height(b),
{
    let h = ((b >> 8u32) & 0xFF) as u8;
    let bt = block_type_rs(b);
    if is_wall_block(bt) {
        h & 0x0F
    } else {
        h
    }
}

/// Roof flag (bit 1 of the flags byte, kept in place) and roof height (top byte,
/// kept in place), for use when replacing a block but preserving its roof data.
pub fn extract_roof_data(block: u32) -> (r: (u8, u32))
    ensures
        r.0 == spec_block_flags(block) & 2u8,
        r.1 == block & 0xFF000000u32,
{
    let roof_flag = block_flags_rs(block) & 2;
    let roof_h = block & 0xFF000000u32;
    (roof_flag, roof_h)
}

/// The fields read back from a packed block are the ones it was made with,
/// and a fresh block has roof height 0.
pub proof fn lemma_make_block_roundtrip(block_type: u8, height: u8, flags: u8)
    ensures
        spec_block_type(spec_make_block(block_type, height, flags)) == block_type as u32,
        spec_block_height_raw(spec_make_block(block_type, height, flags)) == height,
        spec_block_flags(spec_make_block(block_type, height, flags)) == flags,
        spec_roof_height(spec_make_block(block_type, height, flags)) == 0,
{
    let t = block_type as u32;
    let h = height as u32;
    let f = flags as u32;
    assert(t < 256 && h < 256 && f < 256);
    lemma_pack_bytes(t, h, f);
}

proof fn lemma_pack_bytes(t: u32, h: u32, f: u32)
    by (bit_vector)
    requires
        t < 256,
        h < 256,
        f < 256,
    ensures
        (t | (h << 8u32) | (f << 16u32)) & 0xFFu32 == t,
        ((t | (h << 8u32) | (f << 16u32)) >> 8u32) & 0xFFu32 == h,
        ((t | (h << 8u32) | (f << 16u32)) >> 16u32) & 0xFFu32 == f,
        ((t | (h << 8u32) | (f << 16u32)) >> 24u32) & 0xFFu32 == 0,
{
}

proof fn lemma_low_byte_bound(b: u32)
    by (bit_vector)
    ensures
        b & 0xFFu32 < 256,
{
}

// ---------------------------------------------------------------------
// Block type classes
// ---------------------------------------------------------------------

/// Types that belong to the electrical power network.
pub open spec fn is_conductor_type(bt: u32) -> bool {
    bt == BT_WIRE || bt == BT_SOLAR || bt == BT_BATTERY_S || bt == BT_BATTERY_M || bt
        == BT_BATTERY_L || bt == BT_WIND_TURBINE || bt == BT_SWITCH || bt == BT_DIMMER || bt
        == BT_BREAKER || bt == BT_FLOODLIGHT || bt == BT_WIRE_BRIDGE || bt == BT_WALL_LAMP || bt
        == BT_CEILING_LIGHT || bt == BT_FLOOR_LAMP || bt == BT_TABLE_LAMP || bt == BT_FAN || bt
        == BT_PUMP
}

/// Is this block part of the electrical power network? Either its type is a conductor,
/// or the wire-overlay flag (bit 7 of the flags byte) is set.
pub fn is_conductor_rs(bt: u32, flags: u8) -> (r: bool)
    ensures
        r == (is_conductor_type(bt) || (flags & 0x80u8) != 0),
{
    bt == BT_WIRE || bt == BT_SOLAR || bt == BT_BATTERY_S || bt == BT_BATTERY_M || bt
        == BT_BATTERY_L || bt == BT_WIND_TURBINE || bt == BT_SWITCH || bt == BT_DIMMER || bt
        == BT_BREAKER || bt == BT_FLOODLIGHT || bt == BT_WIRE_BRIDGE || bt == BT_WALL_LAMP || bt
        == BT_CEILING_LIGHT || bt == BT_FLOOR_LAMP || bt == BT_TABLE_LAMP || bt == BT_FAN || bt
        == BT_PUMP || (flags & 0x80) != 0
}

/// Ground and floor types (walkable base, not a placed object).
pub open spec fn is_ground_type(bt: u32) -> bool {
    bt == BT_AIR || bt == BT_GROUND || bt == BT_WATER || bt == BT_WOOD_FLOOR || bt
        == BT_STONE_FLOOR || bt == BT_CONCRETE_FLOOR || bt == BT_ROUGH_FLOOR || bt
        == BT_DUG_GROUND
}

/// Is this block type a ground/floor tile?
pub fn is_ground_block(bt: u32) -> (r: bool)
    ensures
        r == is_ground_type(bt),
{
    bt == BT_AIR || bt == BT_GROUND || bt == BT_WATER || bt == BT_WOOD_FLOOR || bt
        == BT_STONE_FLOOR || bt == BT_CONCRETE_FLOOR || bt == BT_ROUGH_FLOOR || bt
        == BT_DUG_GROUND
}

/// Structural wall types.
pub open spec fn is_wall_type(bt: u32) -> bool {
    bt == BT_STONE || bt == BT_WALL || bt == BT_GLASS || bt == BT_INSULATED || bt
        == BT_WOOD_WALL || bt == BT_STEEL_WALL || bt == BT_SANDSTONE || bt == BT_GRANITE || bt
        == BT_LIMESTONE || bt == BT_MUD_WALL || bt == BT_DIAGONAL || bt == BT_LOW_WALL
}

/// Is this block type a structural wall?
pub fn is_wall_block(bt: u32) -> (r: bool)
    ensures
        r == is_wall_type(bt),
{
    bt == BT_STONE || bt == BT_WALL || bt == BT_GLASS || bt == BT_INSULATED || bt
        == BT_WOOD_WALL || bt == BT_STEEL_WALL || bt == BT_SANDSTONE || bt == BT_GRANITE || bt
        == BT_LIMESTONE || bt == BT_MUD_WALL || bt == BT_DIAGONAL || bt == BT_LOW_WALL
}

/// Wire and power-equipment types (their height byte is a connection mask).
pub open spec fn is_wire_type(bt: u32) -> bool {
    bt == BT_WIRE || bt == BT_DIMMER || bt == BT_SWITCH || bt == BT_BREAKER || bt
        == BT_WIRE_BRIDGE
}

/// Is this block type a wire or power equipment?
pub fn is_wire_block(bt: u32) -> (r: bool)
    ensures
        r == is_wire_type(bt),
{
    bt == BT_WIRE || bt == BT_DIMMER || bt == BT_SWITCH || bt == BT_BREAKER || bt
        == BT_WIRE_BRIDGE
}

/// Door flag: bit 0 of the flags byte.
pub open spec fn spec_is_door(b: u32) -> bool {
    (spec_block_flags(b) & 1u8) != 0
}

/// Does this block carry the door flag?
pub fn is_door_rs(b: u32) -> (r: bool)
    ensures
        r == spec_is_door(b),
{
    (block_flags_rs(b) & 1) != 0
}

} // verus!
