//! Obstacle field for the fluid simulation: each grid tile maps to 2x2 sub-cells,
//! solid blocks fill all four, thin walls only the sub-cells they overlap.

use vstd::prelude::*;
use crate::grid::{
    is_wall_type, spec_block_flags, spec_block_height_raw, spec_block_type, BT_BERRY_BUSH,
    BT_BREAKER, BT_CAMPFIRE, BT_CEILING_LIGHT, BT_COMPOST, BT_CROP, BT_DIMMER, BT_FAN,
    BT_FIREPLACE, BT_FLOOR_LAMP, BT_LIQUID_INTAKE, BT_LIQUID_OUTPUT, BT_LIQUID_PIPE,
    BT_LIQUID_PUMP, BT_PIPE, BT_PIPE_BRIDGE, BT_RESTRICTOR, BT_TABLE_LAMP, BT_TREE, BT_VALVE,
    BT_WIRE, BT_WIRE_BRIDGE, GRID_SIZE, GRID_W, is_wall_block,
};
use crate::thin_walls::{spec_thin_wall_is_walkable, thin_wall_is_walkable};

verus! {

// Fluid simulation resolution. Textures are always allocated at the maximum size;
// the effective dispatch resolution is switched at run time.
pub const FLUID_SIM_MAX: u32 = 512;
pub const FLUID_SIM_W: u32 = 256;
pub const FLUID_SIM_H: u32 = 256;
pub const FLUID_DYE_W: u32 = 512;
pub const FLUID_DYE_H: u32 = 512;
pub const FLUID_PRESSURE_ITERS: u32 = 25;

/// Block types that let fluid through whatever their height (plants, fires, lights,
/// fans, compost, pipes, wiring).
pub open spec fn fluid_passable_type(bt: u32) -> bool {
    bt == BT_TREE || bt == BT_FIREPLACE || bt == BT_CAMPFIRE || bt == BT_CEILING_LIGHT || bt
        == BT_FLOOR_LAMP || bt == BT_TABLE_LAMP || bt == BT_FAN || bt == BT_COMPOST || bt
        == BT_BERRY_BUSH || bt == BT_CROP || bt == BT_LIQUID_PIPE || bt == BT_PIPE_BRIDGE || bt
        == BT_LIQUID_INTAKE || bt == BT_LIQUID_PUMP || bt == BT_LIQUID_OUTPUT || bt == BT_WIRE
        || bt == BT_DIMMER || bt == BT_BREAKER || bt == BT_WIRE_BRIDGE || bt == BT_RESTRICTOR
        || (BT_PIPE <= bt <= BT_VALVE)
}

/// The whole tile is an obstacle on the block grid: it has a height, it is not a
/// passable type, not a walkable thin wall, and not an open door.
pub open spec fn block_fills_tile(b: u32) -> bool {
    let bt = spec_block_type(b);
    let bh = spec_block_height_raw(b);
    let is_door = (spec_block_flags(b) & 1u8) != 0;
    let is_open = (spec_block_flags(b) & 4u8) != 0;
    bh > 0 && !fluid_passable_type(bt) && !(is_wall_type(bt) && spec_thin_wall_is_walkable(b))
        && !(is_door && is_open)
}

/// Sub-cell (sx, sy) of a tile (0,0 = NW, 1,0 = NE, 0,1 = SW, 1,1 = SE) is covered by
/// its wall data: the tile has edges and is not an open door, and the wall is full
/// thickness, a full ring, or runs along an edge that touches the sub-cell.
pub open spec fn wall_data_fills_cell(wd: u16, sx: int, sy: int) -> bool {
    let edges = wd & 0xFu16;
    let has_door = (wd & 0x400u16) != 0;
    let door_open = (wd & 0x800u16) != 0;
    let raw = (wd >> 4u16) & 3u16;
    let thickness = if raw == 0 { 4int } else { 4 - raw };
    wd != 0 && edges != 0 && !(has_door && door_open) && (thickness >= 4 || edges == 0xF || ((
    edges & 1u16) != 0 && sy == 0) || ((edges & 2u16) != 0 && sx == 1) || ((edges & 4u16) != 0
        && sy == 1) || ((edges & 8u16) != 0 && sx == 0))
}

/// Sub-cell (sx, sy) of tile `gi` is an obstacle.
pub open spec fn obstacle_cell(grid: Seq<u32>, wall_data: Seq<u16>, gi: int, sx: int, sy: int) -> bool {
    block_fills_tile(grid[gi]) || (gi < wall_data.len() && wall_data_fills_cell(
        wall_data[gi],
        sx,
        sy,
    ))
}

/// The smallest s with s * s >= n, searching from s.
pub open spec fn ceil_sqrt_from(n: int, s: int) -> int
    decreases n - s,
{
    if s * s >= n || s >= n {
        s
    } else {
        ceil_sqrt_from(n, s + 1)
    }
}

/// Side of the tile grid: the world width for a full grid, otherwise the ceiling of
/// the square root of the length (small test grids are square-ish).
pub open spec fn obstacle_side(len: int) -> int {
    if len >= GRID_SIZE {
        GRID_W as int
    } else {
        ceil_sqrt_from(len, 0)
    }
}

/// Rows of the tile grid.
pub open spec fn obstacle_rows(len: int) -> int {
    if obstacle_side(len) > 0 {
        len / obstacle_side(len)
    } else {
        0
    }
}

/// Value of obstacle sub-cell (ox, oy): 255 when solid, 0 when open.
pub open spec fn obstacle_value(grid: Seq<u32>, wall_data: Seq<u16>, ox: int, oy: int) -> u8 {
    let side = obstacle_side(grid.len() as int);
    if obstacle_cell(grid, wall_data, (oy / 2) * side + ox / 2, ox % 2, oy % 2) {
        255
    } else {
        0
    }
}

proof fn lemma_side_bound(s: int, n: int)
    by (nonlinear_arith)
    requires
        0 <= s,
        s * s < n,
        n <= 262144,
    ensures
        s < 512,
{
}

proof fn lemma_rows_fit(side: int, len: int, rows: int)
    by (nonlinear_arith)
    requires
        side > 0,
        len >= 0,
        rows == len / side,
    ensures
        side * rows <= len,
        rows >= 0,
{
}

proof fn lemma_tile_in_range(side: int, rows: int, tx: int, ty: int)
    by (nonlinear_arith)
    requires
        0 <= tx < side,
        0 <= ty < rows,
    ensures
        0 <= ty * side + tx < side * rows,
{
}

proof fn lemma_row_major_lt(ow: int, oy2: int, ox2: int, oy: int, ox: int)
    by (nonlinear_arith)
    requires
        0 <= ox2 < ow,
        0 <= ox <= ow,
        0 <= oy2,
        oy2 < oy || (oy2 == oy && ox2 < ox),
    ensures
        oy2 * ow + ox2 < oy * ow + ox,
        0 <= oy2 * ow + ox2,
{
}

proof fn lemma_next_square(s: int)
    by (nonlinear_arith)
    ensures
        (s + 1) * (s + 1) == s * s + 2 * s + 1,
{
}

proof fn lemma_area(gw: int, gh: int)
    by (nonlinear_arith)
    ensures
        (2 * gh) * (2 * gw) == 4 * gw * gh,
{
}

proof fn lemma_next_row(ow: int, oy: int)
    by (nonlinear_arith)
    ensures
        oy * ow + ow == (oy + 1) * ow,
{
}

fn obstacle_cell_exec(grid: &[u32], wall_data: &[u16], gi: usize, sx: usize, sy: usize) -> (r: bool)
    requires
        gi < grid@.len(),
    ensures
        r == obstacle_cell(grid@, wall_data@, gi as int, sx as int, sy as int),
{
    let b = grid[gi];
    let bt = b & 0xFF;
    let bh = (b >> 8u32) & 0xFF;
    let flags = ((b >> 16u32) & 0xFF) as u8;
    let is_door = flags & 1 != 0;
    let is_open_door = flags & 4 != 0;
    let passable = bt == BT_TREE || bt == BT_FIREPLACE || bt == BT_CAMPFIRE || bt
        == BT_CEILING_LIGHT || bt == BT_FLOOR_LAMP || bt == BT_TABLE_LAMP || bt == BT_FAN || bt
        == BT_COMPOST || bt == BT_BERRY_BUSH || bt == BT_CROP || bt == BT_LIQUID_PIPE || bt
        == BT_PIPE_BRIDGE || bt == BT_LIQUID_INTAKE || bt == BT_LIQUID_PUMP || bt
        == BT_LIQUID_OUTPUT || bt == BT_WIRE || bt == BT_DIMMER || bt == BT_BREAKER || bt
        == BT_WIRE_BRIDGE || bt == BT_RESTRICTOR || (BT_PIPE <= bt && bt <= BT_VALVE);
    let is_thin = bh > 0 && is_wall_block(bt) && thin_wall_is_walkable(b);
    proof {
        lemma_height_byte(b);
    }
    let block_solid = bh > 0 && !passable && !is_thin && !(is_door && is_open_door);
    if block_solid {
        return true;
    }
    if gi < wall_data.len() && wall_data[gi] != 0 {
        let wd = wall_data[gi];
        let edges = wd & 0xF;
        let has_door = (wd & 0x400) != 0;
        let door_open = (wd & 0x800) != 0;
        if edges != 0 && !(has_door && door_open) {
            let raw = (wd >> 4u16) & 3;
            proof {
                crate::bits::lemma_u16_masks(wd >> 4u16);
            }
            let thickness: u16 = if raw == 0 {
                4
            } else {
                4 - raw
            };
            if thickness >= 4 || edges == 0xF {
                return true;
            }
            if edges & 1 != 0 && sy == 0 {
                return true;
            }
            if edges & 2 != 0 && sx == 1 {
                return true;
            }
            if edges & 4 != 0 && sy == 1 {
                return true;
            }
            if edges & 8 != 0 && sx == 0 {
                return true;
            }
        }
    }
    false
}

proof fn lemma_height_byte(b: u32)
    by (bit_vector)
    ensures
        ((b >> 8u32) & 0xFFu32) == (((b >> 8u32) & 0xFFu32) as u8) as u32,
{
}

/// Build the 2x resolution obstacle field from the block grid and the wall-data layer:
/// 255 = solid, 0 = open, one 2x2 block of sub-cells per tile, in row-major order.
pub fn build_obstacle_field(grid: &[u32], wall_data: &[u16]) -> (obs: Vec<u8>)
    requires
        grid@.len() <= usize::MAX / 4,
    ensures
        obs@.len() == 4 * obstacle_side(grid@.len() as int) * obstacle_rows(grid@.len() as int),
        forall|ox: int, oy: int|
            0 <= ox < 2 * obstacle_side(grid@.len() as int) && 0 <= oy < 2 * obstacle_rows(
                grid@.len() as int,
            ) ==> #[trigger] obs@[oy * (2 * obstacle_side(grid@.len() as int)) + ox]
                == obstacle_value(grid@, wall_data@, ox, oy),
{
    let len = grid.len();
    let gw: usize = if len >= GRID_SIZE {
        GRID_W as usize
    } else {
        let mut s: usize = 0;
        let mut sq: usize = 0;
        while s < len && sq < len
            invariant
                len < GRID_SIZE,
                s <= 512,
                s <= len,
                sq == s * s,
                ceil_sqrt_from(len as int, 0) == ceil_sqrt_from(len as int, s as int),
            decreases len - s,
        {
            proof {
                lemma_side_bound(s as int, len as int);
                lemma_next_square(s as int);
            }
            sq = sq + 2 * s + 1;
            s = s + 1;
        }
        s
    };
    assert(gw == obstacle_side(len as int));
    let gh: usize = if gw > 0 {
        len / gw
    } else {
        0
    };
    proof {
        if gw > 0 {
            lemma_rows_fit(gw as int, len as int, gh as int);
        }
    }
    let ow = gw * 2;
    let oh = gh * 2;
    let mut obs: Vec<u8> = Vec::new();
    let mut oy: usize = 0;
    while oy < oh
        invariant
            ow == 2 * gw,
            oh == 2 * gh,
            gw == obstacle_side(len as int),
            gh == obstacle_rows(len as int),
            gw * gh <= len,
            len == grid@.len(),
            len <= usize::MAX / 4,
            oy <= oh,
            obs@.len() == oy * ow,
            forall|ox2: int, oy2: int|
                0 <= ox2 < ow && 0 <= oy2 < oy ==> #[trigger] obs@[oy2 * ow + ox2] == obstacle_value(
                    grid@,
                    wall_data@,
                    ox2,
                    oy2,
                ),
        decreases oh - oy,
    {
        let mut ox: usize = 0;
        while ox < ow
            invariant
                ow == 2 * gw,
                oh == 2 * gh,
                gw == obstacle_side(len as int),
                gh == obstacle_rows(len as int),
                gw * gh <= len,
                len == grid@.len(),
                len <= usize::MAX / 4,
                oy < oh,
                ox <= ow,
                obs@.len() == oy * ow + ox,
                forall|ox2: int, oy2: int|
                    0 <= ox2 < ow && 0 <= oy2 < oy || (oy2 == oy && 0 <= ox2 < ox)
                        ==> #[trigger] obs@[oy2 * ow + ox2] == obstacle_value(
                        grid@,
                        wall_data@,
                        ox2,
                        oy2,
                    ),
            decreases ow - ox,
        {
            let tx = ox / 2;
            let ty = oy / 2;
            proof {
                lemma_tile_in_range(gw as int, gh as int, tx as int, ty as int);
            }
            let gi = ty * gw + tx;
            let solid = obstacle_cell_exec(grid, wall_data, gi, ox % 2, oy % 2);
            let ghost prev = obs@;
            obs.push(if solid {
                255u8
            } else {
                0u8
            });
            assert forall|ox2: int, oy2: int|
                0 <= ox2 < ow && 0 <= oy2 < oy || (oy2 == oy && 0 <= ox2 < ox + 1)
                    implies #[trigger] obs@[oy2 * ow + ox2] == obstacle_value(
                    grid@,
                    wall_data@,
                    ox2,
                    oy2,
                ) by {
                if oy2 == oy && ox2 == ox {
                } else {
                    lemma_row_major_lt(ow as int, oy2, ox2, oy as int, ox as int);
                }
            }
            ox = ox + 1;
        }
        proof {
            lemma_next_row(ow as int, oy as int);
        }
        oy = oy + 1;
    }
    proof {
        lemma_area(gw as int, gh as int);
    }
    obs
}


proof fn lemma_subcell_coords(t: int, s: int)
    requires
        0 <= s < 2,
    ensures
        (2 * t + s) / 2 == t,
        (2 * t + s) % 2 == s,
{
}

proof fn lemma_edges_nonzero(wd: u16)
    by (bit_vector)
    ensures
        (wd & 0xFu16) != 0 ==> wd != 0,
        (wd & 0xFu16) == 1 ==> ((wd & 0xFu16) & 2u16) == 0 && ((wd & 0xFu16) & 4u16) == 0
            && ((wd & 0xFu16) & 8u16) == 0 && ((wd & 0xFu16) & 1u16) != 0 && (wd & 0xFu16)
            != 0xFu16,
{
}

/// Plants, fires, lights, fans, compost heaps, crops, pipes and wiring let the fluid
/// through: a tile holding one of them, with no wall edges in its wall data, is open in
/// all four of its sub-cells, whatever the block's height.
pub proof fn lemma_passable_tile_open(
    grid: Seq<u32>,
    wall_data: Seq<u16>,
    tx: int,
    ty: int,
    sx: int,
    sy: int,
    bt: u32,
)
    requires
        0 <= tx < obstacle_side(grid.len() as int),
        0 <= ty,
        ty * obstacle_side(grid.len() as int) + tx < grid.len(),
        0 <= sx < 2,
        0 <= sy < 2,
        bt == spec_block_type(grid[ty * obstacle_side(grid.len() as int) + tx]),
        bt == BT_TREE || bt == BT_FIREPLACE || bt == BT_CAMPFIRE || bt == BT_CEILING_LIGHT
            || bt == BT_FLOOR_LAMP || bt == BT_TABLE_LAMP || bt == BT_FAN || bt == BT_COMPOST
            || bt == BT_BERRY_BUSH || bt == BT_CROP || bt == BT_LIQUID_PIPE || bt
            == BT_PIPE_BRIDGE || bt == BT_LIQUID_INTAKE || bt == BT_LIQUID_PUMP || bt
            == BT_LIQUID_OUTPUT || bt == BT_WIRE || bt == BT_DIMMER || bt == BT_BREAKER || bt
            == BT_WIRE_BRIDGE || bt == BT_RESTRICTOR || (BT_PIPE <= bt <= BT_VALVE),
        ty * obstacle_side(grid.len() as int) + tx >= wall_data.len() || wall_data[ty
            * obstacle_side(grid.len() as int) + tx] & 0xFu16 == 0,
    ensures
        obstacle_value(grid, wall_data, 2 * tx + sx, 2 * ty + sy) == 0,
{
    lemma_subcell_coords(tx, sx);
    lemma_subcell_coords(ty, sy);
}

/// A tile whose block has no height and whose wall data has no edges is open in all
/// four sub-cells.
pub proof fn lemma_flat_tile_open(grid: Seq<u32>, wall_data: Seq<u16>, tx: int, ty: int, sx: int, sy: int)
    requires
        0 <= tx < obstacle_side(grid.len() as int),
        0 <= ty,
        ty * obstacle_side(grid.len() as int) + tx < grid.len(),
        0 <= sx < 2,
        0 <= sy < 2,
        spec_block_height_raw(grid[ty * obstacle_side(grid.len() as int) + tx]) == 0,
        ty * obstacle_side(grid.len() as int) + tx >= wall_data.len() || wall_data[ty
            * obstacle_side(grid.len() as int) + tx] & 0xFu16 == 0,
    ensures
        obstacle_value(grid, wall_data, 2 * tx + sx, 2 * ty + sy) == 0,
{
    lemma_subcell_coords(tx, sx);
    lemma_subcell_coords(ty, sy);
}

/// A tile holding a block with a height that is none of the passable kinds, no wall
/// and no door, is solid in all four sub-cells.
pub proof fn lemma_solid_block_fills_tile(
    grid: Seq<u32>,
    wall_data: Seq<u16>,
    tx: int,
    ty: int,
    sx: int,
    sy: int,
    bt: u32,
)
    requires
        0 <= tx < obstacle_side(grid.len() as int),
        0 <= ty,
        ty * obstacle_side(grid.len() as int) + tx < grid.len(),
        0 <= sx < 2,
        0 <= sy < 2,
        bt == spec_block_type(grid[ty * obstacle_side(grid.len() as int) + tx]),
        spec_block_height_raw(grid[ty * obstacle_side(grid.len() as int) + tx]) > 0,
        spec_block_flags(grid[ty * obstacle_side(grid.len() as int) + tx]) & 1u8 == 0,
        !is_wall_type(bt),
        !(bt == BT_TREE || bt == BT_FIREPLACE || bt == BT_CAMPFIRE || bt == BT_CEILING_LIGHT
            || bt == BT_FLOOR_LAMP || bt == BT_TABLE_LAMP || bt == BT_FAN || bt == BT_COMPOST
            || bt == BT_BERRY_BUSH || bt == BT_CROP || bt == BT_LIQUID_PIPE || bt
            == BT_PIPE_BRIDGE || bt == BT_LIQUID_INTAKE || bt == BT_LIQUID_PUMP || bt
            == BT_LIQUID_OUTPUT || bt == BT_WIRE || bt == BT_DIMMER || bt == BT_BREAKER || bt
            == BT_WIRE_BRIDGE || bt == BT_RESTRICTOR || (BT_PIPE <= bt <= BT_VALVE)),
    ensures
        obstacle_value(grid, wall_data, 2 * tx + sx, 2 * ty + sy) == 255,
{
    lemma_subcell_coords(tx, sx);
    lemma_subcell_coords(ty, sy);
}

/// A full-thickness wall in the wall data (any edge, thickness bits clear, door not
/// open) makes all four sub-cells of its tile solid.
pub proof fn lemma_thick_wall_fills_tile(grid: Seq<u32>, wall_data: Seq<u16>, tx: int, ty: int, sx: int, sy: int)
    requires
        0 <= tx < obstacle_side(grid.len() as int),
        0 <= ty,
        ty * obstacle_side(grid.len() as int) + tx < grid.len(),
        ty * obstacle_side(grid.len() as int) + tx < wall_data.len(),
        0 <= sx < 2,
        0 <= sy < 2,
        wall_data[ty * obstacle_side(grid.len() as int) + tx] & 0xFu16 != 0,
        (wall_data[ty * obstacle_side(grid.len() as int) + tx] >> 4u16) & 3u16 == 0,
        wall_data[ty * obstacle_side(grid.len() as int) + tx] & 0x800u16 == 0,
    ensures
        obstacle_value(grid, wall_data, 2 * tx + sx, 2 * ty + sy) == 255,
{
    lemma_subcell_coords(tx, sx);
    lemma_subcell_coords(ty, sy);
    lemma_edges_nonzero(wall_data[ty * obstacle_side(grid.len() as int) + tx]);
}

/// A thin wall along the north edge only blocks the two northern sub-cells of a tile
/// whose block lets the fluid through; the two southern ones stay open.
pub proof fn lemma_thin_north_wall(grid: Seq<u32>, wall_data: Seq<u16>, tx: int, ty: int, sx: int)
    requires
        0 <= tx < obstacle_side(grid.len() as int),
        0 <= ty,
        ty * obstacle_side(grid.len() as int) + tx < grid.len(),
        ty * obstacle_side(grid.len() as int) + tx < wall_data.len(),
        0 <= sx < 2,
        !block_fills_tile(grid[ty * obstacle_side(grid.len() as int) + tx]),
        wall_data[ty * obstacle_side(grid.len() as int) + tx] & 0xFu16 == 1,
        (wall_data[ty * obstacle_side(grid.len() as int) + tx] >> 4u16) & 3u16 != 0,
        wall_data[ty * obstacle_side(grid.len() as int) + tx] & 0x800u16 == 0,
    ensures
        obstacle_value(grid, wall_data, 2 * tx + sx, 2 * ty) == 255,
        obstacle_value(grid, wall_data, 2 * tx + sx, 2 * ty + 1) == 0,
{
    lemma_subcell_coords(tx, sx);
    lemma_subcell_coords(ty, 0);
    lemma_subcell_coords(ty, 1);
    lemma_edges_nonzero(wall_data[ty * obstacle_side(grid.len() as int) + tx]);
}


// ---------------------------------------------------------------------
// Half floats for the GPU textures
// ---------------------------------------------------------------------

/// The unbiased exponent of an f32 bit pattern.
pub open spec fn f32_exponent(bits: u32) -> int {
    ((bits >> 23u32) & 0xFFu32) as int - 127
}

/// The 5-bit exponent field of the half float an f32 converts to: all ones (infinity)
/// for exponents above 15, zero (signed zero) below -14, the rebiased exponent
/// otherwise.
pub open spec fn half_exponent_field(bits: u32) -> int {
    let e = f32_exponent(bits);
    if e > 15 {
        31
    } else if e < -14 {
        0
    } else {
        e + 15
    }
}

/// The 10-bit mantissa field of the half float: the top ten bits of the f32 mantissa
/// (truncated) for exponents in -14..=15, zero otherwise.
pub open spec fn half_mantissa_field(bits: u32) -> u32 {
    let e = f32_exponent(bits);
    if -14 <= e <= 15 {
        (bits >> 13u32) & 0x3FFu32
    } else {
        0
    }
}

/// Convert an f32 (given by its bits) to an IEEE 754 half float: the sign is kept,
/// exponents above the half range give infinity, those below it give zero, and in
/// range the exponent is rebiased and the mantissa truncated to ten bits.
pub fn f32_bits_to_f16(bits: u32) -> (h: u16)
    ensures
        (h >> 15u16) as u32 == bits >> 31u32,
        ((h >> 10u16) & 0x1Fu16) as int == half_exponent_field(bits),
        (h & 0x3FFu16) as u32 == half_mantissa_field(bits),
{
    let sign = (bits >> 31) & 1;
    let exp_field = (bits >> 23) & 0xFF;
    let mant = bits & 0x7FFFFF;
    if exp_field > 142 {
        let h = ((sign << 15) | (0x1F << 10)) as u16;
        assert((h >> 15u16) as u32 == bits >> 31u32 && (h >> 10u16) & 0x1Fu16 == 31 && h & 0x3FFu16 == 0)
            by (bit_vector)
            requires
                sign == (bits >> 31u32) & 1u32,
                h == ((sign << 15u32) | (0x1Fu32 << 10u32)) as u16,
        ;
        return h;
    }
    if exp_field < 113 {
        let h = (sign << 15) as u16;
        assert((h >> 15u16) as u32 == bits >> 31u32 && (h >> 10u16) & 0x1Fu16 == 0 && h & 0x3FFu16 == 0)
            by (bit_vector)
            requires
                sign == (bits >> 31u32) & 1u32,
                h == (sign << 15u32) as u16,
        ;
        return h;
    }
    let h_exp = exp_field - 112;
    let h_mant = mant >> 13;
    let h = ((sign << 15) | (h_exp << 10) | h_mant) as u16;
    assert((h >> 15u16) as u32 == bits >> 31u32 && ((h >> 10u16) & 0x1Fu16) as u32 == h_exp && (h
        & 0x3FFu16) as u32 == (bits >> 13u32) & 0x3FFu32) by (bit_vector)
        requires
            sign == (bits >> 31u32) & 1u32,
            mant == bits & 0x7FFFFFu32,
            h_mant == mant >> 13u32,
            1 <= h_exp <= 30,
            h == ((sign << 15u32) | (h_exp << 10u32) | h_mant) as u16,
    ;
    h
}

} // verus!
