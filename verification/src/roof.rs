//! Roof heights: which tiles belong to a roofed building, and the height of the roof
//! over each of them (stored in bits 24-31 of the block word).

use vstd::prelude::*;
use crate::bits::lemma_u32_masks;
use crate::grid::{
    block_flags_rs, block_height_raw, block_type_rs, is_wall_block, is_wall_type,
    spec_block_flags, spec_block_height_raw, spec_block_type, BT_CAMPFIRE, BT_CEILING_LIGHT,
    BT_CRATE, BT_DIMMER, BT_FIREPLACE, BT_LIQUID_INTAKE, BT_LIQUID_OUTPUT, BT_LIQUID_PIPE,
    BT_LIQUID_PUMP, BT_LOW_WALL, BT_PIPE_BRIDGE, BT_RESTRICTOR, BT_TREE, BT_WIRE,
    BT_WIRE_BRIDGE, GRID_H, GRID_SIZE, GRID_W,
};
use crate::walls::{
    in_grid, spec_wd_edges, spec_wd_has_edge, spec_wd_height, tile_index, wd_edges, wd_has_edge,
    wd_height,
};

verus! {

/// How far (in tiles) the roof searches look for walls.
pub const MAX_ROOF_SEARCH: i32 = 20;

// ---------------------------------------------------------------------
// Which tiles are part of a building
// ---------------------------------------------------------------------

/// The block carries the roof flag (bit 1 of the flags byte).
pub open spec fn is_roofed(b: u32) -> bool {
    (spec_block_flags(b) & 2u8) != 0
}

/// (x, y) is in the grid and its block carries the roof flag.
pub open spec fn roofed_at(grid: Seq<u32>, x: int, y: int) -> bool {
    in_grid(x, y) && is_roofed(grid[tile_index(x, y)])
}

/// The tile at index `i` has a wall-data word with at least one edge.
pub open spec fn has_wall_data(wall_data: Seq<u16>, i: int) -> bool {
    0 <= i < wall_data.len() && spec_wd_edges(wall_data[i]) != 0
}

/// Some tile of the 3x3 block centred on (x, y) is roofed.
pub open spec fn roofed_near(grid: Seq<u32>, x: int, y: int) -> bool {
    exists|dx: int, dy: int| -1 <= dx <= 1 && -1 <= dy <= 1 && #[trigger] roofed_at(grid, x + dx, y + dy)
}

/// First pass: a tile is part of a building when it is roofed, or when it is a wall
/// with a height, a door, or a wall-data tile next to a roofed tile.
pub open spec fn in_building_first(grid: Seq<u32>, wall_data: Seq<u16>, x: int, y: int) -> bool {
    let i = tile_index(x, y);
    let b = grid[i];
    is_roofed(b) || (((spec_block_height_raw(b) > 0 && is_wall_type(spec_block_type(b))) || (
    spec_block_flags(b) & 1u8) != 0 || has_wall_data(wall_data, i)) && roofed_near(grid, x, y))
}

/// Offset of step k in search direction d (0 east, 1 west, 2 south, 3 north).
pub open spec fn off_x(d: int, k: int) -> int {
    if d == 0 {
        k
    } else if d == 1 {
        -k
    } else {
        0
    }
}

pub open spec fn off_y(d: int, k: int) -> int {
    if d == 2 {
        k
    } else if d == 3 {
        -k
    } else {
        0
    }
}

/// Edge of the source tile crossed when stepping in direction d.
pub open spec fn src_edge(d: int) -> u8 {
    if d == 0 {
        1
    } else if d == 1 {
        3
    } else if d == 2 {
        2
    } else {
        0
    }
}

/// Edge of the destination tile crossed when stepping in direction d.
pub open spec fn dst_edge(d: int) -> u8 {
    if d == 0 {
        3
    } else if d == 1 {
        1
    } else if d == 2 {
        0
    } else {
        2
    }
}

/// A full-height wall-data wall (heights 1 and 2 are low walls) on the given edge.
pub open spec fn full_wall_edge(wall_data: Seq<u16>, i: int, edge: u8) -> bool {
    0 <= i < wall_data.len() && spec_wd_has_edge(wall_data[i], edge) && spec_wd_height(
        wall_data[i],
    ) != 1 && spec_wd_height(wall_data[i]) != 2
}

/// A wall block with a height that is not roofed.
pub open spec fn unroofed_wall_block(b: u32) -> bool {
    spec_block_height_raw(b) > 0 && !is_roofed(b) && is_wall_type(spec_block_type(b))
}

/// Searching from (x, y) in direction d, starting at step `dist`: does a wall stop
/// the search before it leaves the grid or reaches the search limit?
pub open spec fn interior_scan(
    grid: Seq<u32>,
    wall_data: Seq<u16>,
    x: int,
    y: int,
    d: int,
    dist: int,
) -> bool
    decreases MAX_ROOF_SEARCH - dist,
{
    if dist < 0 || dist >= MAX_ROOF_SEARCH {
        false
    } else {
        let cx = x + off_x(d, dist);
        let cy = y + off_y(d, dist);
        let nx = x + off_x(d, dist + 1);
        let ny = y + off_y(d, dist + 1);
        if !in_grid(cx, cy) || !in_grid(nx, ny) {
            false
        } else if full_wall_edge(wall_data, tile_index(cx, cy), src_edge(d)) || full_wall_edge(
            wall_data,
            tile_index(nx, ny),
            dst_edge(d),
        ) {
            true
        } else if unroofed_wall_block(grid[tile_index(nx, ny)]) {
            true
        } else {
            interior_scan(grid, wall_data, x, y, d, dist + 1)
        }
    }
}

pub open spec fn b2i(b: bool) -> int {
    if b {
        1
    } else {
        0
    }
}

/// Number of the four directions in which a wall encloses (x, y).
pub open spec fn enclosing_walls(grid: Seq<u32>, wall_data: Seq<u16>, x: int, y: int) -> int {
    b2i(interior_scan(grid, wall_data, x, y, 0, 0)) + b2i(interior_scan(grid, wall_data, x, y, 1, 0))
        + b2i(interior_scan(grid, wall_data, x, y, 2, 0)) + b2i(
        interior_scan(grid, wall_data, x, y, 3, 0),
    )
}

/// Second pass (only with a wall-data layer): a tile with no wall data that is
/// enclosed by walls in at least three directions is a room interior.
pub open spec fn is_interior(grid: Seq<u32>, wall_data: Seq<u16>, x: int, y: int) -> bool {
    wall_data.len() > 0 && !in_building_first(grid, wall_data, x, y) && !has_wall_data(
        wall_data,
        tile_index(x, y),
    ) && enclosing_walls(grid, wall_data, x, y) >= 3
}

/// Building tiles found by the first two passes.
pub open spec fn in_building_base(grid: Seq<u32>, wall_data: Seq<u16>, x: int, y: int) -> bool {
    in_building_first(grid, wall_data, x, y) || is_interior(grid, wall_data, x, y)
}

/// The neighbour (x + dx, y + dy) comes before (x, y) in row-major order.
pub open spec fn earlier_neighbor(dx: int, dy: int) -> bool {
    dy == -1 || (dy == 0 && dx == -1)
}

/// Third pass, scanning in row-major order: a wall-data tile not yet in a building
/// joins one when a tile of its 3x3 block is a building tile, counting tiles that
/// joined earlier in the scan.
pub open spec fn joins_building(grid: Seq<u32>, wall_data: Seq<u16>, x: int, y: int) -> bool
    decreases tile_index(x, y),
{
    wall_data.len() > 0 && in_grid(x, y) && !in_building_base(grid, wall_data, x, y)
        && has_wall_data(wall_data, tile_index(x, y)) && exists|dx: int, dy: int|
        -1 <= dx <= 1 && -1 <= dy <= 1 && in_grid(x + dx, y + dy) && (#[trigger] in_building_base(
            grid,
            wall_data,
            x + dx,
            y + dy,
        ) || (earlier_neighbor(dx, dy) && joins_building(grid, wall_data, x + dx, y + dy)))
}

/// A tile is part of a roofed building.
pub open spec fn in_building(grid: Seq<u32>, wall_data: Seq<u16>, x: int, y: int) -> bool {
    in_building_base(grid, wall_data, x, y) || joins_building(grid, wall_data, x, y)
}

// ---------------------------------------------------------------------
// Roof height of a building tile
// ---------------------------------------------------------------------

/// Types whose height byte is not a visual wall height (plants, fires, lights,
/// crates, wiring, liquid pipes) or that are low walls.
pub open spec fn roof_skip_type(t: u32) -> bool {
    t == BT_TREE || t == BT_FIREPLACE || t == BT_CAMPFIRE || t == BT_CEILING_LIGHT || t
        == BT_CRATE || t == BT_WIRE || t == BT_DIMMER || t == BT_RESTRICTOR || t
        == BT_LIQUID_PIPE || t == BT_PIPE_BRIDGE || t == BT_WIRE_BRIDGE || t == BT_LIQUID_INTAKE
        || t == BT_LIQUID_PUMP || t == BT_LIQUID_OUTPUT || t == BT_LOW_WALL
}

/// Height of the nearest wall from (x, y) in direction d, starting at step `dist`
/// (1..=20); 0 when the search leaves the grid, leaves the building or finds none.
/// A wall-data wall counts as height 3.
pub open spec fn wall_height_toward(
    grid: Seq<u32>,
    wall_data: Seq<u16>,
    x: int,
    y: int,
    d: int,
    dist: int,
) -> u8
    decreases MAX_ROOF_SEARCH + 1 - dist,
{
    if dist < 1 || dist > MAX_ROOF_SEARCH {
        0
    } else {
        let nx = x + off_x(d, dist);
        let ny = y + off_y(d, dist);
        if !in_grid(nx, ny) {
            0
        } else {
            let ni = tile_index(nx, ny);
            let nb = grid[ni];
            if has_wall_data(wall_data, ni) && !is_roofed(nb) {
                3
            } else if spec_block_height_raw(nb) > 0 && !is_roofed(nb) && !roof_skip_type(
                spec_block_type(nb),
            ) {
                spec_block_height_raw(nb)
            } else if !in_building(grid, wall_data, nx, ny) {
                0
            } else {
                wall_height_toward(grid, wall_data, x, y, d, dist + 1)
            }
        }
    }
}

pub open spec fn max_u8(a: u8, b: u8) -> u8 {
    if a >= b {
        a
    } else {
        b
    }
}

/// Roof height of a building tile: the highest of the nearest walls in the four
/// directions, or 2 when none is found.
pub open spec fn roof_height_value(grid: Seq<u32>, wall_data: Seq<u16>, x: int, y: int) -> u8 {
    let m = max_u8(
        max_u8(
            max_u8(
                max_u8(0, wall_height_toward(grid, wall_data, x, y, 0, 1)),
                wall_height_toward(grid, wall_data, x, y, 1, 1),
            ),
            wall_height_toward(grid, wall_data, x, y, 2, 1),
        ),
        wall_height_toward(grid, wall_data, x, y, 3, 1),
    );
    if m == 0 {
        2
    } else {
        m
    }
}

/// The block word after roof computation: building tiles get their roof height in
/// bits 24-31, every other tile is unchanged.
pub open spec fn roofed_block(grid: Seq<u32>, wall_data: Seq<u16>, x: int, y: int) -> u32 {
    if in_building(grid, wall_data, x, y) {
        (grid[tile_index(x, y)] & 0x00FFFFFFu32) | ((roof_height_value(grid, wall_data, x, y) as u32)
            << 24u32)
    } else {
        grid[tile_index(x, y)]
    }
}

/// Roof heights touch only the top byte of a block: its type, height and flags are
/// kept, whatever the grid and the wall-data layer.
pub proof fn lemma_roof_keeps_block_fields(grid: Seq<u32>, wall_data: Seq<u16>, x: int, y: int)
    ensures
        roofed_block(grid, wall_data, x, y) & 0x00FFFFFFu32 == grid[tile_index(x, y)] & 0x00FFFFFFu32,
{
    let b = grid[tile_index(x, y)];
    let h = roof_height_value(grid, wall_data, x, y) as u32;
    assert(((b & 0x00FFFFFFu32) | (h << 24u32)) & 0x00FFFFFFu32 == b & 0x00FFFFFFu32) by (bit_vector);
}


// ---------------------------------------------------------------------
// Computation
// ---------------------------------------------------------------------

fn roofed_at_exec(grid: &[u32], x: i32, y: i32) -> (r: bool)
    requires
        grid@.len() >= GRID_SIZE,
    ensures
        r == roofed_at(grid@, x as int, y as int),
{
    if x >= 0 && y >= 0 && x < GRID_W as i32 && y < GRID_H as i32 {
        let nflags = block_flags_rs(grid[(y * GRID_W as i32 + x) as usize]);
        (nflags & 2) != 0
    } else {
        false
    }
}

fn roofed_near_exec(grid: &[u32], x: i32, y: i32) -> (r: bool)
    requires
        grid@.len() >= GRID_SIZE,
        in_grid(x as int, y as int),
    ensures
        r == roofed_near(grid@, x as int, y as int),
{
    let mut dy: i32 = -1;
    while dy <= 1
        invariant
            -1 <= dy <= 2,
            grid@.len() >= GRID_SIZE,
            in_grid(x as int, y as int),
            forall|ddx: int, ddy: int|
                -1 <= ddx <= 1 && -1 <= ddy < dy ==> !#[trigger] roofed_at(grid@, x + ddx, y + ddy),
        decreases 2 - dy,
    {
        let mut dx: i32 = -1;
        while dx <= 1
            invariant
                -1 <= dx <= 2,
                -1 <= dy <= 1,
                grid@.len() >= GRID_SIZE,
                in_grid(x as int, y as int),
                forall|ddx: int, ddy: int|
                    -1 <= ddx <= 1 && -1 <= ddy < dy ==> !#[trigger] roofed_at(grid@, x + ddx, y + ddy),
                forall|ddx: int| -1 <= ddx < dx ==> !#[trigger] roofed_at(grid@, x + ddx, y + dy),
            decreases 2 - dx,
        {
            if roofed_at_exec(grid, x + dx, y + dy) {
                assert(roofed_at(grid@, x + dx, y + dy));
                return true;
            }
            dx = dx + 1;
        }
        dy = dy + 1;
    }
    false
}

fn has_wall_data_exec(wall_data: &[u16], idx: usize) -> (r: bool)
    ensures
        r == has_wall_data(wall_data@, idx as int),
{
    idx < wall_data.len() && wd_edges(wall_data[idx]) != 0
}

fn first_pass_tile(grid: &[u32], wall_data: &[u16], x: i32, y: i32) -> (r: bool)
    requires
        grid@.len() >= GRID_SIZE,
        in_grid(x as int, y as int),
    ensures
        r == in_building_first(grid@, wall_data@, x as int, y as int),
{
    let w = GRID_W as i32;
    assert(w == 512);
    let idx = (y * w + x) as usize;
    let block = grid[idx];
    let flags = block_flags_rs(block);
    let has_wd = has_wall_data_exec(wall_data, idx);
    if (flags & 2) != 0 {
        true
    } else if (block_height_raw(block) > 0 && is_wall_block(block_type_rs(block))) || (flags & 1)
        != 0 || has_wd {
        roofed_near_exec(grid, x, y)
    } else {
        false
    }
}

fn full_wall_edge_exec(wall_data: &[u16], i: usize, edge: u8) -> (r: bool)
    requires
        edge < 4,
    ensures
        r == full_wall_edge(wall_data@, i as int, edge),
{
    i < wall_data.len() && wd_has_edge(wall_data[i], edge) && wd_height(wall_data[i]) != 1
        && wd_height(wall_data[i]) != 2
}

fn interior_scan_exec(grid: &[u32], wall_data: &[u16], x: i32, y: i32, d: u8) -> (r: bool)
    requires
        grid@.len() >= GRID_SIZE,
        in_grid(x as int, y as int),
        d < 4,
    ensures
        r == interior_scan(grid@, wall_data@, x as int, y as int, d as int, 0),
{
    let ddx: i32 = if d == 0 {
        1
    } else if d == 1 {
        -1
    } else {
        0
    };
    let ddy: i32 = if d == 2 {
        1
    } else if d == 3 {
        -1
    } else {
        0
    };
    let src: u8 = if d == 0 {
        1
    } else if d == 1 {
        3
    } else if d == 2 {
        2
    } else {
        0
    };
    let dst: u8 = if d == 0 {
        3
    } else if d == 1 {
        1
    } else if d == 2 {
        0
    } else {
        2
    };
    let w = GRID_W as i32;
    let h = GRID_H as i32;
    let mut dist: i32 = 0;
    let mut cx = x;
    let mut cy = y;
    while dist < MAX_ROOF_SEARCH
        invariant
            0 <= dist <= MAX_ROOF_SEARCH,
            grid@.len() >= GRID_SIZE,
            in_grid(x as int, y as int),
            d < 4,
            w == GRID_W,
            h == GRID_H,
            ddx == off_x(d as int, 1),
            ddy == off_y(d as int, 1),
            src == src_edge(d as int),
            dst == dst_edge(d as int),
            cx == x + off_x(d as int, dist as int),
            cy == y + off_y(d as int, dist as int),
            interior_scan(grid@, wall_data@, x as int, y as int, d as int, 0) == interior_scan(
                grid@,
                wall_data@,
                x as int,
                y as int,
                d as int,
                dist as int,
            ),
        decreases MAX_ROOF_SEARCH - dist,
    {
        let nx = cx + ddx;
        let ny = cy + ddy;
        assert(nx == x + off_x(d as int, dist + 1));
        assert(ny == y + off_y(d as int, dist + 1));
        if cx < 0 || cy < 0 || cx >= w || cy >= h {
            return false;
        }
        if nx < 0 || ny < 0 || nx >= w || ny >= h {
            return false;
        }
        let cidx = (cy * w + cx) as usize;
        let nidx = (ny * w + nx) as usize;
        let src_blocked = full_wall_edge_exec(wall_data, cidx, src);
        let dst_blocked = full_wall_edge_exec(wall_data, nidx, dst);
        if src_blocked || dst_blocked {
            return true;
        }
        let nb = grid[nidx];
        let nbh = block_height_raw(nb);
        let nb_flags = block_flags_rs(nb);
        if nbh > 0 && (nb_flags & 2) == 0 {
            let nbt = block_type_rs(nb);
            if is_wall_block(nbt) {
                return true;
            }
        }
        dist = dist + 1;
        cx = nx;
        cy = ny;
    }
    false
}

fn interior_tile(grid: &[u32], wall_data: &[u16], x: i32, y: i32) -> (r: bool)
    requires
        grid@.len() >= GRID_SIZE,
        in_grid(x as int, y as int),
    ensures
        r == (enclosing_walls(grid@, wall_data@, x as int, y as int) >= 3),
{
    let mut walls_found: u8 = 0;
    let mut d: u8 = 0;
    while d < 4
        invariant
            d <= 4,
            grid@.len() >= GRID_SIZE,
            in_grid(x as int, y as int),
            walls_found as int == (if d > 0 {
                b2i(interior_scan(grid@, wall_data@, x as int, y as int, 0, 0))
            } else {
                0
            }) + (if d > 1 {
                b2i(interior_scan(grid@, wall_data@, x as int, y as int, 1, 0))
            } else {
                0
            }) + (if d > 2 {
                b2i(interior_scan(grid@, wall_data@, x as int, y as int, 2, 0))
            } else {
                0
            }) + (if d > 3 {
                b2i(interior_scan(grid@, wall_data@, x as int, y as int, 3, 0))
            } else {
                0
            }),
        decreases 4 - d,
    {
        if interior_scan_exec(grid, wall_data, x, y, d) {
            walls_found = walls_found + 1;
        }
        d = d + 1;
    }
    walls_found >= 3
}

/// (xx, yy) comes before (x, y) in row-major order.
pub open spec fn scanned_before(xx: int, yy: int, x: int, y: int) -> bool {
    yy < y || (yy == y && xx < x)
}

/// Building membership as known while the third pass is at (x, y).
pub open spec fn building_during_scan(
    grid: Seq<u32>,
    wall_data: Seq<u16>,
    xx: int,
    yy: int,
    x: int,
    y: int,
) -> bool {
    in_building_base(grid, wall_data, xx, yy) || (scanned_before(xx, yy, x, y) && joins_building(
        grid,
        wall_data,
        xx,
        yy,
    ))
}

fn neighbor_in_building(
    ib: &Vec<bool>,
    x: i32,
    y: i32,
    Ghost(grid): Ghost<Seq<u32>>,
    Ghost(wall_data): Ghost<Seq<u16>>,
) -> (r: bool)
    requires
        ib@.len() >= GRID_SIZE,
        in_grid(x as int, y as int),
        forall|xx: int, yy: int|
            in_grid(xx, yy) ==> #[trigger] ib@[tile_index(xx, yy)] == building_during_scan(
                grid,
                wall_data,
                xx,
                yy,
                x as int,
                y as int,
            ),
    ensures
        r == exists|dx: int, dy: int|
            -1 <= dx <= 1 && -1 <= dy <= 1 && in_grid(x + dx, y + dy) && (#[trigger] in_building_base(
                grid,
                wall_data,
                x + dx,
                y + dy,
            ) || (earlier_neighbor(dx, dy) && joins_building(grid, wall_data, x + dx, y + dy))),
{
    let w = GRID_W as i32;
    let h = GRID_H as i32;
    let mut dy: i32 = -1;
    while dy <= 1
        invariant
            -1 <= dy <= 2,
            w == GRID_W,
            h == GRID_H,
            ib@.len() >= GRID_SIZE,
            in_grid(x as int, y as int),
            forall|xx: int, yy: int|
                in_grid(xx, yy) ==> #[trigger] ib@[tile_index(xx, yy)] == building_during_scan(
                    grid,
                    wall_data,
                    xx,
                    yy,
                    x as int,
                    y as int,
                ),
            forall|ddx: int, ddy: int|
                -1 <= ddx <= 1 && -1 <= ddy < dy && in_grid(x + ddx, y + ddy) ==> !(
                #[trigger] in_building_base(grid, wall_data, x + ddx, y + ddy) || (earlier_neighbor(
                    ddx,
                    ddy,
                ) && joins_building(grid, wall_data, x + ddx, y + ddy))),
        decreases 2 - dy,
    {
        let mut dx: i32 = -1;
        while dx <= 1
            invariant
                -1 <= dx <= 2,
                -1 <= dy <= 1,
                w == GRID_W,
                h == GRID_H,
                ib@.len() >= GRID_SIZE,
                in_grid(x as int, y as int),
                forall|xx: int, yy: int|
                    in_grid(xx, yy) ==> #[trigger] ib@[tile_index(xx, yy)] == building_during_scan(
                        grid,
                        wall_data,
                        xx,
                        yy,
                        x as int,
                        y as int,
                    ),
                forall|ddx: int, ddy: int|
                    -1 <= ddx <= 1 && -1 <= ddy < dy && in_grid(x + ddx, y + ddy) ==> !(
                    #[trigger] in_building_base(grid, wall_data, x + ddx, y + ddy) || (
                    earlier_neighbor(ddx, ddy) && joins_building(grid, wall_data, x + ddx, y + ddy))),
                forall|ddx: int|
                    -1 <= ddx < dx && in_grid(x + ddx, y + dy) ==> !(
                    #[trigger] in_building_base(grid, wall_data, x + ddx, y + dy) || (
                    earlier_neighbor(ddx, dy as int) && joins_building(
                        grid,
                        wall_data,
                        x + ddx,
                        y + dy,
                    ))),
            decreases 2 - dx,
        {
            let nx = x + dx;
            let ny = y + dy;
            if nx >= 0 && ny >= 0 && nx < w && ny < h {
                let nidx = (ny * w + nx) as usize;
                assert(ib@[tile_index(nx as int, ny as int)] == building_during_scan(
                    grid,
                    wall_data,
                    nx as int,
                    ny as int,
                    x as int,
                    y as int,
                ));
                if ib[nidx] {
                    assert(in_building_base(grid, wall_data, x + dx, y + dy) || (earlier_neighbor(
                        dx as int,
                        dy as int,
                    ) && joins_building(grid, wall_data, x + dx, y + dy)));
                    return true;
                }
            }
            dx = dx + 1;
        }
        dy = dy + 1;
    }
    false
}

/// Two block words agree on type, height byte and flags byte.
pub open spec fn same_low_fields(a: u32, b: u32) -> bool {
    spec_block_type(a) == spec_block_type(b) && spec_block_height_raw(a) == spec_block_height_raw(
        b,
    ) && spec_block_flags(a) == spec_block_flags(b)
}

fn wall_height_toward_exec(
    grid: &[u32],
    wall_data: &[u16],
    ib: &Vec<bool>,
    x: i32,
    y: i32,
    d: u8,
    Ghost(orig): Ghost<Seq<u32>>,
) -> (r: u8)
    requires
        grid@.len() == orig.len(),
        orig.len() >= GRID_SIZE,
        forall|i: int| 0 <= i < orig.len() ==> same_low_fields(#[trigger] grid@[i], orig[i]),
        ib@.len() >= GRID_SIZE,
        forall|xx: int, yy: int|
            in_grid(xx, yy) ==> #[trigger] ib@[tile_index(xx, yy)] == in_building(
                orig,
                wall_data@,
                xx,
                yy,
            ),
        in_grid(x as int, y as int),
        d < 4,
    ensures
        r == wall_height_toward(orig, wall_data@, x as int, y as int, d as int, 1),
{
    let ddx: i32 = if d == 0 {
        1
    } else if d == 1 {
        -1
    } else {
        0
    };
    let ddy: i32 = if d == 2 {
        1
    } else if d == 3 {
        -1
    } else {
        0
    };
    let w = GRID_W as i32;
    let h = GRID_H as i32;
    let mut dist: i32 = 1;
    let mut nx = x + ddx;
    let mut ny = y + ddy;
    while dist <= MAX_ROOF_SEARCH
        invariant
            1 <= dist <= MAX_ROOF_SEARCH + 1,
            grid@.len() == orig.len(),
            orig.len() >= GRID_SIZE,
            forall|i: int| 0 <= i < orig.len() ==> same_low_fields(#[trigger] grid@[i], orig[i]),
            ib@.len() >= GRID_SIZE,
            forall|xx: int, yy: int|
                in_grid(xx, yy) ==> #[trigger] ib@[tile_index(xx, yy)] == in_building(
                    orig,
                    wall_data@,
                    xx,
                    yy,
                ),
            in_grid(x as int, y as int),
            d < 4,
            w == GRID_W,
            h == GRID_H,
            ddx == off_x(d as int, 1),
            ddy == off_y(d as int, 1),
            nx == x + off_x(d as int, dist as int),
            ny == y + off_y(d as int, dist as int),
            wall_height_toward(orig, wall_data@, x as int, y as int, d as int, 1)
                == wall_height_toward(orig, wall_data@, x as int, y as int, d as int, dist as int),
        decreases MAX_ROOF_SEARCH + 1 - dist,
    {
        if nx < 0 || ny < 0 || nx >= w || ny >= h {
            return 0;
        }
        let nidx = (ny * w + nx) as usize;
        let nb = grid[nidx];
        assert(same_low_fields(grid@[nidx as int], orig[nidx as int]));
        let nbh = block_height_raw(nb);
        let nbt = block_type_rs(nb);
        let nb_flags = block_flags_rs(nb);
        let skip = nbt == BT_TREE || nbt == BT_FIREPLACE || nbt == BT_CAMPFIRE || nbt
            == BT_CEILING_LIGHT || nbt == BT_CRATE || nbt == BT_WIRE || nbt == BT_DIMMER || nbt
            == BT_RESTRICTOR || nbt == BT_LIQUID_PIPE || nbt == BT_PIPE_BRIDGE || nbt
            == BT_WIRE_BRIDGE || nbt == BT_LIQUID_INTAKE || nbt == BT_LIQUID_PUMP || nbt
            == BT_LIQUID_OUTPUT || nbt == BT_LOW_WALL;
        let n_has_wd = has_wall_data_exec(wall_data, nidx);
        if n_has_wd && (nb_flags & 2) == 0 {
            return 3;
        }
        if nbh > 0 && (nb_flags & 2) == 0 && !skip {
            return nbh;
        }
        assert(ib@[tile_index(nx as int, ny as int)] == in_building(
            orig,
            wall_data@,
            nx as int,
            ny as int,
        ));
        if !ib[nidx] {
            return 0;
        }
        dist = dist + 1;
        nx = nx + ddx;
        ny = ny + ddy;
    }
    0
}

proof fn lemma_set_roof_byte(b: u32, v: u8)
    by (bit_vector)
    ensures
        spec_block_type((b & 0x00FFFFFFu32) | ((v as u32) << 24u32)) == spec_block_type(b),
        spec_block_height_raw((b & 0x00FFFFFFu32) | ((v as u32) << 24u32))
            == spec_block_height_raw(b),
        spec_block_flags((b & 0x00FFFFFFu32) | ((v as u32) << 24u32)) == spec_block_flags(b),
{
}

/// Precompute roof heights and store them in bits 24-31 of each block: a tile that is
/// part of a roofed building gets the height of the nearest enclosing walls, every
/// other tile is left as it was. Without a wall-data layer only the block grid counts.
pub fn compute_roof_heights(grid: &mut [u32])
    requires
        old(grid)@.len() >= GRID_SIZE,
    ensures
        final(grid)@.len() == old(grid)@.len(),
        forall|x: int, y: int|
            in_grid(x, y) ==> #[trigger] final(grid)@[tile_index(x, y)] == roofed_block(
                old(grid)@,
                Seq::<u16>::empty(),
                x,
                y,
            ),
        forall|i: int| GRID_SIZE <= i < old(grid)@.len() ==> final(grid)@[i] == old(grid)@[i],
{
    let empty: Vec<u16> = Vec::new();
    compute_roof_heights_wd(grid, empty.as_slice());
}

/// Compute roof heights from the block grid and the wall-data layer: every tile in
/// the grid becomes `roofed_block` of the grid as given, tiles past the grid are
/// unchanged.
pub fn compute_roof_heights_wd(grid: &mut [u32], wall_data: &[u16])
    requires
        old(grid)@.len() >= GRID_SIZE,
    ensures
        final(grid)@.len() == old(grid)@.len(),
        forall|x: int, y: int|
            in_grid(x, y) ==> #[trigger] final(grid)@[tile_index(x, y)] == roofed_block(
                old(grid)@,
                wall_data@,
                x,
                y,
            ),
        forall|i: int| GRID_SIZE <= i < old(grid)@.len() ==> final(grid)@[i] == old(grid)@[i],
{
    let ghost orig = grid@;
    let w = GRID_W as i32;
    let h = GRID_H as i32;
    let n = grid.len();
    let mut ib: Vec<bool> = Vec::new();
    while ib.len() < n
        invariant
            ib@.len() <= n,
            forall|i: int| 0 <= i < ib@.len() ==> !#[trigger] ib@[i],
        decreases n - ib@.len(),
    {
        ib.push(false);
    }

    // Pass 1: roofed tiles, and walls, doors and wall-data tiles next to them.
    let mut y: i32 = 0;
    while y < h
        invariant
            0 <= y <= h,
            w == GRID_W,
            h == GRID_H,
            grid@ == orig,
            n == orig.len(),
            n >= GRID_SIZE,
            ib@.len() == n,
            forall|xx: int, yy: int|
                in_grid(xx, yy) && yy < y ==> #[trigger] ib@[tile_index(xx, yy)]
                    == in_building_first(orig, wall_data@, xx, yy),
            forall|i: int| GRID_SIZE <= i < n ==> !#[trigger] ib@[i],
        decreases h - y,
    {
        let mut x: i32 = 0;
        while x < w
            invariant
                0 <= x <= w,
                0 <= y < h,
                w == GRID_W,
                h == GRID_H,
                grid@ == orig,
                n == orig.len(),
                n >= GRID_SIZE,
                ib@.len() == n,
                forall|xx: int, yy: int|
                    in_grid(xx, yy) && scanned_before(xx, yy, x as int, y as int)
                        ==> #[trigger] ib@[tile_index(xx, yy)] == in_building_first(
                        orig,
                        wall_data@,
                        xx,
                        yy,
                    ),
                forall|i: int| GRID_SIZE <= i < n ==> !#[trigger] ib@[i],
            decreases w - x,
        {
            let idx = (y * w + x) as usize;
            let v = first_pass_tile(grid, wall_data, x, y);
            ib.set(idx, v);
            x = x + 1;
        }
        y = y + 1;
    }

    // Pass 1.5: with a wall-data layer, tiles enclosed by walls in at least three
    // directions are room interiors.
    if wall_data.len() != 0 {
        let mut y: i32 = 0;
        while y < h
            invariant
                0 <= y <= h,
                w == GRID_W,
                h == GRID_H,
                grid@ == orig,
                n == orig.len(),
                n >= GRID_SIZE,
                ib@.len() == n,
                wall_data@.len() > 0,
                forall|xx: int, yy: int|
                    in_grid(xx, yy) ==> #[trigger] ib@[tile_index(xx, yy)] == (if yy < y {
                        in_building_base(orig, wall_data@, xx, yy)
                    } else {
                        in_building_first(orig, wall_data@, xx, yy)
                    }),
                forall|i: int| GRID_SIZE <= i < n ==> !#[trigger] ib@[i],
            decreases h - y,
        {
            let mut x: i32 = 0;
            while x < w
                invariant
                    0 <= x <= w,
                    0 <= y < h,
                    w == GRID_W,
                    h == GRID_H,
                    grid@ == orig,
                    n == orig.len(),
                    n >= GRID_SIZE,
                    ib@.len() == n,
                    wall_data@.len() > 0,
                    forall|xx: int, yy: int|
                        in_grid(xx, yy) ==> #[trigger] ib@[tile_index(xx, yy)] == (if scanned_before(
                            xx,
                            yy,
                            x as int,
                            y as int,
                        ) {
                            in_building_base(orig, wall_data@, xx, yy)
                        } else {
                            in_building_first(orig, wall_data@, xx, yy)
                        }),
                    forall|i: int| GRID_SIZE <= i < n ==> !#[trigger] ib@[i],
                decreases w - x,
            {
                let idx = (y * w + x) as usize;
                assert(ib@[tile_index(x as int, y as int)] == in_building_first(
                    orig,
                    wall_data@,
                    x as int,
                    y as int,
                ));
                if !ib[idx] && !has_wall_data_exec(wall_data, idx) {
                    if interior_tile(grid, wall_data, x, y) {
                        ib.set(idx, true);
                    }
                }
                x = x + 1;
            }
            y = y + 1;
        }
    }
    assert(forall|xx: int, yy: int|
        in_grid(xx, yy) ==> #[trigger] ib@[tile_index(xx, yy)] == in_building_base(
            orig,
            wall_data@,
            xx,
            yy,
        ));

    // Pass 1.75: wall-data tiles next to building tiles join the building.
    if wall_data.len() != 0 {
        let mut y: i32 = 0;
        while y < h
            invariant
                0 <= y <= h,
                w == GRID_W,
                h == GRID_H,
                grid@ == orig,
                n == orig.len(),
                n >= GRID_SIZE,
                ib@.len() == n,
                wall_data@.len() > 0,
                forall|xx: int, yy: int|
                    in_grid(xx, yy) ==> #[trigger] ib@[tile_index(xx, yy)] == building_during_scan(
                        orig,
                        wall_data@,
                        xx,
                        yy,
                        0,
                        y as int,
                    ),
                forall|i: int| GRID_SIZE <= i < n ==> !#[trigger] ib@[i],
            decreases h - y,
        {
            let mut x: i32 = 0;
            while x < w
                invariant
                    0 <= x <= w,
                    0 <= y < h,
                    w == GRID_W,
                    h == GRID_H,
                    grid@ == orig,
                    n == orig.len(),
                    n >= GRID_SIZE,
                    ib@.len() == n,
                    wall_data@.len() > 0,
                    forall|xx: int, yy: int|
                        in_grid(xx, yy) ==> #[trigger] ib@[tile_index(xx, yy)]
                            == building_during_scan(orig, wall_data@, xx, yy, x as int, y as int),
                    forall|i: int| GRID_SIZE <= i < n ==> !#[trigger] ib@[i],
                decreases w - x,
            {
                let idx = (y * w + x) as usize;
                assert(ib@[tile_index(x as int, y as int)] == building_during_scan(
                    orig,
                    wall_data@,
                    x as int,
                    y as int,
                    x as int,
                    y as int,
                ));
                if !ib[idx] && has_wall_data_exec(wall_data, idx) {
                    if neighbor_in_building(&ib, x, y, Ghost(orig), Ghost(wall_data@)) {
                        ib.set(idx, true);
                    }
                }
                assert forall|xx: int, yy: int| in_grid(xx, yy) implies #[trigger] ib@[tile_index(
                    xx,
                    yy,
                )] == building_during_scan(orig, wall_data@, xx, yy, x + 1, y as int) by {
                    if xx == x && yy == y {
                        reveal_with_fuel(joins_building, 1);
                    }
                }
                x = x + 1;
            }
            y = y + 1;
        }
    }
    assert forall|xx: int, yy: int| in_grid(xx, yy) implies #[trigger] ib@[tile_index(xx, yy)]
        == in_building(orig, wall_data@, xx, yy) by {
        if wall_data@.len() == 0 {
            assert(!joins_building(orig, wall_data@, xx, yy));
        }
    }

    // Pass 2: each building tile gets the height of its nearest enclosing walls.
    let mut y: i32 = 0;
    while y < h
        invariant
            0 <= y <= h,
            w == GRID_W,
            h == GRID_H,
            grid@.len() == orig.len(),
            n == orig.len(),
            n >= GRID_SIZE,
            ib@.len() == n,
            forall|xx: int, yy: int|
                in_grid(xx, yy) ==> #[trigger] ib@[tile_index(xx, yy)] == in_building(
                    orig,
                    wall_data@,
                    xx,
                    yy,
                ),
            forall|i: int| 0 <= i < n ==> same_low_fields(#[trigger] grid@[i], orig[i]),
            forall|xx: int, yy: int|
                in_grid(xx, yy) ==> #[trigger] grid@[tile_index(xx, yy)] == (if yy < y {
                    roofed_block(orig, wall_data@, xx, yy)
                } else {
                    orig[tile_index(xx, yy)]
                }),
            forall|i: int| GRID_SIZE <= i < n ==> #[trigger] grid@[i] == orig[i],
        decreases h - y,
    {
        let mut x: i32 = 0;
        while x < w
            invariant
                0 <= x <= w,
                0 <= y < h,
                w == GRID_W,
                h == GRID_H,
                grid@.len() == orig.len(),
                n == orig.len(),
                n >= GRID_SIZE,
                ib@.len() == n,
                forall|xx: int, yy: int|
                    in_grid(xx, yy) ==> #[trigger] ib@[tile_index(xx, yy)] == in_building(
                        orig,
                        wall_data@,
                        xx,
                        yy,
                    ),
                forall|i: int| 0 <= i < n ==> same_low_fields(#[trigger] grid@[i], orig[i]),
                forall|xx: int, yy: int|
                    in_grid(xx, yy) ==> #[trigger] grid@[tile_index(xx, yy)] == (if scanned_before(
                        xx,
                        yy,
                        x as int,
                        y as int,
                    ) {
                        roofed_block(orig, wall_data@, xx, yy)
                    } else {
                        orig[tile_index(xx, yy)]
                    }),
                forall|i: int| GRID_SIZE <= i < n ==> #[trigger] grid@[i] == orig[i],
            decreases w - x,
        {
            let idx = (y * w + x) as usize;
            assert(ib@[tile_index(x as int, y as int)] == in_building(
                orig,
                wall_data@,
                x as int,
                y as int,
            ));
            if ib[idx] {
                let mut max_h: u8 = 0;
                let mut d: u8 = 0;
                while d < 4
                    invariant
                        d <= 4,
                        in_grid(x as int, y as int),
                        grid@.len() == orig.len(),
                        orig.len() >= GRID_SIZE,
                        forall|i: int| 0 <= i < orig.len() ==> same_low_fields(#[trigger] grid@[i], orig[i]),
                        ib@.len() >= GRID_SIZE,
                        forall|xx: int, yy: int|
                            in_grid(xx, yy) ==> #[trigger] ib@[tile_index(xx, yy)] == in_building(
                                orig,
                                wall_data@,
                                xx,
                                yy,
                            ),
                        max_h == (if d == 0 {
                            0u8
                        } else if d == 1 {
                            max_u8(0, wall_height_toward(orig, wall_data@, x as int, y as int, 0, 1))
                        } else if d == 2 {
                            max_u8(
                                max_u8(0, wall_height_toward(orig, wall_data@, x as int, y as int, 0, 1)),
                                wall_height_toward(orig, wall_data@, x as int, y as int, 1, 1),
                            )
                        } else if d == 3 {
                            max_u8(
                                max_u8(
                                    max_u8(0, wall_height_toward(orig, wall_data@, x as int, y as int, 0, 1)),
                                    wall_height_toward(orig, wall_data@, x as int, y as int, 1, 1),
                                ),
                                wall_height_toward(orig, wall_data@, x as int, y as int, 2, 1),
                            )
                        } else {
                            max_u8(
                                max_u8(
                                    max_u8(
                                        max_u8(0, wall_height_toward(orig, wall_data@, x as int, y as int, 0, 1)),
                                        wall_height_toward(orig, wall_data@, x as int, y as int, 1, 1),
                                    ),
                                    wall_height_toward(orig, wall_data@, x as int, y as int, 2, 1),
                                ),
                                wall_height_toward(orig, wall_data@, x as int, y as int, 3, 1),
                            )
                        }),
                    decreases 4 - d,
                {
                    let v = wall_height_toward_exec(grid, wall_data, &ib, x, y, d, Ghost(orig));
                    if v > max_h {
                        max_h = v;
                    }
                    d = d + 1;
                }
                if max_h == 0 {
                    max_h = 2;
                }
                let old_b = grid[idx];
                assert(old_b == orig[tile_index(x as int, y as int)]);
                let nb = (old_b & 0x00FFFFFF) | ((max_h as u32) << 24u32);
                proof {
                    lemma_set_roof_byte(old_b, max_h);
                }
                grid[idx] = nb;
            }
            x = x + 1;
        }
        y = y + 1;
    }
}


// ---------------------------------------------------------------------
// A second computation changes nothing
// ---------------------------------------------------------------------

/// Two grids of at least grid size whose tiles agree on type, height byte and flags
/// byte everywhere in the grid.
pub open spec fn same_low_grid(g0: Seq<u32>, g1: Seq<u32>) -> bool {
    &&& g0.len() >= GRID_SIZE
    &&& g1.len() >= GRID_SIZE
    &&& forall|x: int, y: int| in_grid(x, y) ==> #[trigger] same_low_fields(g1[tile_index(x, y)], g0[tile_index(x, y)])
}

proof fn lemma_roofed_near_low(g0: Seq<u32>, g1: Seq<u32>, x: int, y: int)
    requires
        same_low_grid(g0, g1),
    ensures
        roofed_near(g0, x, y) == roofed_near(g1, x, y),
{
    assert forall|xx: int, yy: int| #[trigger] roofed_at(g0, xx, yy) == roofed_at(g1, xx, yy) by {
        if in_grid(xx, yy) {
            assert(same_low_fields(g1[tile_index(xx, yy)], g0[tile_index(xx, yy)]));
        }
    }
    if roofed_near(g0, x, y) {
        let (dx, dy) = choose|dx: int, dy: int| -1 <= dx <= 1 && -1 <= dy <= 1 && #[trigger] roofed_at(g0, x + dx, y + dy);
        assert(roofed_at(g1, x + dx, y + dy));
    }
    if roofed_near(g1, x, y) {
        let (dx, dy) = choose|dx: int, dy: int| -1 <= dx <= 1 && -1 <= dy <= 1 && #[trigger] roofed_at(g1, x + dx, y + dy);
        assert(roofed_at(g0, x + dx, y + dy));
    }
}

proof fn lemma_interior_scan_low(g0: Seq<u32>, g1: Seq<u32>, wall_data: Seq<u16>, x: int, y: int, d: int, dist: int)
    requires
        same_low_grid(g0, g1),
    ensures
        interior_scan(g0, wall_data, x, y, d, dist) == interior_scan(g1, wall_data, x, y, d, dist),
    decreases MAX_ROOF_SEARCH - dist,
{
    if 0 <= dist < MAX_ROOF_SEARCH {
        let nx = x + off_x(d, dist + 1);
        let ny = y + off_y(d, dist + 1);
        if in_grid(nx, ny) {
            assert(same_low_fields(g1[tile_index(nx, ny)], g0[tile_index(nx, ny)]));
        }
        lemma_interior_scan_low(g0, g1, wall_data, x, y, d, dist + 1);
    }
}

proof fn lemma_base_low(g0: Seq<u32>, g1: Seq<u32>, wall_data: Seq<u16>, x: int, y: int)
    requires
        same_low_grid(g0, g1),
        in_grid(x, y),
    ensures
        in_building_base(g0, wall_data, x, y) == in_building_base(g1, wall_data, x, y),
{
    assert(same_low_fields(g1[tile_index(x, y)], g0[tile_index(x, y)]));
    lemma_roofed_near_low(g0, g1, x, y);
    lemma_interior_scan_low(g0, g1, wall_data, x, y, 0, 0);
    lemma_interior_scan_low(g0, g1, wall_data, x, y, 1, 0);
    lemma_interior_scan_low(g0, g1, wall_data, x, y, 2, 0);
    lemma_interior_scan_low(g0, g1, wall_data, x, y, 3, 0);
}

proof fn lemma_joins_low(g0: Seq<u32>, g1: Seq<u32>, wall_data: Seq<u16>, x: int, y: int)
    requires
        same_low_grid(g0, g1),
        in_grid(x, y),
    ensures
        joins_building(g0, wall_data, x, y) == joins_building(g1, wall_data, x, y),
    decreases tile_index(x, y),
{
    lemma_base_low(g0, g1, wall_data, x, y);
    assert forall|dx: int, dy: int|
        -1 <= dx <= 1 && -1 <= dy <= 1 && in_grid(x + dx, y + dy) implies (#[trigger] in_building_base(
        g0,
        wall_data,
        x + dx,
        y + dy,
    ) == in_building_base(g1, wall_data, x + dx, y + dy)) && (earlier_neighbor(dx, dy) ==> joins_building(
        g0,
        wall_data,
        x + dx,
        y + dy,
    ) == joins_building(g1, wall_data, x + dx, y + dy)) by {
        lemma_base_low(g0, g1, wall_data, x + dx, y + dy);
        if earlier_neighbor(dx, dy) {
            assert(tile_index(x + dx, y + dy) < tile_index(x, y));
            lemma_joins_low(g0, g1, wall_data, x + dx, y + dy);
        }
    }
    assert(joins_building(g0, wall_data, x, y) ==> joins_building(g1, wall_data, x, y)) by {
        if joins_building(g0, wall_data, x, y) {
            assert(exists|dx: int, dy: int|
                -1 <= dx <= 1 && -1 <= dy <= 1 && in_grid(x + dx, y + dy) && (#[trigger] in_building_base(
                    g0,
                    wall_data,
                    x + dx,
                    y + dy,
                ) || (earlier_neighbor(dx, dy) && joins_building(g0, wall_data, x + dx, y + dy))));
            let (dx, dy) = choose|dx: int, dy: int|
                -1 <= dx <= 1 && -1 <= dy <= 1 && in_grid(x + dx, y + dy) && (#[trigger] in_building_base(
                    g0,
                    wall_data,
                    x + dx,
                    y + dy,
                ) || (earlier_neighbor(dx, dy) && joins_building(g0, wall_data, x + dx, y + dy)));
            assert(in_building_base(g0, wall_data, x + dx, y + dy) == in_building_base(g1, wall_data, x + dx, y + dy));
            assert(joins_building(g1, wall_data, x, y));
        }
    }
    assert(joins_building(g1, wall_data, x, y) ==> joins_building(g0, wall_data, x, y)) by {
        if joins_building(g1, wall_data, x, y) {
            assert(exists|dx: int, dy: int|
                -1 <= dx <= 1 && -1 <= dy <= 1 && in_grid(x + dx, y + dy) && (#[trigger] in_building_base(
                    g1,
                    wall_data,
                    x + dx,
                    y + dy,
                ) || (earlier_neighbor(dx, dy) && joins_building(g1, wall_data, x + dx, y + dy))));
            let (dx, dy) = choose|dx: int, dy: int|
                -1 <= dx <= 1 && -1 <= dy <= 1 && in_grid(x + dx, y + dy) && (#[trigger] in_building_base(
                    g1,
                    wall_data,
                    x + dx,
                    y + dy,
                ) || (earlier_neighbor(dx, dy) && joins_building(g1, wall_data, x + dx, y + dy)));
            assert(in_building_base(g0, wall_data, x + dx, y + dy) == in_building_base(g1, wall_data, x + dx, y + dy));
            assert(joins_building(g0, wall_data, x, y));
        }
    }
}

proof fn lemma_in_building_low(g0: Seq<u32>, g1: Seq<u32>, wall_data: Seq<u16>, x: int, y: int)
    requires
        same_low_grid(g0, g1),
        in_grid(x, y),
    ensures
        in_building(g0, wall_data, x, y) == in_building(g1, wall_data, x, y),
{
    lemma_base_low(g0, g1, wall_data, x, y);
    lemma_joins_low(g0, g1, wall_data, x, y);
}

proof fn lemma_wall_height_low(g0: Seq<u32>, g1: Seq<u32>, wall_data: Seq<u16>, x: int, y: int, d: int, dist: int)
    requires
        same_low_grid(g0, g1),
    ensures
        wall_height_toward(g0, wall_data, x, y, d, dist) == wall_height_toward(g1, wall_data, x, y, d, dist),
    decreases MAX_ROOF_SEARCH + 1 - dist,
{
    if 1 <= dist <= MAX_ROOF_SEARCH {
        let nx = x + off_x(d, dist);
        let ny = y + off_y(d, dist);
        if in_grid(nx, ny) {
            assert(same_low_fields(g1[tile_index(nx, ny)], g0[tile_index(nx, ny)]));
            lemma_in_building_low(g0, g1, wall_data, nx, ny);
        }
        lemma_wall_height_low(g0, g1, wall_data, x, y, d, dist + 1);
    }
}

proof fn lemma_roof_byte_twice(b: u32, v: u8)
    by (bit_vector)
    ensures
        (((b & 0x00FFFFFFu32) | ((v as u32) << 24u32)) & 0x00FFFFFFu32) | ((v as u32) << 24u32)
            == (b & 0x00FFFFFFu32) | ((v as u32) << 24u32),
{
}

/// Computing roof heights a second time changes nothing: whether a tile belongs to a
/// building and the height of its roof depend only on the type, height and flags of
/// the blocks (and on the wall-data layer), which roof computation keeps.
pub proof fn lemma_roof_heights_idempotent(g0: Seq<u32>, g1: Seq<u32>, wall_data: Seq<u16>)
    requires
        g0.len() >= GRID_SIZE,
        g1.len() == g0.len(),
        forall|x: int, y: int| in_grid(x, y) ==> #[trigger] g1[tile_index(x, y)] == roofed_block(g0, wall_data, x, y),
    ensures
        forall|x: int, y: int| in_grid(x, y) ==> #[trigger] roofed_block(g1, wall_data, x, y) == g1[tile_index(x, y)],
{
    assert forall|x: int, y: int| in_grid(x, y) implies #[trigger] same_low_fields(g1[tile_index(x, y)], g0[tile_index(x, y)]) by {
        assert(g1[tile_index(x, y)] == roofed_block(g0, wall_data, x, y));
        if in_building(g0, wall_data, x, y) {
            lemma_set_roof_byte(g0[tile_index(x, y)], roof_height_value(g0, wall_data, x, y));
        }
    }
    assert(same_low_grid(g0, g1));
    assert forall|x: int, y: int| in_grid(x, y) implies #[trigger] roofed_block(g1, wall_data, x, y) == g1[tile_index(x, y)] by {
        assert(g1[tile_index(x, y)] == roofed_block(g0, wall_data, x, y));
        lemma_in_building_low(g0, g1, wall_data, x, y);
        lemma_wall_height_low(g0, g1, wall_data, x, y, 0, 1);
        lemma_wall_height_low(g0, g1, wall_data, x, y, 1, 1);
        lemma_wall_height_low(g0, g1, wall_data, x, y, 2, 1);
        lemma_wall_height_low(g0, g1, wall_data, x, y, 3, 1);
        if in_building(g0, wall_data, x, y) {
            lemma_roof_byte_twice(g0[tile_index(x, y)], roof_height_value(g0, wall_data, x, y));
        }
    }
}

} // verus!
