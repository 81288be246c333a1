//! The wall-data layer (one u16 per tile), the legacy thin-wall encoding in the
//! block height and flags bytes, and edge blocking between adjacent tiles.

use vstd::prelude::*;
use crate::grid::{
    BT_GLASS, BT_GRANITE, BT_INSULATED, BT_LIMESTONE, BT_LOW_WALL, BT_MUD_WALL, BT_SANDSTONE,
    BT_STEEL_WALL, BT_STONE, BT_WALL, BT_WOOD_WALL, GRID_H, GRID_W,
};

verus! {

// bits 0-3:   edge bitmask (bit0=N, bit1=E, bit2=S, bit3=W)
// bits 4-5:   thickness (0=full/4, 1->3, 2->2, 3->1 sub-cell)
// bits 6-9:   wall material index (0-15)
// bit 10:     has_door
// bit 11:     door_is_open
// bit 12:     has_window
// bits 13-15: wall height (0=full, 1-7 explicit)
pub const WD_EDGE_N: u16 = 0x0001;
pub const WD_EDGE_E: u16 = 0x0002;
pub const WD_EDGE_S: u16 = 0x0004;
pub const WD_EDGE_W: u16 = 0x0008;
pub const WD_EDGE_MASK: u16 = 0x000F;
pub const WD_THICK_SHIFT: u32 = 4;
pub const WD_MAT_SHIFT: u32 = 6;
pub const WD_HAS_DOOR: u16 = 0x0400;
pub const WD_DOOR_OPEN: u16 = 0x0800;
pub const WD_HAS_WINDOW: u16 = 0x1000;
pub const WD_HEIGHT_SHIFT: u32 = 13;
pub const WD_HEIGHT_MASK: u16 = 0xE000;

// Wall material indices
pub const WMAT_STONE: u16 = 0;
pub const WMAT_GENERIC: u16 = 1;
pub const WMAT_GLASS: u16 = 2;
pub const WMAT_INSULATED: u16 = 3;
pub const WMAT_WOOD: u16 = 4;
pub const WMAT_STEEL: u16 = 5;
pub const WMAT_SANDSTONE: u16 = 6;
pub const WMAT_GRANITE: u16 = 7;
pub const WMAT_LIMESTONE: u16 = 8;
pub const WMAT_MUD: u16 = 9;

/// Wall material of a wall block type.
pub open spec fn spec_wall_material(bt: u32) -> u16 {
    if bt == BT_STONE {
        WMAT_STONE
    } else if bt == BT_WALL {
        WMAT_GENERIC
    } else if bt == BT_GLASS {
        WMAT_GLASS
    } else if bt == BT_INSULATED {
        WMAT_INSULATED
    } else if bt == BT_WOOD_WALL {
        WMAT_WOOD
    } else if bt == BT_STEEL_WALL {
        WMAT_STEEL
    } else if bt == BT_SANDSTONE {
        WMAT_SANDSTONE
    } else if bt == BT_GRANITE {
        WMAT_GRANITE
    } else if bt == BT_LIMESTONE {
        WMAT_LIMESTONE
    } else if bt == BT_MUD_WALL || bt == BT_LOW_WALL {
        WMAT_MUD
    } else {
        WMAT_GENERIC
    }
}

/// Map a wall block type to its wall material index.
pub fn wall_block_to_material(bt: u32) -> (m: u16)
    ensures
        m == spec_wall_material(bt),
        m < 16,
{
    if bt == BT_STONE {
        WMAT_STONE
    } else if bt == BT_WALL {
        WMAT_GENERIC
    } else if bt == BT_GLASS {
        WMAT_GLASS
    } else if bt == BT_INSULATED {
        WMAT_INSULATED
    } else if bt == BT_WOOD_WALL {
        WMAT_WOOD
    } else if bt == BT_STEEL_WALL {
        WMAT_STEEL
    } else if bt == BT_SANDSTONE {
        WMAT_SANDSTONE
    } else if bt == BT_GRANITE {
        WMAT_GRANITE
    } else if bt == BT_LIMESTONE {
        WMAT_LIMESTONE
    } else if bt == BT_MUD_WALL || bt == BT_LOW_WALL {
        WMAT_MUD
    } else {
        WMAT_GENERIC
    }
}

/// Thickness bits stored for a thickness in sub-cells: 4 - thickness (saturating), mod 4.
pub open spec fn spec_thick_bits(thickness: u16) -> u16 {
    (if thickness >= 4 { 0u16 } else { (4 - thickness) as u16 }) & 3u16
}

/// The wall-data word for given edges, thickness (sub-cells) and material.
pub open spec fn spec_pack_wall_data(edges: u16, thickness: u16, material: u16) -> u16 {
    (edges & 0xFu16) | (spec_thick_bits(thickness) << 4u16) | ((material & 0xFu16) << 6u16)
}

/// Pack wall data into a u16.
pub fn pack_wall_data(edges: u16, thickness: u16, material: u16) -> (wd: u16)
    ensures
        wd == spec_pack_wall_data(edges, thickness, material),
{
    let sat = if thickness >= 4 { 0u16 } else { 4 - thickness };
    (edges & WD_EDGE_MASK) | ((sat & 3) << 4u16) | ((material & 0xF) << 6u16)
}

/// Edge bitmask of a wall-data word.
pub open spec fn spec_wd_edges(wd: u16) -> u16 {
    wd & 0xFu16
}

/// Raw thickness bits (0=full, 1->3, 2->2, 3->1).
pub open spec fn spec_wd_thickness_raw(wd: u16) -> u16 {
    (wd >> 4u16) & 3u16
}

/// Thickness in sub-cells (1-4).
pub open spec fn spec_wd_thickness(wd: u16) -> u16 {
    if spec_wd_thickness_raw(wd) == 0 {
        4
    } else {
        (4 - spec_wd_thickness_raw(wd)) as u16
    }
}

/// Material index.
pub open spec fn spec_wd_material(wd: u16) -> u16 {
    (wd >> 6u16) & 0xFu16
}

/// Wall height field (0 = full height, 1-7 explicit).
pub open spec fn spec_wd_height(wd: u16) -> u16 {
    (wd >> 13u16) & 7u16
}

pub open spec fn spec_wd_has_door(wd: u16) -> bool {
    (wd & 0x400u16) != 0
}

pub open spec fn spec_wd_door_open(wd: u16) -> bool {
    (wd & 0x800u16) != 0
}

pub open spec fn spec_wd_has_window(wd: u16) -> bool {
    (wd & 0x1000u16) != 0
}

/// Read the edge bitmask from wall data.
pub fn wd_edges(wd: u16) -> (r: u16)
    ensures
        r == spec_wd_edges(wd),
{
    wd & WD_EDGE_MASK
}

/// Read the raw thickness bits (0=full, 1->3, 2->2, 3->1).
pub fn wd_thickness_raw(wd: u16) -> (r: u16)
    ensures
        r == spec_wd_thickness_raw(wd),
        r < 4,
{
    proof {
        lemma_u16_and3(wd >> 4u16);
    }
    (wd >> 4u16) & 3
}

/// Read the thickness as a sub-cell count (1-4).
pub fn wd_thickness(wd: u16) -> (r: u16)
    ensures
        r == spec_wd_thickness(wd),
        1 <= r <= 4,
{
    let raw = wd_thickness_raw(wd);
    if raw == 0 {
        4
    } else {
        4 - raw
    }
}

/// Read the material index.
pub fn wd_material(wd: u16) -> (r: u16)
    ensures
        r == spec_wd_material(wd),
{
    (wd >> 6u16) & 0xF
}

/// Read the wall height (0 = full height, 1-7 = explicit height in tiles).
pub fn wd_height(wd: u16) -> (r: u16)
    ensures
        r == spec_wd_height(wd),
{
    (wd >> 13u16) & 7
}

/// What `pack_wall_data` stores is read back: the edges and material modulo 16, a
/// thickness of 1, 2 or 3 as given and any other as a full (4) wall, and no door,
/// window or height bits.
pub proof fn lemma_pack_wall_data_roundtrip(edges: u16, thickness: u16, material: u16)
    ensures
        spec_wd_edges(spec_pack_wall_data(edges, thickness, material)) == edges & 0xF,
        spec_wd_material(spec_pack_wall_data(edges, thickness, material)) == material & 0xF,
        spec_wd_thickness(spec_pack_wall_data(edges, thickness, material)) == (if 1 <= thickness
            <= 3 {
            thickness
        } else {
            4
        }),
        !spec_wd_has_door(spec_pack_wall_data(edges, thickness, material)),
        !spec_wd_door_open(spec_pack_wall_data(edges, thickness, material)),
        !spec_wd_has_window(spec_pack_wall_data(edges, thickness, material)),
        spec_wd_height(spec_pack_wall_data(edges, thickness, material)) == 0,
{
    let s: u16 = if thickness >= 4 { 0u16 } else { (4 - thickness) as u16 };
    lemma_pack_wall_fields(edges, s, material);
    if thickness == 1 {
        assert(s == 3);
    } else if thickness == 2 {
        assert(s == 2);
    } else if thickness == 3 {
        assert(s == 1);
    } else if thickness == 0 {
        assert(s == 4);
        assert(4u16 & 3u16 == 0) by (bit_vector);
    }
}

proof fn lemma_pack_wall_fields(e: u16, s: u16, m: u16)
    by (bit_vector)
    ensures
        ((e & 0xFu16) | ((s & 3u16) << 4u16) | ((m & 0xFu16) << 6u16)) & 0xFu16 == e & 0xFu16,
        (((e & 0xFu16) | ((s & 3u16) << 4u16) | ((m & 0xFu16) << 6u16)) >> 4u16) & 3u16 == s
            & 3u16,
        (((e & 0xFu16) | ((s & 3u16) << 4u16) | ((m & 0xFu16) << 6u16)) >> 6u16) & 0xFu16 == m
            & 0xFu16,
        (((e & 0xFu16) | ((s & 3u16) << 4u16) | ((m & 0xFu16) << 6u16)) >> 13u16) & 7u16 == 0,
        ((e & 0xFu16) | ((s & 3u16) << 4u16) | ((m & 0xFu16) << 6u16)) & 0x400u16 == 0,
        ((e & 0xFu16) | ((s & 3u16) << 4u16) | ((m & 0xFu16) << 6u16)) & 0x800u16 == 0,
        ((e & 0xFu16) | ((s & 3u16) << 4u16) | ((m & 0xFu16) << 6u16)) & 0x1000u16 == 0,
        s == 3 ==> s & 3u16 == 3,
        s == 2 ==> s & 3u16 == 2,
        s == 1 ==> s & 3u16 == 1,
        s == 0 ==> s & 3u16 == 0,
        s == 4 ==> s & 3u16 == 0,
{
}

proof fn lemma_u16_and3(x: u16)
    by (bit_vector)
    ensures
        x & 3u16 < 4,
{
}

/// Does the edge bitmask hold direction `edge` (0=N, 1=E, 2=S, 3=W)?
pub open spec fn mask_has_edge(edges: u16, edge: u8) -> bool {
    edge < 16 && (edges & (1u16 << (edge as u16))) != 0
}

/// Wall data has a wall on the given edge: empty data has none, data with no edge bits
/// and full thickness is a full wall (all edges), otherwise the edge bit decides.
pub open spec fn spec_wd_has_edge(wd: u16, edge: u8) -> bool {
    if wd == 0 {
        false
    } else if spec_wd_edges(wd) == 0 && spec_wd_thickness_raw(wd) == 0 {
        true
    } else {
        mask_has_edge(spec_wd_edges(wd), edge)
    }
}

/// Check if wall data has a wall on the given edge (0=N, 1=E, 2=S, 3=W).
pub fn wd_has_edge(wd: u16, edge: u8) -> (r: bool)
    requires
        edge < 16,
    ensures
        r == spec_wd_has_edge(wd, edge),
{
    if wd == 0 {
        return false;
    }
    let edges = wd_edges(wd);
    if edges == 0 && wd_thickness_raw(wd) == 0 {
        return true;
    }
    (edges & (1u16 << edge as u16)) != 0
}

/// Crossing direction from tile a to tile b, as seen from a: north if b is above,
/// else east if b is to the right, else south if b is below, else west.
pub open spec fn spec_cross_dir(ax: int, ay: int, bx: int, by: int) -> u8 {
    if by - ay < 0 {
        0
    } else if bx - ax > 0 {
        1
    } else if by - ay > 0 {
        2
    } else {
        3
    }
}

/// The opposite direction.
pub open spec fn spec_opposite(dir: u8) -> u8 {
    ((dir + 2) % 4) as u8
}

pub open spec fn in_grid(x: int, y: int) -> bool {
    0 <= x < GRID_W && 0 <= y < GRID_H
}

pub open spec fn tile_index(x: int, y: int) -> int {
    y * GRID_W + x
}

/// Does the wall data of tile (x, y) block leaving it through edge `dir`? Out-of-grid
/// tiles and tiles past the end of the layer do not; a door blocks only when closed,
/// and never when doors count as passable.
pub open spec fn wd_tile_blocks(wall_data: Seq<u16>, x: int, y: int, dir: u8, doors_passable: bool) -> bool {
    in_grid(x, y) && tile_index(x, y) < wall_data.len() && {
        let wd = wall_data[tile_index(x, y)];
        wd != 0 && spec_wd_has_edge(wd, dir) && (spec_wd_has_door(wd) ==> (!doors_passable
            && !spec_wd_door_open(wd)))
    }
}

/// Crossing from a to b is blocked by the wall-data layer when either tile has a
/// blocking wall on the shared edge.
pub open spec fn spec_wd_edge_blocked(
    wall_data: Seq<u16>,
    ax: int,
    ay: int,
    bx: int,
    by: int,
    doors_passable: bool,
) -> bool {
    wall_data.len() > 0 && (wd_tile_blocks(wall_data, ax, ay, spec_cross_dir(ax, ay, bx, by), doors_passable)
        || wd_tile_blocks(wall_data, bx, by, spec_opposite(spec_cross_dir(ax, ay, bx, by)), doors_passable))
}

/// No i32 overflow in the coordinate differences that a crossing computes.
pub open spec fn crossing_fits(ax: i32, ay: i32, bx: i32, by: i32) -> bool {
    i32::MIN <= bx - ax <= i32::MAX && i32::MIN <= by - ay <= i32::MAX
}

fn cross_dir(ax: i32, ay: i32, bx: i32, by: i32) -> (d: u8)
    requires
        crossing_fits(ax, ay, bx, by),
    ensures
        d == spec_cross_dir(ax as int, ay as int, bx as int, by as int),
        d < 4,
{
    let dy = by - ay;
    let dx = bx - ax;
    if dy < 0 {
        0u8
    } else if dx > 0 {
        1
    } else if dy > 0 {
        2
    } else {
        3
    }
}

fn wd_tile_blocks_exec(wall_data: &[u16], x: i32, y: i32, dir: u8, doors_passable: bool) -> (r: bool)
    requires
        dir < 4,
    ensures
        r == wd_tile_blocks(wall_data@, x as int, y as int, dir, doors_passable),
{
    if x < 0 || y < 0 || x >= GRID_W as i32 || y >= GRID_H as i32 {
        return false;
    }
    let idx = (y as u32 * GRID_W + x as u32) as usize;
    if idx >= wall_data.len() {
        return false;
    }
    let wd = wall_data[idx];
    if wd == 0 || !wd_has_edge(wd, dir) {
        return false;
    }
    let has_door = (wd & WD_HAS_DOOR) != 0;
    if has_door {
        if doors_passable {
            return false;
        }
        let is_open = (wd & WD_DOOR_OPEN) != 0;
        return !is_open;
    }
    true
}

fn wd_edge_blocked_inner(
    wall_data: &[u16],
    ax: i32,
    ay: i32,
    bx: i32,
    by: i32,
    doors_passable: bool,
) -> (r: bool)
    requires
        wall_data@.len() > 0 ==> crossing_fits(ax, ay, bx, by),
    ensures
        r == spec_wd_edge_blocked(wall_data@, ax as int, ay as int, bx as int, by as int, doors_passable),
{
    if wall_data.len() == 0 {
        return false;
    }
    let dir_a = cross_dir(ax, ay, bx, by);
    let dir_b = (dir_a + 2) % 4;
    wd_tile_blocks_exec(wall_data, ax, ay, dir_a, doors_passable) || wd_tile_blocks_exec(
        wall_data,
        bx,
        by,
        dir_b,
        doors_passable,
    )
}

/// Is crossing from (ax, ay) to (bx, by) blocked by wall data? Closed doors block.
pub fn wd_edge_blocked(wall_data: &[u16], ax: i32, ay: i32, bx: i32, by: i32) -> (r: bool)
    requires
        wall_data@.len() > 0 ==> crossing_fits(ax, ay, bx, by),
    ensures
        r == spec_wd_edge_blocked(wall_data@, ax as int, ay as int, bx as int, by as int, false),
{
    wd_edge_blocked_inner(wall_data, ax, ay, bx, by, false)
}

/// Is crossing blocked by wall data, with every door passable (for pathfinding)?
pub fn wd_edge_blocked_ignore_doors(wall_data: &[u16], ax: i32, ay: i32, bx: i32, by: i32) -> (r: bool)
    requires
        wall_data@.len() > 0 ==> crossing_fits(ax, ay, bx, by),
    ensures
        r == spec_wd_edge_blocked(wall_data@, ax as int, ay as int, bx as int, by as int, true),
{
    wd_edge_blocked_inner(wall_data, ax, ay, bx, by, true)
}

/// Treating doors as passable can only unblock a crossing; on a wall-data layer
/// without doors it changes nothing.
pub proof fn lemma_ignore_doors_only_unblocks(wall_data: Seq<u16>, ax: int, ay: int, bx: int, by: int)
    ensures
        spec_wd_edge_blocked(wall_data, ax, ay, bx, by, true) ==> spec_wd_edge_blocked(
            wall_data,
            ax,
            ay,
            bx,
            by,
            false,
        ),
        (forall|i: int| 0 <= i < wall_data.len() ==> !spec_wd_has_door(#[trigger] wall_data[i]))
            ==> spec_wd_edge_blocked(wall_data, ax, ay, bx, by, true) == spec_wd_edge_blocked(
            wall_data,
            ax,
            ay,
            bx,
            by,
            false,
        ),
{
    if forall|i: int| 0 <= i < wall_data.len() ==> !spec_wd_has_door(#[trigger] wall_data[i]) {
        if in_grid(ax, ay) && tile_index(ax, ay) < wall_data.len() {
            assert(!spec_wd_has_door(wall_data[tile_index(ax, ay)]));
        }
        if in_grid(bx, by) && tile_index(bx, by) < wall_data.len() {
            assert(!spec_wd_has_door(wall_data[tile_index(bx, by)]));
        }
    }
}

/// Tiles that share an edge.
pub open spec fn orthogonal_neighbors(ax: int, ay: int, bx: int, by: int) -> bool {
    (ax == bx && (by == ay + 1 || by == ay - 1)) || (ay == by && (bx == ax + 1 || bx == ax - 1))
}

/// Between tiles that share an edge, the wall-data layer blocks crossing one way
/// exactly when it blocks crossing the other way.
pub proof fn lemma_wd_edge_blocked_symmetric(
    wall_data: Seq<u16>,
    ax: int,
    ay: int,
    bx: int,
    by: int,
    doors_passable: bool,
)
    requires
        orthogonal_neighbors(ax, ay, bx, by),
    ensures
        spec_wd_edge_blocked(wall_data, ax, ay, bx, by, doors_passable) == spec_wd_edge_blocked(
            wall_data,
            bx,
            by,
            ax,
            ay,
            doors_passable,
        ),
{
}

/// First set edge of wall data (0=N, 1=E, 2=S, 3=W), or 0 when it has none.
pub open spec fn spec_wd_first_edge(wd: u16) -> u8 {
    if wd & WD_EDGE_N != 0 {
        0u8
    } else if wd & WD_EDGE_E != 0 {
        1u8
    } else if wd & WD_EDGE_S != 0 {
        2u8
    } else if wd & WD_EDGE_W != 0 {
        3u8
    } else {
        0u8
    }
}

/// Returns the first set edge direction (0=N, 1=E, 2=S, 3=W) of wall data, or 0 if none.
pub fn wd_first_edge(wd: u16) -> (r: u8)
    ensures
        r == spec_wd_first_edge(wd),
{
    let edges = wd_edges(wd);
    proof {
        lemma_low_bits_of_edges(wd);
    }
    if edges & WD_EDGE_N != 0 {
        0
    } else if edges & WD_EDGE_E != 0 {
        1
    } else if edges & WD_EDGE_S != 0 {
        2
    } else if edges & WD_EDGE_W != 0 {
        3
    } else {
        0
    }
}

proof fn lemma_low_bits_of_edges(wd: u16)
    by (bit_vector)
    ensures
        (wd & 0xFu16) & 8u16 == wd & 8u16,
        (wd & 0xFu16) & 1u16 == wd & 1u16,
        (wd & 0xFu16) & 2u16 == wd & 2u16,
        (wd & 0xFu16) & 4u16 == wd & 4u16,
{
}

/// Wall data blocks movement through its tile: it has an edge, it is not an open or
/// (when doors count as passable) any door, and it is a full ring or full thickness.
pub open spec fn spec_wd_blocks_movement(wd: u16, doors_passable: bool) -> bool {
    spec_wd_edges(wd) != 0 && !(spec_wd_has_door(wd) && doors_passable) && !(spec_wd_has_door(wd)
        && spec_wd_door_open(wd)) && (spec_wd_edges(wd) == 0xF || spec_wd_thickness(wd) >= 4)
}

/// Does this wall-data tile block movement?
pub fn wd_blocks_movement(wd: u16, doors_passable: bool) -> (r: bool)
    ensures
        r == spec_wd_blocks_movement(wd, doors_passable),
{
    let edges = wd_edges(wd);
    if edges == 0 {
        return false;
    }
    let has_door = (wd & WD_HAS_DOOR) != 0;
    if has_door && doors_passable {
        return false;
    }
    if has_door && (wd & WD_DOOR_OPEN) != 0 {
        return false;
    }
    edges == 0xF || wd_thickness(wd) >= 4
}

/// How high a wall-data wall stands for bullets: no wall, low cover, a chest-high
/// barrier or a full wall.
#[derive(Clone, Copy, Debug, PartialEq, Eq, Structural)]
pub enum WallHeightClass {
    Open,
    Low,
    Chest,
    Full,
}

/// The height class of wall data: open without edges, else by the height field
/// (1 = low cover, 2 = chest height, 0 or 3-7 = full).
pub open spec fn spec_wd_height_class(wd: u16) -> WallHeightClass {
    if spec_wd_edges(wd) == 0 {
        WallHeightClass::Open
    } else if spec_wd_height(wd) == 1 {
        WallHeightClass::Low
    } else if spec_wd_height(wd) == 2 {
        WallHeightClass::Chest
    } else {
        WallHeightClass::Full
    }
}

/// Physical height class of a wall-data tile, for bullet collision.
pub fn wd_height_class(wd: u16) -> (c: WallHeightClass)
    ensures
        c == spec_wd_height_class(wd),
{
    if wd_edges(wd) == 0 {
        return WallHeightClass::Open;
    }
    let h = wd_height(wd);
    if h == 1 {
        WallHeightClass::Low
    } else if h == 2 {
        WallHeightClass::Chest
    } else {
        WallHeightClass::Full
    }
}

/// A door found in the wall-data layer: its tile, the edge it sits on, its wall
/// material, and whether it is stored open.
#[derive(Clone, Copy, Debug)]
pub struct DoorSite {
    pub x: i32,
    pub y: i32,
    pub edge: u8,
    pub material: u8,
    pub open: bool,
}

/// The door at index i of the wall-data layer (row-major, GRID_W tiles per row).
pub open spec fn spec_door_site(i: int, wd: u16) -> DoorSite {
    DoorSite {
        x: (i % (GRID_W as int)) as i32,
        y: (i / (GRID_W as int)) as i32,
        edge: spec_wd_first_edge(wd),
        material: spec_wd_material(wd) as u8,
        open: spec_wd_door_open(wd),
    }
}

/// The doors among the first n wall-data entries, in index order.
pub open spec fn door_sites_upto(wall_data: Seq<u16>, n: int) -> Seq<DoorSite>
    decreases n,
{
    if n <= 0 {
        Seq::empty()
    } else if spec_wd_has_door(wall_data[n - 1]) {
        door_sites_upto(wall_data, n - 1).push(spec_door_site(n - 1, wall_data[n - 1]))
    } else {
        door_sites_upto(wall_data, n - 1)
    }
}

/// Scan the wall-data layer for tiles with a door, in index order.
pub fn extract_door_sites(wall_data: &[u16]) -> (sites: Vec<DoorSite>)
    ensures
        sites@ == door_sites_upto(wall_data@, wall_data@.len() as int),
{
    let mut sites: Vec<DoorSite> = Vec::new();
    let mut i: usize = 0;
    while i < wall_data.len()
        invariant
            i <= wall_data@.len(),
            sites@ == door_sites_upto(wall_data@, i as int),
        decreases wall_data@.len() - i,
    {
        let wd = wall_data[i];
        if (wd & WD_HAS_DOOR) != 0 {
            let x = (i % 512) as i32;
            let y = (i / 512) as i32;
            let edge = wd_first_edge(wd);
            let material = wd_material(wd) as u8;
            sites.push(DoorSite { x, y, edge, material, open: (wd & WD_DOOR_OPEN) != 0 });
        }
        i = i + 1;
    }
    sites
}

/// First word of a door's GPU record: x and y in the low two bytes, the edge in bits
/// 16-17, the hinge side in bit 18, the lock in bit 19 and the material in bits 20-23.
pub fn door_gpu_word(x: i32, y: i32, edge: u8, hinge_side: u8, locked: bool, material: u8) -> (w: u32)
    ensures
        w & 0xFFu32 == (x as u32) & 0xFFu32,
        (w >> 8u32) & 0xFFu32 == (y as u32) & 0xFFu32,
        (w >> 16u32) & 3u32 == (edge as u32) & 3u32,
        (w >> 18u32) & 1u32 == (hinge_side as u32) & 1u32,
        (w >> 19u32) & 1u32 == (if locked {
            1u32
        } else {
            0u32
        }),
        (w >> 20u32) & 0xFu32 == (material as u32) & 0xFu32,
        w >> 24u32 == 0,
{
    let xu = x as u32;
    let yu = y as u32;
    let xb = xu & 0xFF;
    let yb = yu & 0xFF;
    assert(xu & 0xFFu32 <= 0xFF && yu & 0xFFu32 <= 0xFF) by (bit_vector);
    let eu = edge as u32;
    let hu = hinge_side as u32;
    let mu = material as u32;
    let eb = eu & 3;
    let hb = hu & 1;
    assert(eu & 3u32 <= 3 && hu & 1u32 <= 1 && mu & 0xFu32 <= 0xF) by (bit_vector);
    let lb: u32 = if locked {
        1
    } else {
        0
    };
    let mb = mu & 0xF;
    let w = xb | (yb << 8u32) | (eb << 16u32) | (hb << 18u32) | (lb << 19u32) | (mb << 20u32);
    assert(lb <= 1 ==> (
        (xb | (yb << 8u32) | (eb << 16u32) | (hb << 18u32) | (lb << 19u32) | (mb << 20u32)) & 0xFFu32 == xb
        && ((xb | (yb << 8u32) | (eb << 16u32) | (hb << 18u32) | (lb << 19u32) | (mb << 20u32)) >> 8u32) & 0xFFu32 == yb
        && ((xb | (yb << 8u32) | (eb << 16u32) | (hb << 18u32) | (lb << 19u32) | (mb << 20u32)) >> 16u32) & 3u32 == eb
        && ((xb | (yb << 8u32) | (eb << 16u32) | (hb << 18u32) | (lb << 19u32) | (mb << 20u32)) >> 18u32) & 1u32 == hb
        && ((xb | (yb << 8u32) | (eb << 16u32) | (hb << 18u32) | (lb << 19u32) | (mb << 20u32)) >> 19u32) & 1u32 == lb
        && ((xb | (yb << 8u32) | (eb << 16u32) | (hb << 18u32) | (lb << 19u32) | (mb << 20u32)) >> 20u32) & 0xFu32 == mb
        && (xb | (yb << 8u32) | (eb << 16u32) | (hb << 18u32) | (lb << 19u32) | (mb << 20u32)) >> 24u32 == 0u32))
        by (bit_vector)
        requires
            xb <= 0xFF,
            yb <= 0xFF,
            eb <= 3,
            hb <= 1,
            mb <= 0xF,
    ;
    w
}

} // verus!
