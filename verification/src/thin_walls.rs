//! Legacy thin-wall encoding in the block word, edge blocking on the block grid,
//! and migration of legacy walls into the wall-data layer.
//!
//! Height byte of a wall block: bits 0-3 wall height, bits 4-7 edge bitmask
//! (bit 4 N, bit 5 E, bit 6 S, bit 7 W); an empty bitmask is a full wall.
//! Flags byte: bits 5-6 thickness (0=full/4, 1->3, 2->2, 3->1 sub-cell).

use vstd::prelude::*;
use crate::bits::{lemma_u16_masks, lemma_u8_masks};
use crate::grid::{
    block_flags_rs, block_height_raw, block_height_rs, block_type_rs, is_wall_block,
    is_wall_type, spec_block_flags, spec_block_height, spec_block_height_raw, spec_block_type,
    BT_GLASS, GRID_H, GRID_SIZE, GRID_W,
};
use crate::walls::{
    crossing_fits, in_grid, pack_wall_data, spec_cross_dir, spec_opposite, spec_pack_wall_data,
    spec_wall_material, spec_wd_edge_blocked, spec_wd_edges, spec_wd_has_edge, tile_index,
    wall_block_to_material, wd_edge_blocked, WD_DOOR_OPEN, WD_EDGE_E, WD_EDGE_MASK, WD_EDGE_N,
    WD_EDGE_S, WD_EDGE_W, WD_HAS_DOOR, WD_HAS_WINDOW,
};

verus! {

pub const WALL_EDGE_N: u8 = 0x10;
pub const WALL_EDGE_E: u8 = 0x20;
pub const WALL_EDGE_S: u8 = 0x40;
pub const WALL_EDGE_W: u8 = 0x80;

/// Height-byte bitmask of an edge index (0=N, 1=E, 2=S, 3=W, taken mod 4).
pub open spec fn spec_edge_to_mask(edge: u8) -> u8 {
    0x10u8 << (edge & 3u8)
}

/// Convert an edge index (0=N, 1=E, 2=S, 3=W) to its height-byte bitmask.
pub fn edge_to_mask(edge: u8) -> (m: u8)
    ensures
        m == spec_edge_to_mask(edge),
{
    proof {
        lemma_u8_masks(edge);
    }
    WALL_EDGE_N << (edge & 3)
}

/// Wall height byte: base height in the low nibble, edge bitmask in the high nibble.
pub open spec fn spec_make_wall_height(base_height: u8, edge_mask: u8) -> u8 {
    (base_height & 0x0Fu8) | (edge_mask & 0xF0u8)
}

/// Create a wall block height byte from a base height and an edge bitmask.
pub fn make_wall_height(base_height: u8, edge_mask: u8) -> (h: u8)
    ensures
        h == spec_make_wall_height(base_height, edge_mask),
{
    (base_height & 0x0F) | (edge_mask & 0xF0)
}

/// Actual wall height: the low 4 bits of the height byte.
pub fn wall_height(height_byte: u8) -> (h: u8)
    ensures
        h == height_byte & 0x0Fu8,
{
    height_byte & 0x0F
}

/// Edge bitmask: the high 4 bits of the height byte.
pub fn wall_edge_mask(height_byte: u8) -> (m: u8)
    ensures
        m == height_byte & 0xF0u8,
{
    height_byte & 0xF0
}

/// The base height and edge bitmask packed by `make_wall_height` are read back.
pub proof fn lemma_wall_height_roundtrip(base_height: u8, edge_mask: u8)
    ensures
        spec_make_wall_height(base_height, edge_mask) & 0x0Fu8 == base_height & 0x0Fu8,
        spec_make_wall_height(base_height, edge_mask) & 0xF0u8 == edge_mask & 0xF0u8,
{
    assert(((base_height & 0x0Fu8) | (edge_mask & 0xF0u8)) & 0x0Fu8 == base_height & 0x0Fu8
        && ((base_height & 0x0Fu8) | (edge_mask & 0xF0u8)) & 0xF0u8 == edge_mask & 0xF0u8)
        by (bit_vector);
}

/// Thickness bits for a thickness in sub-cells: 4 - thickness (saturating), mod 4.
pub open spec fn spec_thin_thick_bits(thickness: u8) -> u8 {
    (if thickness >= 4 { 0u8 } else { (4 - thickness) as u8 }) & 3u8
}

/// Flags byte of a thin wall: the roof flag with the thickness in bits 5-6.
pub open spec fn spec_thin_wall_flags(roof_flag: u8, thickness: u8) -> u8 {
    roof_flag | (spec_thin_thick_bits(thickness) << 5u8)
}

/// Thin wall flags byte and the edge bitmask of a single edge.
pub fn make_thin_wall_flags(roof_flag: u8, edge: u8, thickness: u8) -> (r: (u8, u8))
    ensures
        r.0 == spec_thin_wall_flags(roof_flag, thickness),
        r.1 == spec_edge_to_mask(edge),
{
    let thick_bits = if thickness >= 4 { 0u8 } else { 4 - thickness };
    let flags = roof_flag | ((thick_bits & 3) << 5u8);
    let edge_mask = edge_to_mask(edge);
    (flags, edge_mask)
}

/// Thin wall corner flags: the flags byte and the bitmask of two adjacent edges
/// (`edge` and the next one clockwise).
pub fn make_thin_wall_corner_flags(roof_flag: u8, edge: u8, thickness: u8) -> (r: (u8, u8))
    requires
        edge < 255,
    ensures
        r.0 == spec_thin_wall_flags(roof_flag, thickness),
        r.1 == spec_edge_to_mask(edge) | spec_edge_to_mask(((edge + 1) as u8) & 3u8),
{
    let thick_bits = if thickness >= 4 { 0u8 } else { 4 - thickness };
    let flags = roof_flag | ((thick_bits & 3) << 5u8);
    let edge_mask = edge_to_mask(edge) | edge_to_mask((edge + 1) & 3);
    (flags, edge_mask)
}

/// A wall block has a wall on `edge` when it is full thickness, when its edge bitmask
/// is empty (a full wall), or when the bitmask holds that edge.
pub open spec fn spec_has_wall_on_edge(height_byte: u8, flags: u8, edge: u8) -> bool {
    ((flags >> 5u8) & 3u8) == 0 || (height_byte & 0xF0u8) == 0 || ((height_byte & 0xF0u8)
        & spec_edge_to_mask(edge)) != 0
}

/// Does a wall block have a wall on the given edge (0=N, 1=E, 2=S, 3=W)?
pub fn has_wall_on_edge(height_byte: u8, flags: u8, edge: u8) -> (r: bool)
    ensures
        r == spec_has_wall_on_edge(height_byte, flags, edge),
{
    let thick_raw = (flags >> 5u8) & 3;
    if thick_raw == 0 {
        return true;
    }
    let edge_mask = wall_edge_mask(height_byte);
    if edge_mask == 0 {
        return true;
    }
    (edge_mask & edge_to_mask(edge)) != 0
}

/// A thin wall made with one edge and a thickness of 1 to 3 sub-cells has a wall on
/// that edge and on no other; at full thickness it has a wall on every edge.
pub proof fn lemma_thin_wall_single_edge(roof_flag: u8, edge: u8, thickness: u8, base: u8, dir: u8)
    requires
        roof_flag & 0x9Fu8 == roof_flag,
    ensures
        1 <= thickness <= 3 ==> (spec_has_wall_on_edge(
            spec_make_wall_height(base, spec_edge_to_mask(edge)),
            spec_thin_wall_flags(roof_flag, thickness),
            dir,
        ) == (dir & 3u8 == edge & 3u8)),
        (thickness == 0 || thickness >= 4) ==> spec_has_wall_on_edge(
            spec_make_wall_height(base, spec_edge_to_mask(edge)),
            spec_thin_wall_flags(roof_flag, thickness),
            dir,
        ),
{
    let s: u8 = if thickness >= 4 { 0u8 } else { (4 - thickness) as u8 };
    lemma_thin_single(roof_flag, s, edge, base, dir);
}

proof fn lemma_thin_single(roof_flag: u8, s: u8, edge: u8, base: u8, dir: u8)
    by (bit_vector)
    requires
        roof_flag & 0x9Fu8 == roof_flag,
    ensures
        ((roof_flag | ((s & 3u8) << 5u8)) >> 5u8) & 3u8 == s & 3u8,
        ((base & 0x0Fu8) | ((0x10u8 << (edge & 3u8)) & 0xF0u8)) & 0xF0u8 != 0,
        (((base & 0x0Fu8) | ((0x10u8 << (edge & 3u8)) & 0xF0u8)) & 0xF0u8) & (0x10u8 << (dir
            & 3u8)) != 0 <==> (dir & 3u8 == edge & 3u8),
        (1 <= s && s <= 3) ==> s & 3u8 != 0,
        (s == 0 || s == 4) ==> s & 3u8 == 0,
{
}

/// A thin wall's corner piece has walls on its two edges (edge and the next one
/// clockwise) and on no other, for thicknesses of 1 to 3 sub-cells.
pub proof fn lemma_thin_wall_corner_edges(roof_flag: u8, edge: u8, thickness: u8, base: u8, dir: u8)
    requires
        roof_flag & 0x9Fu8 == roof_flag,
        edge < 255,
        1 <= thickness <= 3,
    ensures
        spec_has_wall_on_edge(
            spec_make_wall_height(
                base,
                spec_edge_to_mask(edge) | spec_edge_to_mask(((edge + 1) as u8) & 3u8),
            ),
            spec_thin_wall_flags(roof_flag, thickness),
            dir,
        ) == (dir & 3u8 == edge & 3u8 || dir & 3u8 == ((edge + 1) as u8) & 3u8),
{
    let s: u8 = (4 - thickness) as u8;
    let e1: u8 = ((edge + 1) as u8) & 3u8;
    lemma_u8_masks((edge + 1) as u8);
    lemma_thin_corner(roof_flag, s, edge, e1, base, dir);
}

proof fn lemma_thin_corner(roof_flag: u8, s: u8, edge: u8, e1: u8, base: u8, dir: u8)
    by (bit_vector)
    requires
        roof_flag & 0x9Fu8 == roof_flag,
        1 <= s && s <= 3,
        e1 < 4,
    ensures
        ((roof_flag | ((s & 3u8) << 5u8)) >> 5u8) & 3u8 != 0,
        ((base & 0x0Fu8) | (((0x10u8 << (edge & 3u8)) | (0x10u8 << (e1 & 3u8))) & 0xF0u8))
            & 0xF0u8 != 0,
        (((base & 0x0Fu8) | (((0x10u8 << (edge & 3u8)) | (0x10u8 << (e1 & 3u8))) & 0xF0u8))
            & 0xF0u8) & (0x10u8 << (dir & 3u8)) != 0 <==> (dir & 3u8 == edge & 3u8 || dir & 3u8
            == e1),
{
}

/// A thin wall has open sub-cells that can be walked: it is not full thickness and
/// its edge bitmask is not empty.
pub open spec fn spec_thin_wall_is_walkable(block: u32) -> bool {
    ((spec_block_flags(block) >> 5u8) & 3u8) != 0 && (spec_block_height_raw(block) & 0xF0u8) != 0
}

/// Is a thin wall tile walkable?
pub fn thin_wall_is_walkable(block: u32) -> (r: bool)
    ensures
        r == spec_thin_wall_is_walkable(block),
{
    let flags = block_flags_rs(block);
    let thick_raw = (flags >> 5u8) & 3;
    let height_raw = block_height_raw(block);
    let edge_mask = wall_edge_mask(height_raw);
    thick_raw != 0 && edge_mask != 0
}

/// Does the block at (x, y) block leaving it through edge `dir`? It must be in the
/// grid, be a wall type with a visible height, not be an open door, and have a wall
/// on that edge.
pub open spec fn grid_tile_blocks(grid: Seq<u32>, x: int, y: int, dir: u8) -> bool {
    in_grid(x, y) && {
        let b = grid[tile_index(x, y)];
        spec_block_height(b) > 0 && is_wall_type(spec_block_type(b)) && !((spec_block_flags(b)
            & 1u8) != 0 && (spec_block_flags(b) & 4u8) != 0) && spec_has_wall_on_edge(
            spec_block_height_raw(b),
            spec_block_flags(b),
            dir,
        )
    }
}

/// Crossing from a to b is blocked on the block grid when either tile has a wall on
/// the shared edge.
pub open spec fn spec_grid_edge_blocked(grid: Seq<u32>, ax: int, ay: int, bx: int, by: int) -> bool {
    grid_tile_blocks(grid, ax, ay, spec_cross_dir(ax, ay, bx, by)) || grid_tile_blocks(
        grid,
        bx,
        by,
        spec_opposite(spec_cross_dir(ax, ay, bx, by)),
    )
}

/// A grid tile at (x, y) lies within a slice of length `len` (tiles off the grid are
/// never read).
pub open spec fn tile_in_slice(len: int, x: int, y: int) -> bool {
    in_grid(x, y) ==> tile_index(x, y) < len
}

fn grid_tile_blocks_exec(grid: &[u32], x: i32, y: i32, dir: u8) -> (r: bool)
    requires
        tile_in_slice(grid@.len() as int, x as int, y as int),
    ensures
        r == grid_tile_blocks(grid@, x as int, y as int, dir),
{
    if x >= 0 && y >= 0 && x < GRID_W as i32 && y < GRID_H as i32 {
        let b = grid[(y as u32 * GRID_W + x as u32) as usize];
        let bt = block_type_rs(b);
        let flags = block_flags_rs(b);
        let height_raw = block_height_raw(b);
        let height = block_height_rs(b);
        if height > 0 && is_wall_block(bt) {
            let is_door = (flags & 1) != 0;
            let is_open = (flags & 4) != 0;
            if !(is_door && is_open) && has_wall_on_edge(height_raw, flags, dir) {
                return true;
            }
        }
    }
    false
}

fn edge_blocked_grid(grid: &[u32], ax: i32, ay: i32, bx: i32, by: i32) -> (r: bool)
    requires
        tile_in_slice(grid@.len() as int, ax as int, ay as int),
        tile_in_slice(grid@.len() as int, bx as int, by as int),
        crossing_fits(ax, ay, bx, by),
    ensures
        r == spec_grid_edge_blocked(grid@, ax as int, ay as int, bx as int, by as int),
{
    let dx = bx - ax;
    let dy = by - ay;
    let dir_from_a = if dy < 0 {
        0u8
    } else if dx > 0 {
        1
    } else if dy > 0 {
        2
    } else {
        3
    };
    let dir_from_b = (dir_from_a + 2) % 4;
    if grid_tile_blocks_exec(grid, ax, ay, dir_from_a) {
        return true;
    }
    if grid_tile_blocks_exec(grid, bx, by, dir_from_b) {
        return true;
    }
    false
}

/// Legacy: is crossing between adjacent tiles blocked on the block grid alone?
pub fn edge_blocked(grid: &[u32], ax: i32, ay: i32, bx: i32, by: i32) -> (r: bool)
    requires
        tile_in_slice(grid@.len() as int, ax as int, ay as int),
        tile_in_slice(grid@.len() as int, bx as int, by as int),
        crossing_fits(ax, ay, bx, by),
    ensures
        r == spec_grid_edge_blocked(grid@, ax as int, ay as int, bx as int, by as int),
{
    edge_blocked_grid(grid, ax, ay, bx, by)
}

/// Is crossing blocked, by the wall-data layer (closed doors block) or by the block grid?
pub fn edge_blocked_wd(grid: &[u32], wall_data: &[u16], ax: i32, ay: i32, bx: i32, by: i32) -> (r: bool)
    requires
        tile_in_slice(grid@.len() as int, ax as int, ay as int),
        tile_in_slice(grid@.len() as int, bx as int, by as int),
        crossing_fits(ax, ay, bx, by),
    ensures
        r == (spec_wd_edge_blocked(wall_data@, ax as int, ay as int, bx as int, by as int, false)
            || spec_grid_edge_blocked(grid@, ax as int, ay as int, bx as int, by as int)),
{
    if wall_data.len() != 0 && wd_edge_blocked(wall_data, ax, ay, bx, by) {
        return true;
    }
    edge_blocked_grid(grid, ax, ay, bx, by)
}

/// Between tiles that share an edge, the block grid blocks crossing one way exactly
/// when it blocks crossing the other way.
pub proof fn lemma_grid_edge_blocked_symmetric(grid: Seq<u32>, ax: int, ay: int, bx: int, by: int)
    requires
        crate::walls::orthogonal_neighbors(ax, ay, bx, by),
    ensures
        spec_grid_edge_blocked(grid, ax, ay, bx, by) == spec_grid_edge_blocked(grid, bx, by, ax, ay),
{
}

/// Wall-data edges of a legacy wall: an empty height-byte bitmask is a full wall.
pub open spec fn spec_legacy_edges(height_raw: u8) -> u16 {
    if height_raw & 0xF0u8 == 0 {
        0xFu16
    } else {
        (((height_raw & 0xF0u8) >> 4u8) as u16) & 0xFu16
    }
}

/// Thickness in sub-cells of a legacy wall's flags byte.
pub open spec fn spec_legacy_thickness(flags: u8) -> u16 {
    if (flags >> 5u8) & 3u8 == 0 {
        4u16
    } else {
        (4 - ((flags >> 5u8) & 3u8)) as u16
    }
}

/// The wall-data word a legacy block migrates to: 0 unless it is a wall type with a
/// visible height; otherwise its edges, thickness and material, a height of 1 or 2
/// kept in bits 13-15, and the door, open and (for glass) window bits.
pub open spec fn spec_wall_data_from_block(b: u32) -> u16 {
    if !is_wall_type(spec_block_type(b)) || spec_block_height(b) == 0 {
        0
    } else {
        let flags = spec_block_flags(b);
        let h = spec_block_height(b) as u16;
        let w0 = spec_pack_wall_data(
            spec_legacy_edges(spec_block_height_raw(b)),
            spec_legacy_thickness(flags),
            spec_wall_material(spec_block_type(b)),
        );
        let w1 = if h > 0 && h < 3 { w0 | ((h & 7u16) << 13u16) } else { w0 };
        let w2 = if (flags & 1u8) != 0 { w1 | 0x400u16 } else { w1 };
        let w3 = if (flags & 4u8) != 0 { w2 | 0x800u16 } else { w2 };
        if spec_block_type(b) == BT_GLASS { w3 | 0x1000u16 } else { w3 }
    }
}

fn wall_data_from_block(block: u32) -> (w: u16)
    ensures
        w == spec_wall_data_from_block(block),
{
    let bt = block_type_rs(block);
    if !is_wall_block(bt) {
        return 0;
    }
    let h_raw = block_height_raw(block);
    let flags = block_flags_rs(block);
    let visual_h = block_height_rs(block);
    if visual_h == 0 {
        return 0;
    }
    let edge_mask = wall_edge_mask(h_raw);
    let edges = if edge_mask == 0 {
        WD_EDGE_N | WD_EDGE_E | WD_EDGE_S | WD_EDGE_W
    } else {
        ((edge_mask >> 4u8) as u16) & WD_EDGE_MASK
    };
    let thick_raw = (flags >> 5u8) & 3;
    proof {
        lemma_u8_masks(flags);
    }
    let thickness: u16 = if thick_raw == 0 {
        4
    } else {
        (4 - thick_raw) as u16
    };
    let material = wall_block_to_material(bt);
    let is_door = (flags & 1) != 0;
    let is_open = (flags & 4) != 0;
    let mut w = pack_wall_data(edges, thickness, material);
    let block_h = visual_h as u16;
    if block_h > 0 && block_h < 3 {
        w = w | ((block_h & 7) << 13u16);
    }
    if is_door {
        w = w | WD_HAS_DOOR;
    }
    if is_open {
        w = w | WD_DOOR_OPEN;
    }
    if bt == BT_GLASS {
        w = w | WD_HAS_WINDOW;
    }
    proof {
        assert(WD_EDGE_N | WD_EDGE_E | WD_EDGE_S | WD_EDGE_W == 0xFu16) by (bit_vector);
    }
    w
}

/// Extract the wall-data layer from the block grid (migration from the legacy
/// encoding): one word per grid tile, each the migration of the block at that index.
pub fn extract_wall_data_from_grid(grid: &[u32]) -> (wd: Vec<u16>)
    ensures
        wd@.len() == GRID_SIZE,
        forall|i: int|
            0 <= i < GRID_SIZE ==> #[trigger] wd@[i] == (if i < grid@.len() {
                spec_wall_data_from_block(grid@[i])
            } else {
                0u16
            }),
{
    let size = GRID_SIZE;
    let mut wd: Vec<u16> = Vec::new();
    let mut i: usize = 0;
    while i < size
        invariant
            i <= size,
            size == GRID_SIZE,
            wd@.len() == i,
            forall|j: int|
                0 <= j < i ==> #[trigger] wd@[j] == (if j < grid@.len() {
                    spec_wall_data_from_block(grid@[j])
                } else {
                    0u16
                }),
        decreases size - i,
    {
        if i < grid.len() {
            wd.push(wall_data_from_block(grid[i]));
        } else {
            wd.push(0);
        }
        i = i + 1;
    }
    wd
}

/// Migrating a legacy wall keeps which edges are walled: for a wall type with a visible
/// height, whose bitmask is empty or whose thickness is not full, the wall-data word has
/// a wall on an edge exactly when the legacy encoding does.
pub proof fn lemma_extract_keeps_edges(b: u32, dir: u8)
    requires
        is_wall_type(spec_block_type(b)),
        spec_block_height(b) > 0,
        dir < 4,
        (spec_block_height_raw(b) & 0xF0u8) == 0 || ((spec_block_flags(b) >> 5u8) & 3u8) != 0,
    ensures
        spec_wd_has_edge(spec_wall_data_from_block(b), dir) == spec_has_wall_on_edge(
            spec_block_height_raw(b),
            spec_block_flags(b),
            dir,
        ),
{
    let raw = spec_block_height_raw(b);
    let flags = spec_block_flags(b);
    let bt = spec_block_type(b);
    let mat = spec_wall_material(bt);
    let tb = (flags >> 5u8) & 3u8;
    let h = spec_block_height(b) as u16;
    let e = spec_legacy_edges(raw);
    let tbits = spec_thin_thick_bits_u16(spec_legacy_thickness(flags));
    lemma_legacy_edges(raw, dir);
    lemma_thick_bits_back(flags);
    lemma_chain_fields(
        e,
        tbits,
        mat,
        h,
        h > 0 && h < 3,
        (flags & 1u8) != 0,
        (flags & 4u8) != 0,
        bt == BT_GLASS,
    );
    assert(spec_pack_wall_data(e, spec_legacy_thickness(flags), mat) == (e & 0xFu16) | (tbits
        << 4u16) | ((mat & 0xFu16) << 6u16));
}

spec fn spec_thin_thick_bits_u16(thickness: u16) -> u16 {
    (if thickness >= 4 { 0u16 } else { (4 - thickness) as u16 }) & 3u16
}

proof fn lemma_thick_bits_back(flags: u8)
    ensures
        spec_thin_thick_bits_u16(spec_legacy_thickness(flags)) == ((flags >> 5u8) & 3u8) as u16,
        ((flags >> 5u8) & 3u8) < 4,
{
    assert(0u16 & 3u16 == 0 && 1u16 & 3u16 == 1 && 2u16 & 3u16 == 2 && 3u16 & 3u16 == 3)
        by (bit_vector);
    assert(((flags >> 5u8) & 3u8) < 4) by (bit_vector);
}

proof fn lemma_legacy_edges(raw: u8, dir: u8)
    requires
        dir < 4,
    ensures
        spec_legacy_edges(raw) & 0xFu16 == spec_legacy_edges(raw),
        spec_legacy_edges(raw) != 0,
        raw & 0xF0u8 == 0 ==> spec_legacy_edges(raw) == 0xFu16,
        raw & 0xF0u8 == 0 ==> (spec_legacy_edges(raw) & (1u16 << (dir as u16))) != 0,
        raw & 0xF0u8 != 0 ==> (((raw & 0xF0u8) & (0x10u8 << (dir & 3u8))) != 0 <==> (
        spec_legacy_edges(raw) & (1u16 << (dir as u16))) != 0),
{
    lemma_u16_masks(0);
    assert(raw & 0xF0u8 != 0 ==> (((raw & 0xF0u8) >> 4u8) as u16) & 0xFu16 != 0) by (bit_vector);
    assert(((((raw & 0xF0u8) >> 4u8) as u16) & 0xFu16) & 0xFu16 == (((raw & 0xF0u8) >> 4u8) as u16)
        & 0xFu16) by (bit_vector);
    assert(dir < 4 ==> (0xFu16 & (1u16 << (dir as u16))) != 0) by (bit_vector);
    assert(dir < 4 ==> ((((raw & 0xF0u8) & (0x10u8 << (dir & 3u8))) != 0) <==> (((((raw & 0xF0u8)
        >> 4u8) as u16) & 0xFu16) & (1u16 << (dir as u16))) != 0)) by (bit_vector);
}

proof fn lemma_chain_fields(e: u16, tbits: u16, m: u16, h: u16, c1: bool, c2: bool, c3: bool, c4: bool)
    by (bit_vector)
    requires
        e & 0xFu16 == e,
        e != 0,
        tbits < 4,
    ensures
        ({
            let w0 = (e & 0xFu16) | (tbits << 4u16) | ((m & 0xFu16) << 6u16);
            let w1 = if c1 { w0 | ((h & 7u16) << 13u16) } else { w0 };
            let w2 = if c2 { w1 | 0x400u16 } else { w1 };
            let w3 = if c3 { w2 | 0x800u16 } else { w2 };
            let w4 = if c4 { w3 | 0x1000u16 } else { w3 };
            &&& w4 & 0xFu16 == e
            &&& (w4 >> 4u16) & 3u16 == tbits
            &&& w4 != 0
        }),
{
}

} // verus!
