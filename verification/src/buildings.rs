//! Sample buildings for demos and testing: a stone house with power, piping,
//! lighting and crafting near the map centre. Walls go to the wall-data layer.

use vstd::prelude::*;
use crate::grid::{
    make_block, spec_make_block, BT_BATTERY_S, BT_BED, BT_BENCH, BT_CANNON, BT_CEILING_LIGHT,
    BT_CRATE, BT_FIREPLACE, BT_FLOOR_LAMP, BT_INLET, BT_KILN, BT_OUTLET, BT_PIPE, BT_PUMP,
    BT_SOLAR, BT_WALL_TORCH, BT_WELL, BT_WIRE, BT_WOOD_FLOOR, BT_WORKBENCH, GRID_H, GRID_SIZE,
    GRID_W,
};
use crate::walls::{
    in_grid, pack_wall_data, spec_pack_wall_data, spec_wd_edges, tile_index, wd_edges,
    WD_DOOR_OPEN, WD_EDGE_E, WD_EDGE_N, WD_EDGE_S, WD_EDGE_W, WD_HAS_DOOR, WD_HAS_WINDOW,
    WMAT_GENERIC, WMAT_GLASS, WMAT_STONE,
};

verus! {

/// Roof flag used for the indoor blocks.
pub const SAMPLE_ROOF: u8 = 2;

/// Highest grid index that the sample buildings write (the well at offset (6, 8)).
pub const SAMPLE_GRID_LAST: usize = 135430;

/// Highest wall-data index that the sample buildings write (the south-east corner at
/// offset (7, 5)).
pub const SAMPLE_WALL_LAST: usize = 133895;

// ---------------------------------------------------------------------
// The block layout, stage by stage, at offsets (dx, dy) from the map centre.
// ---------------------------------------------------------------------

/// Main house floor: 15x11 tiles of roofed wood floor.
pub open spec fn stage_floor(dx: int, dy: int, prev: u32) -> u32 {
    if -7 <= dx <= 7 && -5 <= dy <= 5 {
        spec_make_block(BT_WOOD_FLOOR as u8, 0, 2)
    } else {
        prev
    }
}

/// Furniture: fireplace, two two-tile beds, a three-tile bench and a crate.
pub open spec fn stage_furniture(dx: int, dy: int, prev: u32) -> u32 {
    if dx == -4 && dy == 0 {
        spec_make_block(BT_FIREPLACE as u8, 5, 2)
    } else if dx == -5 && dy == -3 {
        spec_make_block(BT_BED as u8, 0, 2)
    } else if dx == -4 && dy == -3 {
        spec_make_block(BT_BED as u8, 0, 10)
    } else if dx == 4 && dy == -3 {
        spec_make_block(BT_BED as u8, 0, 2)
    } else if dx == 5 && dy == -3 {
        spec_make_block(BT_BED as u8, 0, 10)
    } else if dx == 3 && dy == 2 {
        spec_make_block(BT_BENCH as u8, 1, 2)
    } else if dx == 4 && dy == 2 {
        spec_make_block(BT_BENCH as u8, 1, 10)
    } else if dx == 5 && dy == 2 {
        spec_make_block(BT_BENCH as u8, 1, 18)
    } else if dx == -2 && dy == 3 {
        spec_make_block(BT_CRATE as u8, 0, 2)
    } else {
        prev
    }
}

/// A 3x3 solar panel east of the house; each tile's flags hold its column (bits 3-4)
/// and row (bits 5-6) in the panel.
pub open spec fn stage_solar(dx: int, dy: int, prev: u32) -> u32 {
    if 10 <= dx <= 12 && -2 <= dy <= 0 {
        spec_make_block(BT_SOLAR as u8, 0, ((dx - 10) * 8 + (dy + 2) * 32) as u8)
    } else {
        prev
    }
}

/// Power: the wire run from the panel through the east wall to the ceiling light. The
/// battery placed at (9, 0) is covered again by the run, so the tile ends as wire.
pub open spec fn stage_power(dx: int, dy: int, prev: u32) -> u32 {
    if dx == 3 && (dy == -1 || dy == 0) {
        spec_make_block(BT_WIRE as u8, 0xF0, 2)
    } else if dx == 3 && dy == -2 {
        spec_make_block(BT_CEILING_LIGHT as u8, 0, 2)
    } else if 1 <= dx <= 7 && dy == 0 {
        spec_make_block(BT_WIRE as u8, 0xF0, 2)
    } else if (dx == 8 || dx == 9) && (dy == -1 || dy == 0) {
        spec_make_block(BT_WIRE as u8, 0xF0, 0)
    } else {
        prev
    }
}

/// Pipe system: inlet in the fireplace room, pipe run west, pump and outlet outside.
pub open spec fn stage_pipes(dx: int, dy: int, prev: u32) -> u32 {
    if dy == -1 && dx == -12 {
        spec_make_block(BT_OUTLET as u8, 1, 24)
    } else if dy == -1 && dx == -9 {
        spec_make_block(BT_PUMP as u8, 1, 24)
    } else if dy == -1 && -11 <= dx <= -8 {
        spec_make_block(BT_PIPE as u8, 0xF0, 0)
    } else if dy == -1 && dx == -7 {
        spec_make_block(BT_INLET as u8, 1, 24)
    } else {
        prev
    }
}

/// Outdoors: workbench, kiln, well, floor lamps, wall torches and a cannon.
pub open spec fn stage_outdoor(dx: int, dy: int, prev: u32) -> u32 {
    if dx == 10 && dy == 5 {
        spec_make_block(BT_CANNON as u8, 2, 8)
    } else if (dx == -2 || dx == 2) && dy == -6 {
        spec_make_block(BT_WALL_TORCH as u8, 0, 0)
    } else if (dx == -3 || dx == 3) && dy == 6 {
        spec_make_block(BT_FLOOR_LAMP as u8, 1, 0)
    } else if dx == 6 && dy == 8 {
        spec_make_block(BT_WELL as u8, 1, 0)
    } else if dx == 3 && dy == 8 {
        spec_make_block(BT_KILN as u8, 2, 0)
    } else if dx == -3 && dy == 8 {
        spec_make_block(BT_WORKBENCH as u8, 1, 0)
    } else {
        prev
    }
}

/// The block at offset (dx, dy) after the sample buildings are placed on `prev`.
pub open spec fn sample_block(dx: int, dy: int, prev: u32) -> u32 {
    stage_outdoor(
        dx,
        dy,
        stage_pipes(
            dx,
            dy,
            stage_power(dx, dy, stage_solar(dx, dy, stage_furniture(dx, dy, stage_floor(dx, dy, prev)))),
        ),
    )
}

// ---------------------------------------------------------------------
// The wall-data layout
// ---------------------------------------------------------------------

/// Add edges to a wall tile: the merged edges with the given thickness and material,
/// keeping the tile's door, open and window bits.
pub open spec fn merge_wall(existing: u16, edges: u16, thickness: u16, material: u16) -> u16 {
    spec_pack_wall_data(spec_wd_edges(existing) | edges, thickness, material) | (existing & (0x400u16
        | 0x800u16 | 0x1000u16))
}

/// A wall tile with a door (open or closed).
pub open spec fn door_wall(edges: u16, thickness: u16, material: u16, open: bool) -> u16 {
    if open {
        spec_pack_wall_data(edges, thickness, material) | 0x400u16 | 0x800u16
    } else {
        spec_pack_wall_data(edges, thickness, material) | 0x400u16
    }
}

/// A glass wall tile with a window.
pub open spec fn window_wall(edges: u16, thickness: u16) -> u16 {
    spec_pack_wall_data(edges, thickness, WMAT_GLASS) | 0x1000u16
}

/// North and south stone walls of the house.
pub open spec fn wall_stage_rows(dx: int, dy: int, prev: u16) -> u16 {
    if -7 <= dx <= 7 && dy == -5 {
        merge_wall(prev, WD_EDGE_N, 4, WMAT_STONE)
    } else if -7 <= dx <= 7 && dy == 5 {
        merge_wall(prev, WD_EDGE_S, 4, WMAT_STONE)
    } else {
        prev
    }
}

/// West and east stone walls of the house.
pub open spec fn wall_stage_columns(dx: int, dy: int, prev: u16) -> u16 {
    if dx == -7 && -5 <= dy <= 5 {
        merge_wall(prev, WD_EDGE_W, 4, WMAT_STONE)
    } else if dx == 7 && -5 <= dy <= 5 {
        merge_wall(prev, WD_EDGE_E, 4, WMAT_STONE)
    } else {
        prev
    }
}

/// Corners get both of their edges.
pub open spec fn wall_stage_corners(dx: int, dy: int, prev: u16) -> u16 {
    if dx == -7 && dy == -5 {
        merge_wall(prev, WD_EDGE_N | WD_EDGE_W, 4, WMAT_STONE)
    } else if dx == 7 && dy == -5 {
        merge_wall(prev, WD_EDGE_N | WD_EDGE_E, 4, WMAT_STONE)
    } else if dx == -7 && dy == 5 {
        merge_wall(prev, WD_EDGE_S | WD_EDGE_W, 4, WMAT_STONE)
    } else if dx == 7 && dy == 5 {
        merge_wall(prev, WD_EDGE_S | WD_EDGE_E, 4, WMAT_STONE)
    } else {
        prev
    }
}

/// Closed front door in the south wall, then glass windows in the north and south walls.
pub open spec fn wall_stage_openings(dx: int, dy: int, prev: u16) -> u16 {
    if dy == -5 && (dx == -4 || dx == -3 || dx == 3 || dx == 4) {
        window_wall(WD_EDGE_N, 4)
    } else if dy == 5 && (dx == -4 || dx == 4) {
        window_wall(WD_EDGE_S, 4)
    } else if dx == 0 && dy == 5 {
        door_wall(WD_EDGE_S, 4, WMAT_GENERIC, false)
    } else {
        prev
    }
}

/// The dividing wall between the two rooms, with a closed interior door.
pub open spec fn wall_stage_divider(dx: int, dy: int, prev: u16) -> u16 {
    if dx == 0 && dy == 2 {
        door_wall(WD_EDGE_E | WD_EDGE_W, 4, WMAT_GENERIC, false)
    } else if dx == 0 && -4 <= dy <= 1 {
        merge_wall(prev, WD_EDGE_E | WD_EDGE_W, 4, WMAT_STONE)
    } else {
        prev
    }
}

/// The wall-data word at offset (dx, dy) after the sample buildings are placed on `prev`.
pub open spec fn sample_wall(dx: int, dy: int, prev: u16) -> u16 {
    wall_stage_divider(
        dx,
        dy,
        wall_stage_openings(
            dx,
            dy,
            wall_stage_corners(dx, dy, wall_stage_columns(dx, dy, wall_stage_rows(dx, dy, prev))),
        ),
    )
}

// ---------------------------------------------------------------------
// Writing the layout
// ---------------------------------------------------------------------

/// `after` is `before` with the tile at (x, y) set to v when (x, y) is in the grid.
pub open spec fn set_at<T>(before: Seq<T>, after: Seq<T>, x: int, y: int, v: T) -> bool {
    after == (if in_grid(x, y) {
        before.update(tile_index(x, y), v)
    } else {
        before
    })
}

fn set_block(grid: &mut [u32], x: i32, y: i32, b: u32)
    requires
        old(grid)@.len() >= GRID_SIZE,
    ensures
        set_at(old(grid)@, final(grid)@, x as int, y as int, b),
{
    if x >= 0 && y >= 0 && x < GRID_W as i32 && y < GRID_H as i32 {
        grid[(y * 512 + x) as usize] = b;
    }
}

fn set_wall(wd: &mut [u16], x: i32, y: i32, edges: u16, thickness: u16, material: u16)
    requires
        old(wd)@.len() >= GRID_SIZE,
    ensures
        in_grid(x as int, y as int) ==> final(wd)@ == old(wd)@.update(
            tile_index(x as int, y as int),
            merge_wall(old(wd)@[tile_index(x as int, y as int)], edges, thickness, material),
        ),
        !in_grid(x as int, y as int) ==> final(wd)@ == old(wd)@,
{
    if x >= 0 && y >= 0 && x < GRID_W as i32 && y < GRID_H as i32 {
        let idx = (y * 512 + x) as usize;
        let existing = wd[idx];
        let existing_edges = wd_edges(existing);
        let merged = existing_edges | edges;
        wd[idx] = pack_wall_data(merged, thickness, material) | (existing & (WD_HAS_DOOR
            | WD_DOOR_OPEN | WD_HAS_WINDOW));
    }
}

fn set_wall_door(wd: &mut [u16], x: i32, y: i32, edges: u16, thickness: u16, material: u16, open: bool)
    requires
        old(wd)@.len() >= GRID_SIZE,
    ensures
        set_at(old(wd)@, final(wd)@, x as int, y as int, door_wall(edges, thickness, material, open)),
{
    if x >= 0 && y >= 0 && x < GRID_W as i32 && y < GRID_H as i32 {
        let idx = (y * 512 + x) as usize;
        wd[idx] = pack_wall_data(edges, thickness, material) | WD_HAS_DOOR;
        if open {
            wd[idx] = wd[idx] | WD_DOOR_OPEN;
        }
        assert(wd@ =~= old(wd)@.update(
            tile_index(x as int, y as int),
            door_wall(edges, thickness, material, open),
        ));
    }
}

fn set_window(wd: &mut [u16], x: i32, y: i32, edges: u16, thickness: u16)
    requires
        old(wd)@.len() >= GRID_SIZE,
    ensures
        set_at(old(wd)@, final(wd)@, x as int, y as int, window_wall(edges, thickness)),
{
    if x >= 0 && y >= 0 && x < GRID_W as i32 && y < GRID_H as i32 {
        let idx = (y * 512 + x) as usize;
        wd[idx] = pack_wall_data(edges, thickness, WMAT_GLASS) | WD_HAS_WINDOW;
    }
}

/// Tiles of `after` equal `f` of the tiles of `before` everywhere in the grid, and
/// past the grid nothing changes.
pub open spec fn grid_stage_applied(before: Seq<u32>, after: Seq<u32>, stage: spec_fn(int, int, u32) -> u32) -> bool {
    &&& after.len() == before.len()
    &&& forall|x: int, y: int|
        in_grid(x, y) ==> #[trigger] after[tile_index(x, y)] == stage(
            x - 256,
            y - 256,
            before[tile_index(x, y)],
        )
    &&& forall|i: int| GRID_SIZE <= i < before.len() ==> #[trigger] after[i] == before[i]
}

proof fn lemma_set_step<T>(before: Seq<T>, after: Seq<T>, x: int, y: int, v: T)
    requires
        set_at(before, after, x, y, v),
        in_grid(x, y),
        before.len() >= GRID_SIZE,
    ensures
        after.len() == before.len(),
        forall|xx: int, yy: int|
            in_grid(xx, yy) ==> #[trigger] after[tile_index(xx, yy)] == (if xx == x && yy == y {
                v
            } else {
                before[tile_index(xx, yy)]
            }),
        forall|i: int| GRID_SIZE <= i < before.len() ==> #[trigger] after[i] == before[i],
{
}

fn place_floor(grid: &mut [u32])
    requires
        old(grid)@.len() >= GRID_SIZE,
    ensures
        grid_stage_applied(old(grid)@, final(grid)@, |dx: int, dy: int, p: u32| stage_floor(dx, dy, p)),
{
    let ghost orig = grid@;
    let cx: i32 = 256;
    let cy: i32 = 256;
    let roof: u8 = SAMPLE_ROOF;
    let mut y: i32 = -5;
    while y <= 5
        invariant
            -5 <= y <= 6,
            cx == 256,
            cy == 256,
            roof == 2,
            grid@.len() == orig.len(),
            orig.len() >= GRID_SIZE,
            forall|xx: int, yy: int|
                in_grid(xx, yy) ==> #[trigger] grid@[tile_index(xx, yy)] == (if -7 <= xx - 256 <= 7
                    && -5 <= yy - 256 < y {
                    spec_make_block(BT_WOOD_FLOOR as u8, 0, 2)
                } else {
                    orig[tile_index(xx, yy)]
                }),
            forall|i: int| GRID_SIZE <= i < orig.len() ==> #[trigger] grid@[i] == orig[i],
        decreases 6 - y,
    {
        let mut x: i32 = -7;
        while x <= 7
            invariant
                -7 <= x <= 8,
                -5 <= y <= 5,
                cx == 256,
                cy == 256,
                roof == 2,
                grid@.len() == orig.len(),
                orig.len() >= GRID_SIZE,
                forall|xx: int, yy: int|
                    in_grid(xx, yy) ==> #[trigger] grid@[tile_index(xx, yy)] == (if (-7 <= xx - 256
                        <= 7 && -5 <= yy - 256 < y) || (yy - 256 == y && -7 <= xx - 256 < x) {
                        spec_make_block(BT_WOOD_FLOOR as u8, 0, 2)
                    } else {
                        orig[tile_index(xx, yy)]
                    }),
                forall|i: int| GRID_SIZE <= i < orig.len() ==> #[trigger] grid@[i] == orig[i],
            decreases 8 - x,
        {
            let ghost before = grid@;
            set_block(grid, cx + x, cy + y, make_block(BT_WOOD_FLOOR as u8, 0, roof));
            proof {
                lemma_set_step(before, grid@, (cx + x) as int, (cy + y) as int, spec_make_block(BT_WOOD_FLOOR as u8, 0, 2));
            }
            x = x + 1;
        }
        y = y + 1;
    }
}

fn place_furniture(grid: &mut [u32])
    requires
        old(grid)@.len() >= GRID_SIZE,
    ensures
        grid_stage_applied(old(grid)@, final(grid)@, |dx: int, dy: int, p: u32| stage_furniture(dx, dy, p)),
{
    let cx: i32 = 256;
    let cy: i32 = 256;
    let roof: u8 = SAMPLE_ROOF;
    proof {
        lemma_flag_constants();
    }
    let ghost g0 = grid@;
    set_block(grid, cx - 4, cy, make_block(BT_FIREPLACE as u8, 5, roof));
    let ghost g1 = grid@;
    proof {
        lemma_set_step(g0, g1, 252int, 256int, spec_make_block(BT_FIREPLACE as u8, 5, 2));
    }
    set_block(grid, cx - 5, cy - 3, make_block(BT_BED as u8, 0, roof));
    let ghost g2 = grid@;
    proof {
        lemma_set_step(g1, g2, 251int, 253int, spec_make_block(BT_BED as u8, 0, 2));
    }
    set_block(grid, cx - 4, cy - 3, make_block(BT_BED as u8, 0, roof | (1 << 3u8)));
    let ghost g3 = grid@;
    proof {
        lemma_set_step(g2, g3, 252int, 253int, spec_make_block(BT_BED as u8, 0, 10));
    }
    set_block(grid, cx + 4, cy - 3, make_block(BT_BED as u8, 0, roof));
    let ghost g4 = grid@;
    proof {
        lemma_set_step(g3, g4, 260int, 253int, spec_make_block(BT_BED as u8, 0, 2));
    }
    set_block(grid, cx + 5, cy - 3, make_block(BT_BED as u8, 0, roof | (1 << 3u8)));
    let ghost g5 = grid@;
    proof {
        lemma_set_step(g4, g5, 261int, 253int, spec_make_block(BT_BED as u8, 0, 10));
    }
    set_block(grid, cx + 3, cy + 2, make_block(BT_BENCH as u8, 1, roof));
    let ghost g6 = grid@;
    proof {
        lemma_set_step(g5, g6, 259int, 258int, spec_make_block(BT_BENCH as u8, 1, 2));
    }
    set_block(grid, cx + 4, cy + 2, make_block(BT_BENCH as u8, 1, roof | (1 << 3u8)));
    let ghost g7 = grid@;
    proof {
        lemma_set_step(g6, g7, 260int, 258int, spec_make_block(BT_BENCH as u8, 1, 10));
    }
    set_block(grid, cx + 5, cy + 2, make_block(BT_BENCH as u8, 1, roof | (2 << 3u8)));
    let ghost g8 = grid@;
    proof {
        lemma_set_step(g7, g8, 261int, 258int, spec_make_block(BT_BENCH as u8, 1, 18));
    }
    set_block(grid, cx - 2, cy + 3, make_block(BT_CRATE as u8, 0, roof));
    let ghost g9 = grid@;
    proof {
        lemma_set_step(g8, g9, 254int, 259int, spec_make_block(BT_CRATE as u8, 0, 2));
    }
}

proof fn lemma_flag_constants()
    by (bit_vector)
    ensures
        2u8 | (1u8 << 3u8) == 10,
        2u8 | (2u8 << 3u8) == 18,
        3u8 << 3u8 == 24,
        1u8 << 3u8 == 8,
{
}

fn place_solar(grid: &mut [u32])
    requires
        old(grid)@.len() >= GRID_SIZE,
    ensures
        grid_stage_applied(old(grid)@, final(grid)@, |dx: int, dy: int, p: u32| stage_solar(dx, dy, p)),
{
    let ghost orig = grid@;
    let cx: i32 = 256;
    let cy: i32 = 256;
    let mut sy: i32 = 0;
    while sy < 3
        invariant
            0 <= sy <= 3,
            cx == 256,
            cy == 256,
            grid@.len() == orig.len(),
            orig.len() >= GRID_SIZE,
            forall|xx: int, yy: int|
                in_grid(xx, yy) ==> #[trigger] grid@[tile_index(xx, yy)] == (if 10 <= xx - 256
                    <= 12 && -2 <= yy - 256 < sy - 2 {
                    spec_make_block(BT_SOLAR as u8, 0, ((xx - 266) * 8 + (yy - 254) * 32) as u8)
                } else {
                    orig[tile_index(xx, yy)]
                }),
            forall|i: int| GRID_SIZE <= i < orig.len() ==> #[trigger] grid@[i] == orig[i],
        decreases 3 - sy,
    {
        let mut sx: i32 = 0;
        while sx < 3
            invariant
                0 <= sx <= 3,
                0 <= sy < 3,
                cx == 256,
                cy == 256,
                grid@.len() == orig.len(),
                orig.len() >= GRID_SIZE,
                forall|xx: int, yy: int|
                    in_grid(xx, yy) ==> #[trigger] grid@[tile_index(xx, yy)] == (if (10 <= xx - 256
                        <= 12 && -2 <= yy - 256 < sy - 2) || (yy - 256 == sy - 2 && 10 <= xx - 256
                        < sx + 10) {
                        spec_make_block(BT_SOLAR as u8, 0, ((xx - 266) * 8 + (yy - 254) * 32) as u8)
                    } else {
                        orig[tile_index(xx, yy)]
                    }),
                forall|i: int| GRID_SIZE <= i < orig.len() ==> #[trigger] grid@[i] == orig[i],
            decreases 3 - sx,
        {
            let flags = ((sx as u8) << 3u8) | ((sy as u8) << 5u8);
            proof {
                lemma_panel_flags(sx as u8, sy as u8);
            }
            let ghost before = grid@;
            set_block(grid, cx + 10 + sx, cy - 2 + sy, make_block(BT_SOLAR as u8, 0, flags));
            proof {
                lemma_set_step(
                    before,
                    grid@,
                    (cx + 10 + sx) as int,
                    (cy - 2 + sy) as int,
                    spec_make_block(BT_SOLAR as u8, 0, flags),
                );
            }
            sx = sx + 1;
        }
        sy = sy + 1;
    }
}

proof fn lemma_panel_flags(sx: u8, sy: u8)
    by (bit_vector)
    requires
        sx < 3,
        sy < 3,
    ensures
        (sx << 3u8) | (sy << 5u8) == sx * 8 + sy * 32,
{
}

fn place_power(grid: &mut [u32])
    requires
        old(grid)@.len() >= GRID_SIZE,
    ensures
        grid_stage_applied(old(grid)@, final(grid)@, |dx: int, dy: int, p: u32| stage_power(dx, dy, p)),
{
    let cx: i32 = 256;
    let cy: i32 = 256;
    let roof: u8 = SAMPLE_ROOF;
    let ghost g0 = grid@;
    // Battery, then the wire run from the panel past the battery and through the wall.
    set_block(grid, cx + 9, cy, make_block(BT_BATTERY_S as u8, 1, 0));
    let ghost g1 = grid@;
    proof {
        lemma_set_step(g0, g1, 265int, 256int, spec_make_block(BT_BATTERY_S as u8, 1, 0));
    }
    set_block(grid, cx + 8, cy - 1, make_block(BT_WIRE as u8, 0xF0, 0));
    let ghost g2 = grid@;
    proof {
        lemma_set_step(g1, g2, 264int, 255int, spec_make_block(BT_WIRE as u8, 0xF0, 0));
    }
    set_block(grid, cx + 9, cy - 1, make_block(BT_WIRE as u8, 0xF0, 0));
    let ghost g3 = grid@;
    proof {
        lemma_set_step(g2, g3, 265int, 255int, spec_make_block(BT_WIRE as u8, 0xF0, 0));
    }
    set_block(grid, cx + 8, cy, make_block(BT_WIRE as u8, 0xF0, 0));
    let ghost g4 = grid@;
    proof {
        lemma_set_step(g3, g4, 264int, 256int, spec_make_block(BT_WIRE as u8, 0xF0, 0));
    }
    set_block(grid, cx + 9, cy, make_block(BT_WIRE as u8, 0xF0, 0));
    let ghost g5 = grid@;
    proof {
        lemma_set_step(g4, g5, 265int, 256int, spec_make_block(BT_WIRE as u8, 0xF0, 0));
    }
    set_block(grid, cx + 7, cy, make_block(BT_WIRE as u8, 0xF0, roof));
    let ghost g6 = grid@;
    proof {
        lemma_set_step(g5, g6, 263int, 256int, spec_make_block(BT_WIRE as u8, 0xF0, 2));
    }
    let mut x: i32 = 1;
    while x <= 6
        invariant
            1 <= x <= 7,
            cx == 256,
            cy == 256,
            roof == 2,
            grid@.len() == g0.len(),
            g0.len() >= GRID_SIZE,
            forall|xx: int, yy: int|
                in_grid(xx, yy) ==> #[trigger] grid@[tile_index(xx, yy)] == (if yy == 256 && 257
                    <= xx < 256 + x {
                    spec_make_block(BT_WIRE as u8, 0xF0, 2)
                } else {
                    g6[tile_index(xx, yy)]
                }),
            forall|i: int| GRID_SIZE <= i < g0.len() ==> #[trigger] grid@[i] == g0[i],
            forall|i: int| GRID_SIZE <= i < g0.len() ==> #[trigger] g6[i] == g0[i],
        decreases 7 - x,
    {
        let ghost before = grid@;
        set_block(grid, cx + x, cy, make_block(BT_WIRE as u8, 0xF0, roof));
        proof {
            lemma_set_step(before, grid@, (cx + x) as int, cy as int, spec_make_block(BT_WIRE as u8, 0xF0, 2));
        }
        x = x + 1;
    }
    let ghost g100 = grid@;
    // Ceiling light and the branch that feeds it.
    set_block(grid, cx + 3, cy - 2, make_block(BT_CEILING_LIGHT as u8, 0, roof));
    let ghost g101 = grid@;
    proof {
        lemma_set_step(g100, g101, 259int, 254int, spec_make_block(BT_CEILING_LIGHT as u8, 0, 2));
    }
    set_block(grid, cx + 3, cy - 1, make_block(BT_WIRE as u8, 0xF0, roof));
    let ghost g102 = grid@;
    proof {
        lemma_set_step(g101, g102, 259int, 255int, spec_make_block(BT_WIRE as u8, 0xF0, 2));
    }
    set_block(grid, cx + 3, cy, make_block(BT_WIRE as u8, 0xF0, roof));
    let ghost g103 = grid@;
    proof {
        lemma_set_step(g102, g103, 259int, 256int, spec_make_block(BT_WIRE as u8, 0xF0, 2));
    }
}

fn place_pipes(grid: &mut [u32])
    requires
        old(grid)@.len() >= GRID_SIZE,
    ensures
        grid_stage_applied(old(grid)@, final(grid)@, |dx: int, dy: int, p: u32| stage_pipes(dx, dy, p)),
{
    let cx: i32 = 256;
    let cy: i32 = 256;
    proof {
        lemma_flag_constants();
    }
    let ghost g0 = grid@;
    set_block(grid, cx - 7, cy - 1, make_block(BT_INLET as u8, 1, 3 << 3u8));
    let ghost g1 = grid@;
    proof {
        lemma_set_step(g0, g1, 249int, 255int, spec_make_block(BT_INLET as u8, 1, 24));
    }
    let mut x: i32 = -11;
    while x < -7
        invariant
            -11 <= x <= -7,
            cx == 256,
            cy == 256,
            grid@.len() == g0.len(),
            g0.len() >= GRID_SIZE,
            forall|xx: int, yy: int|
                in_grid(xx, yy) ==> #[trigger] grid@[tile_index(xx, yy)] == (if yy == 255 && 245
                    <= xx < 256 + x {
                    spec_make_block(BT_PIPE as u8, 0xF0, 0)
                } else {
                    g1[tile_index(xx, yy)]
                }),
            forall|i: int| GRID_SIZE <= i < g0.len() ==> #[trigger] grid@[i] == g0[i],
            forall|i: int| GRID_SIZE <= i < g0.len() ==> #[trigger] g1[i] == g0[i],
        decreases -7 - x,
    {
        let ghost before = grid@;
        set_block(grid, cx + x, cy - 1, make_block(BT_PIPE as u8, 0xF0, 0));
        proof {
            lemma_set_step(before, grid@, (cx + x) as int, 255int, spec_make_block(BT_PIPE as u8, 0xF0, 0));
        }
        x = x + 1;
    }
    let ghost g100 = grid@;
    set_block(grid, cx - 9, cy - 1, make_block(BT_PUMP as u8, 1, 3 << 3u8));
    let ghost g101 = grid@;
    proof {
        lemma_set_step(g100, g101, 247int, 255int, spec_make_block(BT_PUMP as u8, 1, 24));
    }
    set_block(grid, cx - 12, cy - 1, make_block(BT_OUTLET as u8, 1, 3 << 3u8));
    let ghost g102 = grid@;
    proof {
        lemma_set_step(g101, g102, 244int, 255int, spec_make_block(BT_OUTLET as u8, 1, 24));
    }
}

fn place_outdoor(grid: &mut [u32])
    requires
        old(grid)@.len() >= GRID_SIZE,
    ensures
        grid_stage_applied(old(grid)@, final(grid)@, |dx: int, dy: int, p: u32| stage_outdoor(dx, dy, p)),
{
    let cx: i32 = 256;
    let cy: i32 = 256;
    proof {
        lemma_flag_constants();
    }
    let ghost g0 = grid@;
    set_block(grid, cx - 3, cy + 8, make_block(BT_WORKBENCH as u8, 1, 0));
    let ghost g1 = grid@;
    proof {
        lemma_set_step(g0, g1, 253int, 264int, spec_make_block(BT_WORKBENCH as u8, 1, 0));
    }
    set_block(grid, cx + 3, cy + 8, make_block(BT_KILN as u8, 2, 0));
    let ghost g2 = grid@;
    proof {
        lemma_set_step(g1, g2, 259int, 264int, spec_make_block(BT_KILN as u8, 2, 0));
    }
    set_block(grid, cx + 6, cy + 8, make_block(BT_WELL as u8, 1, 0));
    let ghost g3 = grid@;
    proof {
        lemma_set_step(g2, g3, 262int, 264int, spec_make_block(BT_WELL as u8, 1, 0));
    }
    set_block(grid, cx - 3, cy + 6, make_block(BT_FLOOR_LAMP as u8, 1, 0));
    let ghost g4 = grid@;
    proof {
        lemma_set_step(g3, g4, 253int, 262int, spec_make_block(BT_FLOOR_LAMP as u8, 1, 0));
    }
    set_block(grid, cx + 3, cy + 6, make_block(BT_FLOOR_LAMP as u8, 1, 0));
    let ghost g5 = grid@;
    proof {
        lemma_set_step(g4, g5, 259int, 262int, spec_make_block(BT_FLOOR_LAMP as u8, 1, 0));
    }
    set_block(grid, cx - 2, cy - 6, make_block(BT_WALL_TORCH as u8, 0, 0));
    let ghost g6 = grid@;
    proof {
        lemma_set_step(g5, g6, 254int, 250int, spec_make_block(BT_WALL_TORCH as u8, 0, 0));
    }
    set_block(grid, cx + 2, cy - 6, make_block(BT_WALL_TORCH as u8, 0, 0));
    let ghost g7 = grid@;
    proof {
        lemma_set_step(g6, g7, 258int, 250int, spec_make_block(BT_WALL_TORCH as u8, 0, 0));
    }
    set_block(grid, cx + 10, cy + 5, make_block(BT_CANNON as u8, 2, 1 << 3u8));
    let ghost g8 = grid@;
    proof {
        lemma_set_step(g7, g8, 266int, 261int, spec_make_block(BT_CANNON as u8, 2, 8));
    }
}

/// Wall-data tiles of `after` equal `stage` of the tiles of `before` everywhere in the
/// grid, and past the grid nothing changes.
pub open spec fn wall_stage_applied(before: Seq<u16>, after: Seq<u16>, stage: spec_fn(int, int, u16) -> u16) -> bool {
    &&& after.len() == before.len()
    &&& forall|x: int, y: int|
        in_grid(x, y) ==> #[trigger] after[tile_index(x, y)] == stage(
            x - 256,
            y - 256,
            before[tile_index(x, y)],
        )
    &&& forall|i: int| GRID_SIZE <= i < before.len() ==> #[trigger] after[i] == before[i]
}

proof fn lemma_merge_step(before: Seq<u16>, after: Seq<u16>, x: int, y: int, edges: u16, thickness: u16, material: u16)
    requires
        in_grid(x, y),
        before.len() >= GRID_SIZE,
        after == before.update(tile_index(x, y), merge_wall(before[tile_index(x, y)], edges, thickness, material)),
    ensures
        after.len() == before.len(),
        forall|xx: int, yy: int|
            in_grid(xx, yy) ==> #[trigger] after[tile_index(xx, yy)] == (if xx == x && yy == y {
                merge_wall(before[tile_index(xx, yy)], edges, thickness, material)
            } else {
                before[tile_index(xx, yy)]
            }),
        forall|i: int| GRID_SIZE <= i < before.len() ==> #[trigger] after[i] == before[i],
{
}

fn place_wall_rows(wd: &mut [u16])
    requires
        old(wd)@.len() >= GRID_SIZE,
    ensures
        wall_stage_applied(old(wd)@, final(wd)@, |dx: int, dy: int, p: u16| wall_stage_rows(dx, dy, p)),
{
    let ghost orig = wd@;
    let cx: i32 = 256;
    let cy: i32 = 256;
    let mut x: i32 = -7;
    while x <= 7
        invariant
            -7 <= x <= 8,
            cx == 256,
            cy == 256,
            wd@.len() == orig.len(),
            orig.len() >= GRID_SIZE,
            forall|xx: int, yy: int|
                in_grid(xx, yy) ==> #[trigger] wd@[tile_index(xx, yy)] == (if -7 <= xx - 256 < x
                    && yy == 251 {
                    merge_wall(orig[tile_index(xx, yy)], WD_EDGE_N, 4, WMAT_STONE)
                } else if -7 <= xx - 256 < x && yy == 261 {
                    merge_wall(orig[tile_index(xx, yy)], WD_EDGE_S, 4, WMAT_STONE)
                } else {
                    orig[tile_index(xx, yy)]
                }),
            forall|i: int| GRID_SIZE <= i < orig.len() ==> #[trigger] wd@[i] == orig[i],
        decreases 8 - x,
    {
        let ghost b0 = wd@;
        set_wall(wd, cx + x, cy - 5, WD_EDGE_N, 4, WMAT_STONE);
        proof {
            lemma_merge_step(b0, wd@, (cx + x) as int, 251int, WD_EDGE_N, 4, WMAT_STONE);
        }
        let ghost b1 = wd@;
        set_wall(wd, cx + x, cy + 5, WD_EDGE_S, 4, WMAT_STONE);
        proof {
            lemma_merge_step(b1, wd@, (cx + x) as int, 261int, WD_EDGE_S, 4, WMAT_STONE);
        }
        x = x + 1;
    }
}

fn place_wall_columns(wd: &mut [u16])
    requires
        old(wd)@.len() >= GRID_SIZE,
    ensures
        wall_stage_applied(old(wd)@, final(wd)@, |dx: int, dy: int, p: u16| wall_stage_columns(dx, dy, p)),
{
    let ghost orig = wd@;
    let cx: i32 = 256;
    let cy: i32 = 256;
    let mut y: i32 = -5;
    while y <= 5
        invariant
            -5 <= y <= 6,
            cx == 256,
            cy == 256,
            wd@.len() == orig.len(),
            orig.len() >= GRID_SIZE,
            forall|xx: int, yy: int|
                in_grid(xx, yy) ==> #[trigger] wd@[tile_index(xx, yy)] == (if xx == 249 && -5 <= yy
                    - 256 < y {
                    merge_wall(orig[tile_index(xx, yy)], WD_EDGE_W, 4, WMAT_STONE)
                } else if xx == 263 && -5 <= yy - 256 < y {
                    merge_wall(orig[tile_index(xx, yy)], WD_EDGE_E, 4, WMAT_STONE)
                } else {
                    orig[tile_index(xx, yy)]
                }),
            forall|i: int| GRID_SIZE <= i < orig.len() ==> #[trigger] wd@[i] == orig[i],
        decreases 6 - y,
    {
        let ghost b0 = wd@;
        set_wall(wd, cx - 7, cy + y, WD_EDGE_W, 4, WMAT_STONE);
        proof {
            lemma_merge_step(b0, wd@, 249int, (cy + y) as int, WD_EDGE_W, 4, WMAT_STONE);
        }
        let ghost b1 = wd@;
        set_wall(wd, cx + 7, cy + y, WD_EDGE_E, 4, WMAT_STONE);
        proof {
            lemma_merge_step(b1, wd@, 263int, (cy + y) as int, WD_EDGE_E, 4, WMAT_STONE);
        }
        y = y + 1;
    }
}

fn place_wall_corners(wd: &mut [u16])
    requires
        old(wd)@.len() >= GRID_SIZE,
    ensures
        wall_stage_applied(old(wd)@, final(wd)@, |dx: int, dy: int, p: u16| wall_stage_corners(dx, dy, p)),
{
    let cx: i32 = 256;
    let cy: i32 = 256;
    let ghost g0 = wd@;
    set_wall(wd, cx - 7, cy - 5, WD_EDGE_N | WD_EDGE_W, 4, WMAT_STONE);
    let ghost g1 = wd@;
    proof {
        lemma_merge_step(g0, g1, 249int, 251int, WD_EDGE_N | WD_EDGE_W, 4, WMAT_STONE);
    }
    set_wall(wd, cx + 7, cy - 5, WD_EDGE_N | WD_EDGE_E, 4, WMAT_STONE);
    let ghost g2 = wd@;
    proof {
        lemma_merge_step(g1, g2, 263int, 251int, WD_EDGE_N | WD_EDGE_E, 4, WMAT_STONE);
    }
    set_wall(wd, cx - 7, cy + 5, WD_EDGE_S | WD_EDGE_W, 4, WMAT_STONE);
    let ghost g3 = wd@;
    proof {
        lemma_merge_step(g2, g3, 249int, 261int, WD_EDGE_S | WD_EDGE_W, 4, WMAT_STONE);
    }
    set_wall(wd, cx + 7, cy + 5, WD_EDGE_S | WD_EDGE_E, 4, WMAT_STONE);
    let ghost g4 = wd@;
    proof {
        lemma_merge_step(g3, g4, 263int, 261int, WD_EDGE_S | WD_EDGE_E, 4, WMAT_STONE);
    }
}

fn place_wall_openings(wd: &mut [u16])
    requires
        old(wd)@.len() >= GRID_SIZE,
    ensures
        wall_stage_applied(old(wd)@, final(wd)@, |dx: int, dy: int, p: u16| wall_stage_openings(dx, dy, p)),
{
    let cx: i32 = 256;
    let cy: i32 = 256;
    let ghost g0 = wd@;
    // Front door (south).
    set_wall_door(wd, cx, cy + 5, WD_EDGE_S, 4, WMAT_GENERIC, false);
    let ghost g1 = wd@;
    proof {
        lemma_set_step(g0, g1, 256int, 261int, door_wall(WD_EDGE_S, 4, WMAT_GENERIC, false));
    }
    // Windows (glass) in the north and south walls.
    set_window(wd, cx - 4, cy - 5, WD_EDGE_N, 4);
    let ghost g2 = wd@;
    proof {
        lemma_set_step(g1, g2, 252int, 251int, window_wall(WD_EDGE_N, 4));
    }
    set_window(wd, cx - 3, cy - 5, WD_EDGE_N, 4);
    let ghost g3 = wd@;
    proof {
        lemma_set_step(g2, g3, 253int, 251int, window_wall(WD_EDGE_N, 4));
    }
    set_window(wd, cx + 3, cy - 5, WD_EDGE_N, 4);
    let ghost g4 = wd@;
    proof {
        lemma_set_step(g3, g4, 259int, 251int, window_wall(WD_EDGE_N, 4));
    }
    set_window(wd, cx + 4, cy - 5, WD_EDGE_N, 4);
    let ghost g5 = wd@;
    proof {
        lemma_set_step(g4, g5, 260int, 251int, window_wall(WD_EDGE_N, 4));
    }
    set_window(wd, cx - 4, cy + 5, WD_EDGE_S, 4);
    let ghost g6 = wd@;
    proof {
        lemma_set_step(g5, g6, 252int, 261int, window_wall(WD_EDGE_S, 4));
    }
    set_window(wd, cx + 4, cy + 5, WD_EDGE_S, 4);
    let ghost g7 = wd@;
    proof {
        lemma_set_step(g6, g7, 260int, 261int, window_wall(WD_EDGE_S, 4));
    }
}

fn place_wall_divider(wd: &mut [u16])
    requires
        old(wd)@.len() >= GRID_SIZE,
    ensures
        wall_stage_applied(old(wd)@, final(wd)@, |dx: int, dy: int, p: u16| wall_stage_divider(dx, dy, p)),
{
    let ghost orig = wd@;
    let cx: i32 = 256;
    let cy: i32 = 256;
    let mut y: i32 = -4;
    while y <= 1
        invariant
            -4 <= y <= 2,
            cx == 256,
            cy == 256,
            wd@.len() == orig.len(),
            orig.len() >= GRID_SIZE,
            forall|xx: int, yy: int|
                in_grid(xx, yy) ==> #[trigger] wd@[tile_index(xx, yy)] == (if xx == 256 && -4 <= yy
                    - 256 < y {
                    merge_wall(orig[tile_index(xx, yy)], WD_EDGE_E | WD_EDGE_W, 4, WMAT_STONE)
                } else {
                    orig[tile_index(xx, yy)]
                }),
            forall|i: int| GRID_SIZE <= i < orig.len() ==> #[trigger] wd@[i] == orig[i],
        decreases 2 - y,
    {
        let ghost b0 = wd@;
        set_wall(wd, cx, cy + y, WD_EDGE_E | WD_EDGE_W, 4, WMAT_STONE);
        proof {
            lemma_merge_step(b0, wd@, 256int, (cy + y) as int, WD_EDGE_E | WD_EDGE_W, 4, WMAT_STONE);
        }
        y = y + 1;
    }
    let ghost g1 = wd@;
    // Interior door.
    set_wall_door(wd, cx, cy + 2, WD_EDGE_E | WD_EDGE_W, 4, WMAT_GENERIC, false);
    proof {
        lemma_set_step(g1, wd@, 256int, 258int, door_wall(WD_EDGE_E | WD_EDGE_W, 4, WMAT_GENERIC, false));
    }
}

/// The sample buildings on full-size layers.
fn place_sample_buildings(grid: &mut [u32], wall_data: &mut [u16])
    requires
        old(grid)@.len() >= GRID_SIZE,
        old(wall_data)@.len() >= GRID_SIZE,
    ensures
        final(grid)@.len() == old(grid)@.len(),
        final(wall_data)@.len() == old(wall_data)@.len(),
        forall|x: int, y: int|
            in_grid(x, y) ==> #[trigger] final(grid)@[tile_index(x, y)] == sample_block(
                x - 256,
                y - 256,
                old(grid)@[tile_index(x, y)],
            ),
        forall|x: int, y: int|
            in_grid(x, y) ==> #[trigger] final(wall_data)@[tile_index(x, y)] == sample_wall(
                x - 256,
                y - 256,
                old(wall_data)@[tile_index(x, y)],
            ),
        forall|i: int| GRID_SIZE <= i < old(grid)@.len() ==> #[trigger] final(grid)@[i] == old(grid)@[i],
        forall|i: int|
            GRID_SIZE <= i < old(wall_data)@.len() ==> #[trigger] final(wall_data)@[i] == old(
                wall_data,
            )@[i],
{
    let ghost g0 = grid@;
    let ghost w0 = wall_data@;
    // Main house (stone, 15x11 exterior): roofed wood floor over the whole footprint.
    place_floor(grid);
    let ghost g1 = grid@;
    // Walls in wall data: north/south rows, west/east columns, corners.
    place_wall_rows(wall_data);
    let ghost w1 = wall_data@;
    place_wall_columns(wall_data);
    let ghost w2 = wall_data@;
    place_wall_corners(wall_data);
    let ghost w3 = wall_data@;
    // Front door and windows.
    place_wall_openings(wall_data);
    let ghost w4 = wall_data@;
    // Dividing wall between the two rooms, with an interior door.
    place_wall_divider(wall_data);
    let ghost w5 = wall_data@;
    place_furniture(grid);
    let ghost g2 = grid@;
    // Power: solar panel, battery, wiring, ceiling light.
    place_solar(grid);
    let ghost g3 = grid@;
    place_power(grid);
    let ghost g4 = grid@;
    // Pipes: inlet in the fireplace room, pump and outlet outside.
    place_pipes(grid);
    let ghost g5 = grid@;
    // Workshop, well, lighting and defence outdoors.
    place_outdoor(grid);
    let ghost g6 = grid@;
    assert forall|x: int, y: int| in_grid(x, y) implies #[trigger] grid@[tile_index(x, y)] == sample_block(
        x - 256,
        y - 256,
        g0[tile_index(x, y)],
    ) by {
        let t = tile_index(x, y);
        assert(g1[t] == stage_floor(x - 256, y - 256, g0[t]));
        assert(g2[t] == stage_furniture(x - 256, y - 256, g1[t]));
        assert(g3[t] == stage_solar(x - 256, y - 256, g2[t]));
        assert(g4[t] == stage_power(x - 256, y - 256, g3[t]));
        assert(g5[t] == stage_pipes(x - 256, y - 256, g4[t]));
        assert(g6[t] == stage_outdoor(x - 256, y - 256, g5[t]));
    }
    assert forall|x: int, y: int| in_grid(x, y) implies #[trigger] wall_data@[tile_index(x, y)] == sample_wall(
        x - 256,
        y - 256,
        w0[tile_index(x, y)],
    ) by {
        let t = tile_index(x, y);
        assert(w1[t] == wall_stage_rows(x - 256, y - 256, w0[t]));
        assert(w2[t] == wall_stage_columns(x - 256, y - 256, w1[t]));
        assert(w3[t] == wall_stage_corners(x - 256, y - 256, w2[t]));
        assert(w4[t] == wall_stage_openings(x - 256, y - 256, w3[t]));
        assert(w5[t] == wall_stage_divider(x - 256, y - 256, w4[t]));
    }
}

/// Add the sample buildings to a world grid, with their walls in the wall-data layer:
/// every grid tile becomes `sample_block` of what it held, every wall-data tile
/// `sample_wall`, and nothing past the grid changes.
///
/// The layers may be shorter than the full grid, as long as they hold every tile that
/// the buildings cover.
pub fn generate_sample_buildings_wd(grid: &mut [u32], wall_data: &mut [u16])
    requires
        old(grid)@.len() > SAMPLE_GRID_LAST,
        old(wall_data)@.len() > SAMPLE_WALL_LAST,
    ensures
        final(grid)@.len() == old(grid)@.len(),
        final(wall_data)@.len() == old(wall_data)@.len(),
        forall|x: int, y: int|
            in_grid(x, y) && tile_index(x, y) < old(grid)@.len() ==> #[trigger] final(grid)@[tile_index(x, y)]
                == sample_block(x - 256, y - 256, old(grid)@[tile_index(x, y)]),
        forall|x: int, y: int|
            in_grid(x, y) && tile_index(x, y) < old(wall_data)@.len() ==> #[trigger] final(wall_data)@[tile_index(
                x,
                y,
            )] == sample_wall(x - 256, y - 256, old(wall_data)@[tile_index(x, y)]),
        forall|i: int| GRID_SIZE <= i < old(grid)@.len() ==> #[trigger] final(grid)@[i] == old(grid)@[i],
        forall|i: int|
            GRID_SIZE <= i < old(wall_data)@.len() ==> #[trigger] final(wall_data)@[i] == old(
                wall_data,
            )@[i],
{
    if grid.len() >= GRID_SIZE && wall_data.len() >= GRID_SIZE {
        place_sample_buildings(grid, wall_data);
        return;
    }
    let ghost g0 = grid@;
    let ghost w0 = wall_data@;
    let mut g = padded_copy(grid, 0u32);
    let mut w = padded_copy(wall_data, 0u16);
    let ghost gp = g@;
    let ghost wp = w@;
    place_sample_buildings(g.as_mut_slice(), w.as_mut_slice());
    copy_prefix(grid, &g);
    copy_prefix(wall_data, &w);
    assert forall|x: int, y: int|
        in_grid(x, y) && tile_index(x, y) < g0.len() implies #[trigger] grid@[tile_index(x, y)]
            == sample_block(x - 256, y - 256, g0[tile_index(x, y)]) by {
        assert(gp[tile_index(x, y)] == g0[tile_index(x, y)]);
    }
    assert forall|x: int, y: int|
        in_grid(x, y) && tile_index(x, y) < w0.len() implies #[trigger] wall_data@[tile_index(x, y)]
            == sample_wall(x - 256, y - 256, w0[tile_index(x, y)]) by {
        assert(wp[tile_index(x, y)] == w0[tile_index(x, y)]);
    }
}

/// A copy of `src` extended with `fill` to at least the full grid size.
fn padded_copy<T: Copy>(src: &[T], fill: T) -> (v: Vec<T>)
    ensures
        v@.len() == if src@.len() >= GRID_SIZE {
            src@.len()
        } else {
            GRID_SIZE as nat
        },
        forall|i: int| 0 <= i < src@.len() ==> #[trigger] v@[i] == src@[i],
{
    let mut v: Vec<T> = Vec::new();
    let mut i: usize = 0;
    while i < src.len()
        invariant
            i <= src@.len(),
            v@.len() == i,
            forall|k: int| 0 <= k < i ==> #[trigger] v@[k] == src@[k],
        decreases src@.len() - i,
    {
        v.push(src[i]);
        i = i + 1;
    }
    while v.len() < GRID_SIZE
        invariant
            src@.len() <= v@.len(),
            src@.len() < GRID_SIZE ==> v@.len() <= GRID_SIZE,
            src@.len() >= GRID_SIZE ==> v@.len() == src@.len(),
            forall|k: int| 0 <= k < src@.len() ==> #[trigger] v@[k] == src@[k],
        decreases GRID_SIZE - v@.len(),
    {
        v.push(fill);
    }
    v
}

/// Overwrite `dst` with the first `dst.len()` entries of `src`.
fn copy_prefix<T: Copy>(dst: &mut [T], src: &Vec<T>)
    requires
        src@.len() >= old(dst)@.len(),
    ensures
        final(dst)@.len() == old(dst)@.len(),
        forall|i: int| 0 <= i < old(dst)@.len() ==> #[trigger] final(dst)@[i] == src@[i],
{
    let n = dst.len();
    let mut i: usize = 0;
    while i < n
        invariant
            n == dst@.len(),
            i <= n,
            src@.len() >= n,
            forall|k: int| 0 <= k < i ==> #[trigger] dst@[k] == src@[k],
        decreases n - i,
    {
        dst[i] = src[i];
        i = i + 1;
    }
}

/// Add the sample buildings to a world grid, with their walls in a fresh wall-data
/// layer that is then discarded: every grid tile becomes `sample_block` of what it held.
pub fn generate_sample_buildings(grid: &mut [u32])
    requires
        old(grid)@.len() > SAMPLE_GRID_LAST,
    ensures
        final(grid)@.len() == old(grid)@.len(),
        forall|x: int, y: int|
            in_grid(x, y) && tile_index(x, y) < old(grid)@.len() ==> #[trigger] final(grid)@[tile_index(x, y)]
                == sample_block(x - 256, y - 256, old(grid)@[tile_index(x, y)]),
        forall|i: int| GRID_SIZE <= i < old(grid)@.len() ==> #[trigger] final(grid)@[i] == old(grid)@[i],
{
    let mut wd: Vec<u16> = Vec::new();
    while wd.len() < GRID_SIZE
        invariant
            wd@.len() <= GRID_SIZE,
        decreases GRID_SIZE - wd@.len(),
    {
        wd.push(0);
    }
    generate_sample_buildings_wd(grid, wd.as_mut_slice());
}

} // verus!
