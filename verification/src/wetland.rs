//! Wetland buffer: plants give way near water. Each tile's distance to the nearest
//! wet tile (in steps between neighbouring tiles, up to four) decides what may grow.

use vstd::prelude::*;
use vstd::wrapping::u32_specs;
use crate::grid::{
    block_type_rs, make_block, spec_block_type, spec_make_block, BT_BERRY_BUSH, BT_DUSKBLOOM,
    BT_DUSTWHISKER, BT_GROUND, BT_HOLLOW_REED, BT_ROCK, BT_SALTBRUSH, BT_THORNBRAKE, BT_TREE,
    GRID_H, GRID_SIZE, GRID_W,
};
use crate::walls::{in_grid, tile_index};

verus! {

/// The tile (x, y) is in the grid and marked wet.
pub open spec fn wet_at(wet: Seq<bool>, x: int, y: int) -> bool {
    in_grid(x, y) && tile_index(x, y) < wet.len() && wet[tile_index(x, y)]
}

/// Steps between (x, y) and (x2, y2) moving between neighbouring tiles.
pub open spec fn steps(x: int, y: int, x2: int, y2: int) -> int {
    (if x >= x2 {
        x - x2
    } else {
        x2 - x
    }) + (if y >= y2 {
        y - y2
    } else {
        y2 - y
    })
}

/// Some wet tile lies within d steps of (x, y).
pub open spec fn wet_within(wet: Seq<bool>, x: int, y: int, d: int) -> bool {
    exists|x2: int, y2: int| #[trigger] wet_at(wet, x2, y2) && steps(x, y, x2, y2) <= d
}

/// The distance from (x, y) to the nearest wet tile when it is at most k, else 255.
pub open spec fn water_level(wet: Seq<bool>, x: int, y: int, k: nat) -> u8
    decreases k,
{
    if k == 0 {
        if wet_within(wet, x, y, 0) {
            0
        } else {
            255
        }
    } else if water_level(wet, x, y, (k - 1) as nat) < 255 {
        water_level(wet, x, y, (k - 1) as nat)
    } else if wet_within(wet, x, y, k as int) {
        k as u8
    } else {
        255
    }
}

proof fn lemma_within_monotone(wet: Seq<bool>, x: int, y: int, d: int, d2: int)
    requires
        wet_within(wet, x, y, d),
        d <= d2,
    ensures
        wet_within(wet, x, y, d2),
{
    let (x2, y2) = choose|x2: int, y2: int| #[trigger] wet_at(wet, x2, y2) && steps(x, y, x2, y2) <= d;
    assert(wet_at(wet, x2, y2));
}

proof fn lemma_within_zero(wet: Seq<bool>, x: int, y: int)
    ensures
        wet_within(wet, x, y, 0) == wet_at(wet, x, y),
{
    if wet_within(wet, x, y, 0) {
        let (x2, y2) = choose|x2: int, y2: int| #[trigger] wet_at(wet, x2, y2) && steps(x, y, x2, y2) <= 0;
        assert(x2 == x && y2 == y);
    }
    if wet_at(wet, x, y) {
        assert(steps(x, y, x, y) <= 0);
    }
}

/// One step further from a neighbour: within d of q means within d + 1 of p.
proof fn lemma_neighbour_within(wet: Seq<bool>, qx: int, qy: int, x: int, y: int, d: int)
    requires
        steps(qx, qy, x, y) == 1,
        wet_within(wet, qx, qy, d),
    ensures
        wet_within(wet, x, y, d + 1),
{
    let (x2, y2) = choose|x2: int, y2: int| #[trigger] wet_at(wet, x2, y2) && steps(qx, qy, x2, y2) <= d;
    assert(wet_at(wet, x2, y2));
    assert(steps(x, y, x2, y2) <= d + 1);
}

/// The nearest-water distance within k: when below 255 it is at most k, water lies
/// that close, and no closer.
proof fn lemma_level_char(wet: Seq<bool>, x: int, y: int, k: nat)
    requires
        k <= 254,
    ensures
        water_level(wet, x, y, k) < 255 ==> water_level(wet, x, y, k) <= k && wet_within(
            wet,
            x,
            y,
            water_level(wet, x, y, k) as int,
        ) && (water_level(wet, x, y, k) > 0 ==> !wet_within(
            wet,
            x,
            y,
            water_level(wet, x, y, k) - 1,
        )),
        water_level(wet, x, y, k) == 255 ==> !wet_within(wet, x, y, k as int),
    decreases k,
{
    if k > 0 {
        lemma_level_char(wet, x, y, (k - 1) as nat);
        if water_level(wet, x, y, (k - 1) as nat) < 255 {
            let v = water_level(wet, x, y, (k - 1) as nat);
            if v > 0 {
                assert(!wet_within(wet, x, y, v - 1));
            }
        }
    }
}

/// A dry tile with water within k + 1 steps has a neighbour in the grid with water
/// within k steps.
proof fn lemma_step_toward(wet: Seq<bool>, x: int, y: int, k: int) -> (q: (int, int))
    requires
        in_grid(x, y),
        !wet_at(wet, x, y),
        wet_within(wet, x, y, (k + 1) as int),
    ensures
        in_grid(q.0, q.1),
        steps(q.0, q.1, x, y) == 1,
        (q.0 == x - 1 && q.1 == y) || (q.0 == x + 1 && q.1 == y) || (q.0 == x && q.1 == y - 1) || (
        q.0 == x && q.1 == y + 1),
        wet_within(wet, q.0, q.1, k),
{
    let (x2, y2) = choose|x2: int, y2: int| #[trigger] wet_at(wet, x2, y2) && steps(x, y, x2, y2) <= k + 1;
    assert(wet_at(wet, x2, y2));
    let q = if x2 > x {
        (x + 1, y)
    } else if x2 < x {
        (x - 1, y)
    } else if y2 > y {
        (x, y + 1)
    } else {
        (x, y - 1)
    };
    assert(steps(q.0, q.1, x2, y2) <= k);
    q
}

pub open spec fn min_u8(a: u8, b: u8) -> u8 {
    if a <= b {
        a
    } else {
        b
    }
}

/// The smallest of a tile's value and the values of its neighbours in the grid
/// (west, east, north, south).
pub open spec fn neighbour_min(prev: Seq<u8>, x: int, y: int) -> u8 {
    let v = prev[tile_index(x, y)];
    let a = if x > 0 {
        min_u8(v, prev[tile_index(x - 1, y)])
    } else {
        v
    };
    let b = if x < GRID_W - 1 {
        min_u8(a, prev[tile_index(x + 1, y)])
    } else {
        a
    };
    let c = if y > 0 {
        min_u8(b, prev[tile_index(x, y - 1)])
    } else {
        b
    };
    if y < GRID_H - 1 {
        min_u8(c, prev[tile_index(x, y + 1)])
    } else {
        c
    }
}

/// One relaxation step of the distance field at (x, y).
pub open spec fn relaxed(prev: Seq<u8>, x: int, y: int) -> u8 {
    let v = prev[tile_index(x, y)];
    let m = neighbour_min(prev, x, y);
    if v == 0 {
        0
    } else if m < 255 {
        min_u8(v, (m + 1) as u8)
    } else {
        v
    }
}

/// A field holding the distances within k gives, after one relaxation step, the
/// distances within k + 1.
proof fn lemma_relax_step(wet: Seq<bool>, prev: Seq<u8>, k: nat, x: int, y: int)
    requires
        k <= 253,
        prev.len() == GRID_SIZE,
        forall|x2: int, y2: int|
            in_grid(x2, y2) ==> #[trigger] prev[tile_index(x2, y2)] == water_level(wet, x2, y2, k),
        in_grid(x, y),
    ensures
        relaxed(prev, x, y) == water_level(wet, x, y, k + 1),
{
    let v = prev[tile_index(x, y)];
    lemma_level_char(wet, x, y, k);
    lemma_level_char(wet, x, y, k + 1);
    lemma_within_zero(wet, x, y);
    assert(water_level(wet, x, y, k + 1) == (if water_level(wet, x, y, k) < 255 {
        water_level(wet, x, y, k)
    } else if wet_within(wet, x, y, (k + 1) as int) {
        (k + 1) as u8
    } else {
        255u8
    }));
    // every neighbour value d < 255 has water within d + 1 of (x, y)
    if x > 0 {
        lemma_level_char(wet, x - 1, y, k);
        if prev[tile_index(x - 1, y)] < 255 {
            lemma_neighbour_within(wet, x - 1, y, x, y, prev[tile_index(x - 1, y)] as int);
        }
    }
    if x < GRID_W - 1 {
        lemma_level_char(wet, x + 1, y, k);
        if prev[tile_index(x + 1, y)] < 255 {
            lemma_neighbour_within(wet, x + 1, y, x, y, prev[tile_index(x + 1, y)] as int);
        }
    }
    if y > 0 {
        lemma_level_char(wet, x, y - 1, k);
        if prev[tile_index(x, y - 1)] < 255 {
            lemma_neighbour_within(wet, x, y - 1, x, y, prev[tile_index(x, y - 1)] as int);
        }
    }
    if y < GRID_H - 1 {
        lemma_level_char(wet, x, y + 1, k);
        if prev[tile_index(x, y + 1)] < 255 {
            lemma_neighbour_within(wet, x, y + 1, x, y, prev[tile_index(x, y + 1)] as int);
        }
    }
    if v < 255 {
        if v > 0 {
            let m = neighbour_min(prev, x, y);
            if m < 255 && m + 1 < v {
                // some neighbour holds m, so water lies within m + 1 < v steps
                if x > 0 && prev[tile_index(x - 1, y)] == m {
                    lemma_within_monotone(wet, x, y, m + 1, v - 1);
                } else if x < GRID_W - 1 && prev[tile_index(x + 1, y)] == m {
                    lemma_within_monotone(wet, x, y, m + 1, v - 1);
                } else if y > 0 && prev[tile_index(x, y - 1)] == m {
                    lemma_within_monotone(wet, x, y, m + 1, v - 1);
                } else {
                    lemma_within_monotone(wet, x, y, m + 1, v - 1);
                }
            }
        }
    } else {
        if wet_within(wet, x, y, (k + 1) as int) {
            let q = lemma_step_toward(wet, x, y, k as int);
            lemma_level_char(wet, q.0, q.1, k);
            // no neighbour is closer than k, or (x, y) would be within k
            if x > 0 && prev[tile_index(x - 1, y)] < k {
                lemma_within_monotone(wet, x, y, prev[tile_index(x - 1, y)] + 1, k as int);
            }
            if x < GRID_W - 1 && prev[tile_index(x + 1, y)] < k {
                lemma_within_monotone(wet, x, y, prev[tile_index(x + 1, y)] + 1, k as int);
            }
            if y > 0 && prev[tile_index(x, y - 1)] < k {
                lemma_within_monotone(wet, x, y, prev[tile_index(x, y - 1)] + 1, k as int);
            }
            if y < GRID_H - 1 && prev[tile_index(x, y + 1)] < k {
                lemma_within_monotone(wet, x, y, prev[tile_index(x, y + 1)] + 1, k as int);
            }
            if water_level(wet, q.0, q.1, k) < k {
                lemma_within_monotone(wet, q.0, q.1, water_level(wet, q.0, q.1, k) as int, k - 1);
            }
            assert(prev[tile_index(q.0, q.1)] == k);
        } else {
            if x > 0 && prev[tile_index(x - 1, y)] < 255 {
                lemma_within_monotone(wet, x, y, prev[tile_index(x - 1, y)] + 1, (k + 1) as int);
            }
            if x < GRID_W - 1 && prev[tile_index(x + 1, y)] < 255 {
                lemma_within_monotone(wet, x, y, prev[tile_index(x + 1, y)] + 1, (k + 1) as int);
            }
            if y > 0 && prev[tile_index(x, y - 1)] < 255 {
                lemma_within_monotone(wet, x, y, prev[tile_index(x, y - 1)] + 1, (k + 1) as int);
            }
            if y < GRID_H - 1 && prev[tile_index(x, y + 1)] < 255 {
                lemma_within_monotone(wet, x, y, prev[tile_index(x, y + 1)] + 1, (k + 1) as int);
            }
        }
    }
}

fn initial_distances(wet: &[bool]) -> (dist: Vec<u8>)
    ensures
        dist@.len() == GRID_SIZE,
        forall|x: int, y: int|
            in_grid(x, y) ==> #[trigger] dist@[tile_index(x, y)] == water_level(wet@, x, y, 0),
{
    let mut dist: Vec<u8> = Vec::new();
    let mut i: usize = 0;
    while i < GRID_SIZE
        invariant
            i <= GRID_SIZE,
            dist@.len() == i,
            forall|j: int|
                0 <= j < i ==> #[trigger] dist@[j] == (if j < wet@.len() && wet@[j] {
                    0u8
                } else {
                    255u8
                }),
        decreases GRID_SIZE - i,
    {
        if i < wet.len() && wet[i] {
            dist.push(0);
        } else {
            dist.push(255);
        }
        i = i + 1;
    }
    assert forall|x: int, y: int| in_grid(x, y) implies #[trigger] dist@[tile_index(x, y)] == water_level(
        wet@,
        x,
        y,
        0,
    ) by {
        lemma_within_zero(wet@, x, y);
        assert(0 <= tile_index(x, y) < GRID_SIZE);
    }
    dist
}

fn relax_pass(prev: &Vec<u8>) -> (next: Vec<u8>)
    requires
        prev@.len() == GRID_SIZE,
    ensures
        next@.len() == GRID_SIZE,
        forall|x: int, y: int|
            in_grid(x, y) ==> #[trigger] next@[tile_index(x, y)] == relaxed(prev@, x, y),
{
    let mut next: Vec<u8> = Vec::new();
    let mut y: usize = 0;
    while y < 512
        invariant
            y <= 512,
            prev@.len() == GRID_SIZE,
            next@.len() == y * 512,
            forall|x2: int, y2: int|
                in_grid(x2, y2) && y2 < y ==> #[trigger] next@[tile_index(x2, y2)] == relaxed(
                    prev@,
                    x2,
                    y2,
                ),
        decreases 512 - y,
    {
        let mut x: usize = 0;
        while x < 512
            invariant
                x <= 512,
                y < 512,
                prev@.len() == GRID_SIZE,
                next@.len() == y * 512 + x,
                forall|x2: int, y2: int|
                    in_grid(x2, y2) && (y2 < y || (y2 == y && x2 < x)) ==> #[trigger] next@[tile_index(
                        x2,
                        y2,
                    )] == relaxed(prev@, x2, y2),
            decreases 512 - x,
        {
            let idx = y * 512 + x;
            let v = prev[idx];
            let mut m = v;
            if x > 0 {
                let n = prev[idx - 1];
                if n < m {
                    m = n;
                }
            }
            if x < 511 {
                let n = prev[idx + 1];
                if n < m {
                    m = n;
                }
            }
            if y > 0 {
                let n = prev[idx - 512];
                if n < m {
                    m = n;
                }
            }
            if y < 511 {
                let n = prev[idx + 512];
                if n < m {
                    m = n;
                }
            }
            let out = if v == 0 {
                0
            } else if m < 255 {
                if v <= m + 1 {
                    v
                } else {
                    m + 1
                }
            } else {
                v
            };
            assert(out == relaxed(prev@, x as int, y as int));
            next.push(out);
            x = x + 1;
        }
        y = y + 1;
    }
    next
}

/// Distance from each grid tile to the nearest wet tile, in steps between
/// neighbouring tiles, when it is at most four; 255 beyond. Entries past the end of
/// `wet` are dry.
pub fn wetland_distances(wet: &[bool]) -> (dist: Vec<u8>)
    ensures
        dist@.len() == GRID_SIZE,
        forall|x: int, y: int|
            in_grid(x, y) ==> #[trigger] dist@[tile_index(x, y)] == water_level(wet@, x, y, 4),
{
    let mut dist = initial_distances(wet);
    let mut pass: usize = 0;
    while pass < 4
        invariant
            pass <= 4,
            dist@.len() == GRID_SIZE,
            forall|x: int, y: int|
                in_grid(x, y) ==> #[trigger] dist@[tile_index(x, y)] == water_level(
                    wet@,
                    x,
                    y,
                    pass as nat,
                ),
        decreases 4 - pass,
    {
        let next = relax_pass(&dist);
        assert forall|x: int, y: int| in_grid(x, y) implies #[trigger] next@[tile_index(x, y)]
            == water_level(wet@, x, y, (pass + 1) as nat) by {
            lemma_relax_step(wet@, dist@, pass as nat, x, y);
        }
        dist = next;
        pass = pass + 1;
    }
    dist
}

/// Block types that water clears: trees, bushes, the small alien plants and rocks.
pub open spec fn cleared_by_water(bt: u32) -> bool {
    bt == BT_TREE || bt == BT_BERRY_BUSH || bt == BT_DUSTWHISKER || bt == BT_HOLLOW_REED || bt
        == BT_THORNBRAKE || bt == BT_SALTBRUSH || bt == BT_DUSKBLOOM || bt == BT_ROCK
}

/// Four pseudo-random bits of a tile index, taken from bit `shift` of its hash.
pub open spec fn wetland_roll(idx: int, seed: u32, shift: u32) -> u32 {
    (u32_specs::wrapping_add(u32_specs::wrapping_mul(idx as u32, 2654435761u32), seed) >> shift)
        & 0xFu32
}

/// The block at index idx after the buffer at water distance `dist`: at the water
/// (0) plants and rocks become bare ground; at the edge (1) trees, and some bare
/// ground and tall grass, become hollow reeds; near water (2) trees become tall grass
/// or bare ground; on the damp margin (3) some trees become bare ground. The roof
/// byte is kept; nothing changes farther out.
pub open spec fn wetland_block(b: u32, dist: u8, idx: int, seed: u32) -> u32 {
    let bt = spec_block_type(b);
    let roof = b & 0xFF000000u32;
    let dirt = spec_make_block(BT_GROUND as u8, 0, 0);
    let reed = spec_make_block(BT_HOLLOW_REED as u8, 3, 0);
    let whisker = spec_make_block(BT_DUSTWHISKER as u8, 2, 0);
    if dist == 0 {
        if cleared_by_water(bt) {
            dirt | roof
        } else {
            b
        }
    } else if dist == 1 {
        if bt == BT_TREE || ((bt == BT_GROUND || bt == BT_DUSTWHISKER) && wetland_roll(
            idx,
            seed,
            16,
        ) < 6) {
            reed | roof
        } else {
            b
        }
    } else if dist == 2 {
        if bt == BT_TREE {
            if wetland_roll(idx, seed, 20) < 8 {
                whisker | roof
            } else {
                dirt | roof
            }
        } else {
            b
        }
    } else if dist == 3 {
        if bt == BT_TREE && wetland_roll(idx, seed, 24) < 5 {
            dirt | roof
        } else {
            b
        }
    } else {
        b
    }
}

fn wetland_tile(b: u32, dist: u8, idx: usize, seed: u32) -> (r: u32)
    ensures
        r == wetland_block(b, dist, idx as int, seed),
{
    let bt = block_type_rs(b);
    let roof = b & 0xFF000000u32;
    let dirt = make_block(BT_GROUND as u8, 0, 0);
    let hash = (idx as u32).wrapping_mul(2654435761).wrapping_add(seed);
    let is_tree = bt == BT_TREE;
    let is_veg = is_tree || bt == BT_BERRY_BUSH || bt == BT_DUSTWHISKER || bt == BT_HOLLOW_REED
        || bt == BT_THORNBRAKE || bt == BT_SALTBRUSH || bt == BT_DUSKBLOOM || bt == BT_ROCK;
    if dist == 0 {
        if is_veg {
            dirt | roof
        } else {
            b
        }
    } else if dist == 1 {
        if is_tree {
            make_block(BT_HOLLOW_REED as u8, 3, 0) | roof
        } else if (bt == BT_GROUND || bt == BT_DUSTWHISKER) && ((hash >> 16u32) & 0xF) < 6 {
            make_block(BT_HOLLOW_REED as u8, 3, 0) | roof
        } else {
            b
        }
    } else if dist == 2 {
        if is_tree {
            if ((hash >> 20u32) & 0xF) < 8 {
                make_block(BT_DUSTWHISKER as u8, 2, 0) | roof
            } else {
                dirt | roof
            }
        } else {
            b
        }
    } else if dist == 3 {
        if is_tree && ((hash >> 24u32) & 0xF) < 5 {
            dirt | roof
        } else {
            b
        }
    } else {
        b
    }
}

/// Putting a roof byte back on a block whose top byte is clear keeps that roof byte.
proof fn lemma_roof_restored(v: u32, b: u32)
    requires
        v & 0xFF000000u32 == 0,
    ensures
        (v | (b & 0xFF000000u32)) & 0xFF000000u32 == b & 0xFF000000u32,
{
    assert((v & 0xFF000000u32 == 0) ==> ((v | (b & 0xFF000000u32)) & 0xFF000000u32 == b
        & 0xFF000000u32)) by (bit_vector);
}

/// A block built from a type, height and flags byte has no roof byte.
proof fn lemma_made_block_unroofed(t: u8, h: u8, f: u8)
    ensures
        spec_make_block(t, h, f) & 0xFF000000u32 == 0,
{
    assert(((t as u32) | ((h as u32) << 8u32) | ((f as u32) << 16u32)) & 0xFF000000u32 == 0)
        by (bit_vector);
}

/// Under water (distance 0) every plant that world generation places (tree, berry
/// bush, dustwhisker, hollow reed, thornbrake, saltbrush, duskbloom) and every rock
/// gives way to bare ground, under the same roof.
pub proof fn lemma_water_clears_plants(b: u32, idx: int, seed: u32)
    requires
        spec_block_type(b) == BT_TREE || spec_block_type(b) == BT_BERRY_BUSH
            || spec_block_type(b) == BT_DUSTWHISKER || spec_block_type(b) == BT_HOLLOW_REED
            || spec_block_type(b) == BT_THORNBRAKE || spec_block_type(b) == BT_SALTBRUSH
            || spec_block_type(b) == BT_DUSKBLOOM || spec_block_type(b) == BT_ROCK,
    ensures
        wetland_block(b, 0, idx, seed) == spec_make_block(BT_GROUND as u8, 0, 0) | (b
            & 0xFF000000u32),
{
}

/// Under water, a block that is neither a plant nor a rock is left as it is.
pub proof fn lemma_water_keeps_other_blocks(b: u32, idx: int, seed: u32)
    requires
        spec_block_type(b) != BT_TREE,
        spec_block_type(b) != BT_BERRY_BUSH,
        spec_block_type(b) != BT_DUSTWHISKER,
        spec_block_type(b) != BT_HOLLOW_REED,
        spec_block_type(b) != BT_THORNBRAKE,
        spec_block_type(b) != BT_SALTBRUSH,
        spec_block_type(b) != BT_DUSKBLOOM,
        spec_block_type(b) != BT_ROCK,
    ensures
        wetland_block(b, 0, idx, seed) == b,
{
}

/// At the water's edge (distance 1) every tree becomes a hollow reed under the same
/// roof.
pub proof fn lemma_edge_trees_become_reeds(b: u32, idx: int, seed: u32)
    requires
        spec_block_type(b) == BT_TREE,
    ensures
        wetland_block(b, 1, idx, seed) == spec_make_block(BT_HOLLOW_REED as u8, 3, 0) | (b
            & 0xFF000000u32),
{
}

/// Beyond the water's edge only trees are thinned: at distance 2 or 3 any other block
/// stays, and from distance 4 on nothing changes at all.
pub proof fn lemma_only_trees_thinned_inland(b: u32, dist: u8, idx: int, seed: u32)
    requires
        dist >= 2,
        dist >= 4 || spec_block_type(b) != BT_TREE,
    ensures
        wetland_block(b, dist, idx, seed) == b,
{
}

/// The buffer never touches the roof byte of a tile.
pub proof fn lemma_wetland_keeps_roof(b: u32, dist: u8, idx: int, seed: u32)
    ensures
        wetland_block(b, dist, idx, seed) & 0xFF000000u32 == b & 0xFF000000u32,
{
    lemma_made_block_unroofed(BT_GROUND as u8, 0, 0);
    lemma_made_block_unroofed(BT_HOLLOW_REED as u8, 3, 0);
    lemma_made_block_unroofed(BT_DUSTWHISKER as u8, 2, 0);
    lemma_roof_restored(spec_make_block(BT_GROUND as u8, 0, 0), b);
    lemma_roof_restored(spec_make_block(BT_HOLLOW_REED as u8, 3, 0), b);
    lemma_roof_restored(spec_make_block(BT_DUSTWHISKER as u8, 2, 0), b);
}

/// A wet tile is at water distance 0.
pub proof fn lemma_wet_tile_level_zero(wet: Seq<bool>, x: int, y: int)
    requires
        wet_at(wet, x, y),
    ensures
        water_level(wet, x, y, 4) == 0,
{
    assert(wet_at(wet, x, y) && steps(x, y, x, y) <= 0);
    assert(wet_within(wet, x, y, 0));
    reveal_with_fuel(water_level, 5);
}

/// Apply the wetland buffer to the grid, given which tiles are wet (submerged, or
/// with the water table above ground): every grid tile present in `grid` becomes its
/// `wetland_block` at its water distance; entries past the grid are unchanged.
pub fn apply_wetland_zones(grid: &mut [u32], wet: &[bool], seed: u32)
    ensures
        final(grid)@.len() == old(grid)@.len(),
        forall|x: int, y: int|
            in_grid(x, y) && tile_index(x, y) < old(grid)@.len() ==> #[trigger] final(grid)@[tile_index(
                x,
                y,
            )] == wetland_block(
                old(grid)@[tile_index(x, y)],
                water_level(wet@, x, y, 4),
                tile_index(x, y),
                seed,
            ),
        forall|i: int| GRID_SIZE <= i < old(grid)@.len() ==> #[trigger] final(grid)@[i] == old(grid)@[i],
        forall|x: int, y: int|
            wet_at(wet@, x, y) && tile_index(x, y) < old(grid)@.len() ==> #[trigger] final(grid)@[tile_index(
                x,
                y,
            )] == wetland_block(old(grid)@[tile_index(x, y)], 0, tile_index(x, y), seed),
{
    let dist = wetland_distances(wet);
    let n = if grid.len() < GRID_SIZE {
        grid.len()
    } else {
        GRID_SIZE
    };
    let ghost orig = grid@;
    let mut idx: usize = 0;
    while idx < n
        invariant
            idx <= n,
            n <= GRID_SIZE,
            n <= orig.len(),
            n == orig.len() || n == GRID_SIZE,
            dist@.len() == GRID_SIZE,
            grid@.len() == orig.len(),
            forall|i: int| 0 <= i < idx ==> #[trigger] grid@[i] == wetland_block(orig[i], dist@[i], i, seed),
            forall|i: int| idx <= i < orig.len() ==> #[trigger] grid@[i] == orig[i],
        decreases n - idx,
    {
        let b = wetland_tile(grid[idx], dist[idx], idx, seed);
        grid[idx] = b;
        idx = idx + 1;
    }
    assert forall|x: int, y: int| in_grid(x, y) && tile_index(x, y) < orig.len() implies #[trigger] grid@[tile_index(
        x,
        y,
    )] == wetland_block(orig[tile_index(x, y)], water_level(wet@, x, y, 4), tile_index(x, y), seed) by {
        assert(tile_index(x, y) < GRID_SIZE);
        assert(dist@[tile_index(x, y)] == water_level(wet@, x, y, 4));
    }
    assert forall|x: int, y: int| wet_at(wet@, x, y) && tile_index(x, y) < orig.len() implies #[trigger] grid@[tile_index(
        x,
        y,
    )] == wetland_block(orig[tile_index(x, y)], 0, tile_index(x, y), seed) by {
        lemma_wet_tile_level_zero(wet@, x, y);
        assert(tile_index(x, y) < GRID_SIZE);
        assert(dist@[tile_index(x, y)] == water_level(wet@, x, y, 4));
    }
}

} // verus!
