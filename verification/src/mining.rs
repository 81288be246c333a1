//! Sub-tile mining: an 8x8 grid of cells per rock tile with mineral veins.
//! Miners carve directionally, revealing the geology in the cut face.

use vstd::prelude::*;
use vstd::wrapping::u32_specs;

verus! {

/// Sub-cells per tile side.
pub const MINING_RES: usize = 8;

// Materials found in rock
pub const MAT_HOST: u8 = 0;
pub const MAT_IRON: u8 = 1;
pub const MAT_COPPER: u8 = 2;
pub const MAT_FLINT: u8 = 3;
pub const MAT_CRYSTAL: u8 = 4;
pub const MAT_COAL: u8 = 5;
pub const MAT_VOID: u8 = 6;

// Host rock types
pub const ROCK_CHALK: u8 = 0;
pub const ROCK_SANDSTONE: u8 = 1;
pub const ROCK_LIMESTONE: u8 = 2;
pub const ROCK_GRANITE: u8 = 3;
pub const ROCK_BASALT: u8 = 4;

/// One sub-cell: its material and its hardness (0 = mined out, 1-10 = intact).
#[derive(Clone, Copy, Debug)]
pub struct MiningCell {
    pub material: u8,
    pub hardness: u8,
}

/// The 8x8 cells of a rock tile (indexed `[sy][sx]`) and its host rock type.
#[derive(Clone, Copy, Debug)]
pub struct MiningGrid {
    pub cells: [[MiningCell; MINING_RES]; MINING_RES],
    pub rock_type: u8,
}

/// Which vein noise fields exceed their thresholds at a sub-cell: iron bands, copper
/// lines, flint nodules, coal seams, crystal pockets and void pockets.
#[derive(Clone, Copy, Debug)]
pub struct VeinHits {
    pub iron: bool,
    pub copper: bool,
    pub flint: bool,
    pub coal: bool,
    pub crystal: bool,
    pub void: bool,
}

/// Base hardness of host rock cells per rock type.
pub open spec fn spec_rock_hardness(rock_type: u8) -> u8 {
    if rock_type == ROCK_CHALK {
        2
    } else if rock_type == ROCK_SANDSTONE {
        4
    } else if rock_type == ROCK_LIMESTONE {
        5
    } else if rock_type == ROCK_GRANITE {
        8
    } else if rock_type == ROCK_BASALT {
        10
    } else {
        5
    }
}

/// Base hardness per rock type (host rock cells).
pub fn rock_hardness(rock_type: u8) -> (h: u8)
    ensures
        h == spec_rock_hardness(rock_type),
{
    if rock_type == ROCK_CHALK {
        2
    } else if rock_type == ROCK_SANDSTONE {
        4
    } else if rock_type == ROCK_LIMESTONE {
        5
    } else if rock_type == ROCK_GRANITE {
        8
    } else if rock_type == ROCK_BASALT {
        10
    } else {
        5
    }
}

/// Hardness of a mineral in a host of the given hardness: iron and copper one less
/// than the host but at least 2, flint 6, crystal 3, coal 2, void 0, host rock as the host.
pub open spec fn spec_mineral_hardness(mat: u8, host_hardness: u8) -> u8 {
    if mat == MAT_IRON || mat == MAT_COPPER {
        if host_hardness >= 3 {
            (host_hardness - 1) as u8
        } else {
            2
        }
    } else if mat == MAT_FLINT {
        6
    } else if mat == MAT_CRYSTAL {
        3
    } else if mat == MAT_COAL {
        2
    } else if mat == MAT_VOID {
        0
    } else {
        host_hardness
    }
}

fn mineral_hardness(mat: u8, host_hardness: u8) -> (h: u8)
    ensures
        h == spec_mineral_hardness(mat, host_hardness),
{
    if mat == MAT_IRON || mat == MAT_COPPER {
        let sub = if host_hardness >= 1 {
            host_hardness - 1
        } else {
            0
        };
        if sub >= 2 {
            sub
        } else {
            2
        }
    } else if mat == MAT_FLINT {
        6
    } else if mat == MAT_CRYSTAL {
        3
    } else if mat == MAT_COAL {
        2
    } else if mat == MAT_VOID {
        0
    } else {
        host_hardness
    }
}

/// Per-tile seed for the small hardness variation of host rock.
pub open spec fn spec_tile_seed(tx: i32, ty: i32) -> u32 {
    u32_specs::wrapping_add(
        u32_specs::wrapping_mul(tx as u32, 374761393u32),
        u32_specs::wrapping_mul(ty as u32, 668265263u32),
    )
}

/// The material a sub-cell gets: the first vein that is present and allowed in the
/// host rock, in the order iron, copper, flint (chalk and limestone only), coal
/// (sandstone and limestone only), crystal, void; host rock otherwise.
pub open spec fn spec_vein_material(hits: VeinHits, rock_type: u8) -> u8 {
    if hits.iron {
        MAT_IRON
    } else if hits.copper {
        MAT_COPPER
    } else if hits.flint && (rock_type == ROCK_CHALK || rock_type == ROCK_LIMESTONE) {
        MAT_FLINT
    } else if hits.coal && (rock_type == ROCK_SANDSTONE || rock_type == ROCK_LIMESTONE) {
        MAT_COAL
    } else if hits.crystal {
        MAT_CRYSTAL
    } else if hits.void {
        MAT_VOID
    } else {
        MAT_HOST
    }
}

/// The generated cell at (sx, sy): veins get their mineral hardness, void pockets are
/// empty, and host rock is one harder (at most 10) on the cells picked by the tile seed.
pub open spec fn spec_generated_cell(tx: i32, ty: i32, rock_type: u8, hits: VeinHits, sx: int, sy: int) -> MiningCell {
    let base = spec_rock_hardness(rock_type);
    let mat = spec_vein_material(hits, rock_type);
    if mat == MAT_HOST {
        let h_var = u32_specs::wrapping_add(spec_tile_seed(tx, ty), (sx * 17 + sy * 31) as u32)
            % 3;
        MiningCell {
            material: MAT_HOST,
            hardness: if h_var == 0 {
                if base + 1 <= 10 {
                    (base + 1) as u8
                } else {
                    10
                }
            } else {
                base
            },
        }
    } else {
        MiningCell { material: mat, hardness: spec_mineral_hardness(mat, base) }
    }
}

fn generated_cell(tile_seed: u32, rock_type: u8, base_h: u8, hits: VeinHits, sx: usize, sy: usize) -> (c: MiningCell)
    requires
        sx < 8,
        sy < 8,
        base_h == spec_rock_hardness(rock_type),
    ensures
        ({
            let h_var = u32_specs::wrapping_add(tile_seed, (sx * 17 + sy * 31) as u32) % 3;
            let mat = spec_vein_material(hits, rock_type);
            c == (if mat == MAT_HOST {
                MiningCell {
                    material: MAT_HOST,
                    hardness: if h_var == 0 {
                        if base_h + 1 <= 10 {
                            (base_h + 1) as u8
                        } else {
                            10
                        }
                    } else {
                        base_h
                    },
                }
            } else {
                MiningCell { material: mat, hardness: spec_mineral_hardness(mat, base_h) }
            })
        }),
{
    if hits.iron {
        return MiningCell { material: MAT_IRON, hardness: mineral_hardness(MAT_IRON, base_h) };
    }
    if hits.copper {
        return MiningCell { material: MAT_COPPER, hardness: mineral_hardness(MAT_COPPER, base_h) };
    }
    if rock_type == ROCK_CHALK || rock_type == ROCK_LIMESTONE {
        if hits.flint {
            return MiningCell { material: MAT_FLINT, hardness: mineral_hardness(MAT_FLINT, base_h) };
        }
    }
    if rock_type == ROCK_SANDSTONE || rock_type == ROCK_LIMESTONE {
        if hits.coal {
            return MiningCell { material: MAT_COAL, hardness: mineral_hardness(MAT_COAL, base_h) };
        }
    }
    if hits.crystal {
        return MiningCell {
            material: MAT_CRYSTAL,
            hardness: mineral_hardness(MAT_CRYSTAL, base_h),
        };
    }
    let mut cell = MiningCell { material: MAT_HOST, hardness: base_h };
    if hits.void {
        cell = MiningCell { material: MAT_VOID, hardness: 0 };
    }
    let h_var = tile_seed.wrapping_add(sx as u32 * 17 + sy as u32 * 31) % 3;
    if h_var == 0 && cell.material == MAT_HOST {
        let up = if base_h < 255 {
            base_h + 1
        } else {
            255
        };
        cell.hardness = if up <= 10 {
            up
        } else {
            10
        };
    }
    cell
}

/// Build the mining grid of the tile at (tx, ty) from the vein hits sampled at each
/// sub-cell (`veins[sy][sx]`). The same inputs always give the same grid.
pub fn generate_mining_grid(tx: i32, ty: i32, rock_type: u8, veins: &[[VeinHits; MINING_RES]; MINING_RES]) -> (g: MiningGrid)
    ensures
        g.rock_type == rock_type,
        forall|sx: int, sy: int|
            0 <= sx < 8 && 0 <= sy < 8 ==> #[trigger] g.cells[sy][sx] == spec_generated_cell(
                tx,
                ty,
                rock_type,
                veins[sy][sx],
                sx,
                sy,
            ),
{
    let base_h = rock_hardness(rock_type);
    let mut grid = MiningGrid {
        cells: [[MiningCell { material: MAT_HOST, hardness: base_h };MINING_RES];MINING_RES],
        rock_type,
    };
    let tile_seed = (tx as u32).wrapping_mul(374761393).wrapping_add(
        (ty as u32).wrapping_mul(668265263),
    );
    let mut sy: usize = 0;
    while sy < MINING_RES
        invariant
            sy <= 8,
            grid.rock_type == rock_type,
            base_h == spec_rock_hardness(rock_type),
            tile_seed == spec_tile_seed(tx, ty),
            forall|sx2: int, sy2: int|
                0 <= sx2 < 8 && 0 <= sy2 < sy ==> #[trigger] grid.cells[sy2][sx2]
                    == spec_generated_cell(tx, ty, rock_type, veins[sy2][sx2], sx2, sy2),
        decreases 8 - sy,
    {
        let mut sx: usize = 0;
        while sx < MINING_RES
            invariant
                sx <= 8,
                sy < 8,
                grid.rock_type == rock_type,
                base_h == spec_rock_hardness(rock_type),
                tile_seed == spec_tile_seed(tx, ty),
                forall|sx2: int, sy2: int|
                    0 <= sx2 < 8 && (0 <= sy2 < sy || (sy2 == sy && sx2 < sx))
                        ==> #[trigger] grid.cells[sy2][sx2] == spec_generated_cell(
                        tx,
                        ty,
                        rock_type,
                        veins[sy2][sx2],
                        sx2,
                        sy2,
                    ),
            decreases 8 - sx,
        {
            let c = generated_cell(tile_seed, rock_type, base_h, veins[sy][sx], sx, sy);
            grid.cells[sy][sx] = c;
            sx = sx + 1;
        }
        sy = sy + 1;
    }
    grid
}

/// Granite, basalt and sandstone never hold flint, and granite, basalt and chalk never
/// hold coal, whatever the veins.
pub proof fn lemma_vein_rock_rules(tx: i32, ty: i32, rock_type: u8, hits: VeinHits, sx: int, sy: int)
    ensures
        !(rock_type == ROCK_CHALK || rock_type == ROCK_LIMESTONE) ==> spec_generated_cell(
            tx,
            ty,
            rock_type,
            hits,
            sx,
            sy,
        ).material != MAT_FLINT,
        !(rock_type == ROCK_SANDSTONE || rock_type == ROCK_LIMESTONE) ==> spec_generated_cell(
            tx,
            ty,
            rock_type,
            hits,
            sx,
            sy,
        ).material != MAT_COAL,
        spec_generated_cell(tx, ty, rock_type, hits, sx, sy).hardness <= 10,
        spec_generated_cell(tx, ty, rock_type, hits, sx, sy).material <= MAT_VOID,
        (spec_generated_cell(tx, ty, rock_type, hits, sx, sy).hardness == 0) == (
        spec_generated_cell(tx, ty, rock_type, hits, sx, sy).material == MAT_VOID),
{
}

/// The packed byte of a cell: material in the high nibble, hardness in the low nibble.
pub open spec fn spec_pack_cell(c: MiningCell) -> u8 {
    (c.material << 4u8) | (c.hardness & 0xFu8)
}

/// Pack a mining grid into 64 bytes for GPU upload, one byte per sub-cell in row-major
/// order (high nibble = material, low nibble = hardness).
pub fn pack_mining_grid(grid: &MiningGrid) -> (packed: [u8; 64])
    ensures
        forall|sx: int, sy: int|
            0 <= sx < 8 && 0 <= sy < 8 ==> #[trigger] packed[sy * 8 + sx] == spec_pack_cell(
                grid.cells[sy][sx],
            ),
{
    let mut packed = [0u8;64];
    let mut sy: usize = 0;
    while sy < MINING_RES
        invariant
            sy <= 8,
            forall|sx2: int, sy2: int|
                0 <= sx2 < 8 && 0 <= sy2 < sy ==> #[trigger] packed[sy2 * 8 + sx2] == spec_pack_cell(
                    grid.cells[sy2][sx2],
                ),
        decreases 8 - sy,
    {
        let mut sx: usize = 0;
        while sx < MINING_RES
            invariant
                sx <= 8,
                sy < 8,
                forall|sx2: int, sy2: int|
                    0 <= sx2 < 8 && (0 <= sy2 < sy || (sy2 == sy && sx2 < sx))
                        ==> #[trigger] packed[sy2 * 8 + sx2] == spec_pack_cell(grid.cells[sy2][sx2]),
            decreases 8 - sx,
        {
            let cell = grid.cells[sy][sx];
            packed[sy * MINING_RES + sx] = (cell.material << 4u8) | (cell.hardness & 0xF);
            sx = sx + 1;
        }
        sy = sy + 1;
    }
    packed
}

/// A packed cell gives back its material (when below 16) and its hardness modulo 16.
pub proof fn lemma_pack_cell_roundtrip(c: MiningCell)
    requires
        c.material < 16,
    ensures
        spec_pack_cell(c) >> 4u8 == c.material,
        spec_pack_cell(c) & 0xFu8 == c.hardness & 0xFu8,
{
    let m = c.material;
    let h = c.hardness;
    assert(m < 16 ==> ((m << 4u8) | (h & 0xFu8)) >> 4u8 == m && ((m << 4u8) | (h & 0xFu8)) & 0xFu8
        == h & 0xFu8) by (bit_vector);
}

/// Mine the sub-cell (sx, sy): if it is in the grid and intact it becomes an empty void
/// cell and its former material is returned; otherwise nothing changes and the result
/// is None.
pub fn mine_cell(grid: &mut MiningGrid, sx: usize, sy: usize) -> (r: Option<u8>)
    ensures
        (r is Some) == (sx < 8 && sy < 8 && old(grid).cells[sy as int][sx as int].hardness != 0),
        r is Some ==> r->0 == old(grid).cells[sy as int][sx as int].material,
        r is Some ==> forall|i: int, j: int|
            0 <= i < 8 && 0 <= j < 8 ==> #[trigger] final(grid).cells[j][i] == (if i == sx && j
                == sy {
                MiningCell { material: MAT_VOID, hardness: 0 }
            } else {
                old(grid).cells[j][i]
            }),
        r is Some ==> final(grid).rock_type == old(grid).rock_type,
        r is None ==> *final(grid) == *old(grid),
{
    if sx >= MINING_RES || sy >= MINING_RES {
        return None;
    }
    if grid.cells[sy][sx].hardness == 0 {
        return None;
    }
    let mat = grid.cells[sy][sx].material;
    grid.cells[sy][sx].hardness = 0;
    grid.cells[sy][sx].material = MAT_VOID;
    Some(mat)
}

/// Position (sx, sy) of the k-th cell a miner reaches from face `face`
/// (0 = north: rows from the top; 1 = east: columns from the right;
/// 2 = south: rows from the bottom; 3 = west: columns from the left).
pub open spec fn scan_cell(face: u8, k: int) -> (int, int) {
    let a = k / 8;
    let b = k % 8;
    if face == 0 {
        (b, a)
    } else if face == 1 {
        (7 - a, b)
    } else if face == 2 {
        (b, 7 - a)
    } else {
        (a, b)
    }
}

/// The cell at p is intact (hardness above 0).
pub open spec fn intact_at(grid: MiningGrid, p: (int, int)) -> bool {
    grid.cells[p.1][p.0].hardness > 0
}

/// Find the next intact sub-cell closest to the miner's facing edge: the first intact
/// cell in the scan order of `face`, or None when there is none or the face is not 0-3.
pub fn next_mine_target(grid: &MiningGrid, face: u8) -> (r: Option<(usize, usize)>)
    ensures
        face > 3 ==> r is None,
        face <= 3 ==> ((r is None) <==> forall|k: int|
            0 <= k < 64 ==> !#[trigger] intact_at(*grid, scan_cell(face, k))),
        r matches Some(p) ==> exists|k: int|
            0 <= k < 64 && scan_cell(face, k) == (p.0 as int, p.1 as int) && intact_at(
                *grid,
                scan_cell(face, k),
            ) && forall|j: int| 0 <= j < k ==> !#[trigger] intact_at(*grid, scan_cell(face, j)),
{
    if face > 3 {
        return None;
    }
    let mut a: usize = 0;
    while a < MINING_RES
        invariant
            a <= 8,
            face <= 3,
            forall|j: int| 0 <= j < a * 8 ==> !#[trigger] intact_at(*grid, scan_cell(face, j)),
        decreases 8 - a,
    {
        let mut b: usize = 0;
        while b < MINING_RES
            invariant
                a < 8,
                b <= 8,
                face <= 3,
                forall|j: int| 0 <= j < a * 8 + b ==> !#[trigger] intact_at(*grid, scan_cell(face, j)),
            decreases 8 - b,
        {
            let (sx, sy) = if face == 0 {
                (b, a)
            } else if face == 1 {
                (MINING_RES - 1 - a, b)
            } else if face == 2 {
                (b, MINING_RES - 1 - a)
            } else {
                (a, b)
            };
            let ghost k: int = a * 8 + b;
            assert(k / 8 == a as int && k % 8 == b as int);
            assert(scan_cell(face, k) == (sx as int, sy as int));
            if grid.cells[sy][sx].hardness > 0 {
                assert(intact_at(*grid, scan_cell(face, k)));
                return Some((sx, sy));
            }
            b = b + 1;
        }
        a = a + 1;
    }
    None
}

/// Number of mined-out cells (hardness 0) among the first k cells in row-major order.
pub open spec fn mined_in_first(grid: MiningGrid, k: int) -> int
    decreases k,
{
    if k <= 0 {
        0
    } else {
        mined_in_first(grid, k - 1) + (if grid.cells[(k - 1) / 8][(k - 1) % 8].hardness == 0 {
            1int
        } else {
            0int
        })
    }
}

/// Count how many sub-cells have been mined out.
pub fn mined_count(grid: &MiningGrid) -> (n: usize)
    ensures
        n == mined_in_first(*grid, 64),
{
    let mut n: usize = 0;
    let mut sy: usize = 0;
    while sy < MINING_RES
        invariant
            sy <= 8,
            n == mined_in_first(*grid, sy * 8),
            n <= sy * 8,
        decreases 8 - sy,
    {
        let mut sx: usize = 0;
        while sx < MINING_RES
            invariant
                sy < 8,
                sx <= 8,
                n == mined_in_first(*grid, sy * 8 + sx),
                n <= sy * 8 + sx,
            decreases 8 - sx,
        {
            let ghost k: int = sy * 8 + sx;
            assert(k / 8 == sy as int && k % 8 == sx as int);
            if grid.cells[sy][sx].hardness == 0 {
                n = n + 1;
            }
            sx = sx + 1;
        }
        sy = sy + 1;
    }
    n
}

/// Check if the grid is fully mined.
pub fn is_fully_mined(grid: &MiningGrid) -> (r: bool)
    ensures
        r == (mined_in_first(*grid, 64) >= 64),
{
    mined_count(grid) >= MINING_RES * MINING_RES
}

proof fn lemma_mined_in_first_all(grid: MiningGrid, k: int)
    requires
        0 <= k <= 64,
    ensures
        0 <= mined_in_first(grid, k) <= k,
        (mined_in_first(grid, k) == k) == (forall|i: int|
            0 <= i < k ==> #[trigger] grid.cells[i / 8][i % 8].hardness == 0),
    decreases k,
{
    if k > 0 {
        lemma_mined_in_first_all(grid, k - 1);
        if mined_in_first(grid, k) == k {
            assert forall|i: int| 0 <= i < k implies #[trigger] grid.cells[i / 8][i % 8].hardness
                == 0 by {
                if i < k - 1 {
                } else {
                }
            }
        }
    }
}

/// A grid is fully mined exactly when every one of its 64 cells has hardness 0.
pub proof fn lemma_fully_mined_iff_all_empty(grid: MiningGrid)
    ensures
        (mined_in_first(grid, 64) >= 64) == (forall|sx: int, sy: int|
            0 <= sx < 8 && 0 <= sy < 8 ==> #[trigger] grid.cells[sy][sx].hardness == 0),
{
    lemma_mined_in_first_all(grid, 64);
    if forall|i: int| 0 <= i < 64 ==> #[trigger] grid.cells[i / 8][i % 8].hardness == 0 {
        assert forall|sx: int, sy: int| 0 <= sx < 8 && 0 <= sy < 8 implies #[trigger] grid.cells[sy][sx].hardness
            == 0 by {
            let i = sy * 8 + sx;
            assert(i / 8 == sy && i % 8 == sx);
            assert(grid.cells[i / 8][i % 8].hardness == 0);
        }
    }
    if forall|sx: int, sy: int| 0 <= sx < 8 && 0 <= sy < 8 ==> #[trigger] grid.cells[sy][sx].hardness == 0 {
        assert forall|i: int| 0 <= i < 64 implies #[trigger] grid.cells[i / 8][i % 8].hardness == 0 by {
            assert(grid.cells[i / 8][i % 8].hardness == 0);
        }
    }
}

proof fn lemma_mined_count_after_mining(before: MiningGrid, after: MiningGrid, sx: int, sy: int, k: int)
    requires
        0 <= sx < 8,
        0 <= sy < 8,
        0 <= k <= 64,
        before.cells[sy][sx].hardness != 0,
        after.cells[sy][sx].hardness == 0,
        forall|i: int, j: int|
            0 <= i < 8 && 0 <= j < 8 && !(i == sx && j == sy) ==> #[trigger] after.cells[j][i]
                == before.cells[j][i],
    ensures
        mined_in_first(after, k) == mined_in_first(before, k) + (if sy * 8 + sx < k {
            1int
        } else {
            0int
        }),
    decreases k,
{
    if k > 0 {
        lemma_mined_count_after_mining(before, after, sx, sy, k - 1);
        let i = k - 1;
        if i == sy * 8 + sx {
            assert(i / 8 == sy && i % 8 == sx);
        } else {
            assert(!(i % 8 == sx && i / 8 == sy));
            assert(after.cells[i / 8][i % 8] == before.cells[i / 8][i % 8]);
        }
    }
}

/// Mining an intact cell raises the mined count by exactly one; mining again at the
/// same place yields nothing.
pub proof fn lemma_mine_cell_counts(before: MiningGrid, after: MiningGrid, sx: int, sy: int)
    requires
        0 <= sx < 8,
        0 <= sy < 8,
        before.cells[sy][sx].hardness != 0,
        after.cells[sy][sx] == (MiningCell { material: MAT_VOID, hardness: 0 }),
        forall|i: int, j: int|
            0 <= i < 8 && 0 <= j < 8 && !(i == sx && j == sy) ==> #[trigger] after.cells[j][i]
                == before.cells[j][i],
    ensures
        mined_in_first(after, 64) == mined_in_first(before, 64) + 1,
        after.cells[sy][sx].hardness == 0,
{
    lemma_mined_count_after_mining(before, after, sx, sy, 64);
}

/// Display name of a rock type.
pub open spec fn spec_rock_type_name(rt: u8) -> Seq<char> {
    if rt == ROCK_CHALK {
        "Chalk"@
    } else if rt == ROCK_SANDSTONE {
        "Sandstone"@
    } else if rt == ROCK_LIMESTONE {
        "Limestone"@
    } else if rt == ROCK_GRANITE {
        "Granite"@
    } else if rt == ROCK_BASALT {
        "Basalt"@
    } else {
        "Rock"@
    }
}

/// Rock type display name.
pub fn rock_type_name(rt: u8) -> (s: &'static str)
    ensures
        s@ == spec_rock_type_name(rt),
{
    if rt == ROCK_CHALK {
        "Chalk"
    } else if rt == ROCK_SANDSTONE {
        "Sandstone"
    } else if rt == ROCK_LIMESTONE {
        "Limestone"
    } else if rt == ROCK_GRANITE {
        "Granite"
    } else if rt == ROCK_BASALT {
        "Basalt"
    } else {
        "Rock"
    }
}

/// Display name of a material.
pub open spec fn spec_material_name(mat: u8) -> Seq<char> {
    if mat == MAT_HOST {
        "Stone"@
    } else if mat == MAT_IRON {
        "Iron Ore"@
    } else if mat == MAT_COPPER {
        "Copper Ore"@
    } else if mat == MAT_FLINT {
        "Flint"@
    } else if mat == MAT_CRYSTAL {
        "Crystal"@
    } else if mat == MAT_COAL {
        "Coal"@
    } else if mat == MAT_VOID {
        "Void"@
    } else {
        "Unknown"@
    }
}

/// Material display name.
pub fn material_name(mat: u8) -> (s: &'static str)
    ensures
        s@ == spec_material_name(mat),
{
    if mat == MAT_HOST {
        "Stone"
    } else if mat == MAT_IRON {
        "Iron Ore"
    } else if mat == MAT_COPPER {
        "Copper Ore"
    } else if mat == MAT_FLINT {
        "Flint"
    } else if mat == MAT_CRYSTAL {
        "Crystal"
    } else if mat == MAT_COAL {
        "Coal"
    } else if mat == MAT_VOID {
        "Void"
    } else {
        "Unknown"
    }
}

} // verus!
