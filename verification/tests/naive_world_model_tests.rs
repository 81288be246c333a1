use rayworld::grid::{
    block_type_rs, make_block, BT_BERRY_BUSH, BT_DUSKBLOOM, BT_DUSTWHISKER, BT_GROUND,
    BT_HOLLOW_REED, BT_ROCK, BT_SALTBRUSH, BT_THORNBRAKE, BT_TREE, GRID_H, GRID_W,
};
use rayworld::mining::{
    generate_mining_grid, next_mine_target, pack_mining_grid, rock_hardness, MiningCell,
    MiningGrid, VeinHits, MAT_COAL, MAT_COPPER, MAT_CRYSTAL, MAT_FLINT, MAT_HOST, MAT_IRON,
    MAT_VOID, MINING_RES, ROCK_BASALT, ROCK_CHALK, ROCK_GRANITE, ROCK_LIMESTONE, ROCK_SANDSTONE,
};
use rayworld::wetland::apply_wetland_zones;

/// Small deterministic generator for test worlds.
struct Lcg(u64);

impl Lcg {
    fn next(&mut self) -> u32 {
        self.0 = self.0.wrapping_mul(6364136223846793005).wrapping_add(1442695040888963407);
        (self.0 >> 33) as u32
    }
    fn below(&mut self, n: u32) -> u32 {
        self.next() % n
    }
    fn unit(&mut self) -> f32 {
        self.below(1_000_000) as f32 / 1_000_000.0
    }
}

fn sample_veins(tx: i32, ty: i32) -> [[VeinHits; MINING_RES]; MINING_RES] {
    let none = VeinHits { iron: false, copper: false, flint: false, coal: false, crystal: false, void: false };
    let mut veins = [[none; MINING_RES]; MINING_RES];
    for sy in 0..MINING_RES {
        for sx in 0..MINING_RES {
            let wx = tx as f32 + (sx as f32 + 0.5) / MINING_RES as f32;
            let wy = ty as f32 + (sy as f32 + 0.5) / MINING_RES as f32;
            veins[sy][sx] = VeinHits {
                iron: naive_vein_noise(wx * 3.0, wy * 3.0, 100) > 0.82,
                copper: naive_vein_noise(wx * 6.0, wy * 6.0, 200) > 0.90,
                flint: naive_vein_noise(wx * 5.0, wy * 5.0, 300) > 0.85
                    && naive_vein_noise(wx * 4.0 + 10.0, wy * 4.0 + 10.0, 350) > 0.7,
                coal: naive_vein_noise(wx * 2.5, wy * 2.5, 400) > 0.85,
                crystal: naive_vein_noise(wx * 8.0, wy * 8.0, 500) > 0.92
                    && naive_vein_noise(wx * 7.0 + 5.0, wy * 7.0 + 5.0, 550) > 0.85,
                void: naive_vein_noise(wx * 6.0, wy * 6.0, 600) > 0.95,
            };
        }
    }
    veins
}

fn same_grid(a: &MiningGrid, b: &MiningGrid) -> bool {
    a.rock_type == b.rock_type
        && (0..MINING_RES).all(|sy| {
            (0..MINING_RES).all(|sx| {
                a.cells[sy][sx].material == b.cells[sy][sx].material
                    && a.cells[sy][sx].hardness == b.cells[sy][sx].hardness
            })
        })
}

#[test]
fn mining_grids_match_naive_model() {
    let mut rng = Lcg(11);
    let rocks = [ROCK_CHALK, ROCK_SANDSTONE, ROCK_LIMESTONE, ROCK_GRANITE, ROCK_BASALT, 9];
    for _ in 0..300 {
        let tx = rng.below(2000) as i32 - 1000;
        let ty = rng.below(2000) as i32 - 1000;
        let rock = rocks[rng.below(rocks.len() as u32) as usize];
        let a = generate_mining_grid(tx, ty, rock, &sample_veins(tx, ty));
        let b = naive_generate_mining_grid(tx, ty, rock);
        assert!(same_grid(&a, &b), "tile ({}, {}) rock {}", tx, ty, rock);
        assert_eq!(pack_mining_grid(&a), naive_pack_mining_grid(&b));
        for face in 0..5u8 {
            assert_eq!(next_mine_target(&a, face), naive_next_mine_target(&b, face));
        }
    }
}

#[test]
fn wetland_matches_naive_model() {
    let mut rng = Lcg(12);
    let n = (GRID_W * GRID_H) as usize;
    let kinds = [BT_GROUND, BT_TREE, BT_DUSTWHISKER, BT_ROCK, BT_BERRY_BUSH, BT_HOLLOW_REED, 7];
    for round in 0..2 {
        let grid: Vec<u32> = (0..n)
            .map(|_| {
                let bt = kinds[rng.below(kinds.len() as u32) as usize];
                make_block(bt as u8, rng.below(4) as u8, 0) | (rng.below(3) << 24)
            })
            .collect();
        let depth: Vec<f32> = (0..n).map(|_| if rng.below(200) == 0 { rng.unit() } else { 0.0 }).collect();
        let table: Vec<f32> = (0..n).map(|_| rng.unit() * 2.0 - 1.9).collect();
        let elev: Vec<f32> = (0..n).map(|_| rng.unit() * 0.5).collect();
        let seed = rng.next();
        let wet: Vec<bool> = (0..n).map(|i| depth[i] > 0.0 || table[i] - elev[i] > 0.0).collect();
        let mut a = grid.clone();
        let mut b = grid.clone();
        apply_wetland_zones(&mut a, &wet, seed);
        naive_apply_wetland_buffer(&mut b, &depth, &table, &elev, seed);
        assert_eq!(a, b, "round {}", round);
    }
}

fn naive_apply_wetland_buffer(
    grid: &mut [u32],
    water_depth: &[f32],
    water_table: &[f32],
    elevation: &[f32],
    seed: u32,
) {
    let w = GRID_W as usize;
    let h = GRID_H as usize;
    let n = w * h;
    let dirt = make_block(BT_GROUND as u8, 0, 0);

    let mut water_dist = vec![255u8; n];
    for idx in 0..n {
        let eq = if idx < water_depth.len() {
            water_depth[idx]
        } else {
            0.0
        };
        let seep = if idx < water_table.len() && idx < elevation.len() {
            water_table[idx] - elevation[idx]
        } else {
            -10.0
        };
        if eq > 0.0 || seep > 0.0 {
            water_dist[idx] = 0;
        }
    }

    for _pass in 0..4 {
        let prev = water_dist.clone();
        for y in 0..h {
            for x in 0..w {
                let idx = y * w + x;
                if prev[idx] == 0 {
                    continue;
                }
                let mut min_n = prev[idx];
                if x > 0 {
                    min_n = min_n.min(prev[idx - 1]);
                }
                if x < w - 1 {
                    min_n = min_n.min(prev[idx + 1]);
                }
                if y > 0 {
                    min_n = min_n.min(prev[idx - w]);
                }
                if y < h - 1 {
                    min_n = min_n.min(prev[idx + w]);
                }
                if min_n < 255 {
                    water_dist[idx] = water_dist[idx].min(min_n + 1);
                }
            }
        }
    }

    let tile_rng = |idx: usize, shift: u32| -> u32 {
        (idx as u32).wrapping_mul(2654435761).wrapping_add(seed) >> shift & 0xF
    };

    for idx in 0..n.min(grid.len()) {
        let bt = block_type_rs(grid[idx]);
        let dist = water_dist[idx];
        let roof = grid[idx] & 0xFF000000;
        let is_tree = bt == BT_TREE;
        let is_veg = is_tree
            || bt == BT_BERRY_BUSH
            || bt == BT_DUSTWHISKER
            || bt == BT_HOLLOW_REED
            || bt == BT_THORNBRAKE
            || bt == BT_SALTBRUSH
            || bt == BT_DUSKBLOOM
            || bt == BT_ROCK;

        match dist {
            0 => {
                if is_veg {
                    grid[idx] = dirt | roof;
                }
            }
            1 => {
                if is_tree {
                    grid[idx] = make_block(BT_HOLLOW_REED as u8, 3, 0) | roof;
                } else if (bt == BT_GROUND || bt == BT_DUSTWHISKER) && tile_rng(idx, 16) < 6 {
                    grid[idx] = make_block(BT_HOLLOW_REED as u8, 3, 0) | roof;
                }
            }
            2 => {
                if is_tree {
                    if tile_rng(idx, 20) < 8 {
                        grid[idx] = make_block(BT_DUSTWHISKER as u8, 2, 0) | roof;
                    } else {
                        grid[idx] = dirt | roof;
                    }
                }
            }
            3 => {
                if is_tree && tile_rng(idx, 24) < 5 {
                    grid[idx] = dirt | roof;
                }
            }
            _ => {} // 4+ = normal, no changes
        }
    }
}

fn naive_mineral_hardness(mat: u8, host_hardness: u8) -> u8 {
    match mat {
        MAT_IRON => host_hardness.saturating_sub(1).max(2),
        MAT_COPPER => host_hardness.saturating_sub(1).max(2),
        MAT_FLINT => 6,   // flint is always moderately hard
        MAT_CRYSTAL => 3, // crystals are fragile
        MAT_COAL => 2,    // coal is soft
        MAT_VOID => 0,    // already empty
        _ => host_hardness,
    }
}

fn naive_vein_noise(wx: f32, wy: f32, seed: u32) -> f32 {
    let x = wx + seed as f32 * 0.7123;
    let y = wy + seed as f32 * 1.3217;
    let n1 = (x * 4.37 + y * 7.13).sin() * 43758.5453;
    let n2 = (x * 11.91 + y * 5.83).sin() * 27183.6;
    (n1.fract() + n2.fract()) * 0.5
}

fn naive_generate_mining_grid(tx: i32, ty: i32, rock_type: u8) -> MiningGrid {
    let base_h = rock_hardness(rock_type);
    let mut grid = MiningGrid {
        cells: [[MiningCell {
            material: MAT_HOST,
            hardness: base_h,
        }; MINING_RES]; MINING_RES],
        rock_type,
    };

    let tile_seed = (tx as u32)
        .wrapping_mul(374761393)
        .wrapping_add((ty as u32).wrapping_mul(668265263));

    for sy in 0..MINING_RES {
        for sx in 0..MINING_RES {
            let wx = tx as f32 + (sx as f32 + 0.5) / MINING_RES as f32;
            let wy = ty as f32 + (sy as f32 + 0.5) / MINING_RES as f32;

            let iron_v = naive_vein_noise(wx * 3.0, wy * 3.0, 100);
            if iron_v > 0.82 {
                grid.cells[sy][sx] = MiningCell {
                    material: MAT_IRON,
                    hardness: naive_mineral_hardness(MAT_IRON, base_h),
                };
                continue;
            }

            let copper_v = naive_vein_noise(wx * 6.0, wy * 6.0, 200);
            if copper_v > 0.90 {
                grid.cells[sy][sx] = MiningCell {
                    material: MAT_COPPER,
                    hardness: naive_mineral_hardness(MAT_COPPER, base_h),
                };
                continue;
            }

            if rock_type == ROCK_CHALK || rock_type == ROCK_LIMESTONE {
                let flint_v = naive_vein_noise(wx * 5.0, wy * 5.0, 300);
                let flint_v2 = naive_vein_noise(wx * 4.0 + 10.0, wy * 4.0 + 10.0, 350);
                if flint_v > 0.85 && flint_v2 > 0.7 {
                    grid.cells[sy][sx] = MiningCell {
                        material: MAT_FLINT,
                        hardness: naive_mineral_hardness(MAT_FLINT, base_h),
                    };
                    continue;
                }
            }

            if rock_type == ROCK_SANDSTONE || rock_type == ROCK_LIMESTONE {
                let coal_v = naive_vein_noise(wx * 2.5, wy * 2.5, 400);
                if coal_v > 0.85 {
                    grid.cells[sy][sx] = MiningCell {
                        material: MAT_COAL,
                        hardness: naive_mineral_hardness(MAT_COAL, base_h),
                    };
                    continue;
                }
            }

            let crystal_v = naive_vein_noise(wx * 8.0, wy * 8.0, 500);
            let crystal_v2 = naive_vein_noise(wx * 7.0 + 5.0, wy * 7.0 + 5.0, 550);
            if crystal_v > 0.92 && crystal_v2 > 0.85 {
                grid.cells[sy][sx] = MiningCell {
                    material: MAT_CRYSTAL,
                    hardness: naive_mineral_hardness(MAT_CRYSTAL, base_h),
                };
                continue;
            }

            let void_v = naive_vein_noise(wx * 6.0, wy * 6.0, 600);
            if void_v > 0.95 {
                grid.cells[sy][sx] = MiningCell {
                    material: MAT_VOID,
                    hardness: 0,
                };
            }

            let h_var = (tile_seed.wrapping_add(sx as u32 * 17 + sy as u32 * 31)) % 3;
            if h_var == 0 && grid.cells[sy][sx].material == MAT_HOST {
                grid.cells[sy][sx].hardness = base_h.saturating_add(1).min(10);
            }
        }
    }

    grid
}

fn naive_next_mine_target(grid: &MiningGrid, face: u8) -> Option<(usize, usize)> {
    match face {
        0 => {
            for sy in 0..MINING_RES {
                for sx in 0..MINING_RES {
                    if grid.cells[sy][sx].hardness > 0 {
                        return Some((sx, sy));
                    }
                }
            }
        }
        1 => {
            for sx in (0..MINING_RES).rev() {
                for sy in 0..MINING_RES {
                    if grid.cells[sy][sx].hardness > 0 {
                        return Some((sx, sy));
                    }
                }
            }
        }
        2 => {
            for sy in (0..MINING_RES).rev() {
                for sx in 0..MINING_RES {
                    if grid.cells[sy][sx].hardness > 0 {
                        return Some((sx, sy));
                    }
                }
            }
        }
        3 => {
            for sx in 0..MINING_RES {
                for sy in 0..MINING_RES {
                    if grid.cells[sy][sx].hardness > 0 {
                        return Some((sx, sy));
                    }
                }
            }
        }
        _ => {}
    }
    None
}

fn naive_pack_mining_grid(grid: &MiningGrid) -> [u8; 64] {
    let mut packed = [0u8; 64];
    for sy in 0..MINING_RES {
        for sx in 0..MINING_RES {
            let cell = &grid.cells[sy][sx];
            packed[sy * MINING_RES + sx] = (cell.material << 4) | (cell.hardness & 0xF);
        }
    }
    packed
}