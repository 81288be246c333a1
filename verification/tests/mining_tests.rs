use rayworld::mining::{
    generate_mining_grid, is_fully_mined, mine_cell, next_mine_target, pack_mining_grid, MiningGrid,
    VeinHits, MAT_FLINT, MINING_RES, ROCK_CHALK, ROCK_GRANITE, ROCK_LIMESTONE, ROCK_SANDSTONE,
};

/// Two-octave sine hash noise, continuous across tile boundaries.
fn vein_noise(wx: f32, wy: f32, seed: u32) -> f32 {
    let x = wx + seed as f32 * 0.7123;
    let y = wy + seed as f32 * 1.3217;
    let n1 = (x * 4.37 + y * 7.13).sin() * 43758.5453;
    let n2 = (x * 11.91 + y * 5.83).sin() * 27183.6;
    (n1.fract() + n2.fract()) * 0.5
}

/// Which vein fields pass their thresholds at each sub-cell of tile (tx, ty).
fn sample_veins(tx: i32, ty: i32) -> [[VeinHits; MINING_RES]; MINING_RES] {
    let none = VeinHits { iron: false, copper: false, flint: false, coal: false, crystal: false, void: false };
    let mut veins = [[none; MINING_RES]; MINING_RES];
    for sy in 0..MINING_RES {
        for sx in 0..MINING_RES {
            let wx = tx as f32 + (sx as f32 + 0.5) / MINING_RES as f32;
            let wy = ty as f32 + (sy as f32 + 0.5) / MINING_RES as f32;
            veins[sy][sx] = VeinHits {
                iron: vein_noise(wx * 3.0, wy * 3.0, 100) > 0.82,
                copper: vein_noise(wx * 6.0, wy * 6.0, 200) > 0.90,
                flint: vein_noise(wx * 5.0, wy * 5.0, 300) > 0.85
                    && vein_noise(wx * 4.0 + 10.0, wy * 4.0 + 10.0, 350) > 0.7,
                coal: vein_noise(wx * 2.5, wy * 2.5, 400) > 0.85,
                crystal: vein_noise(wx * 8.0, wy * 8.0, 500) > 0.92
                    && vein_noise(wx * 7.0 + 5.0, wy * 7.0 + 5.0, 550) > 0.85,
                void: vein_noise(wx * 6.0, wy * 6.0, 600) > 0.95,
            };
        }
    }
    veins
}

fn grid_at(tx: i32, ty: i32, rock_type: u8) -> MiningGrid {
    generate_mining_grid(tx, ty, rock_type, &sample_veins(tx, ty))
}

#[test]
fn test_generate_deterministic() {
    let g1 = grid_at(10, 20, ROCK_GRANITE);
    let g2 = grid_at(10, 20, ROCK_GRANITE);
    for sy in 0..MINING_RES {
        for sx in 0..MINING_RES {
            assert_eq!(g1.cells[sy][sx].material, g2.cells[sy][sx].material);
            assert_eq!(g1.cells[sy][sx].hardness, g2.cells[sy][sx].hardness);
        }
    }
}

#[test]
fn test_mine_cell() {
    let mut g = grid_at(5, 5, ROCK_SANDSTONE);
    let mat = mine_cell(&mut g, 0, 0);
    assert!(mat.is_some());
    assert_eq!(g.cells[0][0].hardness, 0);
    assert!(mine_cell(&mut g, 0, 0).is_none());
}

#[test]
fn test_next_mine_target_south_face() {
    let g = grid_at(5, 5, ROCK_CHALK);
    let (_, sy) = next_mine_target(&g, 2).unwrap();
    assert_eq!(sy, MINING_RES - 1);
}

#[test]
fn test_flint_in_chalk() {
    let mut found_flint = false;
    for tx in 0..50 {
        let g = grid_at(tx, 0, ROCK_CHALK);
        for row in &g.cells {
            for cell in row {
                if cell.material == MAT_FLINT {
                    found_flint = true;
                }
            }
        }
    }
    assert!(found_flint, "chalk should contain flint nodules");
}

#[test]
fn test_no_flint_in_granite() {
    for tx in 0..50 {
        let g = grid_at(tx, 0, ROCK_GRANITE);
        for row in &g.cells {
            for cell in row {
                assert_ne!(cell.material, MAT_FLINT, "granite should not contain flint");
            }
        }
    }
}

#[test]
fn test_pack_roundtrip() {
    let g = grid_at(7, 13, ROCK_LIMESTONE);
    let packed = pack_mining_grid(&g);
    for sy in 0..MINING_RES {
        for sx in 0..MINING_RES {
            let byte = packed[sy * MINING_RES + sx];
            let mat = byte >> 4;
            let hard = byte & 0xF;
            assert_eq!(mat, g.cells[sy][sx].material);
            assert_eq!(hard, g.cells[sy][sx].hardness.min(15));
        }
    }
}

#[test]
fn test_fully_mined() {
    let mut g = grid_at(0, 0, ROCK_CHALK);
    assert!(!is_fully_mined(&g));
    for sy in 0..MINING_RES {
        for sx in 0..MINING_RES {
            mine_cell(&mut g, sx, sy);
        }
    }
    assert!(is_fully_mined(&g));
}
