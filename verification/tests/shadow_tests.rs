use rayworld::buildings::{generate_sample_buildings, generate_sample_buildings_wd};
use rayworld::fluid::f32_bits_to_f16;
use rayworld::fog::{compute_fov, update_fog, FogViewer};
use rayworld::thin_walls::{make_thin_wall_flags, make_wall_height};
use rayworld::grid::{make_block, BT_GLASS, BT_GROUND, BT_WALL, GRID_H, GRID_W};
use rayworld::roof::compute_roof_heights_wd;
use rayworld::walls::{
    pack_wall_data, wd_edge_blocked, wd_edge_blocked_ignore_doors, WD_EDGE_E, WD_HAS_DOOR,
};

fn ground() -> Vec<u32> {
    vec![make_block(BT_GROUND as u8, 0, 0); (GRID_W * GRID_H) as usize]
}

fn idx(x: u32, y: u32) -> usize {
    (y * GRID_W + x) as usize
}

#[test]
fn wall_hides_the_rest_of_each_axis() {
    let mut grid = ground();
    // Walls two tiles away in all four axis directions.
    grid[idx(202, 200)] = make_block(BT_WALL as u8, 3, 0);
    grid[idx(198, 200)] = make_block(BT_WALL as u8, 3, 0);
    grid[idx(200, 202)] = make_block(BT_WALL as u8, 3, 0);
    grid[idx(200, 198)] = make_block(BT_WALL as u8, 3, 0);
    let mut vis = vec![7u8; (GRID_W * GRID_H) as usize];
    compute_fov(&grid, &[], &mut vis, 200, 200, 10);
    for d in 3..=10u32 {
        assert_eq!(vis[idx(200 + d, 200)], 7);
        assert_eq!(vis[idx(200 - d, 200)], 7);
        assert_eq!(vis[idx(200, 200 + d)], 7);
        assert_eq!(vis[idx(200, 200 - d)], 7);
    }
    // The walls themselves and the tiles before them are seen.
    assert_eq!(vis[idx(202, 200)], 255);
    assert_eq!(vis[idx(201, 200)], 255);
    assert_eq!(vis[idx(200, 198)], 255);
}

#[test]
fn wall_hides_the_rest_of_each_diagonal() {
    let mut grid = ground();
    grid[idx(202, 202)] = make_block(BT_WALL as u8, 3, 0);
    grid[idx(198, 202)] = make_block(BT_WALL as u8, 3, 0);
    grid[idx(202, 198)] = make_block(BT_WALL as u8, 3, 0);
    grid[idx(198, 198)] = make_block(BT_WALL as u8, 3, 0);
    let mut vis = vec![9u8; (GRID_W * GRID_H) as usize];
    compute_fov(&grid, &[], &mut vis, 200, 200, 10);
    for d in 3..=7u32 {
        assert_eq!(vis[idx(200 + d, 200 + d)], 9);
        assert_eq!(vis[idx(200 - d, 200 + d)], 9);
        assert_eq!(vis[idx(200 + d, 200 - d)], 9);
        assert_eq!(vis[idx(200 - d, 200 - d)], 9);
    }
    assert_eq!(vis[idx(202, 202)], 255);
    assert_eq!(vis[idx(201, 201)], 255);
    // Off the diagonals the view goes on.
    assert_eq!(vis[idx(206, 200)], 255);
}

#[test]
fn glass_on_the_axis_hides_nothing() {
    let mut grid = ground();
    grid[idx(130, 128)] = make_block(BT_GLASS as u8, 3, 0);
    let mut vis = vec![0u8; (GRID_W * GRID_H) as usize];
    compute_fov(&grid, &[], &mut vis, 128, 128, 10);
    for x in 129..=138u32 {
        assert_eq!(vis[idx(x, 128)], 255);
    }
}

#[test]
fn fog_hides_tiles_behind_a_wall_from_the_only_viewer() {
    let mut grid = ground();
    grid[idx(103, 100)] = make_block(BT_WALL as u8, 3, 0);
    let n = (GRID_W * GRID_H) as usize;
    let mut vis = vec![0u8; n];
    let mut explored = vec![0u8; n];
    let mut texture = vec![0u8; n];
    let mut prev = Vec::new();
    let viewers = [FogViewer { x: 100, y: 100, has_light: false }];
    let changed = update_fog(&grid, &[], &viewers, false, 10, &mut vis, &mut explored, &mut texture, &mut prev);
    assert!(changed);
    assert_eq!(vis[idx(103, 100)], 255);
    assert_eq!(vis[idx(104, 100)], 0);
    assert_eq!(vis[idx(109, 100)], 0);
    assert_eq!(explored[idx(104, 100)], 0);
    // A second viewer on the far side sees it.
    let viewers2 = [
        FogViewer { x: 100, y: 100, has_light: false },
        FogViewer { x: 108, y: 100, has_light: false },
    ];
    let changed2 = update_fog(&grid, &[], &viewers2, false, 10, &mut vis, &mut explored, &mut texture, &mut prev);
    assert!(changed2);
    assert_eq!(vis[idx(104, 100)], 255);
}

#[test]
fn wall_data_edge_with_empty_layer_never_blocks() {
    assert!(!wd_edge_blocked(&[], i32::MIN, 0, i32::MAX, 0));
    assert!(!wd_edge_blocked_ignore_doors(&[], 5, 5, 6, 5));
    assert!(!wd_edge_blocked_ignore_doors(&[], i32::MAX, i32::MIN, i32::MIN, i32::MAX));
}

#[test]
fn ignoring_doors_only_unblocks() {
    let n = (GRID_W * GRID_H) as usize;
    let mut wd = vec![0u16; n];
    wd[idx(10, 10)] = pack_wall_data(WD_EDGE_E, 4, 0) | WD_HAS_DOOR;
    wd[idx(20, 10)] = pack_wall_data(WD_EDGE_E, 4, 0);
    assert!(wd_edge_blocked(&wd, 10, 10, 11, 10));
    assert!(!wd_edge_blocked_ignore_doors(&wd, 10, 10, 11, 10));
    assert!(wd_edge_blocked(&wd, 20, 10, 21, 10));
    assert!(wd_edge_blocked_ignore_doors(&wd, 20, 10, 21, 10));
}

#[test]
fn roof_heights_twice_equal_once() {
    let mut grid = ground();
    let mut wd = vec![0u16; (GRID_W * GRID_H) as usize];
    generate_sample_buildings_wd(&mut grid, &mut wd);
    compute_roof_heights_wd(&mut grid, &wd);
    let once = grid.clone();
    compute_roof_heights_wd(&mut grid, &wd);
    assert_eq!(grid, once);
}

#[test]
fn sample_buildings_fit_a_short_grid() {
    let full_len = (GRID_W * GRID_H) as usize;
    let mut full = ground();
    let mut full_wd = vec![0u16; full_len];
    generate_sample_buildings_wd(&mut full, &mut full_wd);

    let mut short = vec![make_block(BT_GROUND as u8, 0, 0); 135431];
    let mut short_wd = vec![0u16; 133896];
    generate_sample_buildings_wd(&mut short, &mut short_wd);
    assert_eq!(&short[..], &full[..135431]);
    assert_eq!(&short_wd[..], &full_wd[..133896]);

    let mut short2 = vec![make_block(BT_GROUND as u8, 0, 0); 135431];
    generate_sample_buildings(&mut short2);
    assert_eq!(short2, short);
}

#[test]
fn half_float_bits() {
    assert_eq!(f32_bits_to_f16(1.0f32.to_bits()), 0x3C00);
    assert_eq!(f32_bits_to_f16((-2.0f32).to_bits()), 0xC000);
    assert_eq!(f32_bits_to_f16(0.5f32.to_bits()), 0x3800);
    assert_eq!(f32_bits_to_f16(1.5f32.to_bits()), 0x3E00);
    assert_eq!(f32_bits_to_f16(65536.0f32.to_bits()), 0x7C00);
    assert_eq!(f32_bits_to_f16((-1.0e9f32).to_bits()), 0xFC00);
    assert_eq!(f32_bits_to_f16(1.0e-8f32.to_bits()), 0x0000);
    assert_eq!(f32_bits_to_f16((-1.0e-8f32).to_bits()), 0x8000);
    assert_eq!(f32_bits_to_f16(0.0f32.to_bits()), 0x0000);
}

#[test]
fn clear_lines_are_seen_past_walls_elsewhere() {
    let mut grid = ground();
    // Walls off the row, column and diagonals through the viewpoint.
    grid[idx(202, 201)] = make_block(BT_WALL as u8, 3, 0);
    grid[idx(201, 203)] = make_block(BT_WALL as u8, 3, 0);
    grid[idx(197, 199)] = make_block(BT_WALL as u8, 3, 0);
    grid[idx(199, 196)] = make_block(BT_WALL as u8, 3, 0);
    let mut vis = vec![0u8; (GRID_W * GRID_H) as usize];
    compute_fov(&grid, &[], &mut vis, 200, 200, 8);
    for d in 1..=8u32 {
        assert_eq!(vis[idx(200 + d, 200)], 255);
        assert_eq!(vis[idx(200 - d, 200)], 255);
        assert_eq!(vis[idx(200, 200 + d)], 255);
        assert_eq!(vis[idx(200, 200 - d)], 255);
    }
    for d in 1..=5u32 {
        assert_eq!(vis[idx(200 + d, 200 + d)], 255);
        assert_eq!(vis[idx(200 - d, 200 + d)], 255);
        assert_eq!(vis[idx(200 + d, 200 - d)], 255);
        assert_eq!(vis[idx(200 - d, 200 - d)], 255);
    }
}

#[test]
fn thin_wall_edge_across_the_line_hides_nothing() {
    let mut grid = ground();
    let (flags, edge_mask) = make_thin_wall_flags(0, 0, 1);
    grid[idx(130, 128)] = make_block(BT_WALL as u8, make_wall_height(3, edge_mask), flags);
    let mut vis = vec![0u8; (GRID_W * GRID_H) as usize];
    compute_fov(&grid, &[], &mut vis, 128, 128, 10);
    for x in 129..=138u32 {
        assert_eq!(vis[idx(x, 128)], 255);
    }
}

#[test]
fn short_night_sight_with_a_huge_day_radius() {
    let grid = ground();
    let n = (GRID_W * GRID_H) as usize;
    let mut vis = vec![0u8; n];
    let mut explored = vec![0u8; n];
    let mut texture = vec![0u8; n];
    let mut prev = Vec::new();
    let viewers = [FogViewer { x: 100, y: 100, has_light: false }];
    let changed = update_fog(&grid, &[], &viewers, true, 1_000_000, &mut vis, &mut explored, &mut texture, &mut prev);
    assert!(changed);
    assert_eq!(vis[idx(103, 100)], 255);
    assert_eq!(vis[idx(104, 100)], 0);
}
