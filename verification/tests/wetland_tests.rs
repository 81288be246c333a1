use rayworld::grid::{make_block, BT_DUSTWHISKER, BT_GROUND, BT_HOLLOW_REED, BT_TREE, GRID_H, GRID_W};
use rayworld::terrain::{
    terrain_surface, TERRAIN_CLAY, TERRAIN_FLINT_BEARING, TERRAIN_IRON_STAIN, TERRAIN_SAND,
};
use rayworld::wetland::{apply_wetland_zones, wetland_distances};

fn idx(x: u32, y: u32) -> usize {
    (y * GRID_W + x) as usize
}

fn wet_at(points: &[(u32, u32)]) -> Vec<bool> {
    let mut wet = vec![false; (GRID_W * GRID_H) as usize];
    for &(x, y) in points {
        wet[idx(x, y)] = true;
    }
    wet
}

#[test]
fn distances_to_water_up_to_four() {
    let wet = wet_at(&[(100, 100)]);
    let d = wetland_distances(&wet);
    assert_eq!(d.len(), (GRID_W * GRID_H) as usize);
    assert_eq!(d[idx(100, 100)], 0);
    assert_eq!(d[idx(101, 100)], 1);
    assert_eq!(d[idx(100, 98)], 2);
    assert_eq!(d[idx(102, 101)], 3);
    assert_eq!(d[idx(102, 102)], 4);
    assert_eq!(d[idx(104, 100)], 4);
    assert_eq!(d[idx(105, 100)], 255);
    assert_eq!(d[idx(103, 102)], 255);
}

#[test]
fn distances_take_the_nearest_water() {
    let wet = wet_at(&[(10, 10), (13, 10)]);
    let d = wetland_distances(&wet);
    assert_eq!(d[idx(11, 10)], 1);
    assert_eq!(d[idx(12, 10)], 1);
    assert_eq!(d[idx(16, 10)], 3);
    // a short mask counts the missing tiles as dry
    let short = vec![true; 3];
    let d2 = wetland_distances(&short);
    assert_eq!(d2[idx(2, 0)], 0);
    assert_eq!(d2[idx(6, 0)], 4);
    assert_eq!(d2[idx(7, 0)], 255);
    assert_eq!(d2[idx(0, 4)], 4);
}

#[test]
fn wetland_buffer_rules() {
    let tree = make_block(BT_TREE as u8, 3, 0);
    let ground = make_block(BT_GROUND as u8, 0, 0);
    let mut grid = vec![tree; (GRID_W * GRID_H) as usize];
    grid[idx(100, 101)] = ground;
    grid[idx(100, 99)] = ground;
    grid[idx(102, 100)] = tree | (4u32 << 24);
    let wet = wet_at(&[(100, 100)]);
    apply_wetland_zones(&mut grid, &wet, 0);
    let reed = make_block(BT_HOLLOW_REED as u8, 3, 0);
    // at the water: cleared
    assert_eq!(grid[idx(100, 100)], ground);
    // the edge: trees become reeds, some bare ground too
    assert_eq!(grid[idx(99, 100)], reed);
    assert_eq!(grid[idx(100, 101)], reed);
    assert_eq!(grid[idx(100, 99)], ground);
    // near water: tall grass (roll 2 < 8), roof byte kept
    assert_eq!(grid[idx(102, 100)], make_block(BT_DUSTWHISKER as u8, 2, 0) | (4u32 << 24));
    // damp margin: this tree stays (roll 15)
    assert_eq!(grid[idx(103, 100)], tree);
    // farther out nothing changes
    assert_eq!(grid[idx(110, 100)], tree);
}

#[test]
fn wetland_short_grid_is_fine() {
    let tree = make_block(BT_TREE as u8, 3, 0);
    let mut grid = vec![tree; 4];
    let wet = vec![true, false, false, false];
    apply_wetland_zones(&mut grid, &wet, 7);
    assert_eq!(grid[0], make_block(BT_GROUND as u8, 0, 0));
    assert_eq!(grid[1], make_block(BT_HOLLOW_REED as u8, 3, 0));
}

#[test]
fn terrain_surface_table() {
    assert_eq!(terrain_surface(TERRAIN_IRON_STAIN), (12, 3, 1));
    assert_eq!(terrain_surface(TERRAIN_FLINT_BEARING), (6, 2, 3));
    assert_eq!(terrain_surface(TERRAIN_CLAY), (4, 1, 12));
    assert_eq!(terrain_surface(TERRAIN_SAND), (8, 0, 2));
    assert_eq!(terrain_surface(99), (5, 1, 6));
}
