use rayworld::fog::compute_fov;
use rayworld::grid::{make_block, BT_GLASS, BT_WALL, GRID_H, GRID_W};
use rayworld::thin_walls::{make_thin_wall_flags, make_wall_height};

fn empty_grid() -> Vec<u32> {
    vec![make_block(2, 0, 0); (GRID_W * GRID_H) as usize]
}

#[test]
fn test_origin_is_visible() {
    let grid = empty_grid();
    let mut vis = vec![0u8; (GRID_W * GRID_H) as usize];
    compute_fov(&grid, &[], &mut vis, 128, 128, 10);
    assert_eq!(vis[(128 * GRID_W + 128) as usize], 255);
}

#[test]
fn test_open_area_visible() {
    let grid = empty_grid();
    let mut vis = vec![0u8; (GRID_W * GRID_H) as usize];
    compute_fov(&grid, &[], &mut vis, 128, 128, 5);
    assert_eq!(vis[(128 * GRID_W + 129) as usize], 255);
    assert_eq!(vis[(129 * GRID_W + 128) as usize], 255);
    assert_eq!(vis[(127 * GRID_W + 128) as usize], 255);
}

#[test]
fn test_wall_blocks_vision() {
    let mut grid = empty_grid();
    let wall_idx = (128 * GRID_W + 130) as usize;
    grid[wall_idx] = make_block(BT_WALL as u8, 3, 0);
    let mut vis = vec![0u8; (GRID_W * GRID_H) as usize];
    compute_fov(&grid, &[], &mut vis, 128, 128, 10);
    assert_eq!(vis[(128 * GRID_W + 131) as usize], 0, "tile behind wall should be hidden");
    assert_eq!(vis[(128 * GRID_W + 129) as usize], 255, "tile before wall should be visible");
}

#[test]
fn test_glass_does_not_block() {
    let mut grid = empty_grid();
    let glass_idx = (128 * GRID_W + 130) as usize;
    grid[glass_idx] = make_block(BT_GLASS as u8, 3, 0);
    let mut vis = vec![0u8; (GRID_W * GRID_H) as usize];
    compute_fov(&grid, &[], &mut vis, 128, 128, 10);
    assert_eq!(vis[(128 * GRID_W + 131) as usize], 255, "should see through glass");
}

#[test]
fn test_radius_limit() {
    let grid = empty_grid();
    let mut vis = vec![0u8; (GRID_W * GRID_H) as usize];
    compute_fov(&grid, &[], &mut vis, 128, 128, 5);
    assert_eq!(vis[(128 * GRID_W + 135) as usize], 0, "beyond radius should be hidden");
    assert_eq!(vis[(128 * GRID_W + 132) as usize], 255, "within radius should be visible");
}

#[test]
fn test_thin_wall_blocks_directionally() {
    let mut grid = empty_grid();
    let (flags, edge_mask) = make_thin_wall_flags(0, 3, 1);
    let wall_idx = (128 * GRID_W + 130) as usize;
    grid[wall_idx] = make_block(BT_WALL as u8, make_wall_height(3, edge_mask), flags);
    let mut vis = vec![0u8; (GRID_W * GRID_H) as usize];
    compute_fov(&grid, &[], &mut vis, 128, 128, 10);
    assert_eq!(
        vis[(128 * GRID_W + 131) as usize],
        0,
        "tile behind thin wall's walled edge should be hidden"
    );
    assert_eq!(vis[(128 * GRID_W + 129) as usize], 255, "tile before thin wall should be visible");
}

#[test]
fn test_thin_wall_transparent_from_open_side() {
    let mut grid = empty_grid();
    let (flags, edge_mask) = make_thin_wall_flags(0, 0, 1);
    let wall_idx = (128 * GRID_W + 130) as usize;
    grid[wall_idx] = make_block(BT_WALL as u8, make_wall_height(3, edge_mask), flags);
    let mut vis = vec![0u8; (GRID_W * GRID_H) as usize];
    compute_fov(&grid, &[], &mut vis, 128, 128, 10);
    assert_eq!(vis[(128 * GRID_W + 131) as usize], 255, "should see through thin wall's open side");
}
