use rayworld::fluid::build_obstacle_field;
use rayworld::grid::make_block;
use rayworld::walls::{pack_wall_data, WD_DOOR_OPEN, WD_HAS_DOOR};

fn all_solid(obs: &[u8]) -> bool {
    obs.len() >= 4 && obs[0] == 255 && obs[1] == 255 && obs[2] == 255 && obs[3] == 255
}

fn all_open(obs: &[u8]) -> bool {
    obs.len() >= 4 && obs[0] == 0 && obs[1] == 0 && obs[2] == 0 && obs[3] == 0
}

#[test]
fn test_obstacle_walls_block() {
    let grid = vec![make_block(1, 3, 0)];
    let obs = build_obstacle_field(&grid, &[]);
    assert!(all_solid(&obs), "stone wall should block all sub-cells");
}

#[test]
fn test_obstacle_open_ground() {
    let grid = vec![make_block(2, 0, 0)];
    let obs = build_obstacle_field(&grid, &[]);
    assert!(all_open(&obs), "dirt floor should not be obstacle");
}

#[test]
fn test_obstacle_open_door() {
    let grid = vec![make_block(4, 1, 1 | 4)];
    let obs = build_obstacle_field(&grid, &[]);
    assert!(all_open(&obs), "open door should not be obstacle");
}

#[test]
fn test_obstacle_closed_door() {
    let grid = vec![make_block(4, 1, 1)];
    let obs = build_obstacle_field(&grid, &[]);
    assert!(all_solid(&obs), "closed door should be obstacle");
}

#[test]
fn test_obstacle_tree_not_blocking() {
    let grid = vec![make_block(8, 3, 0)];
    let obs = build_obstacle_field(&grid, &[]);
    assert!(all_open(&obs), "tree should not block fluid");
}

#[test]
fn test_obstacle_fire_not_blocking() {
    let grid = vec![make_block(6, 1, 0)];
    let obs = build_obstacle_field(&grid, &[]);
    assert!(all_open(&obs), "fireplace should not block fluid");
}

#[test]
fn test_obstacle_wall_data_blocks() {
    let grid = vec![make_block(2, 0, 0)];
    let wd = vec![pack_wall_data(0xF, 4, 0)];
    let obs = build_obstacle_field(&grid, &wd);
    assert!(all_solid(&obs), "full wall_data should block all sub-cells");
}

#[test]
fn test_obstacle_wall_data_open_door() {
    let grid = vec![make_block(2, 0, 0)];
    let wd = vec![pack_wall_data(0xF, 4, 0) | WD_HAS_DOOR | WD_DOOR_OPEN];
    let obs = build_obstacle_field(&grid, &wd);
    assert!(all_open(&obs), "open wall_data door should not block fluid");
}

#[test]
fn test_obstacle_thin_wall_north_partial() {
    let grid = vec![make_block(2, 0, 0)];
    let wd = vec![pack_wall_data(0x1, 1, 0)];
    let obs = build_obstacle_field(&grid, &wd);
    assert_eq!(obs[0], 255, "NW should be solid (north wall)");
    assert_eq!(obs[1], 255, "NE should be solid (north wall)");
    assert_eq!(obs[2], 0, "SW should be open");
    assert_eq!(obs[3], 0, "SE should be open");
}
