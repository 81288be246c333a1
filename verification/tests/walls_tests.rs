use rayworld::grid::{make_block, BT_GROUND, BT_WALL, GRID_H, GRID_W};
use rayworld::thin_walls::{
    edge_blocked, edge_blocked_wd, edge_to_mask, extract_wall_data_from_grid, has_wall_on_edge,
    make_thin_wall_corner_flags, make_thin_wall_flags, make_wall_height, wall_edge_mask,
    wall_height, WALL_EDGE_N, WALL_EDGE_W,
};
use rayworld::walls::{
    door_gpu_word, extract_door_sites, pack_wall_data, wd_blocks_movement, wd_edge_blocked,
    wd_edge_blocked_ignore_doors, wd_edges, wd_first_edge, wd_has_edge, wd_height,
    wd_height_class, wd_material, wd_thickness, wd_thickness_raw, WallHeightClass, WD_DOOR_OPEN,
    WD_EDGE_N, WD_HAS_DOOR, WD_HAS_WINDOW,
};

fn full_layer() -> Vec<u16> {
    vec![0u16; (GRID_W * GRID_H) as usize]
}

#[test]
fn pack_wall_data_exact_word() {
    let wd = pack_wall_data(0b0101, 2, 7);
    assert_eq!(wd, 0x1E5);
    assert_eq!(wd_edges(wd), 0b0101);
    assert_eq!(wd_thickness_raw(wd), 2);
    assert_eq!(wd_thickness(wd), 2);
    assert_eq!(wd_material(wd), 7);
    assert_eq!(wd_height(wd), 0);
    assert_eq!(wd & (WD_HAS_DOOR | WD_DOOR_OPEN | WD_HAS_WINDOW), 0);
}

#[test]
fn pack_wall_data_cuts_fields() {
    // thickness of 4 or more is a full wall, material is kept modulo 16
    let wd = pack_wall_data(0x1F, 9, 17);
    assert_eq!(wd_edges(wd), 0xF);
    assert_eq!(wd_thickness(wd), 4);
    assert_eq!(wd_material(wd), 1);
    assert_eq!(pack_wall_data(0xF, 4, 0), 0xF);
}

#[test]
fn wall_data_edges_per_direction() {
    let wd = pack_wall_data(0b1010, 1, 0);
    assert!(!wd_has_edge(wd, 0));
    assert!(wd_has_edge(wd, 1));
    assert!(!wd_has_edge(wd, 2));
    assert!(wd_has_edge(wd, 3));
}

#[test]
fn first_edge_of_wall_data() {
    assert_eq!(wd_first_edge(0b0110), 1);
    assert_eq!(wd_first_edge(0b1000), 3);
    assert_eq!(wd_first_edge(0b0001), 0);
    // no edge at all: 0
    assert_eq!(wd_first_edge(0), 0);
    assert_eq!(wd_first_edge(WD_HAS_DOOR), 0);
}

#[test]
fn wall_data_movement_blocking() {
    let ring = pack_wall_data(0xF, 1, 0);
    assert!(wd_blocks_movement(ring, false));
    assert!(!wd_blocks_movement(ring | WD_HAS_DOOR, true));
    assert!(!wd_blocks_movement(ring | WD_HAS_DOOR | WD_DOOR_OPEN, false));
    assert!(wd_blocks_movement(ring | WD_HAS_DOOR, false));
    let thin = pack_wall_data(WD_EDGE_N, 1, 0);
    assert!(!wd_blocks_movement(thin, false));
    let thick = pack_wall_data(WD_EDGE_N, 4, 0);
    assert!(wd_blocks_movement(thick, false));
    assert!(!wd_blocks_movement(0, false));
}

#[test]
fn wall_height_classes() {
    let full = pack_wall_data(1, 4, 0);
    assert_eq!(wd_height_class(full), WallHeightClass::Full);
    assert_eq!(wd_height_class(full | (1 << 13)), WallHeightClass::Low);
    assert_eq!(wd_height_class(full | (2 << 13)), WallHeightClass::Chest);
    assert_eq!(wd_height_class(full | (5 << 13)), WallHeightClass::Full);
    assert_eq!(wd_height_class(2 << 13), WallHeightClass::Open);
}

#[test]
fn wall_data_crossing_is_symmetric() {
    let mut wd = full_layer();
    wd[(5 * GRID_W + 5) as usize] = pack_wall_data(WD_EDGE_N, 1, 0);
    assert!(wd_edge_blocked(&wd, 5, 5, 5, 4));
    assert!(wd_edge_blocked(&wd, 5, 4, 5, 5));
    assert!(!wd_edge_blocked(&wd, 5, 5, 6, 5));
    assert!(!wd_edge_blocked(&wd, 6, 5, 5, 5));
    assert!(!wd_edge_blocked(&wd, 5, 5, 5, 6));
}

#[test]
fn wall_data_doors_block_only_when_closed() {
    let mut wd = full_layer();
    let idx = (5 * GRID_W + 5) as usize;
    wd[idx] = pack_wall_data(WD_EDGE_N, 1, 0) | WD_HAS_DOOR;
    assert!(wd_edge_blocked(&wd, 5, 5, 5, 4));
    assert!(!wd_edge_blocked_ignore_doors(&wd, 5, 5, 5, 4));
    wd[idx] |= WD_DOOR_OPEN;
    assert!(!wd_edge_blocked(&wd, 5, 5, 5, 4));
}

#[test]
fn empty_wall_layer_blocks_nothing() {
    let wd: Vec<u16> = Vec::new();
    assert!(!wd_edge_blocked(&wd, 5, 5, 5, 4));
    let grid = vec![make_block(BT_GROUND as u8, 0, 0); (GRID_W * GRID_H) as usize];
    assert!(!edge_blocked_wd(&grid, &wd, 5, 5, 5, 4));
}

#[test]
fn grid_crossing_is_symmetric() {
    let mut grid = vec![make_block(BT_GROUND as u8, 0, 0); (GRID_W * GRID_H) as usize];
    let (flags, mask) = make_thin_wall_flags(0, 1, 1);
    grid[(7 * GRID_W + 7) as usize] = make_block(BT_WALL as u8, make_wall_height(3, mask), flags);
    assert!(edge_blocked(&grid, 7, 7, 8, 7));
    assert!(edge_blocked(&grid, 8, 7, 7, 7));
    assert!(!edge_blocked(&grid, 7, 7, 6, 7));
    assert!(!edge_blocked(&grid, 6, 7, 7, 7));
}

#[test]
fn thin_wall_height_byte_roundtrip() {
    let h = make_wall_height(3, 0x50);
    assert_eq!(h, 0x53);
    assert_eq!(wall_height(h), 3);
    assert_eq!(wall_edge_mask(h), 0x50);
    assert_eq!(edge_to_mask(0), 0x10);
    assert_eq!(edge_to_mask(3), 0x80);
    assert_eq!(edge_to_mask(5), 0x20);
}

#[test]
fn thin_wall_corner_covers_two_edges() {
    let (flags, mask) = make_thin_wall_corner_flags(0, 3, 2);
    assert_eq!(flags, 0x40);
    assert_eq!(mask, WALL_EDGE_W | WALL_EDGE_N);
    let raw = make_wall_height(3, mask);
    assert!(has_wall_on_edge(raw, flags, 3));
    assert!(has_wall_on_edge(raw, flags, 0));
    assert!(!has_wall_on_edge(raw, flags, 1));
    assert!(!has_wall_on_edge(raw, flags, 2));
}

#[test]
fn extracted_wall_data_keeps_edges_and_thickness() {
    let mut grid = vec![make_block(BT_GROUND as u8, 0, 0); (GRID_W * GRID_H) as usize];
    let (flags, mask) = make_thin_wall_flags(0, 0, 2);
    grid[3] = make_block(BT_WALL as u8, make_wall_height(3, mask), flags | 1);
    grid[4] = make_block(BT_WALL as u8, 3, 0);
    let wd = extract_wall_data_from_grid(&grid);
    assert_eq!(wd.len(), grid.len());
    assert_eq!(wd_edges(wd[3]), WD_EDGE_N);
    assert_eq!(wd_thickness(wd[3]), 2);
    assert_ne!(wd[3] & WD_HAS_DOOR, 0);
    assert_eq!(wd_edges(wd[4]), 0xF);
    assert_eq!(wd_thickness(wd[4]), 4);
    assert_eq!(wd[0], 0);
    assert_eq!(WALL_EDGE_N, 0x10);
}

#[test]
fn door_sites_in_index_order() {
    let mut wd = vec![0u16; 2 * GRID_W as usize];
    wd[10] = pack_wall_data(0b0010, 1, 2) | WD_HAS_DOOR;
    wd[20] = pack_wall_data(0b0001, 4, 0);
    wd[515] = pack_wall_data(0b0100, 4, 5) | WD_HAS_DOOR | WD_DOOR_OPEN;
    let sites = extract_door_sites(&wd);
    assert_eq!(sites.len(), 2);
    assert_eq!((sites[0].x, sites[0].y, sites[0].edge, sites[0].material, sites[0].open), (10, 0, 1, 2, false));
    assert_eq!((sites[1].x, sites[1].y, sites[1].edge, sites[1].material, sites[1].open), (3, 1, 2, 5, true));
}

#[test]
fn door_gpu_word_fields() {
    assert_eq!(door_gpu_word(3, 1, 2, 1, true, 5), 6160643);
    assert_eq!(door_gpu_word(-1, 0, 0, 0, false, 0), 0xFF);
    assert_eq!(door_gpu_word(256 + 7, 0, 7, 2, false, 31), 7 | (3 << 16) | (15 << 20));
}
