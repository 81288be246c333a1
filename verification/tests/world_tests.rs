use rayworld::audio::Xorshift32;
use rayworld::buildings::{generate_sample_buildings, generate_sample_buildings_wd};
use rayworld::cards::CardType;
use rayworld::comms::{
    dissolve_group, form_group, in_same_flock, leave_group, next_group_id, set_group, FlockSpacing,
    Pleb, ShoutKind,
};
use rayworld::fire::burn_replacement_pub;
use rayworld::fog::{
    blocks_vision, compute_fov, update_fog, viewer_radius, FogViewer, FOG_EXPLORED, FOG_SHROUDED,
    FOG_VISIBLE,
};
use rayworld::grid::{
    extract_roof_data, is_ground_block, is_wall_block, is_wire_block, make_block, roof_height_rs,
    BT_AIR, BT_BED, BT_DIRT, BT_FIREPLACE, BT_GRANITE, BT_GROUND, BT_STONE, BT_TREE, BT_WALL,
    BT_WIRE, BT_WOOD_FLOOR, BT_WOOD_WALL, GRID_H, GRID_W,
};
use rayworld::mining::{
    generate_mining_grid, material_name, mine_cell, mined_count, rock_hardness, rock_type_name,
    VeinHits, MAT_COAL, MAT_HOST, MAT_IRON, MAT_VOID, MINING_RES, ROCK_BASALT, ROCK_CHALK,
    ROCK_GRANITE, ROCK_SANDSTONE,
};
use rayworld::roof::compute_roof_heights_wd;
use rayworld::terrain::{
    pack_terrain, terrain_add_compaction, terrain_add_dig_hole, terrain_compaction,
    terrain_decay_compaction, terrain_dig_holes, terrain_remove_dig_hole, terrain_richness,
    terrain_roughness, terrain_type, TERRAIN_LOAM,
};
use rayworld::walls::{wd_edges, WD_EDGE_N};
use rayworld::wgsl::wgsl_block_constants;

fn ground() -> Vec<u32> {
    vec![make_block(BT_GROUND as u8, 0, 0); (GRID_W * GRID_H) as usize]
}

fn idx(x: u32, y: u32) -> usize {
    (y * GRID_W + x) as usize
}

#[test]
fn fov_marks_neighbours_by_radius() {
    let grid = ground();
    let mut vis = vec![0u8; (GRID_W * GRID_H) as usize];
    compute_fov(&grid, &[], &mut vis, 100, 100, 1);
    assert_eq!(vis[idx(100, 100)], 255);
    assert_eq!(vis[idx(101, 100)], 255);
    assert_eq!(vis[idx(99, 100)], 255);
    assert_eq!(vis[idx(100, 101)], 255);
    assert_eq!(vis[idx(100, 99)], 255);
    assert_eq!(vis[idx(101, 101)], 0);
    assert_eq!(vis[idx(102, 100)], 0);
}

#[test]
fn fov_in_the_open_sees_exactly_the_disc() {
    let grid = ground();
    let mut vis = vec![0u8; (GRID_W * GRID_H) as usize];
    compute_fov(&grid, &[], &mut vis, 200, 300, 7);
    for y in 280..320i32 {
        for x in 180..220i32 {
            let inside = (x - 200) * (x - 200) + (y - 300) * (y - 300) <= 49;
            assert_eq!(vis[idx(x as u32, y as u32)] == 255, inside, "({}, {})", x, y);
        }
    }
}

#[test]
fn fov_negative_radius_marks_only_origin() {
    let grid = ground();
    let mut vis = vec![0u8; (GRID_W * GRID_H) as usize];
    compute_fov(&grid, &[], &mut vis, 100, 100, -3);
    assert_eq!(vis[idx(100, 100)], 255);
    assert_eq!(vis.iter().filter(|v| **v != 0).count(), 1);
}

#[test]
fn fov_from_outside_the_grid_changes_nothing() {
    let grid = ground();
    let mut vis = vec![0u8; (GRID_W * GRID_H) as usize];
    compute_fov(&grid, &[], &mut vis, -50, 40, 10);
    assert!(vis.iter().all(|v| *v == 0));
    compute_fov(&grid, &[], &mut vis, 2_000_000_000, -2_000_000_000, 46340);
    assert!(vis.iter().all(|v| *v == 0));
}

#[test]
fn vision_blocking_cases() {
    let mut grid = ground();
    grid[idx(10, 10)] = make_block(BT_WALL as u8, 3, 0);
    grid[idx(11, 10)] = make_block(BT_TREE as u8, 3, 0);
    grid[idx(12, 10)] = make_block(4, 1, 1 | 4);
    assert!(blocks_vision(&grid, &[], 10, 10, 9, 10));
    assert!(!blocks_vision(&grid, &[], 11, 10, 10, 10));
    assert!(!blocks_vision(&grid, &[], 12, 10, 11, 10));
    assert!(!blocks_vision(&grid, &[], 13, 10, 12, 10));
    assert!(blocks_vision(&grid, &[], -1, 10, 0, 10));
}

#[test]
fn viewer_radius_by_light() {
    assert_eq!(viewer_radius(true, false, 25), 3);
    assert_eq!(viewer_radius(true, true, 25), 8);
    assert_eq!(viewer_radius(true, true, 5), 5);
    assert_eq!(viewer_radius(false, false, 25), 25);
}

#[test]
fn fog_explored_tiles_stay_explored() {
    let grid = ground();
    let n = (GRID_W * GRID_H) as usize;
    let mut vis = vec![0u8; n];
    let mut explored = vec![0u8; n];
    let mut tex = vec![9u8; n];
    let mut prev: Vec<(i32, i32)> = Vec::new();
    let first = [FogViewer { x: 100, y: 100, has_light: false }];
    assert!(update_fog(&grid, &[], &first, false, 5, &mut vis, &mut explored, &mut tex, &mut prev));
    assert_eq!(prev, vec![(100, 100)]);
    assert_eq!(explored[idx(100, 100)], 255);
    assert_eq!(tex[idx(100, 100)], FOG_VISIBLE);
    assert_eq!(tex[idx(300, 300)], FOG_SHROUDED);

    // same tiles again: nothing changes
    tex[idx(300, 300)] = 42;
    assert!(!update_fog(&grid, &[], &first, false, 5, &mut vis, &mut explored, &mut tex, &mut prev));
    assert_eq!(tex[idx(300, 300)], 42);

    // the viewer moves away: the old tile is remembered as explored
    let second = [FogViewer { x: 300, y: 300, has_light: false }];
    assert!(update_fog(&grid, &[], &second, false, 5, &mut vis, &mut explored, &mut tex, &mut prev));
    assert_eq!(vis[idx(100, 100)], 0);
    assert_eq!(explored[idx(100, 100)], 255);
    assert_eq!(tex[idx(100, 100)], FOG_EXPLORED);
    assert_eq!(tex[idx(300, 300)], FOG_VISIBLE);
}

#[test]
fn fog_at_night_without_light_is_short() {
    let grid = ground();
    let n = (GRID_W * GRID_H) as usize;
    let mut vis = vec![0u8; n];
    let mut explored = vec![0u8; n];
    let mut tex = vec![0u8; n];
    let mut prev: Vec<(i32, i32)> = Vec::new();
    let viewers = [FogViewer { x: 200, y: 200, has_light: false }];
    assert!(update_fog(&grid, &[], &viewers, true, 25, &mut vis, &mut explored, &mut tex, &mut prev));
    assert_eq!(vis[idx(203, 200)], 255);
    assert_eq!(vis[idx(204, 200)], 0);
}

#[test]
fn terrain_fields_roundtrip() {
    let t = pack_terrain(TERRAIN_LOAM, 17, 9, 2, 20, 11);
    assert_eq!(terrain_type(t), TERRAIN_LOAM);
    assert_eq!(terrain_roughness(t), 2);
    assert_eq!(terrain_richness(t), 20);
    assert_eq!(terrain_compaction(t), 0);
    assert_eq!(terrain_dig_holes(t), 0);
    assert_eq!(t, 7 | (17 << 4) | (9 << 9) | (2 << 13) | (20 << 15) | (11 << 20));
    // fields are cut to their widths
    let cut = pack_terrain(0x13, 0, 0, 7, 0, 0);
    assert_eq!(terrain_type(cut), 3);
    assert_eq!(terrain_roughness(cut), 3);
}

#[test]
fn terrain_compaction_and_dig_holes() {
    let base = pack_terrain(2, 3, 4, 1, 5, 6);
    let mut t = base;
    terrain_add_compaction(&mut t, 10);
    assert_eq!(terrain_compaction(t), 10);
    terrain_add_compaction(&mut t, 30);
    assert_eq!(terrain_compaction(t), 31);
    terrain_decay_compaction(&mut t);
    assert_eq!(terrain_compaction(t), 30);
    assert_eq!(t & 0x00FF_FFFF, base);
    let mut z = base;
    terrain_decay_compaction(&mut z);
    assert_eq!(z, base);

    let mut d = base;
    terrain_add_dig_hole(&mut d);
    assert_eq!(terrain_dig_holes(d), 1);
    terrain_remove_dig_hole(&mut d);
    assert_eq!(d, base);
    for _ in 0..10 {
        terrain_add_dig_hole(&mut d);
    }
    assert_eq!(terrain_dig_holes(d), 7);
    terrain_remove_dig_hole(&mut z);
    assert_eq!(z, base);
}

fn no_veins() -> [[VeinHits; MINING_RES]; MINING_RES] {
    let none = VeinHits { iron: false, copper: false, flint: false, coal: false, crystal: false, void: false };
    [[none; MINING_RES]; MINING_RES]
}

#[test]
fn mining_grid_rules() {
    let mut veins = no_veins();
    veins[0][0].iron = true;
    veins[0][1].coal = true;
    veins[0][2].void = true;
    let g = generate_mining_grid(0, 0, ROCK_SANDSTONE, &veins);
    assert_eq!(g.rock_type, ROCK_SANDSTONE);
    assert_eq!(g.cells[0][0].material, MAT_IRON);
    assert_eq!(g.cells[0][0].hardness, 3);
    assert_eq!(g.cells[0][1].material, MAT_COAL);
    assert_eq!(g.cells[0][1].hardness, 2);
    assert_eq!(g.cells[0][2].material, MAT_VOID);
    assert_eq!(g.cells[0][2].hardness, 0);
    // tile (0, 0): the host cell at (sx, sy) = (0, 1) has seed offset 31, 31 % 3 = 1
    assert_eq!(g.cells[1][0].material, MAT_HOST);
    assert_eq!(g.cells[1][0].hardness, 4);
    // (sx, sy) = (1, 1): 17 + 31 = 48, 48 % 3 = 0: one harder
    assert_eq!(g.cells[1][1].hardness, 5);

    let granite = generate_mining_grid(0, 0, ROCK_GRANITE, &veins);
    assert_eq!(granite.cells[0][1].material, MAT_HOST);
}

#[test]
fn mining_counts_and_names() {
    let mut g = generate_mining_grid(3, 4, ROCK_CHALK, &no_veins());
    assert_eq!(mined_count(&g), 0);
    assert_eq!(mine_cell(&mut g, 2, 3), Some(MAT_HOST));
    assert_eq!(mined_count(&g), 1);
    assert_eq!(mine_cell(&mut g, 8, 0), None);
    assert_eq!(mined_count(&g), 1);
    assert_eq!(rock_hardness(ROCK_CHALK), 2);
    assert_eq!(rock_hardness(ROCK_BASALT), 10);
    assert_eq!(rock_hardness(99), 5);
    assert_eq!(rock_type_name(ROCK_GRANITE), "Granite");
    assert_eq!(rock_type_name(42), "Rock");
    assert_eq!(material_name(MAT_IRON), "Iron Ore");
    assert_eq!(material_name(42), "Unknown");
}

#[test]
fn flock_spacing_cycles_in_three() {
    let s = FlockSpacing::default();
    assert_eq!(s, FlockSpacing::Normal);
    assert_eq!(s.cycle(), FlockSpacing::Spread);
    assert_eq!(s.cycle().cycle().cycle(), s);
    assert_eq!(FlockSpacing::Tight.label(), "Tight");
    assert_eq!(ShoutKind::Retreat.label(), "Fall back!");
}

fn pleb(group_id: Option<u8>, drafted: bool) -> Pleb {
    Pleb { group_id, is_enemy: false, drafted, is_dead: false }
}

#[test]
fn groups_form_and_dissolve() {
    let mut plebs = vec![pleb(Some(1), false), pleb(None, false), pleb(None, true), pleb(Some(3), false)];
    assert_eq!(next_group_id(&plebs), 2);
    let gid = form_group(&mut plebs, &[1, 2, 99]);
    assert_eq!(gid, 2);
    assert_eq!(plebs[1].group_id, Some(2));
    assert_eq!(plebs[2].group_id, Some(2));
    assert_eq!(plebs[0].group_id, Some(1));
    assert!(in_same_flock(&plebs[1], &plebs[2]));
    assert!(!in_same_flock(&plebs[0], &plebs[1]));
    dissolve_group(&mut plebs, 2);
    assert!(plebs.iter().all(|p| p.group_id != Some(2)));
    assert_eq!(plebs[3].group_id, Some(3));
    set_group(&mut plebs[0], Some(7));
    assert_eq!(plebs[0].group_id, Some(7));
    leave_group(&mut plebs[0]);
    assert_eq!(plebs[0].group_id, None);
    assert_eq!(next_group_id(&[]), 1);
}

#[test]
fn drafted_ungrouped_colonists_flock_together() {
    let a = pleb(None, true);
    let b = pleb(None, true);
    let c = pleb(None, false);
    let mut enemy = pleb(None, true);
    enemy.is_enemy = true;
    assert!(in_same_flock(&a, &b));
    assert!(!in_same_flock(&a, &c));
    assert!(!in_same_flock(&a, &enemy));
}

#[test]
fn xorshift_first_values() {
    let mut r = Xorshift32::new(0);
    assert_eq!(r.next_u32(), 270369);
    let mut s = Xorshift32::new(1);
    assert_eq!(s.next_u32(), 270369);
    let mut t = Xorshift32::new(12345);
    for _ in 0..1000 {
        assert_ne!(t.next_u32(), 0);
    }
}

#[test]
fn burned_blocks_are_replaced() {
    assert_eq!(burn_replacement_pub(BT_WOOD_WALL), BT_AIR);
    assert_eq!(burn_replacement_pub(BT_BED), BT_AIR);
    assert_eq!(burn_replacement_pub(BT_TREE), BT_DIRT);
    assert_eq!(burn_replacement_pub(BT_WOOD_FLOOR), BT_DIRT);
    assert_eq!(burn_replacement_pub(BT_STONE), BT_DIRT);
}

#[test]
fn card_colours() {
    assert_eq!(CardType::Person.border_color(), (170, 140, 80));
    assert_eq!(CardType::Trade.ribbon_color(), (55, 155, 45));
}

#[test]
fn block_classes() {
    assert!(is_wall_block(BT_WALL));
    assert!(is_wall_block(BT_GRANITE));
    assert!(!is_wall_block(BT_TREE));
    assert!(is_ground_block(BT_GROUND));
    assert!(!is_ground_block(BT_WALL));
    assert!(is_wire_block(BT_WIRE));
    assert!(!is_wire_block(BT_GROUND));
    let b = make_block(4, 3, 2) | (9u32 << 24);
    assert_eq!(extract_roof_data(b), (2, 9u32 << 24));
}

#[test]
fn wgsl_constants_text() {
    let s = wgsl_block_constants();
    assert!(s.starts_with("// --- Block type constants (generated from grid.rs) ---\nconst BT_AIR: u32 = 0u;\n"));
    assert!(s.contains("const BT_WALL: u32 = 4u;\n"));
    assert!(s.contains("const BT_LIQUID_OUTPUT: u32 = 54u;\n"));
    assert!(s.ends_with("u;\n\n"));
    assert_eq!(s.lines().filter(|l| l.starts_with("const BT_")).count(), 76);
}

#[test]
fn sample_buildings_layout() {
    let mut grid = ground();
    let mut wd = vec![0u16; grid.len()];
    generate_sample_buildings_wd(&mut grid, &mut wd);
    assert_eq!(grid[idx(252, 256)], make_block(BT_FIREPLACE as u8, 5, 2));
    assert_eq!(grid[idx(256, 256)], make_block(BT_WOOD_FLOOR as u8, 0, 2));
    assert_eq!(grid[idx(10, 10)], make_block(BT_GROUND as u8, 0, 0));
    assert_ne!(wd_edges(wd[idx(256, 251)]) & WD_EDGE_N, 0);
    assert_eq!(wd[idx(10, 10)], 0);

    let mut grid2 = ground();
    generate_sample_buildings(&mut grid2);
    assert_eq!(grid2, grid);

    compute_roof_heights_wd(&mut grid, &wd);
    assert!(roof_height_rs(grid[idx(256, 256)]) > 0);
    assert_eq!(grid[idx(256, 256)] & 0x00FF_FFFF, make_block(BT_WOOD_FLOOR as u8, 0, 2));
    assert_eq!(roof_height_rs(grid[idx(10, 10)]), 0);
}
