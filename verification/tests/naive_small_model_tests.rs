use rayworld::fire::burn_replacement_pub;
use rayworld::grid::{
    block_flags_rs, block_height_raw, block_height_rs, block_type_rs, is_conductor_rs,
    is_ground_block, is_wall_block, is_wire_block, make_block, BT_AIR, BT_BATTERY_L, BT_BATTERY_M, BT_BATTERY_S, BT_BED, BT_BENCH, BT_BERRY_BUSH, BT_BREAKER, BT_CEILING_LIGHT, BT_CONCRETE_FLOOR, BT_CRATE, BT_CROP, BT_DIAGONAL, BT_DIMMER, BT_DIRT, BT_DUG_GROUND, BT_FAN, BT_FLOODLIGHT, BT_FLOOR_LAMP, BT_GLASS, BT_GRANITE, BT_GROUND, BT_INSULATED, BT_LIMESTONE, BT_LOW_WALL, BT_MUD_WALL, BT_PUMP, BT_ROUGH_FLOOR, BT_SANDSTONE, BT_SOLAR, BT_STEEL_WALL, BT_STONE, BT_STONE_FLOOR, BT_SWITCH, BT_TABLE_LAMP, BT_TREE, BT_WALL, BT_WALL_LAMP, BT_WATER, BT_WIND_TURBINE, BT_WIRE, BT_WIRE_BRIDGE, BT_WOOD_FLOOR, BT_WOOD_WALL,
};
use rayworld::mining::{rock_hardness, ROCK_BASALT, ROCK_CHALK, ROCK_GRANITE, ROCK_LIMESTONE, ROCK_SANDSTONE};
use rayworld::terrain::{
    pack_terrain, terrain_add_compaction, terrain_add_dig_hole, terrain_decay_compaction,
    terrain_remove_dig_hole,
};
use rayworld::thin_walls::{
    edge_to_mask, has_wall_on_edge, make_thin_wall_corner_flags, make_thin_wall_flags,
    thin_wall_is_walkable, wall_edge_mask,
};
use rayworld::walls::{
    pack_wall_data, wall_block_to_material, wd_blocks_movement, wd_edges, wd_first_edge,
    wd_has_edge, wd_thickness, wd_thickness_raw, WD_DOOR_OPEN, WD_EDGE_E, WD_EDGE_MASK, WD_EDGE_N, WD_EDGE_S, WD_HAS_DOOR, WD_MAT_SHIFT, WD_THICK_SHIFT, WMAT_GENERIC, WMAT_GLASS, WMAT_GRANITE, WMAT_INSULATED, WMAT_LIMESTONE, WMAT_MUD, WMAT_SANDSTONE, WMAT_STEEL, WMAT_STONE, WMAT_WOOD,
};

#[test]
fn block_classes_match_naive_model() {
    for bt in 0u32..300 {
        assert_eq!(is_wall_block(bt), naive_is_wall_block(bt), "{}", bt);
        assert_eq!(is_ground_block(bt), naive_is_ground_block(bt), "{}", bt);
        assert_eq!(is_wire_block(bt), naive_is_wire_block(bt), "{}", bt);
        assert_eq!(wall_block_to_material(bt), naive_wall_block_to_material(bt), "{}", bt);
        assert_eq!(burn_replacement_pub(bt), naive_burn_replacement(bt), "{}", bt);
        for flags in [0u8, 1, 0x7F, 0x80, 0xFF] {
            assert_eq!(is_conductor_rs(bt, flags), naive_is_conductor_rs(bt, flags));
        }
    }
    for rt in 0u8..=255 {
        assert_eq!(rock_hardness(rt), naive_rock_hardness(rt));
    }
}

#[test]
fn block_words_match_naive_model() {
    for bt in 0u8..80 {
        for h in 0u8..=255 {
            for flags in [0u8, 1, 2, 4, 5, 0x20, 0x40, 0x60, 0x61, 0x65, 0xFF] {
                let b = make_block(bt, h, flags) | (7u32 << 24);
                assert_eq!(block_height_rs(b), naive_block_height_rs(b));
                assert_eq!(thin_wall_is_walkable(b), naive_thin_wall_is_walkable(b));
            }
        }
    }
}

#[test]
fn thin_wall_bytes_match_naive_model() {
    for h in 0u8..=255 {
        for flags in 0u8..=255 {
            for edge in 0u8..6 {
                assert_eq!(has_wall_on_edge(h, flags, edge), naive_has_wall_on_edge(h, flags, edge));
            }
        }
    }
    for roof in [0u8, 2] {
        for edge in 0u8..255 {
            for thickness in 0u8..8 {
                assert_eq!(make_thin_wall_flags(roof, edge, thickness), naive_make_thin_wall_flags(roof, edge, thickness));
                assert_eq!(
                    make_thin_wall_corner_flags(roof, edge, thickness),
                    naive_make_thin_wall_corner_flags(roof, edge, thickness)
                );
            }
        }
    }
}

#[test]
fn wall_data_words_match_naive_model() {
    for wd in 0u16..=u16::MAX {
        for edge in 0u8..16 {
            assert_eq!(wd_has_edge(wd, edge), naive_wd_has_edge(wd, edge));
        }
        assert_eq!(wd_blocks_movement(wd, false), naive_wd_blocks_movement(wd, false));
        assert_eq!(wd_blocks_movement(wd, true), naive_wd_blocks_movement(wd, true));
        if wd & 0xF != 0 {
            assert_eq!(wd_first_edge(wd), naive_wd_first_edge(wd));
        } else {
            assert_eq!(wd_first_edge(wd), 0);
        }
    }
    for edges in 0u16..32 {
        for thickness in 0u16..8 {
            for material in [0u16, 1, 9, 15, 16, 300] {
                assert_eq!(pack_wall_data(edges, thickness, material), naive_pack_wall_data(edges, thickness, material));
            }
        }
    }
}

#[test]
fn terrain_words_match_naive_model() {
    let mut t0 = 0x1234_5678u32;
    for step in 0..20000u32 {
        t0 = t0.wrapping_mul(1664525).wrapping_add(1013904223);
        let (mut a, mut b) = (t0, t0);
        let amount = step % 40;
        terrain_add_compaction(&mut a, amount);
        naive_terrain_add_compaction(&mut b, amount);
        assert_eq!(a, b);
        terrain_decay_compaction(&mut a);
        naive_terrain_decay_compaction(&mut b);
        assert_eq!(a, b);
        terrain_add_dig_hole(&mut a);
        naive_terrain_add_dig_hole(&mut b);
        assert_eq!(a, b);
        terrain_remove_dig_hole(&mut a);
        naive_terrain_remove_dig_hole(&mut b);
        assert_eq!(a, b);
        let f = |s: u32| (t0 >> s) & 0x3F;
        assert_eq!(
            pack_terrain(f(0), f(3), f(6), f(9), f(12), f(15)),
            naive_pack_terrain(f(0), f(3), f(6), f(9), f(12), f(15))
        );
    }
}

fn naive_block_height_rs(b: u32) -> u8 {
    let h = ((b >> 8) & 0xFF) as u8;
    let bt = block_type_rs(b);
    if naive_is_wall_block(bt) { h & 0x0F } else { h }
}

fn naive_wall_block_to_material(bt: u32) -> u16 {
    match bt {
        BT_STONE => WMAT_STONE,
        BT_WALL => WMAT_GENERIC,
        BT_GLASS => WMAT_GLASS,
        BT_INSULATED => WMAT_INSULATED,
        BT_WOOD_WALL => WMAT_WOOD,
        BT_STEEL_WALL => WMAT_STEEL,
        BT_SANDSTONE => WMAT_SANDSTONE,
        BT_GRANITE => WMAT_GRANITE,
        BT_LIMESTONE => WMAT_LIMESTONE,
        BT_MUD_WALL | BT_LOW_WALL => WMAT_MUD,
        _ => WMAT_GENERIC,
    }
}

fn naive_pack_wall_data(edges: u16, thickness: u16, material: u16) -> u16 {
    (edges & WD_EDGE_MASK)
        | ((4u16.saturating_sub(thickness) & 3) << WD_THICK_SHIFT)
        | ((material & 0xF) << WD_MAT_SHIFT)
}

fn naive_wd_has_edge(wd: u16, edge: u8) -> bool {
    if wd == 0 {
        return false;
    }
    let edges = wd_edges(wd);
    if edges == 0 && wd_thickness_raw(wd) == 0 {
        return true;
    } // full wall compat
    (edges & (1 << edge)) != 0
}

fn naive_wd_first_edge(wd: u16) -> u8 {
    let edges = wd_edges(wd);
    if edges & WD_EDGE_N != 0 {
        0
    } else if edges & WD_EDGE_E != 0 {
        1
    } else if edges & WD_EDGE_S != 0 {
        2
    } else {
        3
    }
}

fn naive_wd_blocks_movement(wd: u16, doors_passable: bool) -> bool {
    let edges = wd_edges(wd);
    if edges == 0 {
        return false;
    }
    let has_door = (wd & WD_HAS_DOOR) != 0;
    if has_door && doors_passable {
        return false;
    }
    if has_door && (wd & WD_DOOR_OPEN) != 0 {
        return false;
    }
    edges == 0xF || wd_thickness(wd) >= 4
}

fn naive_make_thin_wall_flags(roof_flag: u8, edge: u8, thickness: u8) -> (u8, u8) {
    let thick_bits = 4u8.saturating_sub(thickness);
    let flags = roof_flag | ((thick_bits & 3) << 5);
    let edge_mask = edge_to_mask(edge);
    (flags, edge_mask)
}

fn naive_make_thin_wall_corner_flags(roof_flag: u8, edge: u8, thickness: u8) -> (u8, u8) {
    let thick_bits = 4u8.saturating_sub(thickness);
    let flags = roof_flag | ((thick_bits & 3) << 5);
    let edge_mask = edge_to_mask(edge) | edge_to_mask((edge + 1) & 3);
    (flags, edge_mask)
}

fn naive_has_wall_on_edge(height_byte: u8, flags: u8, edge: u8) -> bool {
    let thick_raw = (flags >> 5) & 3;
    if thick_raw == 0 {
        return true; // full wall, blocks all edges
    }
    let edge_mask = wall_edge_mask(height_byte);
    if edge_mask == 0 {
        return true; // no edges set = full wall (backward compat)
    }
    (edge_mask & edge_to_mask(edge)) != 0
}

fn naive_thin_wall_is_walkable(block: u32) -> bool {
    let flags = block_flags_rs(block);
    let thick_raw = (flags >> 5) & 3;
    let height_raw = block_height_raw(block);
    let edge_mask = wall_edge_mask(height_raw);
    thick_raw != 0 && edge_mask != 0
}

fn naive_is_conductor_rs(bt: u32, flags: u8) -> bool {
    (bt == BT_WIRE || bt == BT_SOLAR || bt == BT_BATTERY_S || bt == BT_BATTERY_M || bt == BT_BATTERY_L || bt == BT_WIND_TURBINE || bt == BT_SWITCH || bt == BT_DIMMER || bt == BT_BREAKER || bt == BT_FLOODLIGHT || bt == BT_WIRE_BRIDGE || bt == BT_WALL_LAMP || bt == BT_CEILING_LIGHT || bt == BT_FLOOR_LAMP || bt == BT_TABLE_LAMP || bt == BT_FAN || bt == BT_PUMP) || (flags & 0x80) != 0
}

fn naive_is_ground_block(bt: u32) -> bool {
    (bt == BT_AIR || bt == BT_GROUND || bt == BT_WATER || bt == BT_WOOD_FLOOR || bt == BT_STONE_FLOOR || bt == BT_CONCRETE_FLOOR || bt == BT_ROUGH_FLOOR || bt == BT_DUG_GROUND)
}

fn naive_is_wall_block(bt: u32) -> bool {
    (bt == BT_STONE || bt == BT_WALL || bt == BT_GLASS || bt == BT_INSULATED || bt == BT_WOOD_WALL || bt == BT_STEEL_WALL || bt == BT_SANDSTONE || bt == BT_GRANITE || bt == BT_LIMESTONE || bt == BT_MUD_WALL || bt == BT_DIAGONAL || bt == BT_LOW_WALL)
}

fn naive_is_wire_block(bt: u32) -> bool {
    (bt == BT_WIRE || bt == BT_DIMMER || bt == BT_SWITCH || bt == BT_BREAKER || bt == BT_WIRE_BRIDGE)
}

fn naive_pack_terrain(
    terrain_type: u32,
    vegetation: u32,
    grain: u32,
    roughness: u32,
    richness: u32,
    moisture_ret: u32,
) -> u32 {
    (terrain_type & 0xF)
        | ((vegetation & 0x1F) << 4)
        | ((grain & 0xF) << 9)
        | ((roughness & 0x3) << 13)
        | ((richness & 0x1F) << 15)
        | ((moisture_ret & 0xF) << 20)
}

fn naive_terrain_add_compaction(t: &mut u32, amount: u32) {
    let cur = (*t >> 24) & 0x1F;
    let new = (cur + amount).min(31);
    *t = (*t & 0xE0FFFFFF) | (new << 24);
}

fn naive_terrain_decay_compaction(t: &mut u32) {
    let cur = (*t >> 24) & 0x1F;
    if cur > 0 {
        *t = (*t & 0xE0FFFFFF) | ((cur - 1) << 24);
    }
}

fn naive_terrain_add_dig_hole(t: &mut u32) {
    let cur = (*t >> 29) & 0x7;
    if cur < 7 {
        *t = (*t & 0x1FFFFFFF) | ((cur + 1) << 29);
    }
}

fn naive_terrain_remove_dig_hole(t: &mut u32) {
    let cur = (*t >> 29) & 0x7;
    if cur > 0 {
        *t = (*t & 0x1FFFFFFF) | ((cur - 1) << 29);
    }
}

fn naive_burn_replacement(bt: u32) -> u32 {
    match bt {
        BT_WOOD_WALL => BT_AIR,                       // wall collapses
        BT_BENCH | BT_BED | BT_CRATE => BT_AIR,       // furniture gone
        BT_TREE | BT_BERRY_BUSH | BT_CROP => BT_DIRT, // charred ground
        BT_WOOD_FLOOR | BT_ROUGH_FLOOR => BT_DIRT,    // exposed dirt beneath
        _ => BT_DIRT,
    }
}

fn naive_rock_hardness(rock_type: u8) -> u8 {
    match rock_type {
        ROCK_CHALK => 2,
        ROCK_SANDSTONE => 4,
        ROCK_LIMESTONE => 5,
        ROCK_GRANITE => 8,
        ROCK_BASALT => 10,
        _ => 5,
    }
}

