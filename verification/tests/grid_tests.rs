use rayworld::grid::{
    block_flags_rs, block_height_raw, block_height_rs, block_type_rs, is_conductor_rs, is_door_rs,
    make_block, roof_height_rs, BT_AIR, BT_BREAKER, BT_CONCRETE_FLOOR, BT_DIMMER, BT_DUG_GROUND,
    BT_GROUND, BT_INLET, BT_LIQUID_INTAKE, BT_LIQUID_OUTPUT, BT_LIQUID_PIPE, BT_LIQUID_PUMP,
    BT_OUTLET, BT_PIPE, BT_PIPE_BRIDGE, BT_PUMP, BT_RESTRICTOR, BT_STONE, BT_STONE_FLOOR,
    BT_SWITCH, BT_TANK, BT_VALVE, BT_WALL, BT_WATER, BT_WIRE, BT_WOOD_FLOOR, GRID_H, GRID_W,
};
use rayworld::materials::NUM_MATERIALS;
use rayworld::roof::compute_roof_heights;
use rayworld::thin_walls::{
    edge_blocked, has_wall_on_edge, make_thin_wall_flags, make_wall_height, thin_wall_is_walkable,
    wall_edge_mask, WALL_EDGE_E, WALL_EDGE_N, WALL_EDGE_S, WALL_EDGE_W,
};

#[test]
fn test_make_block_roundtrip() {
    for bt in [0u8, 1, 5, 8, 13, 29, 255] {
        for h in [0u8, 1, 3, 5, 128, 255] {
            for f in [0u8, 1, 2, 4, 7, 63] {
                let block = make_block(bt, h, f);
                assert_eq!(block_type_rs(block), bt as u32, "type mismatch for ({bt},{h},{f})");
                assert_eq!(block_height_raw(block), h, "height mismatch for ({bt},{h},{f})");
                assert_eq!(block_flags_rs(block), f, "flags mismatch for ({bt},{h},{f})");
            }
        }
    }
}

#[test]
fn test_block_flags() {
    let door_closed = make_block(4, 1, 1);
    assert!(is_door_rs(door_closed));
    assert_eq!(block_flags_rs(door_closed) & 4, 0);

    let door_open = make_block(4, 1, 1 | 4);
    assert!(is_door_rs(door_open));
    assert_ne!(block_flags_rs(door_open) & 4, 0);

    let wall = make_block(1, 3, 0);
    assert!(!is_door_rs(wall));

    let roofed = make_block(2, 0, 2);
    assert_eq!(block_flags_rs(roofed) & 2, 2);
}

#[test]
fn test_roof_height_stored_in_upper_byte() {
    let mut block = make_block(2, 0, 2);
    block = (block & 0x00FFFFFF) | (5u32 << 24);
    assert_eq!(roof_height_rs(block), 5);
    assert_eq!(block_type_rs(block), 2);
    assert_eq!(block_height_rs(block), 0);
    assert_eq!(block_flags_rs(block), 2);
}

#[test]
fn test_compute_roof_heights_simple_room() {
    let mut grid = vec![make_block(2, 0, 0); (GRID_W * GRID_H) as usize];
    let w = GRID_W;
    for x in 10..14 {
        grid[(10 * w + x) as usize] = make_block(1, 3, 0);
        grid[(13 * w + x) as usize] = make_block(1, 3, 0);
    }
    for y in 10..14 {
        grid[(y * w + 10) as usize] = make_block(1, 3, 0);
        grid[(y * w + 13) as usize] = make_block(1, 3, 0);
    }
    for y in 11..13 {
        for x in 11..13 {
            grid[(y * w + x) as usize] = make_block(2, 0, 2);
        }
    }

    compute_roof_heights(&mut grid);

    let interior = grid[(11 * w + 11) as usize];
    assert_eq!(roof_height_rs(interior), 3, "interior should have roof height 3");
    let wall = grid[(10 * w + 11) as usize];
    assert_eq!(roof_height_rs(wall), 3, "wall should have roof height 3");
    let outdoor = grid[(5 * w + 5) as usize];
    assert_eq!(roof_height_rs(outdoor), 0, "outdoor should have roof height 0");
}

#[test]
fn test_pipe_connection_mask_encoding() {
    let h_pipe = make_block(15, 1 | 0x20 | 0x80, 0);
    assert_eq!(block_type_rs(h_pipe), 15);
    let h_mask = (block_height_rs(h_pipe) >> 4) & 0xF;
    assert_eq!(h_mask & 0x2, 0x2, "should connect E");
    assert_eq!(h_mask & 0x8, 0x8, "should connect W");
    assert_eq!(h_mask & 0x1, 0x0, "should NOT connect N");
    assert_eq!(h_mask & 0x4, 0x0, "should NOT connect S");

    let v_pipe = make_block(15, 1 | 0x10 | 0x40, 0);
    let v_mask = (block_height_rs(v_pipe) >> 4) & 0xF;
    assert_eq!(v_mask & 0x1, 0x1, "should connect N");
    assert_eq!(v_mask & 0x4, 0x4, "should connect S");
    assert_eq!(v_mask & 0x2, 0x0, "should NOT connect E");
    assert_eq!(v_mask & 0x8, 0x0, "should NOT connect W");

    let c_pipe = make_block(15, 1 | 0x10 | 0x20, 0);
    let c_mask = (block_height_rs(c_pipe) >> 4) & 0xF;
    assert_eq!(c_mask & 0x1, 0x1, "should connect N");
    assert_eq!(c_mask & 0x2, 0x2, "should connect E");
    assert_eq!(c_mask & 0x4, 0x0, "should NOT connect S");
    assert_eq!(c_mask & 0x8, 0x0, "should NOT connect W");

    let h_wire = make_block(36, 0 | 0x20 | 0x80, 0);
    assert_eq!(block_type_rs(h_wire), 36);
    let w_mask = (block_height_rs(h_wire) >> 4) & 0xF;
    assert_eq!(w_mask & 0x2, 0x2, "wire should connect E");
    assert_eq!(w_mask & 0x8, 0x8, "wire should connect W");
    assert_eq!(w_mask & 0x1, 0x0, "wire should NOT connect N");

    let legacy = make_block(15, 1, 0);
    let l_mask = (block_height_rs(legacy) >> 4) & 0xF;
    assert_eq!(l_mask, 0, "legacy pipe should have mask=0 (auto-detect)");

    let all = make_block(36, 0xF0, 0);
    let a_mask = (block_height_rs(all) >> 4) & 0xF;
    assert_eq!(a_mask, 0xF, "all-direction should have mask=15");
}

/// Can block type `place_id` be placed on a tile holding `existing_bt`?
fn can_place_on_block(place_id: u8, existing_bt: u32, existing_h: u8) -> bool {
    let empty_ground = existing_h == 0
        && (existing_bt == BT_AIR
            || existing_bt == BT_GROUND
            || existing_bt == BT_WOOD_FLOOR
            || existing_bt == BT_STONE_FLOOR
            || existing_bt == BT_CONCRETE_FLOOR);
    let pid = place_id as u32;
    empty_ground
        || (pid == BT_WIRE && existing_bt != BT_WIRE)
        || (pid == BT_PIPE && (existing_bt == BT_PIPE || existing_bt == BT_PIPE_BRIDGE))
        || (pid == BT_RESTRICTOR
            && (existing_bt == BT_PIPE || existing_bt == BT_RESTRICTOR || existing_bt == BT_PIPE_BRIDGE))
        || (pid == BT_LIQUID_PIPE && (existing_bt == BT_LIQUID_PIPE || existing_bt == BT_PIPE_BRIDGE))
        || (pid == BT_PUMP && existing_bt == BT_PIPE)
        || ((pid == BT_SWITCH || pid == BT_DIMMER || pid == BT_BREAKER)
            && (existing_bt == BT_WIRE || existing_bt == BT_AIR || existing_bt == BT_GROUND))
}

#[test]
fn test_all_block_ids_valid() {
    let max_id = 54u32;
    for id in 0..=max_id {
        assert!(
            id < NUM_MATERIALS as u32,
            "Block ID {} exceeds NUM_MATERIALS ({})",
            id,
            NUM_MATERIALS
        );
    }
}

#[test]
fn test_pipe_placeable_on_ground() {
    assert!(can_place_on_block(BT_PIPE as u8, BT_GROUND, 0));
    assert!(can_place_on_block(BT_LIQUID_PIPE as u8, BT_GROUND, 0));
    assert!(can_place_on_block(BT_RESTRICTOR as u8, BT_GROUND, 0));
}

#[test]
fn test_pipe_placeable_on_existing_pipe() {
    assert!(can_place_on_block(BT_PIPE as u8, BT_PIPE, 1));
    assert!(can_place_on_block(BT_RESTRICTOR as u8, BT_PIPE, 1));
    assert!(can_place_on_block(BT_LIQUID_PIPE as u8, BT_LIQUID_PIPE, 1));
}

#[test]
fn test_pipe_not_cross_connect() {
    assert!(!can_place_on_block(BT_PIPE as u8, BT_LIQUID_PIPE, 1));
    assert!(!can_place_on_block(BT_LIQUID_PIPE as u8, BT_PIPE, 1));
}

#[test]
fn test_wire_placeable_anywhere() {
    assert!(can_place_on_block(BT_WIRE as u8, BT_GROUND, 0));
    assert!(can_place_on_block(BT_WIRE as u8, BT_STONE, 3));
    assert!(can_place_on_block(BT_WIRE as u8, BT_PIPE, 1));
    assert!(!can_place_on_block(BT_WIRE as u8, BT_WIRE, 0));
}

#[test]
fn test_power_equipment_on_wire_or_ground() {
    for &id in &[BT_SWITCH, BT_DIMMER, BT_BREAKER] {
        assert!(can_place_on_block(id as u8, BT_WIRE, 0), "ID {} should place on wire", id);
        assert!(can_place_on_block(id as u8, BT_GROUND, 0), "ID {} should place on ground", id);
    }
}

#[test]
fn test_pump_on_pipe() {
    assert!(can_place_on_block(BT_PUMP as u8, BT_PIPE, 1));
    assert!(can_place_on_block(BT_PUMP as u8, BT_GROUND, 0));
}

#[test]
fn test_liquid_intake_on_water_or_dug() {
    let dug = make_block(BT_DUG_GROUND as u8, 1, 0);
    let water = make_block(BT_WATER as u8, 0, 0);
    let dirt = make_block(BT_GROUND as u8, 0, 0);
    assert_eq!(block_type_rs(dug), BT_DUG_GROUND);
    assert_eq!(block_type_rs(water), BT_WATER);
    assert_eq!(block_type_rs(dirt), BT_GROUND);
}

#[test]
fn test_is_conductor_includes_all_power_blocks() {
    let power_ids: &[u32] = &[36, 37, 38, 39, 40, 41, 42, 43, 45, 48, 51, 7, 10, 11, 12, 16];
    for &id in power_ids {
        assert!(is_conductor_rs(id, 0), "Block type {} should be a conductor", id);
    }
    assert!(is_conductor_rs(1, 0x80), "Wall with wire overlay should be conductor");
    assert!(!is_conductor_rs(2, 0), "Dirt should not be conductor");
    assert!(!is_conductor_rs(15, 0), "Pipe should not be conductor");
}

#[test]
fn test_bridge_connects_to_gas_pipes() {
    assert!(
        can_place_on_block(BT_PIPE as u8, BT_PIPE_BRIDGE, 1),
        "Gas pipe should be placeable on bridge"
    );
    assert!(
        can_place_on_block(BT_RESTRICTOR as u8, BT_PIPE_BRIDGE, 1),
        "Restrictor should be placeable on bridge"
    );
}

#[test]
fn test_bridge_connects_to_liquid_pipes() {
    assert!(
        can_place_on_block(BT_LIQUID_PIPE as u8, BT_PIPE_BRIDGE, 1),
        "Liquid pipe should be placeable on bridge"
    );
}

/// Intake tile assignment: (ground index, water index), or `None` when invalid.
fn intake_valid(bt0: u32, bh0: u8, bt1: u32, bh1: u8) -> Option<(usize, usize)> {
    let is_ground = |bt: u32, bh: u8| {
        bh == 0
            && (bt == BT_AIR
                || bt == BT_GROUND
                || bt == BT_WOOD_FLOOR
                || bt == BT_STONE_FLOOR
                || bt == BT_CONCRETE_FLOOR)
    };
    let is_water = |bt: u32| bt == BT_WATER || bt == BT_DUG_GROUND;
    if is_ground(bt0, bh0) && is_water(bt1) {
        Some((0, 1))
    } else if is_water(bt0) && is_ground(bt1, bh1) {
        Some((1, 0))
    } else {
        None
    }
}

#[test]
fn test_liquid_intake_ground_plus_water() {
    assert!(intake_valid(BT_GROUND, 0, BT_WATER, 0).is_some());
    assert!(intake_valid(BT_GROUND, 0, BT_DUG_GROUND, 1).is_some());
}

#[test]
fn test_liquid_intake_water_plus_ground() {
    let r = intake_valid(BT_WATER, 0, BT_GROUND, 0);
    assert!(r.is_some());
    assert_eq!(r.unwrap(), (1, 0), "ground should be index 1, water index 0");
}

#[test]
fn test_liquid_intake_both_ground_invalid() {
    assert!(intake_valid(BT_GROUND, 0, BT_GROUND, 0).is_none());
}

#[test]
fn test_liquid_intake_both_water_invalid() {
    assert!(intake_valid(BT_WATER, 0, BT_WATER, 0).is_none());
}

#[test]
fn test_liquid_intake_wall_invalid() {
    assert!(intake_valid(BT_STONE, 3, BT_WATER, 0).is_none());
}

fn is_any_pipe(bt: u32) -> bool {
    (bt >= 15 && bt <= 20)
        || bt == BT_RESTRICTOR
        || bt == BT_LIQUID_PIPE
        || bt == BT_PIPE_BRIDGE
        || bt == BT_LIQUID_INTAKE
        || bt == BT_LIQUID_PUMP
        || bt == BT_LIQUID_OUTPUT
}

#[test]
fn test_liquid_pipes_walkable() {
    let liquid_types: &[u32] = &[BT_LIQUID_PIPE, BT_LIQUID_INTAKE, BT_LIQUID_PUMP, BT_LIQUID_OUTPUT];
    for &bt in liquid_types {
        assert!(is_any_pipe(bt), "Block type {} should be walkable as a pipe", bt);
    }
}

#[test]
fn test_gas_pipe_types_walkable() {
    let gas_types: &[u32] = &[BT_PIPE, BT_PUMP, BT_TANK, BT_VALVE, BT_OUTLET, BT_INLET, BT_RESTRICTOR];
    for &bt in gas_types {
        assert!(is_any_pipe(bt), "Block type {} should be walkable as a pipe", bt);
    }
}

#[test]
fn test_num_materials_covers_all_blocks() {
    let highest = BT_LIQUID_OUTPUT;
    assert!(
        NUM_MATERIALS > highest as usize,
        "NUM_MATERIALS ({}) must be > highest block ID ({})",
        NUM_MATERIALS,
        highest
    );
}

#[test]
fn test_thin_wall_preserves_thickness() {
    let (flags, edge_mask) = make_thin_wall_flags(0, 0, 2);
    let block = make_block(BT_WALL as u8, make_wall_height(3, edge_mask), flags);
    assert_eq!(block_height_rs(block), 3, "visual height should be 3");
    assert_eq!(wall_edge_mask(block_height_raw(block)), WALL_EDGE_N as u8, "should have N edge only");
    let thick_raw = (block_flags_rs(block) >> 5) & 3;
    let thickness = if thick_raw == 0 { 4 } else { 4 - thick_raw };
    assert_eq!(thickness, 2, "thickness should be 2");
}

#[test]
fn test_thin_wall_corner_merge() {
    let (flags_n, mask_n) = make_thin_wall_flags(0, 0, 2);
    let (_flags_e, mask_e) = make_thin_wall_flags(0, 1, 2);
    let merged_mask = mask_n | mask_e;
    let height = make_wall_height(3, merged_mask);
    let block = make_block(BT_WALL as u8, height, flags_n);

    assert_eq!(block_height_rs(block), 3, "visual height should be 3");
    let raw = block_height_raw(block);
    assert!(has_wall_on_edge(raw, flags_n, 0), "should block N");
    assert!(has_wall_on_edge(raw, flags_n, 1), "should block E");
    assert!(!has_wall_on_edge(raw, flags_n, 2), "should NOT block S");
    assert!(!has_wall_on_edge(raw, flags_n, 3), "should NOT block W");

    let thick_raw = (flags_n >> 5) & 3;
    let thickness = if thick_raw == 0 { 4 } else { 4 - thick_raw };
    assert_eq!(thickness, 2, "thickness should remain 2 after merge");
}

#[test]
fn test_thin_wall_t_junction() {
    let mask = WALL_EDGE_N | WALL_EDGE_E | WALL_EDGE_S;
    let thick_bits: u8 = 4 - 1;
    let flags = (thick_bits & 3) << 5;
    let height = make_wall_height(3, mask);
    let block = make_block(BT_WALL as u8, height, flags);

    let raw = block_height_raw(block);
    assert!(has_wall_on_edge(raw, flags, 0), "T-junction should block N");
    assert!(has_wall_on_edge(raw, flags, 1), "T-junction should block E");
    assert!(has_wall_on_edge(raw, flags, 2), "T-junction should block S");
    assert!(!has_wall_on_edge(raw, flags, 3), "T-junction should NOT block W");
    assert_eq!(block_height_rs(block), 3, "visual height should be 3");
    assert!(thin_wall_is_walkable(block), "T-junction with thickness 1 should be walkable");
}

#[test]
fn test_thin_wall_cross_junction() {
    let mask = WALL_EDGE_N | WALL_EDGE_E | WALL_EDGE_S | WALL_EDGE_W;
    let thick_bits: u8 = 4 - 1;
    let flags = (thick_bits & 3) << 5;
    let height = make_wall_height(3, mask);
    let block = make_block(BT_WALL as u8, height, flags);

    let raw = block_height_raw(block);
    assert!(has_wall_on_edge(raw, flags, 0), "cross should block N");
    assert!(has_wall_on_edge(raw, flags, 1), "cross should block E");
    assert!(has_wall_on_edge(raw, flags, 2), "cross should block S");
    assert!(has_wall_on_edge(raw, flags, 3), "cross should block W");
    assert!(thin_wall_is_walkable(block), "cross with thickness 1 still has center open");
}

#[test]
fn test_edge_blocked_thin_wall_direction() {
    let mut grid = vec![make_block(BT_GROUND as u8, 0, 0); (GRID_W * GRID_H) as usize];
    let (flags, mask) = make_thin_wall_flags(0, 0, 2);
    grid[(5 * GRID_W + 5) as usize] = make_block(BT_WALL as u8, make_wall_height(3, mask), flags);

    assert!(edge_blocked(&grid, 5, 5, 5, 4), "N: should be blocked");
    assert!(!edge_blocked(&grid, 5, 5, 6, 5), "E: should NOT be blocked");
    assert!(!edge_blocked(&grid, 5, 5, 5, 6), "S: should NOT be blocked");
    assert!(!edge_blocked(&grid, 5, 5, 4, 5), "W: should NOT be blocked");
}

#[test]
fn test_edge_blocked_t_junction() {
    let mut grid = vec![make_block(BT_GROUND as u8, 0, 0); (GRID_W * GRID_H) as usize];
    let mask = WALL_EDGE_N | WALL_EDGE_E | WALL_EDGE_S;
    let thick_bits: u8 = 4 - 1;
    let flags = (thick_bits & 3) << 5;
    grid[(5 * GRID_W + 5) as usize] = make_block(BT_WALL as u8, make_wall_height(3, mask), flags);

    assert!(edge_blocked(&grid, 5, 5, 5, 4), "N: blocked by T-junction");
    assert!(edge_blocked(&grid, 5, 5, 6, 5), "E: blocked by T-junction");
    assert!(edge_blocked(&grid, 5, 5, 5, 6), "S: blocked by T-junction");
    assert!(!edge_blocked(&grid, 5, 5, 4, 5), "W: open in T-junction");
}
