use rayworld::fluid::build_obstacle_field;
use rayworld::fog::compute_fov;
use rayworld::buildings::generate_sample_buildings_wd;
use rayworld::grid::{
    block_flags_rs, block_height_raw, block_height_rs, block_type_rs, is_wall_block, make_block,
    GRID_H, GRID_W, BT_GROUND, BT_STONE, BT_WALL, BT_WOOD_WALL, BT_MUD_WALL, BT_BATTERY_S, BT_BED, BT_BENCH, BT_BERRY_BUSH, BT_BREAKER, BT_CAMPFIRE, BT_CANNON, BT_CEILING_LIGHT, BT_COMPOST, BT_CRATE, BT_CROP, BT_DIMMER, BT_FAN, BT_FIREPLACE, BT_FLOOR_LAMP, BT_GLASS, BT_INLET, BT_KILN, BT_LIQUID_INTAKE, BT_LIQUID_OUTPUT, BT_LIQUID_PIPE, BT_LIQUID_PUMP, BT_LOW_WALL, BT_OUTLET, BT_PIPE, BT_PIPE_BRIDGE, BT_PUMP, BT_RESTRICTOR, BT_SOLAR, BT_TABLE_LAMP, BT_TREE, BT_VALVE, BT_WALL_TORCH, BT_WELL, BT_WIRE, BT_WIRE_BRIDGE, BT_WOOD_FLOOR, BT_WORKBENCH,
};
use rayworld::roof::compute_roof_heights_wd;
use rayworld::thin_walls::{
    edge_blocked_wd, extract_wall_data_from_grid, has_wall_on_edge, thin_wall_is_walkable,
    wall_edge_mask,
};
use rayworld::walls::{
    pack_wall_data, wall_block_to_material, wd_edges, wd_has_edge, wd_height, WD_DOOR_OPEN, WD_EDGE_E, WD_EDGE_MASK, WD_EDGE_N, WD_EDGE_S, WD_EDGE_W, WD_HAS_DOOR, WD_HAS_WINDOW, WD_HEIGHT_SHIFT, WMAT_GENERIC, WMAT_GLASS, WMAT_STONE,
};


/// Small deterministic generator for test worlds.
struct Lcg(u64);

impl Lcg {
    fn next(&mut self) -> u32 {
        self.0 = self.0.wrapping_mul(6364136223846793005).wrapping_add(1442695040888963407);
        (self.0 >> 33) as u32
    }
    fn below(&mut self, n: u32) -> u32 {
        self.next() % n
    }
}

const BLOCK_KINDS: [u32; 18] = [
    BT_GROUND, BT_STONE, BT_WALL, BT_GLASS, BT_TREE, BT_WOOD_WALL, BT_LOW_WALL, BT_PIPE,
    BT_WIRE, BT_CRATE, BT_FIREPLACE, BT_BERRY_BUSH, BT_CROP, BT_MUD_WALL, BT_WOOD_FLOOR,
    BT_RESTRICTOR, BT_DIMMER, BT_LIQUID_PIPE,
];

/// A grid of random blocks: mostly bare ground, with walls (full and thin, some
/// doors), plants, furniture and pipes, some roofed.
fn random_grid(rng: &mut Lcg, density: u32) -> Vec<u32> {
    let n = (GRID_W * GRID_H) as usize;
    let mut grid = vec![make_block(BT_GROUND as u8, 0, 0); n];
    for b in grid.iter_mut() {
        if rng.below(100) >= density {
            if rng.below(4) == 0 {
                *b = make_block(BT_GROUND as u8, 0, 2);
            }
            continue;
        }
        let bt = BLOCK_KINDS[rng.below(BLOCK_KINDS.len() as u32) as usize];
        let h = rng.below(256) as u8;
        let flags = (rng.below(128) as u8) & 0x67;
        *b = make_block(bt as u8, h, flags) | (rng.below(4) << 24);
    }
    grid
}

/// A wall-data layer with random walls, doors and windows on some tiles.
fn random_wall_data(rng: &mut Lcg, density: u32) -> Vec<u16> {
    let n = (GRID_W * GRID_H) as usize;
    let mut wd = vec![0u16; n];
    for w in wd.iter_mut() {
        if rng.below(100) < density {
            *w = rng.next() as u16;
        }
    }
    wd
}

#[test]
fn wall_data_extraction_matches_naive_model() {
    let mut rng = Lcg(1);
    for _ in 0..3 {
        let grid = random_grid(&mut rng, 30);
        assert_eq!(extract_wall_data_from_grid(&grid), naive_extract_wall_data_from_grid(&grid));
    }
    let short = vec![make_block(BT_WALL as u8, 3, 0x21); 10];
    assert_eq!(extract_wall_data_from_grid(&short), naive_extract_wall_data_from_grid(&short));
}

#[test]
fn obstacle_field_matches_naive_model() {
    let mut rng = Lcg(2);
    for density in [10u32, 40] {
        let grid = random_grid(&mut rng, density);
        let wd = random_wall_data(&mut rng, density);
        assert_eq!(build_obstacle_field(&grid, &wd), naive_build_obstacle_field(&grid, &wd));
        assert_eq!(build_obstacle_field(&grid, &[]), naive_build_obstacle_field(&grid, &[]));
    }
    for len in [1usize, 2, 5, 9, 17, 1000, 4097] {
        let grid: Vec<u32> = (0..len).map(|_| {
            let bt = BLOCK_KINDS[rng.below(BLOCK_KINDS.len() as u32) as usize];
            make_block(bt as u8, rng.below(4) as u8, (rng.below(8) as u8) | 0x20)
        }).collect();
        let wd = random_wall_data(&mut rng, 20);
        assert_eq!(build_obstacle_field(&grid, &wd), naive_build_obstacle_field(&grid, &wd), "len {}", len);
    }
}

#[test]
fn edge_blocking_matches_naive_model() {
    let mut rng = Lcg(3);
    let grid = random_grid(&mut rng, 40);
    let wd = random_wall_data(&mut rng, 30);
    let empty: Vec<u16> = Vec::new();
    for _ in 0..20000 {
        let ax = rng.below(GRID_W + 4) as i32 - 2;
        let ay = rng.below(GRID_H + 4) as i32 - 2;
        let (dx, dy) = [(0, -1), (1, 0), (0, 1), (-1, 0)][rng.below(4) as usize];
        let (bx, by) = (ax + dx, ay + dy);
        assert_eq!(edge_blocked_wd(&grid, &wd, ax, ay, bx, by), naive_edge_blocked_wd(&grid, &wd, ax, ay, bx, by));
        assert_eq!(edge_blocked_wd(&grid, &empty, ax, ay, bx, by), naive_edge_blocked_wd(&grid, &empty, ax, ay, bx, by));
    }
}

#[test]
fn roof_heights_match_naive_model() {
    let mut rng = Lcg(4);
    for density in [5u32, 25] {
        let grid = random_grid(&mut rng, density);
        let wd = random_wall_data(&mut rng, density / 2);
        let mut a = grid.clone();
        let mut b = grid.clone();
        compute_roof_heights_wd(&mut a, &wd);
        naive_compute_roof_heights_wd(&mut b, &wd);
        assert_eq!(a, b);
        let mut c = grid.clone();
        let mut d = grid.clone();
        compute_roof_heights_wd(&mut c, &[]);
        naive_compute_roof_heights_wd(&mut d, &[]);
        assert_eq!(c, d);
    }
}

#[test]
fn sample_buildings_match_naive_model() {
    let mut rng = Lcg(5);
    let grid = random_grid(&mut rng, 20);
    let wd = random_wall_data(&mut rng, 20);
    let (mut g1, mut w1) = (grid.clone(), wd.clone());
    let (mut g2, mut w2) = (grid.clone(), wd.clone());
    generate_sample_buildings_wd(&mut g1, &mut w1);
    naive_generate_sample_buildings_wd(&mut g2, &mut w2);
    assert_eq!(g1, g2);
    assert_eq!(w1, w2);
    let n = (GRID_W * GRID_H) as usize;
    let (mut g3, mut w3) = (vec![0u32; n], vec![0u16; n]);
    let (mut g4, mut w4) = (vec![0u32; n], vec![0u16; n]);
    generate_sample_buildings_wd(&mut g3, &mut w3);
    naive_generate_sample_buildings_wd(&mut g4, &mut w4);
    assert_eq!(g3, g4);
    assert_eq!(w3, w4);
}

#[test]
fn field_of_view_matches_naive_model() {
    let mut rng = Lcg(6);
    let n = (GRID_W * GRID_H) as usize;
    let mut mismatches = 0usize;
    for density in [3u32, 15] {
        let grid = random_grid(&mut rng, density);
        let wd = random_wall_data(&mut rng, density / 3);
        for _ in 0..20 {
            let cx = rng.below(GRID_W + 20) as i32 - 10;
            let cy = rng.below(GRID_H + 20) as i32 - 10;
            let r = rng.below(30) as i32;
            let mut a = vec![0u8; n];
            let mut b = vec![0u8; n];
            compute_fov(&grid, &wd, &mut a, cx, cy, r);
            naive_compute_fov(&grid, &wd, &mut b, cx, cy, r);
            mismatches += a.iter().zip(b.iter()).filter(|(x, y)| x != y).count();
        }
    }
    assert_eq!(mismatches, 0);
}

fn naive_wd_edge_blocked_inner(
    wall_data: &[u16],
    ax: i32,
    ay: i32,
    bx: i32,
    by: i32,
    doors_passable: bool,
) -> bool {
    if wall_data.is_empty() {
        return false;
    }
    let dy = by - ay;
    let dx = bx - ax;
    let dir_a = if dy < 0 {
        0u8
    } else if dx > 0 {
        1
    } else if dy > 0 {
        2
    } else {
        3
    };
    let dir_b = (dir_a + 2) % 4;
    let gw = GRID_W as i32;
    let gh = GRID_H as i32;

    let blocks = |x: i32, y: i32, dir: u8| -> bool {
        if x < 0 || y < 0 || x >= gw || y >= gh {
            return false;
        }
        let idx = (y as u32 * GRID_W + x as u32) as usize;
        if idx >= wall_data.len() {
            return false;
        }
        let wd = wall_data[idx];
        if wd == 0 || !wd_has_edge(wd, dir) {
            return false;
        }
        let has_door = (wd & WD_HAS_DOOR) != 0;
        if has_door {
            if doors_passable {
                return false;
            }
            let is_open = (wd & WD_DOOR_OPEN) != 0;
            return !is_open;
        }
        true
    };

    blocks(ax, ay, dir_a) || blocks(bx, by, dir_b)
}

fn naive_edge_blocked_wd(
    grid: &[u32],
    wall_data: &[u16],
    ax: i32,
    ay: i32,
    bx: i32,
    by: i32,
) -> bool {
    if !wall_data.is_empty() && naive_wd_edge_blocked_inner(wall_data, ax, ay, bx, by, false) {
        return true;
    }
    naive_edge_blocked_grid(grid, ax, ay, bx, by)
}

fn naive_edge_blocked_grid(grid: &[u32], ax: i32, ay: i32, bx: i32, by: i32) -> bool {
    let dx = bx - ax;
    let dy = by - ay;
    let dir_from_a = if dy < 0 {
        0u8 // moving north
    } else if dx > 0 {
        1 // moving east
    } else if dy > 0 {
        2 // moving south
    } else {
        3 // moving west
    };
    let dir_from_b = (dir_from_a + 2) % 4; // opposite direction

    let gw = GRID_W as i32;
    let gh = GRID_H as i32;

    if ax >= 0 && ay >= 0 && ax < gw && ay < gh {
        let a_block = grid[(ay as u32 * GRID_W + ax as u32) as usize];
        let a_bt = block_type_rs(a_block);
        let a_flags = block_flags_rs(a_block);
        let a_height_raw = block_height_raw(a_block);
        let a_height = block_height_rs(a_block);
        if a_height > 0 && is_wall_block(a_bt) {
            let a_is_door = (a_flags & 1) != 0;
            let a_is_open = (a_flags & 4) != 0;
            if !(a_is_door && a_is_open) && has_wall_on_edge(a_height_raw, a_flags, dir_from_a) {
                return true;
            }
        }
    }

    if bx >= 0 && by >= 0 && bx < gw && by < gh {
        let b_block = grid[(by as u32 * GRID_W + bx as u32) as usize];
        let b_bt = block_type_rs(b_block);
        let b_flags = block_flags_rs(b_block);
        let b_height_raw = block_height_raw(b_block);
        let b_height = block_height_rs(b_block);
        if b_height > 0 && is_wall_block(b_bt) {
            let b_is_door = (b_flags & 1) != 0;
            let b_is_open = (b_flags & 4) != 0;
            if !(b_is_door && b_is_open) && has_wall_on_edge(b_height_raw, b_flags, dir_from_b) {
                return true;
            }
        }
    }

    false
}

fn naive_extract_wall_data_from_grid(grid: &[u32]) -> Vec<u16> {
    let size = (GRID_W * GRID_H) as usize;
    let mut wd = vec![0u16; size];
    for i in 0..size.min(grid.len()) {
        let block = grid[i];
        let bt = block_type_rs(block);
        if !is_wall_block(bt) {
            continue;
        }
        let h_raw = block_height_raw(block);
        let flags = block_flags_rs(block);
        let visual_h = block_height_rs(block);
        if visual_h == 0 {
            continue;
        } // no wall
        let edge_mask = wall_edge_mask(h_raw);
        let edges = if edge_mask == 0 {
            WD_EDGE_N | WD_EDGE_E | WD_EDGE_S | WD_EDGE_W
        } else {
            ((edge_mask >> 4) as u16) & WD_EDGE_MASK
        };
        let thick_raw = (flags >> 5) & 3;
        let thickness: u16 = if thick_raw == 0 {
            4
        } else {
            (4 - thick_raw) as u16
        };
        let material = wall_block_to_material(bt);
        let is_door = (flags & 1) != 0;
        let is_open = (flags & 4) != 0;

        let mut w = pack_wall_data(edges, thickness, material);
        let block_h = visual_h as u16;
        if block_h > 0 && block_h < 3 {
            w |= (block_h & 7) << WD_HEIGHT_SHIFT;
        }
        if is_door {
            w |= WD_HAS_DOOR;
        }
        if is_open {
            w |= WD_DOOR_OPEN;
        }
        if bt == BT_GLASS {
            w |= WD_HAS_WINDOW;
        }
        wd[i] = w;
    }
    wd
}

fn naive_compute_roof_heights_wd(grid: &mut [u32], wall_data: &[u16]) {
    let w = GRID_W as i32;
    let h = GRID_H as i32;

    let max_search = 20i32;

    let mut is_building = vec![false; grid.len()];
    for y in 0..h {
        for x in 0..w {
            let idx = (y * w + x) as usize;
            let block = grid[idx];
            let flags = block_flags_rs(block);
            let has_wd = idx < wall_data.len() && wd_edges(wall_data[idx]) != 0;

            if (flags & 2) != 0 {
                is_building[idx] = true;
            } else if (((block >> 8) & 0xFF > 0) && is_wall_block(block & 0xFF))
                || (flags & 1) != 0
                || has_wd
            {
                'outer: for dy in -1i32..=1 {
                    for dx in -1i32..=1 {
                        let nx = x + dx;
                        let ny = y + dy;
                        if nx >= 0 && ny >= 0 && nx < w && ny < h {
                            let nflags = (grid[(ny * w + nx) as usize] >> 16) & 0xFF;
                            if (nflags & 2) != 0 {
                                is_building[idx] = true;
                                break 'outer;
                            }
                        }
                    }
                }
            }
        }
    }

    if !wall_data.is_empty() {
        let dir_for_search: [(i32, i32, u8, u8); 4] = [
            (1, 0, 1, 3),  // search East: source E edge or dest W edge
            (-1, 0, 3, 1), // search West: source W edge or dest E edge
            (0, 1, 2, 0),  // search South: source S edge or dest N edge
            (0, -1, 0, 2), // search North: source N edge or dest S edge
        ];
        for y in 0..h {
            for x in 0..w {
                let idx = (y * w + x) as usize;
                if is_building[idx] {
                    continue;
                }
                if idx < wall_data.len() && wd_edges(wall_data[idx]) != 0 {
                    continue;
                }
                let mut walls_found = 0u8;
                for &(ddx, ddy, src_edge, dst_edge) in &dir_for_search {
                    for dist in 0..max_search {
                        let cx = x + ddx * dist;
                        let cy = y + ddy * dist;
                        let nx = cx + ddx;
                        let ny = cy + ddy;
                        if cx < 0 || cy < 0 || cx >= w || cy >= h {
                            break;
                        }
                        if nx < 0 || ny < 0 || nx >= w || ny >= h {
                            break;
                        }
                        let cidx = (cy * w + cx) as usize;
                        let nidx = (ny * w + nx) as usize;
                        let src_blocked = cidx < wall_data.len()
                            && wd_has_edge(wall_data[cidx], src_edge)
                            && wd_height(wall_data[cidx]) != 1
                            && wd_height(wall_data[cidx]) != 2;
                        let dst_blocked = nidx < wall_data.len()
                            && wd_has_edge(wall_data[nidx], dst_edge)
                            && wd_height(wall_data[nidx]) != 1
                            && wd_height(wall_data[nidx]) != 2;
                        if src_blocked || dst_blocked {
                            walls_found += 1;
                            break;
                        }
                        let nb = grid[nidx];
                        let nbh = ((nb >> 8) & 0xFF) as u8;
                        let nb_flags = ((nb >> 16) & 0xFF) as u8;
                        if nbh > 0 && (nb_flags & 2) == 0 {
                            let nbt = nb & 0xFF;
                            if is_wall_block(nbt) {
                                walls_found += 1;
                                break;
                            }
                        }
                    }
                }
                if walls_found >= 3 {
                    is_building[idx] = true;
                }
            }
        }
        for y in 0..h {
            for x in 0..w {
                let idx = (y * w + x) as usize;
                if is_building[idx] {
                    continue;
                }
                if idx >= wall_data.len() || wd_edges(wall_data[idx]) == 0 {
                    continue;
                }
                for dy2 in -1i32..=1 {
                    for dx2 in -1i32..=1 {
                        let nx = x + dx2;
                        let ny = y + dy2;
                        if nx >= 0
                            && ny >= 0
                            && nx < w
                            && ny < h
                            && is_building[(ny * w + nx) as usize]
                        {
                            is_building[idx] = true;
                            break;
                        }
                    }
                    if is_building[idx] {
                        break;
                    }
                }
            }
        }
    }

    for y in 0..h {
        for x in 0..w {
            let idx = (y * w + x) as usize;
            if !is_building[idx] {
                continue;
            }

            let mut max_h: u8 = 0;
            let dirs: [(i32, i32); 4] = [(1, 0), (-1, 0), (0, 1), (0, -1)];
            for &(ddx, ddy) in &dirs {
                for dist in 1..=max_search {
                    let nx = x + ddx * dist;
                    let ny = y + ddy * dist;
                    if nx < 0 || ny < 0 || nx >= w || ny >= h {
                        break;
                    }
                    let nidx = (ny * w + nx) as usize;
                    let nb = grid[nidx];
                    let nbh = ((nb >> 8) & 0xFF) as u8;
                    let nbt = (nb & 0xFF) as u8;
                    let nb_flags = ((nb >> 16) & 0xFF) as u8;
                    let skip = (nbt as u32 == BT_TREE || nbt as u32 == BT_FIREPLACE || nbt as u32 == BT_CAMPFIRE || nbt as u32 == BT_CEILING_LIGHT || nbt as u32 == BT_CRATE || nbt as u32 == BT_WIRE || nbt as u32 == BT_DIMMER || nbt as u32 == BT_RESTRICTOR || nbt as u32 == BT_LIQUID_PIPE || nbt as u32 == BT_PIPE_BRIDGE || nbt as u32 == BT_WIRE_BRIDGE || nbt as u32 == BT_LIQUID_INTAKE || nbt as u32 == BT_LIQUID_PUMP || nbt as u32 == BT_LIQUID_OUTPUT || nbt as u32 == BT_LOW_WALL);
                    let n_has_wd = nidx < wall_data.len() && wd_edges(wall_data[nidx]) != 0;
                    if n_has_wd && (nb_flags & 2) == 0 {
                        max_h = max_h.max(3);
                        break;
                    }
                    if nbh > 0 && (nb_flags & 2) == 0 && !skip {
                        max_h = max_h.max(nbh);
                        break; // found nearest wall in this direction
                    }
                    if !is_building[nidx] {
                        break;
                    }
                }
            }

            if max_h == 0 {
                max_h = 2; // fallback
            }

            grid[idx] = (grid[idx] & 0x00FFFFFF) | ((max_h as u32) << 24);
        }
    }
}

fn naive_generate_sample_buildings_wd(grid: &mut [u32], wall_data: &mut [u16]) {
    let w = GRID_W;
    let roof = 2u8;

    let set = |grid: &mut [u32], x: i32, y: i32, b: u32| {
        if x >= 0 && y >= 0 && x < GRID_W as i32 && y < GRID_H as i32 {
            grid[(y as u32 * w + x as u32) as usize] = b;
        }
    };

    let set_wall = |wd: &mut [u16], x: i32, y: i32, edges: u16, thickness: u16, material: u16| {
        if x >= 0 && y >= 0 && x < GRID_W as i32 && y < GRID_H as i32 {
            let idx = (y as u32 * w + x as u32) as usize;
            let existing = wd[idx];
            let existing_edges = wd_edges(existing);
            let merged = existing_edges | edges;
            wd[idx] = pack_wall_data(merged, thickness, material);
            wd[idx] |= existing & (WD_HAS_DOOR | WD_DOOR_OPEN | WD_HAS_WINDOW);
        }
    };

    let set_wall_door =
        |wd: &mut [u16], x: i32, y: i32, edges: u16, thickness: u16, material: u16, open: bool| {
            if x >= 0 && y >= 0 && x < GRID_W as i32 && y < GRID_H as i32 {
                let idx = (y as u32 * w + x as u32) as usize;
                wd[idx] = pack_wall_data(edges, thickness, material) | WD_HAS_DOOR;
                if open {
                    wd[idx] |= WD_DOOR_OPEN;
                }
            }
        };

    let set_window = |wd: &mut [u16], x: i32, y: i32, edges: u16, thickness: u16| {
        if x >= 0 && y >= 0 && x < GRID_W as i32 && y < GRID_H as i32 {
            let idx = (y as u32 * w + x as u32) as usize;
            wd[idx] = pack_wall_data(edges, thickness, WMAT_GLASS) | WD_HAS_WINDOW;
        }
    };

    let cx = (GRID_W / 2) as i32;
    let cy = (GRID_H / 2) as i32;

    for y in -5..=5 {
        for x in -7..=7 {
            set(
                grid,
                cx + x,
                cy + y,
                make_block(BT_WOOD_FLOOR as u8, 0, roof),
            );
        }
    }
    for x in -7..=7 {
        set_wall(wall_data, cx + x, cy - 5, WD_EDGE_N, 4, WMAT_STONE); // north wall
        set_wall(wall_data, cx + x, cy + 5, WD_EDGE_S, 4, WMAT_STONE); // south wall
    }
    for y in -5..=5 {
        set_wall(wall_data, cx - 7, cy + y, WD_EDGE_W, 4, WMAT_STONE); // west wall
        set_wall(wall_data, cx + 7, cy + y, WD_EDGE_E, 4, WMAT_STONE); // east wall
    }
    set_wall(
        wall_data,
        cx - 7,
        cy - 5,
        WD_EDGE_N | WD_EDGE_W,
        4,
        WMAT_STONE,
    );
    set_wall(
        wall_data,
        cx + 7,
        cy - 5,
        WD_EDGE_N | WD_EDGE_E,
        4,
        WMAT_STONE,
    );
    set_wall(
        wall_data,
        cx - 7,
        cy + 5,
        WD_EDGE_S | WD_EDGE_W,
        4,
        WMAT_STONE,
    );
    set_wall(
        wall_data,
        cx + 7,
        cy + 5,
        WD_EDGE_S | WD_EDGE_E,
        4,
        WMAT_STONE,
    );
    set_wall_door(wall_data, cx, cy + 5, WD_EDGE_S, 4, WMAT_GENERIC, false);
    for &wx in &[-4, -3, 3, 4] {
        set_window(wall_data, cx + wx, cy - 5, WD_EDGE_N, 4);
    }
    for &wx in &[-4, 4] {
        set_window(wall_data, cx + wx, cy + 5, WD_EDGE_S, 4);
    }
    for y in -4..=1 {
        set_wall(wall_data, cx, cy + y, WD_EDGE_E | WD_EDGE_W, 4, WMAT_STONE);
    }
    set_wall_door(
        wall_data,
        cx,
        cy + 2,
        WD_EDGE_E | WD_EDGE_W,
        4,
        WMAT_GENERIC,
        false,
    ); // interior door

    set(grid, cx - 4, cy, make_block(BT_FIREPLACE as u8, 5, roof));
    set(grid, cx - 5, cy - 3, make_block(BT_BED as u8, 0, roof));
    set(
        grid,
        cx - 4,
        cy - 3,
        make_block(BT_BED as u8, 0, roof | (1 << 3)),
    );
    set(grid, cx + 4, cy - 3, make_block(BT_BED as u8, 0, roof));
    set(
        grid,
        cx + 5,
        cy - 3,
        make_block(BT_BED as u8, 0, roof | (1 << 3)),
    );
    set(grid, cx + 3, cy + 2, make_block(BT_BENCH as u8, 1, roof));
    set(
        grid,
        cx + 4,
        cy + 2,
        make_block(BT_BENCH as u8, 1, roof | (1 << 3)),
    );
    set(
        grid,
        cx + 5,
        cy + 2,
        make_block(BT_BENCH as u8, 1, roof | (2 << 3)),
    );
    set(grid, cx - 2, cy + 3, make_block(BT_CRATE as u8, 0, roof));

    for sy in 0..3i32 {
        for sx in 0..3i32 {
            let flags = ((sx as u8) << 3) | ((sy as u8) << 5);
            set(
                grid,
                cx + 10 + sx,
                cy - 2 + sy,
                make_block(BT_SOLAR as u8, 0, flags),
            );
        }
    }
    set(grid, cx + 9, cy, make_block(BT_BATTERY_S as u8, 1, 0));
    for x in [8, 9] {
        set(grid, cx + x, cy - 1, make_block(BT_WIRE as u8, 0xF0, 0));
    }
    for x in [8, 9] {
        set(grid, cx + x, cy, make_block(BT_WIRE as u8, 0xF0, 0));
    }
    set(grid, cx + 7, cy, make_block(BT_WIRE as u8, 0xF0, roof));
    for x in 1..=6 {
        set(grid, cx + x, cy, make_block(BT_WIRE as u8, 0xF0, roof));
    }
    set(
        grid,
        cx + 3,
        cy - 2,
        make_block(BT_CEILING_LIGHT as u8, 0, roof),
    );
    set(grid, cx + 3, cy - 1, make_block(BT_WIRE as u8, 0xF0, roof));
    set(grid, cx + 3, cy, make_block(BT_WIRE as u8, 0xF0, roof));

    set(grid, cx - 7, cy - 1, make_block(BT_INLET as u8, 1, 3 << 3)); // dir=west
    for x in -11..-7 {
        set(grid, cx + x, cy - 1, make_block(BT_PIPE as u8, 0xF0, 0));
    }
    set(grid, cx - 9, cy - 1, make_block(BT_PUMP as u8, 1, 3 << 3)); // dir=west
    set(
        grid,
        cx - 12,
        cy - 1,
        make_block(BT_OUTLET as u8, 1, 3 << 3),
    );

    set(grid, cx - 3, cy + 8, make_block(BT_WORKBENCH as u8, 1, 0));
    set(grid, cx + 3, cy + 8, make_block(BT_KILN as u8, 2, 0));

    set(grid, cx + 6, cy + 8, make_block(BT_WELL as u8, 1, 0));

    set(grid, cx - 3, cy + 6, make_block(BT_FLOOR_LAMP as u8, 1, 0));
    set(grid, cx + 3, cy + 6, make_block(BT_FLOOR_LAMP as u8, 1, 0));
    set(grid, cx - 2, cy - 6, make_block(BT_WALL_TORCH as u8, 0, 0)); // north
    set(grid, cx + 2, cy - 6, make_block(BT_WALL_TORCH as u8, 0, 0));

    set(
        grid,
        cx + 10,
        cy + 5,
        make_block(BT_CANNON as u8, 2, 1 << 3),
    ); // facing east
}

fn naive_build_obstacle_field(grid: &[u32], wall_data: &[u16]) -> Vec<u8> {
    let gw = if grid.len() >= (GRID_W * GRID_H) as usize {
        GRID_W as usize
    } else {
        (grid.len() as f32).sqrt().ceil() as usize
    };
    let gh = if gw > 0 { grid.len() / gw } else { 0 };
    let ow = gw * 2;
    let oh = gh * 2;
    let mut obs = vec![0u8; ow * oh];

    for gy in 0..gh {
        for gx in 0..gw {
            let gi = gy * gw + gx;
            let b = grid[gi];
            let bt = b & 0xFF;
            let bh = (b >> 8) & 0xFF;
            let is_door = (b >> 16) & 1 != 0;
            let is_open_door = (b >> 16) & 4 != 0;

            let passable = (bt == BT_TREE || bt == BT_FIREPLACE || bt == BT_CAMPFIRE || bt == BT_CEILING_LIGHT || bt == BT_FLOOR_LAMP || bt == BT_TABLE_LAMP || bt == BT_FAN || bt == BT_COMPOST || bt == BT_BERRY_BUSH || bt == BT_CROP || bt == BT_LIQUID_PIPE || bt == BT_PIPE_BRIDGE || bt == BT_LIQUID_INTAKE || bt == BT_LIQUID_PUMP || bt == BT_LIQUID_OUTPUT || bt == BT_WIRE || bt == BT_DIMMER || bt == BT_BREAKER || bt == BT_WIRE_BRIDGE || bt == BT_RESTRICTOR) || (BT_PIPE..=BT_VALVE).contains(&bt);
            let is_thin = bh > 0 && is_wall_block(bt) && thin_wall_is_walkable(b);
            #[allow(clippy::nonminimal_bool)]
            let block_solid = bh > 0 && !passable && !is_thin && !(is_door && is_open_door);

            let ox = gx * 2;
            let oy = gy * 2;

            if block_solid {
                obs[oy * ow + ox] = 255;
                obs[oy * ow + ox + 1] = 255;
                obs[(oy + 1) * ow + ox] = 255;
                obs[(oy + 1) * ow + ox + 1] = 255;
                continue;
            }

            if gi < wall_data.len() && wall_data[gi] != 0 {
                let wd = wall_data[gi] as u32;
                let edges = wd & 0xF;
                let has_door = (wd & 0x400) != 0;
                let door_open = (wd & 0x800) != 0;

                if edges != 0 && !(has_door && door_open) {
                    let thickness = {
                        let raw = (wd >> 4) & 3;
                        if raw == 0 { 4u32 } else { 4 - raw }
                    };

                    if thickness >= 4 || edges == 0xF {
                        obs[oy * ow + ox] = 255;
                        obs[oy * ow + ox + 1] = 255;
                        obs[(oy + 1) * ow + ox] = 255;
                        obs[(oy + 1) * ow + ox + 1] = 255;
                    } else {
                        if edges & 1 != 0 {
                            obs[oy * ow + ox] = 255;
                            obs[oy * ow + ox + 1] = 255;
                        }
                        if edges & 2 != 0 {
                            obs[oy * ow + ox + 1] = 255;
                            obs[(oy + 1) * ow + ox + 1] = 255;
                        }
                        if edges & 4 != 0 {
                            obs[(oy + 1) * ow + ox] = 255;
                            obs[(oy + 1) * ow + ox + 1] = 255;
                        }
                        if edges & 8 != 0 {
                            obs[oy * ow + ox] = 255;
                            obs[(oy + 1) * ow + ox] = 255;
                        }
                    }
                }
            }
        }
    }
    obs
}

fn naive_blocks_vision(
    grid: &[u32],
    wall_data: &[u16],
    x: i32,
    y: i32,
    from_x: i32,
    from_y: i32,
) -> bool {
    if x < 0 || y < 0 || x >= GRID_W as i32 || y >= GRID_H as i32 {
        return true; // out of bounds blocks
    }
    let idx = (y as u32 * GRID_W + x as u32) as usize;
    let block = grid[idx];
    let bt = block_type_rs(block);
    let bh = block_height_rs(block);

    if bh == 0 {
        return false;
    } // no height = no block

    let flags = block_flags_rs(block);
    let is_door = flags & 1 != 0;
    let is_open = flags & 4 != 0;
    if is_door && is_open {
        return false;
    }

    if (bt == BT_GLASS || bt == BT_TREE || bt == BT_BERRY_BUSH || bt == BT_CROP) {
        return false;
    }

    if is_wall_block(bt) && thin_wall_is_walkable(block) {
        return naive_edge_blocked_wd(grid, wall_data, from_x, from_y, x, y);
    }

    true
}

fn naive_cast_light(
    grid: &[u32],
    wall_data: &[u16],
    visibility: &mut [u8],
    cx: i32,
    cy: i32,
    radius: i32,
    row: i32,
    start_slope: f32,
    end_slope: f32,
    xx: i32,
    xy: i32,
    yx: i32,
    yy: i32,
) {
    if start_slope < end_slope {
        return;
    }

    let mut start = start_slope;
    let radius_sq = radius * radius;

    for j in row..=radius {
        let mut blocked = false;
        let mut new_start = 0.0f32;

        let dy = -j;
        let mut dx = dy; // scan from left to right

        while dx <= 0 {
            let mx = cx + dx * xx + dy * xy;
            let my = cy + dx * yx + dy * yy;

            let l_slope = (dx as f32 - 0.5) / (dy as f32 + 0.5);
            let r_slope = (dx as f32 + 0.5) / (dy as f32 - 0.5);

            if start < r_slope {
                dx += 1;
                continue;
            }
            if end_slope > l_slope {
                break;
            }

            if dx * dx + dy * dy <= radius_sq {
                if mx >= 0 && my >= 0 && mx < GRID_W as i32 && my < GRID_H as i32 {
                    visibility[(my as u32 * GRID_W + mx as u32) as usize] = 255;
                }
            }

            let from_x = cx + dx * xx + (dy + 1) * xy;
            let from_y = cy + dx * yx + (dy + 1) * yy;

            if blocked {
                if naive_blocks_vision(grid, wall_data, mx, my, from_x, from_y) {
                    new_start = r_slope;
                } else {
                    blocked = false;
                    start = new_start;
                }
            } else if naive_blocks_vision(grid, wall_data, mx, my, from_x, from_y) && j < radius {
                blocked = true;
                naive_cast_light(
                    grid,
                    wall_data,
                    visibility,
                    cx,
                    cy,
                    radius,
                    j + 1,
                    start,
                    l_slope,
                    xx,
                    xy,
                    yx,
                    yy,
                );
                new_start = r_slope;
            }

            dx += 1;
        }

        if blocked {
            break;
        }
    }
}

fn naive_compute_fov(
    grid: &[u32],
    wall_data: &[u16],
    visibility: &mut [u8],
    cx: i32,
    cy: i32,
    radius: i32,
) {
    if cx >= 0 && cy >= 0 && cx < GRID_W as i32 && cy < GRID_H as i32 {
        visibility[(cy as u32 * GRID_W + cx as u32) as usize] = 255;
    }

    const MULTIPLIERS: [[i32; 4]; 8] = [
        [1, 0, 0, 1],
        [0, 1, 1, 0],
        [0, -1, 1, 0],
        [-1, 0, 0, 1],
        [-1, 0, 0, -1],
        [0, -1, -1, 0],
        [0, 1, -1, 0],
        [1, 0, 0, -1],
    ];

    for m in &MULTIPLIERS {
        naive_cast_light(
            grid, wall_data, visibility, cx, cy, radius, 1, 1.0, 0.0, m[0], m[1], m[2], m[3],
        );
    }
}

