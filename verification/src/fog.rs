//! Fog of war: recursive shadowcasting visibility from a point.
//!
//! Walls block vision; glass, trees, bushes and crops do not; thin walls block only
//! sightlines that cross their walled edge. Slopes are kept as exact fractions.

use vstd::prelude::*;
use crate::grid::{
    block_flags_rs, block_height_rs, block_type_rs, is_wall_block, is_wall_type,
    spec_block_flags, spec_block_height, spec_block_type, BT_BERRY_BUSH, BT_CROP, BT_GLASS,
    BT_TREE, GRID_H, GRID_SIZE, GRID_W,
};
use crate::thin_walls::{
    edge_blocked_wd, spec_grid_edge_blocked, spec_thin_wall_is_walkable, thin_wall_is_walkable,
    tile_in_slice,
};
use crate::walls::{crossing_fits, in_grid, spec_wd_edge_blocked, tile_index};

verus! {

pub const DEFAULT_VISION_RADIUS: i32 = 25;
pub const TORCH_VISION_RADIUS: i32 = 8;

/// Fog texture values (R8Unorm): completely black, dimmed, full rendering.
pub const FOG_SHROUDED: u8 = 0;
pub const FOG_EXPLORED: u8 = 76;
pub const FOG_VISIBLE: u8 = 255;

/// Does the tile at (x, y) block a sightline arriving from (from_x, from_y)? Tiles
/// outside the grid block; tiles without height, open doors, glass, trees, bushes and
/// crops do not; a walkable thin wall blocks when the crossing is edge-blocked; any
/// other block with height blocks.
pub open spec fn spec_blocks_vision(
    grid: Seq<u32>,
    wall_data: Seq<u16>,
    x: int,
    y: int,
    from_x: int,
    from_y: int,
) -> bool {
    if !in_grid(x, y) {
        true
    } else {
        let b = grid[tile_index(x, y)];
        let bt = spec_block_type(b);
        let flags = spec_block_flags(b);
        if spec_block_height(b) == 0 {
            false
        } else if (flags & 1u8) != 0 && (flags & 4u8) != 0 {
            false
        } else if bt == BT_GLASS || bt == BT_TREE || bt == BT_BERRY_BUSH || bt == BT_CROP {
            false
        } else if is_wall_type(bt) && spec_thin_wall_is_walkable(b) {
            spec_wd_edge_blocked(wall_data, from_x, from_y, x, y, false) || spec_grid_edge_blocked(
                grid,
                from_x,
                from_y,
                x,
                y,
            )
        } else {
            true
        }
    }
}

/// A viewpoint coordinate from which every coordinate the scan computes (at most the
/// radius away) fits in i32; any coordinate does for a radius of 0 or less.
pub open spec fn fov_fits(v: int, radius: int) -> bool {
    i32::MIN + radius <= v && v + radius <= i32::MAX
}

/// Returns true if the tile at (x, y) blocks line of sight from (from_x, from_y).
pub fn blocks_vision(grid: &[u32], wall_data: &[u16], x: i32, y: i32, from_x: i32, from_y: i32) -> (r: bool)
    requires
        tile_in_slice(grid@.len() as int, x as int, y as int),
        tile_in_slice(grid@.len() as int, from_x as int, from_y as int),
        in_grid(x as int, y as int) ==> crossing_fits(from_x, from_y, x, y),
    ensures
        r == spec_blocks_vision(grid@, wall_data@, x as int, y as int, from_x as int, from_y as int),
{
    if x < 0 || y < 0 || x >= GRID_W as i32 || y >= GRID_H as i32 {
        return true;
    }
    let w = GRID_W as i32;
    assert(w == 512);
    let idx = (y * w + x) as usize;
    let block = grid[idx];
    let bt = block_type_rs(block);
    let bh = block_height_rs(block);
    if bh == 0 {
        return false;
    }
    let flags = block_flags_rs(block);
    let is_door = flags & 1 != 0;
    let is_open = flags & 4 != 0;
    if is_door && is_open {
        return false;
    }
    if bt == BT_GLASS || bt == BT_TREE || bt == BT_BERRY_BUSH || bt == BT_CROP {
        return false;
    }
    if is_wall_block(bt) && thin_wall_is_walkable(block) {
        return edge_blocked_wd(grid, wall_data, from_x, from_y, x, y);
    }
    true
}

/// Every grid tile lies within a full-size grid slice.
proof fn lemma_full_grid_slice(len: int, x: int, y: int)
    requires
        len >= GRID_SIZE,
    ensures
        tile_in_slice(len, x, y),
{
}

/// One of the eight octant transforms: a signed permutation matrix.
pub open spec fn octant_transform(xx: i32, xy: i32, yx: i32, yy: i32) -> bool {
    -1 <= xx <= 1 && -1 <= xy <= 1 && -1 <= yx <= 1 && -1 <= yy <= 1 && xx * xx + yx * yx == 1
        && xy * xy + yy * yy == 1 && xx * xy + yx * yy == 0 && xx * xx + xy * xy == 1 && yx * yx
        + yy * yy == 1 && xx * yx + xy * yy == 0
}

/// (x, y) is within `radius` of (cx, cy) (Euclidean, squared comparison).
pub open spec fn within_radius(x: int, y: int, cx: int, cy: int, radius: int) -> bool {
    (x - cx) * (x - cx) + (y - cy) * (y - cy) <= radius * radius
}

/// The visibility buffer only gained 255s, and only on grid tiles within the radius
/// of (cx, cy) or at (cx, cy) itself; entries past the grid are unchanged.
pub open spec fn only_marks_in_radius(
    before: Seq<u8>,
    after: Seq<u8>,
    cx: int,
    cy: int,
    radius: int,
) -> bool {
    &&& after.len() == before.len()
    &&& forall|x: int, y: int|
        in_grid(x, y) ==> #[trigger] after[tile_index(x, y)] == before[tile_index(x, y)] || (
        after[tile_index(x, y)] == 255 && (within_radius(x, y, cx, cy, radius) || (x == cx && y
            == cy)))
    &&& forall|i: int| GRID_SIZE <= i < before.len() ==> #[trigger] after[i] == before[i]
}

proof fn lemma_octant_distance(dx: int, dy: int, xx: int, xy: int, yx: int, yy: int)
    by (nonlinear_arith)
    requires
        xx * xx + yx * yx == 1,
        xy * xy + yy * yy == 1,
        xx * xy + yx * yy == 0,
    ensures
        (dx * xx + dy * xy) * (dx * xx + dy * xy) + (dx * yx + dy * yy) * (dx * yx + dy * yy) == dx
            * dx + dy * dy,
{
}

proof fn lemma_times_unit(a: int, u: int, r: int)
    by (nonlinear_arith)
    requires
        -r <= a <= r,
        -1 <= u <= 1,
    ensures
        -r <= a * u <= r,
{
}

proof fn lemma_radius_square(r: int)
    by (nonlinear_arith)
    requires
        0 <= r <= 46340,
    ensures
        0 <= r * r <= 2147395600,
{
}

proof fn lemma_square_le(a: int, b: int)
    by (nonlinear_arith)
    requires
        -b <= a <= b,
    ensures
        0 <= a * a <= b * b,
{
}

proof fn lemma_only_marks_trans(a: Seq<u8>, b: Seq<u8>, c: Seq<u8>, cx: int, cy: int, r: int)
    requires
        only_marks_in_radius(a, b, cx, cy, r),
        only_marks_in_radius(b, c, cx, cy, r),
    ensures
        only_marks_in_radius(a, c, cx, cy, r),
{
    assert forall|x: int, y: int| in_grid(x, y) implies #[trigger] c[tile_index(x, y)] == a[tile_index(x, y)] || (
    c[tile_index(x, y)] == 255 && (within_radius(x, y, cx, cy, r) || (x == cx && y == cy))) by {
        assert(b[tile_index(x, y)] == a[tile_index(x, y)] || b[tile_index(x, y)] == 255);
    }
}

/// Fraction a/b < c/d for positive denominators.
fn slope_lt(a_num: i64, a_den: i64, c_num: i64, c_den: i64) -> (r: bool)
    requires
        0 < a_den <= 200000,
        0 < c_den <= 200000,
        -200000 <= a_num <= 200000,
        -200000 <= c_num <= 200000,
    ensures
        r == (a_num * c_den < c_num * a_den),
{
    proof {
        lemma_product_bound(a_num as int, c_den as int);
        lemma_product_bound(c_num as int, a_den as int);
    }
    a_num * c_den < c_num * a_den
}

proof fn lemma_product_bound(a: int, b: int)
    by (nonlinear_arith)
    requires
        -200000 <= a <= 200000,
        0 < b <= 200000,
    ensures
        -40000000000 <= a * b <= 40000000000,
{
}

/// Slope fractions in the bounds that the scan keeps.
pub open spec fn slope_ok(num: i64, den: i64) -> bool {
    0 < den <= 200000 && -200000 <= num <= 200000
}

/// The two cells of an octant's first row are marked: the one straight ahead of the
/// origin when the radius is at least 1, the diagonal one when it is at least 2 (each
/// when in the grid).
pub open spec fn first_row_marked(
    vis: Seq<u8>,
    cx: int,
    cy: int,
    radius: int,
    xx: int,
    xy: int,
    yx: int,
    yy: int,
) -> bool {
    &&& (radius >= 1 && in_grid(cx - xy, cy - yy) ==> vis[tile_index(cx - xy, cy - yy)] == 255)
    &&& (radius >= 2 && in_grid(cx - xx - xy, cy - yx - yy) ==> vis[tile_index(
        cx - xx - xy,
        cy - yx - yy,
    )] == 255)
}

proof fn lemma_first_row_kept(
    a: Seq<u8>,
    b: Seq<u8>,
    cx: int,
    cy: int,
    radius: int,
    xx: int,
    xy: int,
    yx: int,
    yy: int,
    r2: int,
)
    requires
        first_row_marked(a, cx, cy, radius, xx, xy, yx, yy),
        only_marks_in_radius(a, b, cx, cy, r2),
    ensures
        first_row_marked(b, cx, cy, radius, xx, xy, yx, yy),
{
    if radius >= 1 && in_grid(cx - xy, cy - yy) {
        assert(b[tile_index(cx - xy, cy - yy)] == a[tile_index(cx - xy, cy - yy)] || b[tile_index(cx - xy, cy - yy)] == 255);
    }
    if radius >= 2 && in_grid(cx - xx - xy, cy - yx - yy) {
        assert(b[tile_index(cx - xx - xy, cy - yx - yy)] == a[tile_index(cx - xx - xy, cy - yx - yy)]
            || b[tile_index(cx - xx - xy, cy - yx - yy)] == 255);
    }
}

/// Every tile within `radius` of (cx, cy) along both axes is in the grid and blocks no
/// sightline, whichever tile it is seen from.
pub open spec fn open_square(grid: Seq<u32>, wall_data: Seq<u16>, cx: int, cy: int, radius: int) -> bool {
    forall|x: int, y: int, fx: int, fy: int|
        cx - radius <= x <= cx + radius && cy - radius <= y <= cy + radius ==> in_grid(x, y)
            && !#[trigger] spec_blocks_vision(grid, wall_data, x, y, fx, fy)
}

/// Map coordinates of the octant cell (dx, dy).
pub open spec fn octant_x(cx: int, dx: int, dy: int, xx: int, xy: int) -> int {
    cx + dx * xx + dy * xy
}

pub open spec fn octant_y(cy: int, dx: int, dy: int, yx: int, yy: int) -> int {
    cy + dx * yx + dy * yy
}

/// The octant cells of rows lo..hi (dy = -row, dx from dy to 0) within the radius
/// are marked.
pub open spec fn rows_marked(
    vis: Seq<u8>,
    cx: int,
    cy: int,
    radius: int,
    xx: int,
    xy: int,
    yx: int,
    yy: int,
    lo: int,
    hi: int,
) -> bool {
    forall|dx: int, dy: int|
        lo <= -dy < hi && dy <= dx <= 0 && dx * dx + dy * dy <= radius * radius ==> vis[tile_index(
            #[trigger] octant_x(cx, dx, dy, xx, xy),
            #[trigger] octant_y(cy, dx, dy, yx, yy),
        )] == 255
}

proof fn lemma_rows_kept(
    a: Seq<u8>,
    b: Seq<u8>,
    cx: int,
    cy: int,
    radius: int,
    xx: int,
    xy: int,
    yx: int,
    yy: int,
    lo: int,
    hi: int,
    r2: int,
)
    requires
        1 <= lo,
        rows_marked(a, cx, cy, radius, xx, xy, yx, yy, lo, hi),
        only_marks_in_radius(a, b, cx, cy, r2),
        open_square_cells(cx, cy, radius, xx, xy, yx, yy, hi),
    ensures
        rows_marked(b, cx, cy, radius, xx, xy, yx, yy, lo, hi),
{
    assert forall|dx: int, dy: int|
        lo <= -dy < hi && dy <= dx <= 0 && dx * dx + dy * dy <= radius * radius implies b[tile_index(
        #[trigger] octant_x(cx, dx, dy, xx, xy),
        #[trigger] octant_y(cy, dx, dy, yx, yy),
    )] == 255 by {
        let x = octant_x(cx, dx, dy, xx, xy);
        let y = octant_y(cy, dx, dy, yx, yy);
        assert(in_grid(x, y));
        assert(b[tile_index(x, y)] == a[tile_index(x, y)] || b[tile_index(x, y)] == 255);
    }
}

/// The cells of octant row -dy with dx below dx_end that are within the radius are
/// marked.
pub open spec fn row_prefix_marked(
    vis: Seq<u8>,
    cx: int,
    cy: int,
    radius: int,
    xx: int,
    xy: int,
    yx: int,
    yy: int,
    dy: int,
    dx_end: int,
) -> bool {
    forall|dx: int|
        dy <= dx < dx_end && dx * dx + dy * dy <= radius * radius ==> vis[tile_index(
            #[trigger] octant_x(cx, dx, dy, xx, xy),
            octant_y(cy, dx, dy, yx, yy),
        )] == 255
}

proof fn lemma_prefix_kept(
    a: Seq<u8>,
    b: Seq<u8>,
    cx: int,
    cy: int,
    radius: int,
    xx: int,
    xy: int,
    yx: int,
    yy: int,
    dy: int,
    dx_end: int,
    r2: int,
)
    requires
        dy < 0,
        dx_end <= 1,
        row_prefix_marked(a, cx, cy, radius, xx, xy, yx, yy, dy, dx_end),
        only_marks_in_radius(a, b, cx, cy, r2),
        open_square_cells(cx, cy, radius, xx, xy, yx, yy, -dy + 1),
    ensures
        row_prefix_marked(b, cx, cy, radius, xx, xy, yx, yy, dy, dx_end),
{
    assert forall|dx: int| dy <= dx < dx_end && dx * dx + dy * dy <= radius * radius implies b[tile_index(
        #[trigger] octant_x(cx, dx, dy, xx, xy),
        octant_y(cy, dx, dy, yx, yy),
    )] == 255 by {
        let x = octant_x(cx, dx, dy, xx, xy);
        let y = octant_y(cy, dx, dy, yx, yy);
        assert(in_grid(x, y));
        assert(b[tile_index(x, y)] == a[tile_index(x, y)] || b[tile_index(x, y)] == 255);
    }
}

/// The octant cells of rows below `hi` lie in the grid.
pub open spec fn open_square_cells(
    cx: int,
    cy: int,
    radius: int,
    xx: int,
    xy: int,
    yx: int,
    yy: int,
    hi: int,
) -> bool {
    forall|dx: int, dy: int|
        0 < -dy < hi && dy <= dx <= 0 ==> in_grid(
            #[trigger] octant_x(cx, dx, dy, xx, xy),
            #[trigger] octant_y(cy, dx, dy, yx, yy),
        )
}

/// In an open square the cells of every octant scan up to the radius lie in the grid.
proof fn lemma_open_square_cells(
    grid: Seq<u32>,
    wall_data: Seq<u16>,
    cx: int,
    cy: int,
    radius: int,
    xx: int,
    xy: int,
    yx: int,
    yy: int,
)
    requires
        open_square(grid, wall_data, cx, cy, radius),
        -1 <= xx <= 1,
        -1 <= xy <= 1,
        -1 <= yx <= 1,
        -1 <= yy <= 1,
        xx * xx + yx * yx == 1,
        xy * xy + yy * yy == 1,
        xx * xy + yx * yy == 0,
    ensures
        open_square_cells(cx, cy, radius, xx, xy, yx, yy, radius + 1),
{
    assert forall|dx: int, dy: int| 0 < -dy < radius + 1 && dy <= dx <= 0 implies in_grid(
        #[trigger] octant_x(cx, dx, dy, xx, xy),
        #[trigger] octant_y(cy, dx, dy, yx, yy),
    ) by {
        lemma_octant_unit(dx, dy, xx, xy, yx, yy, -dy);
        assert(!spec_blocks_vision(
            grid,
            wall_data,
            octant_x(cx, dx, dy, xx, xy),
            octant_y(cy, dx, dy, yx, yy),
            0,
            0,
        ));
    }
}

/// Every tile within the radius of (cx, cy) other than (cx, cy) itself is a cell of
/// one of the eight octant scans.
#[verifier::spinoff_prover]
proof fn lemma_fov_cover(vis: Seq<u8>, cx: int, cy: int, radius: int, x: int, y: int)
    requires
        0 <= radius,
        within_radius(x, y, cx, cy, radius),
        x != cx || y != cy,
        forall|k: int|
            0 <= k < 8 ==> #[trigger] rows_marked(
                vis,
                cx,
                cy,
                radius,
                spec_octant(k).0 as int,
                spec_octant(k).1 as int,
                spec_octant(k).2 as int,
                spec_octant(k).3 as int,
                1,
                radius + 1,
            ),
    ensures
        vis[tile_index(x, y)] == 255,
{
    let ox = x - cx;
    let oy = y - cy;
    assert(-radius <= ox <= radius && -radius <= oy <= radius && (-ox) * (-ox) == ox * ox && (-oy)
        * (-oy) == oy * oy) by (nonlinear_arith)
        requires
            ox * ox + oy * oy <= radius * radius,
            0 <= radius,
    ;
    let ax = if ox >= 0 {
        ox
    } else {
        -ox
    };
    if oy < 0 && -oy >= ax {
        if ox <= 0 {
            assert(rows_marked(vis, cx, cy, radius, spec_octant(0).0 as int, spec_octant(0).1 as int, spec_octant(0).2 as int, spec_octant(0).3 as int, 1, radius + 1));
            assert(octant_x(cx, ox, oy, 1, 0) == x && octant_y(cy, ox, oy, 0, 1) == y);
        } else {
            assert(rows_marked(vis, cx, cy, radius, spec_octant(3).0 as int, spec_octant(3).1 as int, spec_octant(3).2 as int, spec_octant(3).3 as int, 1, radius + 1));
            assert(octant_x(cx, -ox, oy, -1, 0) == x && octant_y(cy, -ox, oy, 0, 1) == y);
        }
    } else if oy > 0 && oy >= ax {
        if ox <= 0 {
            assert(rows_marked(vis, cx, cy, radius, spec_octant(7).0 as int, spec_octant(7).1 as int, spec_octant(7).2 as int, spec_octant(7).3 as int, 1, radius + 1));
            assert(octant_x(cx, ox, -oy, 1, 0) == x && octant_y(cy, ox, -oy, 0, -1) == y);
        } else {
            assert(rows_marked(vis, cx, cy, radius, spec_octant(4).0 as int, spec_octant(4).1 as int, spec_octant(4).2 as int, spec_octant(4).3 as int, 1, radius + 1));
            assert(octant_x(cx, -ox, -oy, -1, 0) == x && octant_y(cy, -ox, -oy, 0, -1) == y);
        }
    } else if ox < 0 {
        if oy <= 0 {
            assert(rows_marked(vis, cx, cy, radius, spec_octant(1).0 as int, spec_octant(1).1 as int, spec_octant(1).2 as int, spec_octant(1).3 as int, 1, radius + 1));
            assert(octant_x(cx, oy, ox, 0, 1) == x && octant_y(cy, oy, ox, 1, 0) == y);
        } else {
            assert(rows_marked(vis, cx, cy, radius, spec_octant(6).0 as int, spec_octant(6).1 as int, spec_octant(6).2 as int, spec_octant(6).3 as int, 1, radius + 1));
            assert(octant_x(cx, -oy, ox, 0, 1) == x && octant_y(cy, -oy, ox, -1, 0) == y);
        }
    } else {
        if oy <= 0 {
            assert(rows_marked(vis, cx, cy, radius, spec_octant(2).0 as int, spec_octant(2).1 as int, spec_octant(2).2 as int, spec_octant(2).3 as int, 1, radius + 1));
            assert(octant_x(cx, oy, -ox, 0, -1) == x && octant_y(cy, oy, -ox, 1, 0) == y);
        } else {
            assert(rows_marked(vis, cx, cy, radius, spec_octant(5).0 as int, spec_octant(5).1 as int, spec_octant(5).2 as int, spec_octant(5).3 as int, 1, radius + 1));
            assert(octant_x(cx, -oy, -ox, 0, -1) == x && octant_y(cy, -oy, -ox, -1, 0) == y);
        }
    }
}

/// An octant transform moves a cell of row j at most j along each axis.
proof fn lemma_octant_unit(dx: int, dy: int, xx: int, xy: int, yx: int, yy: int, j: int)
    requires
        -1 <= xx <= 1,
        -1 <= xy <= 1,
        -1 <= yx <= 1,
        -1 <= yy <= 1,
        xx * xx + yx * yx == 1,
        xy * xy + yy * yy == 1,
        xx * xy + yx * yy == 0,
        -j <= dx <= j,
        -j <= dy <= j,
    ensures
        -j <= dx * xx + dy * xy <= j,
        -j <= dx * yx + dy * yy <= j,
{
    if xx == 0 {
        assert(yx * yx == 1) by (nonlinear_arith)
            requires
                xx * xx + yx * yx == 1,
                xx == 0,
        ;
        assert(yx != 0);
        assert(yy == 0) by (nonlinear_arith)
            requires
                xx * xy + yx * yy == 0,
                xx == 0,
                yx != 0,
                -1 <= yy <= 1,
        ;
        assert(dx * xx == 0);
        assert(dy * yy == 0);
        assert(-j <= dy * xy <= j) by (nonlinear_arith)
            requires
                -1 <= xy <= 1,
                -j <= dy <= j,
        ;
        assert(-j <= dx * yx <= j) by (nonlinear_arith)
            requires
                -1 <= yx <= 1,
                -j <= dx <= j,
        ;
    } else {
        assert(yx == 0) by (nonlinear_arith)
            requires
                xx * xx + yx * yx == 1,
                xx != 0,
                -1 <= xx <= 1,
                -1 <= yx <= 1,
        ;
        assert(xy == 0) by (nonlinear_arith)
            requires
                xx * xy + yx * yy == 0,
                yx == 0,
                xx != 0,
                -1 <= xy <= 1,
        ;
        assert(dy * xy == 0);
        assert(dx * yx == 0);
        assert(-j <= dx * xx <= j) by (nonlinear_arith)
            requires
                -1 <= xx <= 1,
                -j <= dx <= j,
        ;
        assert(-j <= dy * yy <= j) by (nonlinear_arith)
            requires
                -1 <= yy <= 1,
                -j <= dy <= j,
        ;
    }
}

/// Octant-local column of the map tile (x, y): the inverse of the octant transform,
/// which is its transpose.
pub open spec fn local_dx(x: int, y: int, cx: int, cy: int, xx: int, yx: int) -> int {
    xx * (x - cx) + yx * (y - cy)
}

/// Octant-local row offset (negative rows lie ahead of the viewpoint) of (x, y).
pub open spec fn local_dy(x: int, y: int, cx: int, cy: int, xy: int, yy: int) -> int {
    xy * (x - cx) + yy * (y - cy)
}

/// (x, y) is a cell of the octant's wedge at row `row` or beyond.
pub open spec fn in_wedge(
    x: int,
    y: int,
    cx: int,
    cy: int,
    xx: int,
    xy: int,
    yx: int,
    yy: int,
    row: int,
) -> bool {
    &&& row <= -local_dy(x, y, cx, cy, xy, yy)
    &&& local_dy(x, y, cx, cy, xy, yy) <= local_dx(x, y, cx, cy, xx, yx) <= 0
}

/// Only grid tiles of the octant's wedge (from row `row` on) changed.
pub open spec fn marks_in_wedge(
    before: Seq<u8>,
    after: Seq<u8>,
    cx: int,
    cy: int,
    xx: int,
    xy: int,
    yx: int,
    yy: int,
    row: int,
) -> bool {
    forall|x: int, y: int|
        in_grid(x, y) && !in_wedge(x, y, cx, cy, xx, xy, yx, yy, row) ==> #[trigger] after[tile_index(
            x,
            y,
        )] == before[tile_index(x, y)]
}

/// The octant's axis cell at distance m (octant-local (0, -m)) is unchanged, when in
/// the grid.
pub open spec fn axis_cell_kept(
    before: Seq<u8>,
    after: Seq<u8>,
    cx: int,
    cy: int,
    xx: int,
    xy: int,
    yx: int,
    yy: int,
    m: int,
) -> bool {
    in_grid(octant_x(cx, 0, -m, xx, xy), octant_y(cy, 0, -m, yx, yy)) ==> after[tile_index(
        octant_x(cx, 0, -m, xx, xy),
        octant_y(cy, 0, -m, yx, yy),
    )] == before[tile_index(octant_x(cx, 0, -m, xx, xy), octant_y(cy, 0, -m, yx, yy))]
}

/// The octant's axis cell at distance k blocks the sightline arriving from the axis
/// cell before it.
pub open spec fn axis_blocks(
    grid: Seq<u32>,
    wall_data: Seq<u16>,
    cx: int,
    cy: int,
    xx: int,
    xy: int,
    yx: int,
    yy: int,
    k: int,
) -> bool {
    spec_blocks_vision(
        grid,
        wall_data,
        octant_x(cx, 0, -k, xx, xy),
        octant_y(cy, 0, -k, yx, yy),
        octant_x(cx, 0, -k + 1, xx, xy),
        octant_y(cy, 0, -k + 1, yx, yy),
    )
}

/// The transposed transform takes an octant cell back to its local coordinates.
proof fn lemma_local_coords(cx: int, cy: int, dx: int, dy: int, xx: int, xy: int, yx: int, yy: int)
    requires
        xx * xx + yx * yx == 1,
        xy * xy + yy * yy == 1,
        xx * xy + yx * yy == 0,
    ensures
        local_dx(octant_x(cx, dx, dy, xx, xy), octant_y(cy, dx, dy, yx, yy), cx, cy, xx, yx) == dx,
        local_dy(octant_x(cx, dx, dy, xx, xy), octant_y(cy, dx, dy, yx, yy), cx, cy, xy, yy) == dy,
{
    lemma_distribute(xx, dx, xx, dy, xy);
    lemma_distribute(yx, dx, yx, dy, yy);
    lemma_distribute(xy, dx, xx, dy, xy);
    lemma_distribute(yy, dx, yx, dy, yy);
    lemma_factor(dx, xx * xx, yx * yx);
    lemma_factor(dy, xx * xy, yx * yy);
    lemma_factor(dx, xx * xy, yx * yy);
    lemma_factor(dy, xy * xy, yy * yy);
    assert(xy * xx == xx * xy && yy * yx == yx * yy) by (nonlinear_arith);
}

proof fn lemma_distribute(a: int, b: int, c: int, d: int, e: int)
    by (nonlinear_arith)
    ensures
        a * (b * c + d * e) == b * (a * c) + d * (a * e),
{
}

proof fn lemma_factor(a: int, b: int, c: int)
    by (nonlinear_arith)
    ensures
        a * b + a * c == a * (b + c),
{
}

proof fn lemma_wedge_trans(
    a: Seq<u8>,
    b: Seq<u8>,
    c: Seq<u8>,
    cx: int,
    cy: int,
    xx: int,
    xy: int,
    yx: int,
    yy: int,
    row_ab: int,
    row_bc: int,
    row: int,
)
    requires
        marks_in_wedge(a, b, cx, cy, xx, xy, yx, yy, row_ab),
        marks_in_wedge(b, c, cx, cy, xx, xy, yx, yy, row_bc),
        row <= row_ab,
        row <= row_bc,
    ensures
        marks_in_wedge(a, c, cx, cy, xx, xy, yx, yy, row),
{
    assert forall|x: int, y: int| in_grid(x, y) && !in_wedge(x, y, cx, cy, xx, xy, yx, yy, row) implies #[trigger] c[tile_index(
        x,
        y,
    )] == a[tile_index(x, y)] by {
        assert(b[tile_index(x, y)] == a[tile_index(x, y)]);
    }
}

/// A scan started at row j + 1 with an end slope (1 - 2 dx) / (2 j - 1) for a cell dx
/// of row j never changes an axis cell.
proof fn lemma_child_keeps_axis(
    before: Seq<u8>,
    after: Seq<u8>,
    cx: int,
    cy: int,
    xx: int,
    xy: int,
    yx: int,
    yy: int,
    j: int,
    l_num: int,
)
    requires
        xx * xx + yx * yx == 1,
        xy * xy + yy * yy == 1,
        xx * xy + yx * yy == 0,
        1 <= j,
        1 <= l_num,
        marks_in_wedge(before, after, cx, cy, xx, xy, yx, yy, j + 1),
        forall|m: int|
            1 <= m && l_num * (2 * m - 1) > 2 * j - 1 ==> #[trigger] axis_cell_kept(
                before,
                after,
                cx,
                cy,
                xx,
                xy,
                yx,
                yy,
                m,
            ),
    ensures
        forall|m: int| #[trigger] axis_cell_kept(before, after, cx, cy, xx, xy, yx, yy, m),
{
    assert forall|m: int| #[trigger] axis_cell_kept(before, after, cx, cy, xx, xy, yx, yy, m) by {
        if m >= j + 1 {
            assert(l_num * (2 * m - 1) >= 2 * m - 1) by (nonlinear_arith)
                requires
                    1 <= l_num,
                    m >= 1,
            ;
            assert(axis_cell_kept(before, after, cx, cy, xx, xy, yx, yy, m));
        } else {
            lemma_local_coords(cx, cy, 0, -m, xx, xy, yx, yy);
            let ax = octant_x(cx, 0, -m, xx, xy);
            let ay = octant_y(cy, 0, -m, yx, yy);
            if in_grid(ax, ay) {
                assert(!in_wedge(ax, ay, cx, cy, xx, xy, yx, yy, j + 1));
                assert(after[tile_index(ax, ay)] == before[tile_index(ax, ay)]);
            }
        }
    }
}

/// Marking one cell of the wedge changes no other axis cell and no tile outside the
/// wedge.
proof fn lemma_mark_cell(
    before: Seq<u8>,
    after: Seq<u8>,
    cx: int,
    cy: int,
    xx: int,
    xy: int,
    yx: int,
    yy: int,
    dx: int,
    dy: int,
    row: int,
)
    requires
        xx * xx + yx * yx == 1,
        xy * xy + yy * yy == 1,
        xx * xy + yx * yy == 0,
        in_grid(octant_x(cx, dx, dy, xx, xy), octant_y(cy, dx, dy, yx, yy)),
        after == before.update(
            tile_index(octant_x(cx, dx, dy, xx, xy), octant_y(cy, dx, dy, yx, yy)),
            255u8,
        ),
        before.len() >= GRID_SIZE,
        row <= -dy,
        dy <= dx <= 0,
    ensures
        marks_in_wedge(before, after, cx, cy, xx, xy, yx, yy, row),
        forall|m: int| (dx != 0 || m != -dy) ==> #[trigger] axis_cell_kept(before, after, cx, cy, xx, xy, yx, yy, m),
        forall|m: int| (dx != dy || m != -dy) ==> #[trigger] diag_cell_kept(before, after, cx, cy, xx, xy, yx, yy, m),
{
    let mx = octant_x(cx, dx, dy, xx, xy);
    let my = octant_y(cy, dx, dy, yx, yy);
    lemma_local_coords(cx, cy, dx, dy, xx, xy, yx, yy);
    assert forall|x: int, y: int| in_grid(x, y) && !in_wedge(x, y, cx, cy, xx, xy, yx, yy, row) implies #[trigger] after[tile_index(
        x,
        y,
    )] == before[tile_index(x, y)] by {
        if tile_index(x, y) == tile_index(mx, my) {
            assert(x == mx && y == my);
        }
    }
    assert forall|m: int| (dx != 0 || m != -dy) implies #[trigger] axis_cell_kept(before, after, cx, cy, xx, xy, yx, yy, m) by {
        lemma_local_coords(cx, cy, 0, -m, xx, xy, yx, yy);
        let ax = octant_x(cx, 0, -m, xx, xy);
        let ay = octant_y(cy, 0, -m, yx, yy);
        if in_grid(ax, ay) && tile_index(ax, ay) == tile_index(mx, my) {
            assert(ax == mx && ay == my);
        }
    }
    assert forall|m: int| (dx != dy || m != -dy) implies #[trigger] diag_cell_kept(before, after, cx, cy, xx, xy, yx, yy, m) by {
        lemma_local_coords(cx, cy, -m, -m, xx, xy, yx, yy);
        let ax = octant_x(cx, -m, -m, xx, xy);
        let ay = octant_y(cy, -m, -m, yx, yy);
        if in_grid(ax, ay) && tile_index(ax, ay) == tile_index(mx, my) {
            assert(ax == mx && ay == my);
        }
    }
}

proof fn lemma_axis_kept_trans(
    a: Seq<u8>,
    b: Seq<u8>,
    c: Seq<u8>,
    cx: int,
    cy: int,
    xx: int,
    xy: int,
    yx: int,
    yy: int,
)
    ensures
        forall|m: int|
            axis_cell_kept(a, b, cx, cy, xx, xy, yx, yy, m) && axis_cell_kept(b, c, cx, cy, xx, xy, yx, yy, m)
                ==> #[trigger] axis_cell_kept(a, c, cx, cy, xx, xy, yx, yy, m),
{
}

/// The octant's diagonal cell at distance m (octant-local (-m, -m)) is unchanged, when
/// in the grid.
pub open spec fn diag_cell_kept(
    before: Seq<u8>,
    after: Seq<u8>,
    cx: int,
    cy: int,
    xx: int,
    xy: int,
    yx: int,
    yy: int,
    m: int,
) -> bool {
    in_grid(octant_x(cx, -m, -m, xx, xy), octant_y(cy, -m, -m, yx, yy)) ==> after[tile_index(
        octant_x(cx, -m, -m, xx, xy),
        octant_y(cy, -m, -m, yx, yy),
    )] == before[tile_index(octant_x(cx, -m, -m, xx, xy), octant_y(cy, -m, -m, yx, yy))]
}

/// The octant's diagonal cell at distance k blocks the sightline arriving from the
/// cell of the row before it in the same column.
pub open spec fn diag_blocks(
    grid: Seq<u32>,
    wall_data: Seq<u16>,
    cx: int,
    cy: int,
    xx: int,
    xy: int,
    yx: int,
    yy: int,
    k: int,
) -> bool {
    spec_blocks_vision(
        grid,
        wall_data,
        octant_x(cx, -k, -k, xx, xy),
        octant_y(cy, -k, -k, yx, yy),
        octant_x(cx, -k, -k + 1, xx, xy),
        octant_y(cy, -k, -k + 1, yx, yy),
    )
}

/// Fractions with positive denominators: a_num / a_den <= b_num / b_den.
pub open spec fn frac_le(a_num: int, a_den: int, b_num: int, b_den: int) -> bool {
    a_num * b_den <= b_num * a_den
}

/// Fractions with positive denominators: a_num / a_den < b_num / b_den.
pub open spec fn frac_lt(a_num: int, a_den: int, b_num: int, b_den: int) -> bool {
    a_num * b_den < b_num * a_den
}

proof fn lemma_frac_trans(an: int, ad: int, bn: int, bd: int, cn: int, cd: int)
    requires
        0 < ad,
        0 < bd,
        0 < cd,
    ensures
        frac_le(an, ad, bn, bd) && frac_le(bn, bd, cn, cd) ==> frac_le(an, ad, cn, cd),
        frac_lt(an, ad, bn, bd) && frac_le(bn, bd, cn, cd) ==> frac_lt(an, ad, cn, cd),
        frac_le(an, ad, bn, bd) && frac_lt(bn, bd, cn, cd) ==> frac_lt(an, ad, cn, cd),
{
    assert((an * bd) * cd == (an * cd) * bd && (bn * ad) * cd == (bn * cd) * ad && (cn * bd) * ad
        == (cn * ad) * bd) by (nonlinear_arith);
    if an * bd <= bn * ad {
        assert((an * bd) * cd <= (bn * ad) * cd) by (nonlinear_arith)
            requires
                an * bd <= bn * ad,
                0 < cd,
        ;
    }
    if an * bd < bn * ad {
        assert((an * bd) * cd < (bn * ad) * cd) by (nonlinear_arith)
            requires
                an * bd < bn * ad,
                0 < cd,
        ;
    }
    if bn * cd <= cn * bd {
        assert((bn * cd) * ad <= (cn * bd) * ad) by (nonlinear_arith)
            requires
                bn * cd <= cn * bd,
                0 < ad,
        ;
    }
    if bn * cd < cn * bd {
        assert((bn * cd) * ad < (cn * bd) * ad) by (nonlinear_arith)
            requires
                bn * cd < cn * bd,
                0 < ad,
        ;
    }
    if (an * cd) * bd <= (cn * ad) * bd {
        assert(an * cd <= cn * ad) by (nonlinear_arith)
            requires
                (an * cd) * bd <= (cn * ad) * bd,
                0 < bd,
        ;
    }
    if (an * cd) * bd < (cn * ad) * bd {
        assert(an * cd < cn * ad) by (nonlinear_arith)
            requires
                (an * cd) * bd < (cn * ad) * bd,
                0 < bd,
        ;
    }
}

/// The right-edge slopes (2m - 1) / (2m + 1) of the diagonal cells grow with m, and
/// their left-edge slopes (2m + 1) / (2m - 1) shrink.
proof fn lemma_diag_slopes(k: int, m: int)
    requires
        1 <= k < m,
    ensures
        frac_lt(2 * k - 1, 2 * k + 1, 2 * m - 1, 2 * m + 1),
        frac_lt(2 * m + 1, 2 * m - 1, 2 * k + 1, 2 * k - 1),
{
    assert((2 * k - 1) * (2 * m + 1) < (2 * m - 1) * (2 * k + 1)) by (nonlinear_arith)
        requires
            1 <= k < m,
    ;
    assert((2 * m + 1) * (2 * k - 1) < (2 * k + 1) * (2 * m - 1)) by (nonlinear_arith)
        requires
            1 <= k < m,
    ;
}

/// The right-edge slope of any cell of row j is at most that of the row's diagonal cell.
proof fn lemma_row_slope_le_diag(dx: int, j: int)
    requires
        1 <= j,
        -j <= dx,
    ensures
        frac_le(-2 * dx - 1, 2 * j + 1, 2 * j - 1, 2 * j + 1),
{
    assert((-2 * dx - 1) * (2 * j + 1) <= (2 * j - 1) * (2 * j + 1)) by (nonlinear_arith)
        requires
            1 <= j,
            -j <= dx,
    ;
}

/// What a scan started at row j + 1 (from start slope s to end slope e) keeps of the
/// diagonal: the cells before row j + 1, and those whose right edge lies above s or
/// whose left edge lies below e.
proof fn lemma_child_keeps_diag(
    before: Seq<u8>,
    after: Seq<u8>,
    cx: int,
    cy: int,
    xx: int,
    xy: int,
    yx: int,
    yy: int,
    j: int,
    sn: int,
    sd: int,
    en: int,
    ed: int,
)
    requires
        xx * xx + yx * yx == 1,
        xy * xy + yy * yy == 1,
        xx * xy + yx * yy == 0,
        1 <= j,
        marks_in_wedge(before, after, cx, cy, xx, xy, yx, yy, j + 1),
        forall|m: int|
            1 <= m && frac_lt(sn, sd, 2 * m - 1, 2 * m + 1) ==> #[trigger] diag_cell_kept(
                before,
                after,
                cx,
                cy,
                xx,
                xy,
                yx,
                yy,
                m,
            ),
        forall|m: int|
            1 <= m && frac_lt(2 * m + 1, 2 * m - 1, en, ed) ==> #[trigger] diag_cell_kept(
                before,
                after,
                cx,
                cy,
                xx,
                xy,
                yx,
                yy,
                m,
            ),
    ensures
        forall|m: int|
            (m <= j || frac_lt(sn, sd, 2 * m - 1, 2 * m + 1) || frac_lt(2 * m + 1, 2 * m - 1, en, ed))
                ==> #[trigger] diag_cell_kept(before, after, cx, cy, xx, xy, yx, yy, m),
{
    assert forall|m: int|
        (m <= j || frac_lt(sn, sd, 2 * m - 1, 2 * m + 1) || frac_lt(2 * m + 1, 2 * m - 1, en, ed)) implies #[trigger] diag_cell_kept(
        before,
        after,
        cx,
        cy,
        xx,
        xy,
        yx,
        yy,
        m,
    ) by {
        if m <= j {
            lemma_local_coords(cx, cy, -m, -m, xx, xy, yx, yy);
            let ax = octant_x(cx, -m, -m, xx, xy);
            let ay = octant_y(cy, -m, -m, yx, yy);
            if in_grid(ax, ay) {
                assert(!in_wedge(ax, ay, cx, cy, xx, xy, yx, yy, j + 1));
                assert(after[tile_index(ax, ay)] == before[tile_index(ax, ay)]);
            }
        }
    }
}

proof fn lemma_diag_kept_trans(
    a: Seq<u8>,
    b: Seq<u8>,
    c: Seq<u8>,
    cx: int,
    cy: int,
    xx: int,
    xy: int,
    yx: int,
    yy: int,
)
    ensures
        forall|m: int|
            diag_cell_kept(a, b, cx, cy, xx, xy, yx, yy, m) && diag_cell_kept(b, c, cx, cy, xx, xy, yx, yy, m)
                ==> #[trigger] diag_cell_kept(a, c, cx, cy, xx, xy, yx, yy, m),
{
}

/// A diagonal cell farther than the radius is never marked.
proof fn lemma_far_diag_kept(
    a: Seq<u8>,
    b: Seq<u8>,
    cx: int,
    cy: int,
    radius: int,
    xx: int,
    xy: int,
    yx: int,
    yy: int,
    m: int,
)
    requires
        xx * xx + yx * yx == 1,
        xy * xy + yy * yy == 1,
        xx * xy + yx * yy == 0,
        only_marks_in_radius(a, b, cx, cy, radius),
        0 <= radius < m,
    ensures
        diag_cell_kept(a, b, cx, cy, xx, xy, yx, yy, m),
{
    let x = octant_x(cx, -m, -m, xx, xy);
    let y = octant_y(cy, -m, -m, yx, yy);
    lemma_octant_distance(-m, -m, xx, xy, yx, yy);
    assert((-m) * (-m) + (-m) * (-m) > radius * radius) by (nonlinear_arith)
        requires
            0 <= radius < m,
    ;
    assert(!within_radius(x, y, cx, cy, radius));
    assert(x != cx || y != cy) by (nonlinear_arith)
        requires
            (x - cx) * (x - cx) + (y - cy) * (y - cy) > radius * radius,
            0 <= radius,
    ;
    if in_grid(x, y) {
        assert(b[tile_index(x, y)] == a[tile_index(x, y)] || b[tile_index(x, y)] == 255);
    }
}

/// What a scan keeps of its octant's diagonal while it works through its rows
/// `row..j` with current start slope sn / sd: the start slope never grows past the
/// scan's own (sn0 / sd0), a diagonal cell right of the start slope or left of the end
/// slope is untouched, so is every diagonal cell behind a blocking diagonal cell of an
/// earlier row, and after such a cell the start slope stays at or below its right edge
/// (or the end slope lies beyond its left edge).
#[verifier::opaque]
pub open spec fn diag_scan_inv(
    grid: Seq<u32>,
    wall_data: Seq<u16>,
    orig: Seq<u8>,
    vis: Seq<u8>,
    cx: int,
    cy: int,
    xx: int,
    xy: int,
    yx: int,
    yy: int,
    row: int,
    j: int,
    radius: int,
    sn: int,
    sd: int,
    sn0: int,
    sd0: int,
    en: int,
    ed: int,
) -> bool {
    &&& frac_le(sn, sd, sn0, sd0)
    &&& forall|m: int|
        1 <= m && frac_lt(sn0, sd0, 2 * m - 1, 2 * m + 1) ==> #[trigger] diag_cell_kept(
            orig,
            vis,
            cx,
            cy,
            xx,
            xy,
            yx,
            yy,
            m,
        )
    &&& forall|m: int|
        1 <= m && frac_lt(2 * m + 1, 2 * m - 1, en, ed) ==> #[trigger] diag_cell_kept(
            orig,
            vis,
            cx,
            cy,
            xx,
            xy,
            yx,
            yy,
            m,
        )
    &&& forall|k: int, m: int|
        #![trigger diag_blocks(grid, wall_data, cx, cy, xx, xy, yx, yy, k), diag_cell_kept(orig, vis, cx, cy, xx, xy, yx, yy, m)]
        row <= k < j && k < m && k < radius && diag_blocks(grid, wall_data, cx, cy, xx, xy, yx, yy, k)
            ==> diag_cell_kept(orig, vis, cx, cy, xx, xy, yx, yy, m)
    &&& forall|k: int|
        row <= k < j && k < radius && #[trigger] diag_blocks(grid, wall_data, cx, cy, xx, xy, yx, yy, k)
            ==> frac_le(sn, sd, 2 * k - 1, 2 * k + 1) || frac_lt(2 * k + 1, 2 * k - 1, en, ed)
}

/// Every diagonal cell behind a blocking diagonal cell of row `lo` or later (within
/// the radius) is untouched.
#[verifier::opaque]
pub open spec fn diag_behind_kept(
    grid: Seq<u32>,
    wall_data: Seq<u16>,
    orig: Seq<u8>,
    vis: Seq<u8>,
    cx: int,
    cy: int,
    xx: int,
    xy: int,
    yx: int,
    yy: int,
    lo: int,
    radius: int,
) -> bool {
    forall|k: int, m: int|
        #![trigger diag_blocks(grid, wall_data, cx, cy, xx, xy, yx, yy, k), diag_cell_kept(orig, vis, cx, cy, xx, xy, yx, yy, m)]
        lo <= k < m && k < radius && diag_blocks(grid, wall_data, cx, cy, xx, xy, yx, yy, k)
            ==> diag_cell_kept(orig, vis, cx, cy, xx, xy, yx, yy, m)
}

/// A blocking diagonal cell in row j (within the radius) has every diagonal cell
/// behind it untouched.
#[verifier::opaque]
pub open spec fn diag_row_kept(
    grid: Seq<u32>,
    wall_data: Seq<u16>,
    orig: Seq<u8>,
    vis: Seq<u8>,
    cx: int,
    cy: int,
    xx: int,
    xy: int,
    yx: int,
    yy: int,
    j: int,
    radius: int,
) -> bool {
    j < radius && diag_blocks(grid, wall_data, cx, cy, xx, xy, yx, yy, j) ==> forall|m: int|
        m > j ==> #[trigger] diag_cell_kept(orig, vis, cx, cy, xx, xy, yx, yy, m)
}

/// A processed diagonal cell of row j (start slope at or above its right edge, end
/// slope at or below its left edge) cannot lie behind a blocking diagonal cell of an
/// earlier row k.
proof fn lemma_no_mark_behind(sn: int, sd: int, en: int, ed: int, k: int, j: int)
    requires
        1 <= k < j,
        0 < sd,
        0 < ed,
        frac_le(2 * j - 1, 2 * j + 1, sn, sd),
        frac_le(en, ed, 2 * j + 1, 2 * j - 1),
    ensures
        !frac_le(sn, sd, 2 * k - 1, 2 * k + 1),
        !frac_lt(2 * k + 1, 2 * k - 1, en, ed),
{
    lemma_diag_slopes(k, j);
    lemma_frac_trans(2 * j - 1, 2 * j + 1, sn, sd, 2 * k - 1, 2 * k + 1);
    lemma_frac_trans(2 * k + 1, 2 * k - 1, en, ed, 2 * j + 1, 2 * j - 1);
}

/// Marking the cell (dx, -j) of a processed row keeps what the scan knows of the
/// diagonal.
proof fn lemma_mark_keeps_diag(
    grid: Seq<u32>,
    wall_data: Seq<u16>,
    orig: Seq<u8>,
    before: Seq<u8>,
    after: Seq<u8>,
    cx: int,
    cy: int,
    xx: int,
    xy: int,
    yx: int,
    yy: int,
    row: int,
    j: int,
    dx: int,
    radius: int,
    sn: int,
    sd: int,
    sn0: int,
    sd0: int,
    en: int,
    ed: int,
)
    requires
        1 <= row <= j,
        -j <= dx <= 0,
        0 < sd,
        0 < sd0,
        0 < ed,
        diag_scan_inv(grid, wall_data, orig, before, cx, cy, xx, xy, yx, yy, row, j, radius, sn, sd, sn0, sd0, en, ed),
        diag_behind_kept(grid, wall_data, orig, before, cx, cy, xx, xy, yx, yy, j + 1, radius),
        diag_row_kept(grid, wall_data, orig, before, cx, cy, xx, xy, yx, yy, j, radius),
        forall|m: int| (dx != -j || m != j) ==> #[trigger] diag_cell_kept(before, after, cx, cy, xx, xy, yx, yy, m),
        dx == -j ==> frac_le(2 * j - 1, 2 * j + 1, sn, sd),
        dx == -j ==> frac_le(en, ed, 2 * j + 1, 2 * j - 1),
    ensures
        diag_scan_inv(grid, wall_data, orig, after, cx, cy, xx, xy, yx, yy, row, j, radius, sn, sd, sn0, sd0, en, ed),
        diag_behind_kept(grid, wall_data, orig, after, cx, cy, xx, xy, yx, yy, j + 1, radius),
        diag_row_kept(grid, wall_data, orig, after, cx, cy, xx, xy, yx, yy, j, radius),
{
    reveal(diag_scan_inv);
    reveal(diag_behind_kept);
    reveal(diag_row_kept);
    lemma_diag_kept_trans(orig, before, after, cx, cy, xx, xy, yx, yy);
    if dx == -j {
        lemma_frac_trans(2 * j - 1, 2 * j + 1, sn, sd, sn0, sd0);
        assert(diag_cell_kept(before, after, cx, cy, xx, xy, yx, yy, j) || !frac_lt(sn0, sd0, 2 * j - 1, 2 * j + 1));
        assert forall|k: int, m: int|
            row <= k < j && k < m && k < radius && #[trigger] diag_blocks(grid, wall_data, cx, cy, xx, xy, yx, yy, k)
                implies #[trigger] diag_cell_kept(orig, after, cx, cy, xx, xy, yx, yy, m) by {
            if m == j {
                lemma_no_mark_behind(sn, sd, en, ed, k, j);
            }
            assert(diag_cell_kept(orig, before, cx, cy, xx, xy, yx, yy, m));
            assert(diag_cell_kept(before, after, cx, cy, xx, xy, yx, yy, m));
        }
    }
}

/// A scan spawned in row j from cell dx (start slope sn / sd, end slope the cell's left
/// edge ln / ld) keeps what the spawning scan knows of the diagonal.
proof fn lemma_child_keeps_diag_inv(
    grid: Seq<u32>,
    wall_data: Seq<u16>,
    orig: Seq<u8>,
    before: Seq<u8>,
    after: Seq<u8>,
    cx: int,
    cy: int,
    xx: int,
    xy: int,
    yx: int,
    yy: int,
    row: int,
    j: int,
    dx: int,
    radius: int,
    sn: int,
    sd: int,
    sn0: int,
    sd0: int,
    en: int,
    ed: int,
    ln: int,
    ld: int,
)
    requires
        xx * xx + yx * yx == 1,
        xy * xy + yy * yy == 1,
        xx * xy + yx * yy == 0,
        1 <= row <= j,
        -j <= dx <= 0,
        0 < sd,
        0 < sd0,
        0 < ed,
        0 < ld,
        dx == -j ==> ln == 2 * j + 1 && ld == 2 * j - 1,
        frac_le(en, ed, ln, ld),
        j < radius && diag_blocks(grid, wall_data, cx, cy, xx, xy, yx, yy, j) && dx > -j ==> frac_le(
            sn,
            sd,
            2 * j - 1,
            2 * j + 1,
        ),
        diag_scan_inv(grid, wall_data, orig, before, cx, cy, xx, xy, yx, yy, row, j, radius, sn, sd, sn0, sd0, en, ed),
        diag_behind_kept(grid, wall_data, orig, before, cx, cy, xx, xy, yx, yy, j + 1, radius),
        diag_row_kept(grid, wall_data, orig, before, cx, cy, xx, xy, yx, yy, j, radius),
        marks_in_wedge(before, after, cx, cy, xx, xy, yx, yy, j + 1),
        forall|m: int|
            1 <= m && frac_lt(sn, sd, 2 * m - 1, 2 * m + 1) ==> #[trigger] diag_cell_kept(before, after, cx, cy, xx, xy, yx, yy, m),
        forall|m: int|
            1 <= m && frac_lt(2 * m + 1, 2 * m - 1, ln, ld) ==> #[trigger] diag_cell_kept(before, after, cx, cy, xx, xy, yx, yy, m),
        forall|k: int, m: int|
            #![trigger diag_blocks(grid, wall_data, cx, cy, xx, xy, yx, yy, k), diag_cell_kept(before, after, cx, cy, xx, xy, yx, yy, m)]
            j + 1 <= k < m && diag_blocks(grid, wall_data, cx, cy, xx, xy, yx, yy, k) ==> diag_cell_kept(before, after, cx, cy, xx, xy, yx, yy, m),
    ensures
        diag_scan_inv(grid, wall_data, orig, after, cx, cy, xx, xy, yx, yy, row, j, radius, sn, sd, sn0, sd0, en, ed),
        diag_behind_kept(grid, wall_data, orig, after, cx, cy, xx, xy, yx, yy, j + 1, radius),
        diag_row_kept(grid, wall_data, orig, after, cx, cy, xx, xy, yx, yy, j, radius),
{
    reveal(diag_scan_inv);
    reveal(diag_behind_kept);
    reveal(diag_row_kept);
    lemma_child_keeps_diag(before, after, cx, cy, xx, xy, yx, yy, j, sn, sd, ln, ld);
    lemma_diag_kept_trans(orig, before, after, cx, cy, xx, xy, yx, yy);
    assert forall|m: int| 1 <= m && frac_lt(sn0, sd0, 2 * m - 1, 2 * m + 1) implies #[trigger] diag_cell_kept(
        orig,
        after,
        cx,
        cy,
        xx,
        xy,
        yx,
        yy,
        m,
    ) by {
        lemma_frac_trans(sn, sd, sn0, sd0, 2 * m - 1, 2 * m + 1);
        assert(diag_cell_kept(orig, before, cx, cy, xx, xy, yx, yy, m));
        assert(diag_cell_kept(before, after, cx, cy, xx, xy, yx, yy, m));
    }
    assert forall|m: int| 1 <= m && frac_lt(2 * m + 1, 2 * m - 1, en, ed) implies #[trigger] diag_cell_kept(
        orig,
        after,
        cx,
        cy,
        xx,
        xy,
        yx,
        yy,
        m,
    ) by {
        lemma_frac_trans(2 * m + 1, 2 * m - 1, en, ed, ln, ld);
        assert(diag_cell_kept(orig, before, cx, cy, xx, xy, yx, yy, m));
        assert(diag_cell_kept(before, after, cx, cy, xx, xy, yx, yy, m));
    }
    assert forall|k: int, m: int|
        row <= k < j && k < m && k < radius && #[trigger] diag_blocks(grid, wall_data, cx, cy, xx, xy, yx, yy, k)
            implies #[trigger] diag_cell_kept(orig, after, cx, cy, xx, xy, yx, yy, m) by {
        assert(diag_cell_kept(orig, before, cx, cy, xx, xy, yx, yy, m));
        if m > j {
            lemma_diag_slopes(k, m);
            lemma_frac_trans(sn, sd, 2 * k - 1, 2 * k + 1, 2 * m - 1, 2 * m + 1);
            lemma_frac_trans(2 * m + 1, 2 * m - 1, 2 * k + 1, 2 * k - 1, en, ed);
            lemma_frac_trans(2 * m + 1, 2 * m - 1, en, ed, ln, ld);
        }
        assert(diag_cell_kept(before, after, cx, cy, xx, xy, yx, yy, m));
    }
    assert forall|k: int, m: int|
        j + 1 <= k < m && k < radius && #[trigger] diag_blocks(grid, wall_data, cx, cy, xx, xy, yx, yy, k)
            implies #[trigger] diag_cell_kept(orig, after, cx, cy, xx, xy, yx, yy, m) by {
        assert(diag_cell_kept(orig, before, cx, cy, xx, xy, yx, yy, m));
        assert(diag_cell_kept(before, after, cx, cy, xx, xy, yx, yy, m));
    }
    if j < radius && diag_blocks(grid, wall_data, cx, cy, xx, xy, yx, yy, j) {
        assert forall|m: int| m > j implies #[trigger] diag_cell_kept(orig, after, cx, cy, xx, xy, yx, yy, m) by {
            assert(diag_cell_kept(orig, before, cx, cy, xx, xy, yx, yy, m));
            lemma_diag_slopes(j, m);
            if dx > -j {
                lemma_frac_trans(sn, sd, 2 * j - 1, 2 * j + 1, 2 * m - 1, 2 * m + 1);
            }
            assert(diag_cell_kept(before, after, cx, cy, xx, xy, yx, yy, m));
        }
    }
}

/// Lowering the start slope keeps what the scan knows of the diagonal.
proof fn lemma_lower_start(
    grid: Seq<u32>,
    wall_data: Seq<u16>,
    orig: Seq<u8>,
    vis: Seq<u8>,
    cx: int,
    cy: int,
    xx: int,
    xy: int,
    yx: int,
    yy: int,
    row: int,
    j: int,
    radius: int,
    sn: int,
    sd: int,
    new_sn: int,
    new_sd: int,
    sn0: int,
    sd0: int,
    en: int,
    ed: int,
)
    requires
        1 <= row,
        0 < sd,
        0 < new_sd,
        0 < sd0,
        frac_le(new_sn, new_sd, sn, sd),
        diag_scan_inv(grid, wall_data, orig, vis, cx, cy, xx, xy, yx, yy, row, j, radius, sn, sd, sn0, sd0, en, ed),
    ensures
        diag_scan_inv(grid, wall_data, orig, vis, cx, cy, xx, xy, yx, yy, row, j, radius, new_sn, new_sd, sn0, sd0, en, ed),
{
    reveal(diag_scan_inv);
    reveal(diag_behind_kept);
    reveal(diag_row_kept);
    lemma_frac_trans(new_sn, new_sd, sn, sd, sn0, sd0);
    assert forall|k: int|
        row <= k < j && k < radius && #[trigger] diag_blocks(grid, wall_data, cx, cy, xx, xy, yx, yy, k)
            implies frac_le(new_sn, new_sd, 2 * k - 1, 2 * k + 1) || frac_lt(2 * k + 1, 2 * k - 1, en, ed) by {
        lemma_frac_trans(new_sn, new_sd, sn, sd, 2 * k - 1, 2 * k + 1);
    }
}

/// After row j: what holds behind a blocking diagonal cell of row j joins what holds
/// for the rows before it.
proof fn lemma_diag_next_row(
    grid: Seq<u32>,
    wall_data: Seq<u16>,
    orig: Seq<u8>,
    vis: Seq<u8>,
    cx: int,
    cy: int,
    xx: int,
    xy: int,
    yx: int,
    yy: int,
    row: int,
    j: int,
    radius: int,
    sn: int,
    sd: int,
    sn0: int,
    sd0: int,
    en: int,
    ed: int,
)
    requires
        row <= j,
        diag_scan_inv(grid, wall_data, orig, vis, cx, cy, xx, xy, yx, yy, row, j, radius, sn, sd, sn0, sd0, en, ed),
        diag_row_kept(grid, wall_data, orig, vis, cx, cy, xx, xy, yx, yy, j, radius),
        j < radius && diag_blocks(grid, wall_data, cx, cy, xx, xy, yx, yy, j) ==> frac_le(sn, sd, 2 * j - 1, 2 * j + 1)
            || frac_lt(2 * j + 1, 2 * j - 1, en, ed),
    ensures
        diag_scan_inv(grid, wall_data, orig, vis, cx, cy, xx, xy, yx, yy, row, j + 1, radius, sn, sd, sn0, sd0, en, ed),
{
    reveal(diag_scan_inv);
    reveal(diag_behind_kept);
    reveal(diag_row_kept);
    assert forall|k: int, m: int|
        row <= k < j + 1 && k < m && k < radius && #[trigger] diag_blocks(grid, wall_data, cx, cy, xx, xy, yx, yy, k)
            implies #[trigger] diag_cell_kept(orig, vis, cx, cy, xx, xy, yx, yy, m) by {
    }
}

/// The rows behind a blocking diagonal cell, gathered: rows before j, row j, and rows
/// after it.
proof fn lemma_diag_behind_combine(
    grid: Seq<u32>,
    wall_data: Seq<u16>,
    orig: Seq<u8>,
    vis: Seq<u8>,
    cx: int,
    cy: int,
    xx: int,
    xy: int,
    yx: int,
    yy: int,
    row: int,
    j: int,
    radius: int,
    sn: int,
    sd: int,
    sn0: int,
    sd0: int,
    en: int,
    ed: int,
)
    requires
        diag_scan_inv(grid, wall_data, orig, vis, cx, cy, xx, xy, yx, yy, row, j, radius, sn, sd, sn0, sd0, en, ed),
        diag_behind_kept(grid, wall_data, orig, vis, cx, cy, xx, xy, yx, yy, j, radius),
    ensures
        diag_behind_kept(grid, wall_data, orig, vis, cx, cy, xx, xy, yx, yy, row, radius),
{
    reveal(diag_scan_inv);
    reveal(diag_behind_kept);
    reveal(diag_row_kept);
    assert forall|k: int, m: int|
        row <= k < m && k < radius && #[trigger] diag_blocks(grid, wall_data, cx, cy, xx, xy, yx, yy, k)
            implies #[trigger] diag_cell_kept(orig, vis, cx, cy, xx, xy, yx, yy, m) by {
    }
}

proof fn lemma_diag_row_combine(
    grid: Seq<u32>,
    wall_data: Seq<u16>,
    orig: Seq<u8>,
    vis: Seq<u8>,
    cx: int,
    cy: int,
    xx: int,
    xy: int,
    yx: int,
    yy: int,
    j: int,
    radius: int,
)
    requires
        diag_row_kept(grid, wall_data, orig, vis, cx, cy, xx, xy, yx, yy, j, radius),
        diag_behind_kept(grid, wall_data, orig, vis, cx, cy, xx, xy, yx, yy, j + 1, radius),
    ensures
        diag_behind_kept(grid, wall_data, orig, vis, cx, cy, xx, xy, yx, yy, j, radius),
{
    reveal(diag_scan_inv);
    reveal(diag_behind_kept);
    reveal(diag_row_kept);
    assert forall|k: int, m: int|
        j <= k < m && k < radius && #[trigger] diag_blocks(grid, wall_data, cx, cy, xx, xy, yx, yy, k)
            implies #[trigger] diag_cell_kept(orig, vis, cx, cy, xx, xy, yx, yy, m) by {
    }
}

proof fn lemma_diag_split(
    grid: Seq<u32>,
    wall_data: Seq<u16>,
    orig: Seq<u8>,
    vis: Seq<u8>,
    cx: int,
    cy: int,
    xx: int,
    xy: int,
    yx: int,
    yy: int,
    j: int,
    radius: int,
)
    requires
        diag_behind_kept(grid, wall_data, orig, vis, cx, cy, xx, xy, yx, yy, j, radius),
    ensures
        diag_behind_kept(grid, wall_data, orig, vis, cx, cy, xx, xy, yx, yy, j + 1, radius),
        diag_row_kept(grid, wall_data, orig, vis, cx, cy, xx, xy, yx, yy, j, radius),
{
    reveal(diag_scan_inv);
    reveal(diag_behind_kept);
    reveal(diag_row_kept);
    if j < radius && diag_blocks(grid, wall_data, cx, cy, xx, xy, yx, yy, j) {
        assert forall|m: int| m > j implies #[trigger] diag_cell_kept(orig, vis, cx, cy, xx, xy, yx, yy, m) by {
        }
    }
}

/// Before any row is scanned the scan knows everything of the diagonal.
proof fn lemma_diag_init(
    grid: Seq<u32>,
    wall_data: Seq<u16>,
    orig: Seq<u8>,
    cx: int,
    cy: int,
    xx: int,
    xy: int,
    yx: int,
    yy: int,
    row: int,
    radius: int,
    sn0: int,
    sd0: int,
    en: int,
    ed: int,
)
    ensures
        diag_scan_inv(grid, wall_data, orig, orig, cx, cy, xx, xy, yx, yy, row, row, radius, sn0, sd0, sn0, sd0, en, ed),
        diag_behind_kept(grid, wall_data, orig, orig, cx, cy, xx, xy, yx, yy, row, radius),
{
    reveal(diag_scan_inv);
    reveal(diag_behind_kept);
}

/// At the end of a scan: what it keeps of the diagonal, in the terms of its contract.
proof fn lemma_diag_final(
    grid: Seq<u32>,
    wall_data: Seq<u16>,
    orig: Seq<u8>,
    vis: Seq<u8>,
    cx: int,
    cy: int,
    xx: int,
    xy: int,
    yx: int,
    yy: int,
    row: int,
    j: int,
    radius: int,
    sn: int,
    sd: int,
    sn0: int,
    sd0: int,
    en: int,
    ed: int,
)
    requires
        xx * xx + yx * yx == 1,
        xy * xy + yy * yy == 1,
        xx * xy + yx * yy == 0,
        0 <= radius,
        only_marks_in_radius(orig, vis, cx, cy, radius),
        diag_scan_inv(grid, wall_data, orig, vis, cx, cy, xx, xy, yx, yy, row, j, radius, sn, sd, sn0, sd0, en, ed),
        diag_behind_kept(grid, wall_data, orig, vis, cx, cy, xx, xy, yx, yy, j, radius),
    ensures
        forall|m: int|
            1 <= m && frac_lt(sn0, sd0, 2 * m - 1, 2 * m + 1) ==> #[trigger] diag_cell_kept(orig, vis, cx, cy, xx, xy, yx, yy, m),
        forall|m: int|
            1 <= m && frac_lt(2 * m + 1, 2 * m - 1, en, ed) ==> #[trigger] diag_cell_kept(orig, vis, cx, cy, xx, xy, yx, yy, m),
        forall|k: int, m: int|
            #![trigger diag_blocks(grid, wall_data, cx, cy, xx, xy, yx, yy, k), diag_cell_kept(orig, vis, cx, cy, xx, xy, yx, yy, m)]
            row <= k < m && diag_blocks(grid, wall_data, cx, cy, xx, xy, yx, yy, k) ==> diag_cell_kept(orig, vis, cx, cy, xx, xy, yx, yy, m),
{
    lemma_diag_behind_combine(grid, wall_data, orig, vis, cx, cy, xx, xy, yx, yy, row, j, radius, sn, sd, sn0, sd0, en, ed);
    reveal(diag_scan_inv);
    reveal(diag_behind_kept);
    assert forall|k: int, m: int|
        row <= k < m && #[trigger] diag_blocks(grid, wall_data, cx, cy, xx, xy, yx, yy, k)
            implies #[trigger] diag_cell_kept(orig, vis, cx, cy, xx, xy, yx, yy, m) by {
        if k >= radius {
            lemma_far_diag_kept(orig, vis, cx, cy, radius, xx, xy, yx, yy, m);
        }
    }
}

/// The octant's axis cell at distance m is marked, when in the grid.
pub open spec fn axis_marked(vis: Seq<u8>, cx: int, cy: int, xx: int, xy: int, yx: int, yy: int, m: int) -> bool {
    in_grid(octant_x(cx, 0, -m, xx, xy), octant_y(cy, 0, -m, yx, yy)) ==> vis[tile_index(
        octant_x(cx, 0, -m, xx, xy),
        octant_y(cy, 0, -m, yx, yy),
    )] == 255
}

/// The octant's diagonal cell at distance m is marked, when in the grid.
pub open spec fn diag_marked(vis: Seq<u8>, cx: int, cy: int, xx: int, xy: int, yx: int, yy: int, m: int) -> bool {
    in_grid(octant_x(cx, -m, -m, xx, xy), octant_y(cy, -m, -m, yx, yy)) ==> vis[tile_index(
        octant_x(cx, -m, -m, xx, xy),
        octant_y(cy, -m, -m, yx, yy),
    )] == 255
}

/// No axis cell of distances lo..m blocks.
#[verifier::opaque]
pub open spec fn axis_clear(grid: Seq<u32>, wall_data: Seq<u16>, cx: int, cy: int, xx: int, xy: int, yx: int, yy: int, lo: int, m: int) -> bool {
    forall|k: int| lo <= k < m ==> !#[trigger] axis_blocks(grid, wall_data, cx, cy, xx, xy, yx, yy, k)
}

/// No diagonal cell of distances lo..m blocks.
#[verifier::opaque]
pub open spec fn diag_clear(grid: Seq<u32>, wall_data: Seq<u16>, cx: int, cy: int, xx: int, xy: int, yx: int, yy: int, lo: int, m: int) -> bool {
    forall|k: int| lo <= k < m ==> !#[trigger] diag_blocks(grid, wall_data, cx, cy, xx, xy, yx, yy, k)
}

/// Every axis cell of distances lo..hi is marked.
#[verifier::opaque]
pub open spec fn axis_seen_upto(vis: Seq<u8>, cx: int, cy: int, xx: int, xy: int, yx: int, yy: int, lo: int, hi: int) -> bool {
    forall|m: int| lo <= m < hi ==> #[trigger] axis_marked(vis, cx, cy, xx, xy, yx, yy, m)
}

/// Every axis cell from distance lo up to the radius, with no blocking axis cell from
/// lo on before it, is marked.
#[verifier::opaque]
pub open spec fn axis_seen_from(
    grid: Seq<u32>,
    wall_data: Seq<u16>,
    vis: Seq<u8>,
    cx: int,
    cy: int,
    xx: int,
    xy: int,
    yx: int,
    yy: int,
    radius: int,
    lo: int,
) -> bool {
    forall|m: int|
        lo <= m <= radius && axis_clear(grid, wall_data, cx, cy, xx, xy, yx, yy, lo, m) ==> #[trigger] axis_marked(
            vis,
            cx,
            cy,
            xx,
            xy,
            yx,
            yy,
            m,
        )
}

/// Every diagonal cell of distances lo..hi within the radius, with no blocking
/// diagonal cell from lo on before it, is marked.
#[verifier::opaque]
pub open spec fn diag_seen_upto(
    grid: Seq<u32>,
    wall_data: Seq<u16>,
    vis: Seq<u8>,
    cx: int,
    cy: int,
    xx: int,
    xy: int,
    yx: int,
    yy: int,
    radius: int,
    lo: int,
    hi: int,
) -> bool {
    forall|m: int|
        lo <= m < hi && m <= radius && m * m + m * m <= radius * radius && diag_clear(grid, wall_data, cx, cy, xx, xy, yx, yy, lo, m)
            ==> #[trigger] diag_marked(vis, cx, cy, xx, xy, yx, yy, m)
}

/// Every diagonal cell from distance lo on within the radius, with no blocking
/// diagonal cell from lo on before it, is marked.
#[verifier::opaque]
pub open spec fn diag_seen_from(
    grid: Seq<u32>,
    wall_data: Seq<u16>,
    vis: Seq<u8>,
    cx: int,
    cy: int,
    xx: int,
    xy: int,
    yx: int,
    yy: int,
    radius: int,
    lo: int,
) -> bool {
    forall|m: int|
        lo <= m && m <= radius && m * m + m * m <= radius * radius && diag_clear(grid, wall_data, cx, cy, xx, xy, yx, yy, lo, m)
            ==> #[trigger] diag_marked(vis, cx, cy, xx, xy, yx, yy, m)
}

/// Marked grid tiles stay marked.
pub open spec fn keeps_marks(a: Seq<u8>, b: Seq<u8>) -> bool {
    forall|x: int, y: int| in_grid(x, y) && a[tile_index(x, y)] == 255 ==> #[trigger] b[tile_index(x, y)] == 255
}

proof fn lemma_only_marks_keeps(a: Seq<u8>, b: Seq<u8>, cx: int, cy: int, r: int)
    requires
        only_marks_in_radius(a, b, cx, cy, r),
    ensures
        keeps_marks(a, b),
{
    assert forall|x: int, y: int| in_grid(x, y) && a[tile_index(x, y)] == 255 implies #[trigger] b[tile_index(x, y)] == 255 by {
        assert(b[tile_index(x, y)] == a[tile_index(x, y)] || b[tile_index(x, y)] == 255);
    }
}

/// What is seen stays seen when only marks are added.
proof fn lemma_seen_persist(
    grid: Seq<u32>,
    wall_data: Seq<u16>,
    a: Seq<u8>,
    b: Seq<u8>,
    cx: int,
    cy: int,
    xx: int,
    xy: int,
    yx: int,
    yy: int,
    radius: int,
    lo: int,
    hi: int,
)
    requires
        keeps_marks(a, b),
    ensures
        axis_seen_upto(a, cx, cy, xx, xy, yx, yy, lo, hi) ==> axis_seen_upto(b, cx, cy, xx, xy, yx, yy, lo, hi),
        diag_seen_upto(grid, wall_data, a, cx, cy, xx, xy, yx, yy, radius, lo, hi) ==> diag_seen_upto(grid, wall_data, b, cx, cy, xx, xy, yx, yy, radius, lo, hi),
        diag_seen_from(grid, wall_data, a, cx, cy, xx, xy, yx, yy, radius, hi) ==> diag_seen_from(grid, wall_data, b, cx, cy, xx, xy, yx, yy, radius, hi),
        axis_seen_from(grid, wall_data, a, cx, cy, xx, xy, yx, yy, radius, lo) ==> axis_seen_from(grid, wall_data, b, cx, cy, xx, xy, yx, yy, radius, lo),
        diag_seen_from(grid, wall_data, a, cx, cy, xx, xy, yx, yy, radius, lo) ==> diag_seen_from(grid, wall_data, b, cx, cy, xx, xy, yx, yy, radius, lo),
        axis_marked(a, cx, cy, xx, xy, yx, yy, hi) ==> axis_marked(b, cx, cy, xx, xy, yx, yy, hi),
        diag_marked(a, cx, cy, xx, xy, yx, yy, hi) ==> diag_marked(b, cx, cy, xx, xy, yx, yy, hi),
{
    reveal(axis_clear);
    reveal(diag_clear);
    reveal(axis_seen_upto);
    reveal(diag_seen_upto);
    reveal(diag_seen_from);
    reveal(axis_seen_from);
    assert forall|m: int| axis_marked(a, cx, cy, xx, xy, yx, yy, m) implies #[trigger] axis_marked(b, cx, cy, xx, xy, yx, yy, m) by {
        let x = octant_x(cx, 0, -m, xx, xy);
        let y = octant_y(cy, 0, -m, yx, yy);
        if in_grid(x, y) {
            assert(b[tile_index(x, y)] == 255);
        }
    }
    assert forall|m: int| diag_marked(a, cx, cy, xx, xy, yx, yy, m) implies #[trigger] diag_marked(b, cx, cy, xx, xy, yx, yy, m) by {
        let x = octant_x(cx, -m, -m, xx, xy);
        let y = octant_y(cy, -m, -m, yx, yy);
        if in_grid(x, y) {
            assert(b[tile_index(x, y)] == 255);
        }
    }
}

proof fn lemma_mark_keeps(a: Seq<u8>, i: int)
    requires
        0 <= i < a.len(),
        a.len() >= GRID_SIZE,
    ensures
        keeps_marks(a, a.update(i, 255u8)),
{
}

/// Nothing is owed before the first row is scanned; a blocking axis cell j closes the
/// axis for every distance past it.
proof fn lemma_seen_init(grid: Seq<u32>, wall_data: Seq<u16>, vis: Seq<u8>, cx: int, cy: int, xx: int, xy: int, yx: int, yy: int, radius: int, lo: int, j: int)
    requires
        lo <= j,
    ensures
        axis_seen_upto(vis, cx, cy, xx, xy, yx, yy, lo, lo),
        diag_seen_upto(grid, wall_data, vis, cx, cy, xx, xy, yx, yy, radius, lo, lo),
        axis_blocks(grid, wall_data, cx, cy, xx, xy, yx, yy, j) ==> !axis_clear(grid, wall_data, cx, cy, xx, xy, yx, yy, lo, j + 1),
{
    reveal(axis_seen_upto);
    reveal(diag_seen_upto);
    reveal(axis_clear);
}

/// What a scan of row j, at cell dx, owes of the axis (when its end slope is 0) and of
/// the diagonal (when its start slope is 1 and its end slope at most 1): the earlier
/// rows' axis and diagonal cells are seen; once past them, row j's too; past the axis
/// cell a blocked run means the axis cell blocks; and the rest of the diagonal is
/// seen by this scan (start slope still 1 and no blocked run), by a scan it handed it
/// to, or lies behind a blocking diagonal cell or beyond the radius.
#[verifier::opaque]
pub open spec fn lower_cell_inv(
    grid: Seq<u32>,
    wall_data: Seq<u16>,
    vis: Seq<u8>,
    cx: int,
    cy: int,
    xx: int,
    xy: int,
    yx: int,
    yy: int,
    radius: int,
    row: int,
    j: int,
    dx: int,
    e0: bool,
    s1: bool,
    start_one: bool,
    blocked: bool,
) -> bool {
    &&& e0 ==> axis_seen_upto(vis, cx, cy, xx, xy, yx, yy, row, j)
    &&& e0 && dx == 1 ==> axis_marked(vis, cx, cy, xx, xy, yx, yy, j)
    &&& e0 && dx == 1 && blocked ==> axis_blocks(grid, wall_data, cx, cy, xx, xy, yx, yy, j)
    &&& s1 ==> diag_seen_upto(grid, wall_data, vis, cx, cy, xx, xy, yx, yy, radius, row, j)
    &&& s1 && dx == -j ==> start_one || diag_seen_from(grid, wall_data, vis, cx, cy, xx, xy, yx, yy, radius, j) || !diag_clear(grid, wall_data, cx, cy, xx, xy, yx, yy, row, j)
    &&& s1 && dx > -j ==> diag_seen_upto(grid, wall_data, vis, cx, cy, xx, xy, yx, yy, radius, row, j + 1)
    &&& s1 ==> (start_one && !blocked) || diag_seen_from(grid, wall_data, vis, cx, cy, xx, xy, yx, yy, radius, j + 1) || !diag_clear(grid, wall_data, cx, cy, xx, xy, yx, yy, row, j + 1)
        || j >= radius
}

/// At the start of row j.
proof fn lemma_lower_row_start(
    grid: Seq<u32>,
    wall_data: Seq<u16>,
    vis: Seq<u8>,
    cx: int,
    cy: int,
    xx: int,
    xy: int,
    yx: int,
    yy: int,
    radius: int,
    row: int,
    j: int,
    e0: bool,
    s1: bool,
    start_one: bool,
)
    requires
        1 <= row <= j <= radius,
        e0 ==> axis_seen_upto(vis, cx, cy, xx, xy, yx, yy, row, j),
        s1 ==> diag_seen_upto(grid, wall_data, vis, cx, cy, xx, xy, yx, yy, radius, row, j),
        s1 ==> start_one || diag_seen_from(grid, wall_data, vis, cx, cy, xx, xy, yx, yy, radius, j) || !diag_clear(grid, wall_data, cx, cy, xx, xy, yx, yy, row, j) || j > radius,
    ensures
        lower_cell_inv(grid, wall_data, vis, cx, cy, xx, xy, yx, yy, radius, row, j, -j, e0, s1, start_one, false),
{
    reveal(lower_cell_inv);
    lemma_diag_seen_step(grid, wall_data, vis, cx, cy, xx, xy, yx, yy, radius, row, j);
    if s1 && !start_one {
        if diag_blocks(grid, wall_data, cx, cy, xx, xy, yx, yy, j) {
            assert(!diag_clear(grid, wall_data, cx, cy, xx, xy, yx, yy, row, j + 1));
        } else if diag_seen_from(grid, wall_data, vis, cx, cy, xx, xy, yx, yy, radius, j) {
            assert(diag_seen_from(grid, wall_data, vis, cx, cy, xx, xy, yx, yy, radius, j + 1));
        }
    }
}

/// Skipping cell dx (its right edge lies above the start slope).
proof fn lemma_lower_cell_skip(
    grid: Seq<u32>,
    wall_data: Seq<u16>,
    vis: Seq<u8>,
    cx: int,
    cy: int,
    xx: int,
    xy: int,
    yx: int,
    yy: int,
    radius: int,
    row: int,
    j: int,
    dx: int,
    e0: bool,
    s1: bool,
    start_one: bool,
    blocked: bool,
)
    requires
        row <= j,
        -j <= dx <= 0,
        lower_cell_inv(grid, wall_data, vis, cx, cy, xx, xy, yx, yy, radius, row, j, dx, e0, s1, start_one, blocked),
        e0 ==> dx != 0,
        s1 && dx == -j ==> !start_one && !blocked,
    ensures
        lower_cell_inv(grid, wall_data, vis, cx, cy, xx, xy, yx, yy, radius, row, j, dx + 1, e0, s1, start_one, blocked),
{
    reveal(lower_cell_inv);
    if s1 && dx == -j {
        lemma_diag_row_done(grid, wall_data, vis, cx, cy, xx, xy, yx, yy, radius, row, j);
    }
}

/// Processing cell dx: the scan marks it (vis0 to vis_m), then handles a blocked run,
/// perhaps handing part of the octant to a narrower scan (vis_m to vis1).
proof fn lemma_lower_cell_step(
    grid: Seq<u32>,
    wall_data: Seq<u16>,
    vis0: Seq<u8>,
    vis_m: Seq<u8>,
    vis1: Seq<u8>,
    cx: int,
    cy: int,
    xx: int,
    xy: int,
    yx: int,
    yy: int,
    radius: int,
    row: int,
    j: int,
    dx: int,
    e0: bool,
    s1: bool,
    start_one0: bool,
    start_one1: bool,
    blocked0: bool,
    blocked1: bool,
    bh: bool,
)
    requires
        row <= j <= radius,
        -j <= dx <= 0,
        lower_cell_inv(grid, wall_data, vis0, cx, cy, xx, xy, yx, yy, radius, row, j, dx, e0, s1, start_one0, blocked0),
        keeps_marks(vis0, vis_m),
        keeps_marks(vis_m, vis1),
        e0 && dx == 0 ==> axis_marked(vis_m, cx, cy, xx, xy, yx, yy, j),
        s1 && dx == -j && start_one0 ==> diag_marked(vis_m, cx, cy, xx, xy, yx, yy, j) || !(j * j + j * j <= radius * radius),
        dx == 0 ==> bh == axis_blocks(grid, wall_data, cx, cy, xx, xy, yx, yy, j),
        dx == -j ==> bh == diag_blocks(grid, wall_data, cx, cy, xx, xy, yx, yy, j),
        dx == -j ==> !blocked0,
        blocked0 ==> blocked1 == bh && (bh ==> start_one1 == start_one0),
        !blocked0 ==> blocked1 == (bh && j < radius) && start_one1 == start_one0,
        !blocked0 && bh && j < radius && s1 && start_one0 && dx > -j ==> diag_seen_from(grid, wall_data, vis1, cx, cy, xx, xy, yx, yy, radius, j + 1),
    ensures
        lower_cell_inv(grid, wall_data, vis1, cx, cy, xx, xy, yx, yy, radius, row, j, dx + 1, e0, s1, start_one1, blocked1),
{
    reveal(lower_cell_inv);
    lemma_seen_persist(grid, wall_data, vis0, vis_m, cx, cy, xx, xy, yx, yy, radius, row, j);
    lemma_seen_persist(grid, wall_data, vis0, vis_m, cx, cy, xx, xy, yx, yy, radius, row, j + 1);
    lemma_seen_persist(grid, wall_data, vis_m, vis1, cx, cy, xx, xy, yx, yy, radius, row, j);
    lemma_seen_persist(grid, wall_data, vis_m, vis1, cx, cy, xx, xy, yx, yy, radius, row, j + 1);
    lemma_diag_seen_step(grid, wall_data, vis1, cx, cy, xx, xy, yx, yy, radius, row, j);
    if s1 && dx == -j {
        lemma_diag_row_done(grid, wall_data, vis_m, cx, cy, xx, xy, yx, yy, radius, row, j);
        lemma_seen_persist(grid, wall_data, vis_m, vis1, cx, cy, xx, xy, yx, yy, radius, row, j + 1);
    }
}

/// At the end of row j: what the row adds to the axis and the diagonal.
proof fn lemma_lower_row_end(
    grid: Seq<u32>,
    wall_data: Seq<u16>,
    vis: Seq<u8>,
    cx: int,
    cy: int,
    xx: int,
    xy: int,
    yx: int,
    yy: int,
    radius: int,
    row: int,
    j: int,
    dx: int,
    e0: bool,
    s1: bool,
    start_one: bool,
    blocked: bool,
)
    requires
        row <= j,
        lower_cell_inv(grid, wall_data, vis, cx, cy, xx, xy, yx, yy, radius, row, j, dx, e0, s1, start_one, blocked),
        e0 ==> dx == 1,
        s1 ==> dx > -j,
    ensures
        e0 ==> axis_seen_upto(vis, cx, cy, xx, xy, yx, yy, row, j + 1) && (blocked ==> axis_blocks(grid, wall_data, cx, cy, xx, xy, yx, yy, j)),
        s1 ==> diag_seen_upto(grid, wall_data, vis, cx, cy, xx, xy, yx, yy, radius, row, j + 1),
        s1 ==> (start_one && !blocked) || diag_seen_from(grid, wall_data, vis, cx, cy, xx, xy, yx, yy, radius, j + 1) || !diag_clear(grid, wall_data, cx, cy, xx, xy, yx, yy, row, j + 1)
            || j >= radius,
{
    reveal(lower_cell_inv);
    if e0 {
        lemma_axis_row_done(vis, cx, cy, xx, xy, yx, yy, row, j);
    }
}

/// Row j's axis cell is marked: the axis is seen one row further.
proof fn lemma_axis_row_done(vis: Seq<u8>, cx: int, cy: int, xx: int, xy: int, yx: int, yy: int, lo: int, j: int)
    requires
        axis_seen_upto(vis, cx, cy, xx, xy, yx, yy, lo, j),
        axis_marked(vis, cx, cy, xx, xy, yx, yy, j),
    ensures
        axis_seen_upto(vis, cx, cy, xx, xy, yx, yy, lo, j + 1),
{
    reveal(axis_seen_upto);
}

/// Row j's diagonal cell is marked, or lies behind a blocking one, or beyond the
/// radius, or was handed to a scan that sees the diagonal from row j on: the diagonal
/// is seen one row further.
proof fn lemma_diag_row_done(
    grid: Seq<u32>,
    wall_data: Seq<u16>,
    vis: Seq<u8>,
    cx: int,
    cy: int,
    xx: int,
    xy: int,
    yx: int,
    yy: int,
    radius: int,
    lo: int,
    j: int,
)
    requires
        lo <= j,
        diag_seen_upto(grid, wall_data, vis, cx, cy, xx, xy, yx, yy, radius, lo, j),
        diag_marked(vis, cx, cy, xx, xy, yx, yy, j) || !(j <= radius && j * j + j * j <= radius * radius)
            || diag_seen_from(grid, wall_data, vis, cx, cy, xx, xy, yx, yy, radius, j) || !diag_clear(
            grid,
            wall_data,
            cx,
            cy,
            xx,
            xy,
            yx,
            yy,
            lo,
            j,
        ),
    ensures
        diag_seen_upto(grid, wall_data, vis, cx, cy, xx, xy, yx, yy, radius, lo, j + 1),
{
    reveal(axis_clear);
    reveal(diag_clear);
    reveal(diag_seen_upto);
    reveal(diag_seen_from);
    if diag_seen_from(grid, wall_data, vis, cx, cy, xx, xy, yx, yy, radius, j) && j <= radius && j * j + j * j
        <= radius * radius {
        assert(diag_clear(grid, wall_data, cx, cy, xx, xy, yx, yy, j, j));
        assert(diag_marked(vis, cx, cy, xx, xy, yx, yy, j));
    }
}

/// A scan that sees the diagonal from row j on, past a diagonal cell j that does not
/// block, sees it from row j + 1 on.
proof fn lemma_diag_seen_step(
    grid: Seq<u32>,
    wall_data: Seq<u16>,
    vis: Seq<u8>,
    cx: int,
    cy: int,
    xx: int,
    xy: int,
    yx: int,
    yy: int,
    radius: int,
    row: int,
    j: int,
)
    requires
        row <= j,
    ensures
        diag_seen_from(grid, wall_data, vis, cx, cy, xx, xy, yx, yy, radius, j) && !diag_blocks(grid, wall_data, cx, cy, xx, xy, yx, yy, j)
            ==> diag_seen_from(grid, wall_data, vis, cx, cy, xx, xy, yx, yy, radius, j + 1),
        !diag_clear(grid, wall_data, cx, cy, xx, xy, yx, yy, row, j) ==> !diag_clear(grid, wall_data, cx, cy, xx, xy, yx, yy, row, j + 1),
        diag_blocks(grid, wall_data, cx, cy, xx, xy, yx, yy, j) ==> !diag_clear(grid, wall_data, cx, cy, xx, xy, yx, yy, row, j + 1),
{
    reveal(axis_clear);
    reveal(diag_clear);
    reveal(diag_seen_from);
    if diag_seen_from(grid, wall_data, vis, cx, cy, xx, xy, yx, yy, radius, j) && !diag_blocks(grid, wall_data, cx, cy, xx, xy, yx, yy, j) {
        assert forall|m: int|
            j + 1 <= m && m <= radius && m * m + m * m <= radius * radius && diag_clear(grid, wall_data, cx, cy, xx, xy, yx, yy, j + 1, m)
                implies #[trigger] diag_marked(vis, cx, cy, xx, xy, yx, yy, m) by {
            assert(diag_clear(grid, wall_data, cx, cy, xx, xy, yx, yy, j, m));
        }
    }
    if !diag_clear(grid, wall_data, cx, cy, xx, xy, yx, yy, row, j) {
        let k = choose|k: int| row <= k < j && diag_blocks(grid, wall_data, cx, cy, xx, xy, yx, yy, k);
        assert(row <= k < j + 1 && diag_blocks(grid, wall_data, cx, cy, xx, xy, yx, yy, k));
    }
    if diag_blocks(grid, wall_data, cx, cy, xx, xy, yx, yy, j) {
        assert(row <= j < j + 1);
    }
}

/// At the end of a scan: what it sees of the axis and the diagonal, from its first row.
proof fn lemma_seen_final(
    grid: Seq<u32>,
    wall_data: Seq<u16>,
    vis: Seq<u8>,
    cx: int,
    cy: int,
    xx: int,
    xy: int,
    yx: int,
    yy: int,
    radius: int,
    row: int,
    done_to: int,
)
    requires
        1 <= row <= done_to,
        0 <= radius,
    ensures
        axis_seen_upto(vis, cx, cy, xx, xy, yx, yy, row, done_to) && (done_to > radius || !axis_clear(
            grid,
            wall_data,
            cx,
            cy,
            xx,
            xy,
            yx,
            yy,
            row,
            done_to,
        )) ==> axis_seen_from(grid, wall_data, vis, cx, cy, xx, xy, yx, yy, radius, row),
        diag_seen_upto(grid, wall_data, vis, cx, cy, xx, xy, yx, yy, radius, row, done_to) && (done_to > radius
            || !diag_clear(grid, wall_data, cx, cy, xx, xy, yx, yy, row, done_to) || diag_seen_from(
            grid,
            wall_data,
            vis,
            cx,
            cy,
            xx,
            xy,
            yx,
            yy,
            radius,
            done_to,
        )) ==> diag_seen_from(grid, wall_data, vis, cx, cy, xx, xy, yx, yy, radius, row),
{
    reveal(axis_clear);
    reveal(diag_clear);
    reveal(axis_seen_upto);
    reveal(axis_seen_from);
    reveal(diag_seen_upto);
    reveal(diag_seen_from);
    if axis_seen_upto(vis, cx, cy, xx, xy, yx, yy, row, done_to) && (done_to > radius || !axis_clear(
        grid,
        wall_data,
        cx,
        cy,
        xx,
        xy,
        yx,
        yy,
        row,
        done_to,
    )) {
        assert forall|m: int|
            row <= m <= radius && axis_clear(grid, wall_data, cx, cy, xx, xy, yx, yy, row, m) implies #[trigger] axis_marked(
            vis,
            cx,
            cy,
            xx,
            xy,
            yx,
            yy,
            m,
        ) by {
            if m >= done_to && done_to <= radius {
                let k = choose|k: int| row <= k < done_to && axis_blocks(grid, wall_data, cx, cy, xx, xy, yx, yy, k);
                assert(!axis_blocks(grid, wall_data, cx, cy, xx, xy, yx, yy, k));
            }
        }
    }
    if diag_seen_upto(grid, wall_data, vis, cx, cy, xx, xy, yx, yy, radius, row, done_to) && (done_to > radius
        || !diag_clear(grid, wall_data, cx, cy, xx, xy, yx, yy, row, done_to) || diag_seen_from(
        grid,
        wall_data,
        vis,
        cx,
        cy,
        xx,
        xy,
        yx,
        yy,
        radius,
        done_to,
    )) {
        assert forall|m: int|
            row <= m && m <= radius && m * m + m * m <= radius * radius && diag_clear(grid, wall_data, cx, cy, xx, xy, yx, yy, row, m)
                implies #[trigger] diag_marked(vis, cx, cy, xx, xy, yx, yy, m) by {
            if m >= done_to {
                if !diag_clear(grid, wall_data, cx, cy, xx, xy, yx, yy, row, done_to) {
                    let k = choose|k: int| row <= k < done_to && diag_blocks(grid, wall_data, cx, cy, xx, xy, yx, yy, k);
                    assert(!diag_blocks(grid, wall_data, cx, cy, xx, xy, yx, yy, k));
                } else if done_to <= radius {
                    assert(diag_clear(grid, wall_data, cx, cy, xx, xy, yx, yy, done_to, m));
                }
            }
        }
    }
}

/// A scan that does not reach row `row` (radius below it) sees nothing and owes nothing.
proof fn lemma_seen_empty(grid: Seq<u32>, wall_data: Seq<u16>, vis: Seq<u8>, cx: int, cy: int, xx: int, xy: int, yx: int, yy: int, radius: int, row: int)
    requires
        radius < row,
    ensures
        axis_seen_from(grid, wall_data, vis, cx, cy, xx, xy, yx, yy, radius, row),
        diag_seen_from(grid, wall_data, vis, cx, cy, xx, xy, yx, yy, radius, row),
{
    reveal(axis_clear);
    reveal(diag_clear);
    reveal(axis_seen_from);
    reveal(diag_seen_from);
}

/// Start slope 1 against an end slope of at most 1, or a positive start slope against
/// end slope 0: the scan does not stop before it starts.
proof fn lemma_slopes_in_order(sn: int, sd: int, en: int, ed: int)
    requires
        0 < sn,
        0 < sd,
        0 < ed,
    ensures
        sn == sd && en <= ed ==> !(sn * ed < en * sd),
        en == 0 ==> !(sn * ed < en * sd),
{
    assert(sn * ed >= 1) by (nonlinear_arith)
        requires
            0 < sn,
            0 < ed,
    ;
    if sn == sd && en <= ed {
        assert(en * sd <= ed * sd) by (nonlinear_arith)
            requires
                en <= ed,
                0 < sd,
        ;
        assert(ed * sd == sn * ed) by (nonlinear_arith)
            requires
                sn == sd,
        ;
    }
}

/// With start slope 1 the diagonal cell of a row is never skipped, and with an end
/// slope of at most 1 the scan never stops at it.
proof fn lemma_diag_processed(sn: int, sd: int, en: int, ed: int, j: int)
    requires
        1 <= j,
        0 < sd,
        0 < ed,
    ensures
        sn == sd ==> !(sn * (2 * j + 1) < (2 * j - 1) * sd),
        en <= ed ==> !((2 * j + 1) * ed < en * (2 * j - 1)),
{
    if sn == sd {
        assert(sn * (2 * j + 1) >= (2 * j - 1) * sd) by (nonlinear_arith)
            requires
                sn == sd,
                0 < sd,
                1 <= j,
        ;
    }
    if en <= ed {
        assert((2 * j + 1) * ed >= en * (2 * j - 1)) by (nonlinear_arith)
            requires
                en <= ed,
                0 < ed,
                1 <= j,
        ;
    }
}

/// Positive fraction products, for the slope comparisons of the axis cells.
proof fn lemma_pos_product(a: int, b: int)
    by (nonlinear_arith)
    requires
        1 <= a,
        1 <= b,
    ensures
        a * b >= 1,
{
}

/// The octant scan, cell by cell: the buffer, blocked flag and start slope after
/// scanning cells dx..=0 of row j (the row's cells run from dx = -j, on the diagonal,
/// to dx = 0, on the axis). A cell whose right edge lies above the start slope is
/// skipped; one whose left edge lies below the end slope ends the row. Otherwise it is
/// marked when within the radius and in the grid; a blocking cell that follows open
/// ones hands the slopes above it to a scan of the next row (when the radius reaches
/// it) and starts a blocked run, whose last blocking cell sets the start slope once an
/// open cell follows.
pub open spec fn scan_cells(
    grid: Seq<u32>,
    wall_data: Seq<u16>,
    cx: int,
    cy: int,
    radius: int,
    xx: int,
    xy: int,
    yx: int,
    yy: int,
    en: int,
    ed: int,
    j: int,
    dx: int,
    blocked: bool,
    sn: int,
    sd: int,
    nsn: int,
    nsd: int,
    vis: Seq<u8>,
) -> (Seq<u8>, bool, int, int)
    decreases radius + 1 - j, 0int, 1 - dx,
{
    if dx > 0 || j < 1 || j > radius {
        (vis, blocked, sn, sd)
    } else {
        let dy = -j;
        let r_num = -2 * dx - 1;
        let r_den = 2 * j + 1;
        let l_num = 1 - 2 * dx;
        let l_den = 2 * j - 1;
        if sn * r_den < r_num * sd {
            scan_cells(grid, wall_data, cx, cy, radius, xx, xy, yx, yy, en, ed, j, dx + 1, blocked, sn, sd, nsn, nsd, vis)
        } else if l_num * ed < en * l_den {
            (vis, blocked, sn, sd)
        } else {
            let mx = octant_x(cx, dx, dy, xx, xy);
            let my = octant_y(cy, dx, dy, yx, yy);
            let vis1 = if dx * dx + dy * dy <= radius * radius && in_grid(mx, my) {
                vis.update(tile_index(mx, my), 255u8)
            } else {
                vis
            };
            let bv = spec_blocks_vision(
                grid,
                wall_data,
                mx,
                my,
                octant_x(cx, dx, dy + 1, xx, xy),
                octant_y(cy, dx, dy + 1, yx, yy),
            );
            if blocked {
                if bv {
                    scan_cells(grid, wall_data, cx, cy, radius, xx, xy, yx, yy, en, ed, j, dx + 1, true, sn, sd, r_num, r_den, vis1)
                } else {
                    scan_cells(grid, wall_data, cx, cy, radius, xx, xy, yx, yy, en, ed, j, dx + 1, false, nsn, nsd, nsn, nsd, vis1)
                }
            } else if bv && j < radius {
                let vis2 = octant_scan(grid, wall_data, vis1, cx, cy, radius, j + 1, sn, sd, l_num, l_den, xx, xy, yx, yy);
                scan_cells(grid, wall_data, cx, cy, radius, xx, xy, yx, yy, en, ed, j, dx + 1, true, sn, sd, r_num, r_den, vis2)
            } else {
                scan_cells(grid, wall_data, cx, cy, radius, xx, xy, yx, yy, en, ed, j, dx + 1, false, sn, sd, nsn, nsd, vis1)
            }
        }
    }
}

/// The octant scan, row by row from row j: a row that ends in a blocked run ends the
/// scan.
pub open spec fn scan_rows(
    grid: Seq<u32>,
    wall_data: Seq<u16>,
    cx: int,
    cy: int,
    radius: int,
    xx: int,
    xy: int,
    yx: int,
    yy: int,
    en: int,
    ed: int,
    j: int,
    sn: int,
    sd: int,
    vis: Seq<u8>,
) -> Seq<u8>
    decreases radius + 1 - j, 1int, 0int,
{
    if j < 1 || j > radius {
        vis
    } else {
        let c = scan_cells(grid, wall_data, cx, cy, radius, xx, xy, yx, yy, en, ed, j, -j, false, sn, sd, 0, 1, vis);
        if c.1 {
            c.0
        } else {
            scan_rows(grid, wall_data, cx, cy, radius, xx, xy, yx, yy, en, ed, j + 1, c.2, c.3, c.0)
        }
    }
}

/// Recursive shadowcasting of one octant from row `row`, between the start slope
/// sn / sd and the end slope en / ed: the buffer it leaves.
pub open spec fn octant_scan(
    grid: Seq<u32>,
    wall_data: Seq<u16>,
    vis: Seq<u8>,
    cx: int,
    cy: int,
    radius: int,
    row: int,
    sn: int,
    sd: int,
    en: int,
    ed: int,
    xx: int,
    xy: int,
    yx: int,
    yy: int,
) -> Seq<u8>
    decreases radius + 1 - row, 2int, 0int,
{
    if sn * ed < en * sd || row > radius || row < 1 {
        vis
    } else {
        scan_rows(grid, wall_data, cx, cy, radius, xx, xy, yx, yy, en, ed, row, sn, sd, vis)
    }
}

proof fn lemma_scan_skip(
    grid: Seq<u32>,
    wall_data: Seq<u16>,
    cx: int,
    cy: int,
    radius: int,
    xx: int,
    xy: int,
    yx: int,
    yy: int,
    en: int,
    ed: int,
    j: int,
    dx: int,
    blocked: bool,
    sn: int,
    sd: int,
    nsn: int,
    nsd: int,
    vis: Seq<u8>,
)
    requires
        1 <= j <= radius,
        dx <= 0,
        sn * (2 * j + 1) < (-2 * dx - 1) * sd,
    ensures
        scan_cells(grid, wall_data, cx, cy, radius, xx, xy, yx, yy, en, ed, j, dx, blocked, sn, sd, nsn, nsd, vis) == scan_cells(grid, wall_data, cx, cy, radius, xx, xy, yx, yy, en, ed, j, dx + 1, blocked, sn, sd, nsn, nsd, vis),
{
}

proof fn lemma_scan_stop(
    grid: Seq<u32>,
    wall_data: Seq<u16>,
    cx: int,
    cy: int,
    radius: int,
    xx: int,
    xy: int,
    yx: int,
    yy: int,
    en: int,
    ed: int,
    j: int,
    dx: int,
    blocked: bool,
    sn: int,
    sd: int,
    nsn: int,
    nsd: int,
    vis: Seq<u8>,
)
    requires
        1 <= j <= radius,
        dx <= 0 ==> !(sn * (2 * j + 1) < (-2 * dx - 1) * sd) && (1 - 2 * dx) * ed < en * (2 * j - 1),
    ensures
        scan_cells(grid, wall_data, cx, cy, radius, xx, xy, yx, yy, en, ed, j, dx, blocked, sn, sd, nsn, nsd, vis) == (vis, blocked, sn, sd),
{
}

proof fn lemma_scan_cell(
    grid: Seq<u32>,
    wall_data: Seq<u16>,
    cx: int,
    cy: int,
    radius: int,
    xx: int,
    xy: int,
    yx: int,
    yy: int,
    en: int,
    ed: int,
    j: int,
    dx: int,
    blocked: bool,
    sn: int,
    sd: int,
    nsn: int,
    nsd: int,
    vis: Seq<u8>,
    vis1: Seq<u8>,
    bv: bool,
    b2: bool,
    sn2: int,
    sd2: int,
    nsn2: int,
    nsd2: int,
    vis2: Seq<u8>,
)
    requires
        1 <= j <= radius,
        dx <= 0,
        !(sn * (2 * j + 1) < (-2 * dx - 1) * sd),
        !((1 - 2 * dx) * ed < en * (2 * j - 1)),
        vis1 == (if dx * dx + (-j) * (-j) <= radius * radius && in_grid(
            octant_x(cx, dx, -j, xx, xy),
            octant_y(cy, dx, -j, yx, yy),
        ) {
            vis.update(tile_index(octant_x(cx, dx, -j, xx, xy), octant_y(cy, dx, -j, yx, yy)), 255u8)
        } else {
            vis
        }),
        bv == spec_blocks_vision(
            grid,
            wall_data,
            octant_x(cx, dx, -j, xx, xy),
            octant_y(cy, dx, -j, yx, yy),
            octant_x(cx, dx, -j + 1, xx, xy),
            octant_y(cy, dx, -j + 1, yx, yy),
        ),
        blocked && bv ==> b2 && sn2 == sn && sd2 == sd && nsn2 == -2 * dx - 1 && nsd2 == 2 * j + 1 && vis2 == vis1,
        blocked && !bv ==> !b2 && sn2 == nsn && sd2 == nsd && nsn2 == nsn && nsd2 == nsd && vis2 == vis1,
        !blocked && bv && j < radius ==> b2 && sn2 == sn && sd2 == sd && nsn2 == -2 * dx - 1 && nsd2 == 2 * j + 1
            && vis2 == octant_scan(grid, wall_data, vis1, cx, cy, radius, j + 1, sn, sd, 1 - 2 * dx, 2 * j - 1, xx, xy, yx, yy),
        !blocked && !(bv && j < radius) ==> !b2 && sn2 == sn && sd2 == sd && nsn2 == nsn && nsd2 == nsd && vis2 == vis1,
    ensures
        scan_cells(grid, wall_data, cx, cy, radius, xx, xy, yx, yy, en, ed, j, dx, blocked, sn, sd, nsn, nsd, vis) == scan_cells(grid, wall_data, cx, cy, radius, xx, xy, yx, yy, en, ed, j, dx + 1, b2, sn2, sd2, nsn2, nsd2, vis2),
{
}

proof fn lemma_scan_row(grid: Seq<u32>, wall_data: Seq<u16>, cx: int, cy: int, radius: int, xx: int, xy: int, yx: int, yy: int, en: int, ed: int, j: int, sn: int, sd: int, vis: Seq<u8>)
    ensures
        1 <= j <= radius ==> scan_rows(grid, wall_data, cx, cy, radius, xx, xy, yx, yy, en, ed, j, sn, sd, vis) == {
            let c = scan_cells(grid, wall_data, cx, cy, radius, xx, xy, yx, yy, en, ed, j, -j, false, sn, sd, 0, 1, vis);
            if c.1 {
                c.0
            } else {
                scan_rows(grid, wall_data, cx, cy, radius, xx, xy, yx, yy, en, ed, j + 1, c.2, c.3, c.0)
            }
        },
        j > radius ==> scan_rows(grid, wall_data, cx, cy, radius, xx, xy, yx, yy, en, ed, j, sn, sd, vis) == vis,
{
}

proof fn lemma_octant_scan(grid: Seq<u32>, wall_data: Seq<u16>, vis: Seq<u8>, cx: int, cy: int, radius: int, row: int, sn: int, sd: int, en: int, ed: int, xx: int, xy: int, yx: int, yy: int)
    requires
        1 <= row,
    ensures
        octant_scan(grid, wall_data, vis, cx, cy, radius, row, sn, sd, en, ed, xx, xy, yx, yy) == if sn * ed < en * sd
            || row > radius {
            vis
        } else {
            scan_rows(grid, wall_data, cx, cy, radius, xx, xy, yx, yy, en, ed, row, sn, sd, vis)
        },
{
}

/// Recursive shadowcasting for one octant, from `row` outward, between the start and
/// end slopes (fractions with positive denominators): the buffer becomes
/// `octant_scan` of the buffer as given.
#[verifier::rlimit(100)]
#[verifier::spinoff_prover]
fn cast_light(
    grid: &[u32],
    wall_data: &[u16],
    visibility: &mut [u8],
    cx: i32,
    cy: i32,
    radius: i32,
    row: i32,
    start_num: i64,
    start_den: i64,
    end_num: i64,
    end_den: i64,
    xx: i32,
    xy: i32,
    yx: i32,
    yy: i32,
)
    requires
        grid@.len() >= GRID_SIZE,
        old(visibility)@.len() >= GRID_SIZE,
        fov_fits(cx as int, radius as int),
        fov_fits(cy as int, radius as int),
        -46340 <= radius <= 46340,
        1 <= row,
        0 < start_num,
        slope_ok(start_num, start_den),
        slope_ok(end_num, end_den),
        octant_transform(xx, xy, yx, yy),
    ensures
        final(visibility)@ == octant_scan(grid@, wall_data@, old(visibility)@, cx as int, cy as int, radius as int, row as int, start_num as int, start_den as int, end_num as int, end_den as int, xx as int, xy as int, yx as int, yy as int),
        only_marks_in_radius(old(visibility)@, final(visibility)@, cx as int, cy as int, radius as int),
        marks_in_wedge(old(visibility)@, final(visibility)@, cx as int, cy as int, xx as int, xy as int, yx as int, yy as int, row as int),
        forall|m: int|
            1 <= m && end_num * (2 * m - 1) > end_den ==> #[trigger] axis_cell_kept(
                old(visibility)@,
                final(visibility)@,
                cx as int,
                cy as int,
                xx as int,
                xy as int,
                yx as int,
                yy as int,
                m,
            ),
        end_num == 0 ==> forall|k: int, m: int|
            #![trigger axis_blocks(grid@, wall_data@, cx as int, cy as int, xx as int, xy as int, yx as int, yy as int, k), axis_cell_kept(old(visibility)@, final(visibility)@, cx as int, cy as int, xx as int, xy as int, yx as int, yy as int, m)]
            row <= k < m && axis_blocks(grid@, wall_data@, cx as int, cy as int, xx as int, xy as int, yx as int, yy as int, k)
                ==> axis_cell_kept(old(visibility)@, final(visibility)@, cx as int, cy as int, xx as int, xy as int, yx as int, yy as int, m),
        forall|m: int|
            1 <= m && frac_lt(start_num as int, start_den as int, 2 * m - 1, 2 * m + 1) ==> #[trigger] diag_cell_kept(
                old(visibility)@, final(visibility)@, cx as int, cy as int, xx as int, xy as int, yx as int, yy as int, m),
        forall|m: int|
            1 <= m && frac_lt(2 * m + 1, 2 * m - 1, end_num as int, end_den as int) ==> #[trigger] diag_cell_kept(
                old(visibility)@, final(visibility)@, cx as int, cy as int, xx as int, xy as int, yx as int, yy as int, m),
        forall|k: int, m: int|
            #![trigger diag_blocks(grid@, wall_data@, cx as int, cy as int, xx as int, xy as int, yx as int, yy as int, k), diag_cell_kept(old(visibility)@, final(visibility)@, cx as int, cy as int, xx as int, xy as int, yx as int, yy as int, m)]
            row <= k < m && diag_blocks(grid@, wall_data@, cx as int, cy as int, xx as int, xy as int, yx as int, yy as int, k)
                ==> diag_cell_kept(old(visibility)@, final(visibility)@, cx as int, cy as int, xx as int, xy as int, yx as int, yy as int, m),
        end_num == 0 ==> axis_seen_from(grid@, wall_data@, final(visibility)@, cx as int, cy as int, xx as int, xy as int, yx as int, yy as int, radius as int, row as int),
        (start_num == start_den && end_num <= end_den) ==> diag_seen_from(grid@, wall_data@, final(visibility)@, cx as int, cy as int, xx as int, xy as int, yx as int, yy as int, radius as int, row as int),
        row == 1 && start_num == 1 && start_den == 1 && end_num == 0 && end_den == 1
            ==> first_row_marked(
            final(visibility)@,
            cx as int,
            cy as int,
            radius as int,
            xx as int,
            xy as int,
            yx as int,
            yy as int,
        ),
        open_square(grid@, wall_data@, cx as int, cy as int, radius as int) && start_num == 1
            && start_den == 1 && end_num == 0 && end_den == 1 ==> rows_marked(
            final(visibility)@,
            cx as int,
            cy as int,
            radius as int,
            xx as int,
            xy as int,
            yx as int,
            yy as int,
            row as int,
            radius + 1,
        ),
    decreases radius + 1 - row,
{
    let ghost init = row == 1 && start_num == 1 && start_den == 1 && end_num == 0 && end_den == 1;
    let ghost clear = open_square(grid@, wall_data@, cx as int, cy as int, radius as int)
        && start_num == 1 && start_den == 1 && end_num == 0 && end_den == 1;
    proof {
        if start_num == 1 && start_den == 1 && end_num == 0 && end_den == 1 {
            assert(start_num * end_den == 1 && end_num * start_den == 0) by (nonlinear_arith)
                requires
                    start_num == 1,
                    start_den == 1,
                    end_num == 0,
                    end_den == 1,
            ;
        }
    }
    proof {
        lemma_slopes_in_order(start_num as int, start_den as int, end_num as int, end_den as int);
        lemma_octant_scan(grid@, wall_data@, visibility@, cx as int, cy as int, radius as int, row as int, start_num as int, start_den as int, end_num as int, end_den as int, xx as int, xy as int, yx as int, yy as int);
    }
    if slope_lt(start_num, start_den, end_num, end_den) {
        return;
    }
    if row > radius {
        proof {
            lemma_seen_empty(grid@, wall_data@, visibility@, cx as int, cy as int, xx as int, xy as int, yx as int, yy as int, radius as int, row as int);
        }
        return;
    }
    let mut start_n = start_num;
    let mut start_d = start_den;
    proof {
        lemma_radius_square(radius as int);
    }
    let radius_sq = radius * radius;
    let ghost orig = visibility@;
    proof {
        if clear {
            assert forall|dx: int, dy: int| 0 < -dy < radius + 1 && dy <= dx <= 0 implies in_grid(
                #[trigger] octant_x(cx as int, dx, dy, xx as int, xy as int),
                #[trigger] octant_y(cy as int, dx, dy, yx as int, yy as int),
            ) by {
                lemma_octant_unit(dx, dy, xx as int, xy as int, yx as int, yy as int, -dy);
                assert(!spec_blocks_vision(
                    grid@,
                    wall_data@,
                    octant_x(cx as int, dx, dy, xx as int, xy as int),
                    octant_y(cy as int, dx, dy, yx as int, yy as int),
                    0,
                    0,
                ));
            }
        }
    }
    proof {
        lemma_diag_init(grid@, wall_data@, orig, cx as int, cy as int, xx as int, xy as int, yx as int, yy as int, row as int, radius as int, start_num as int, start_den as int, end_num as int, end_den as int);
    }
    proof {
        lemma_seen_init(grid@, wall_data@, visibility@, cx as int, cy as int, xx as int, xy as int, yx as int, yy as int, radius as int, row as int, row as int);
    }
    let mut j = row;
    let ghost mut done_to: int = row as int;
    while j <= radius
        invariant_except_break
            j == row ==> start_n == start_num && start_d == start_den,
            done_to == j,
            scan_rows(grid@, wall_data@, cx as int, cy as int, radius as int, xx as int, xy as int, yx as int, yy as int, end_num as int, end_den as int, j as int, start_n as int, start_d as int, visibility@) == scan_rows(grid@, wall_data@, cx as int, cy as int, radius as int, xx as int, xy as int, yx as int, yy as int, end_num as int, end_den as int, row as int, start_num as int, start_den as int, orig),
            end_num == 0 ==> axis_seen_upto(visibility@, cx as int, cy as int, xx as int, xy as int, yx as int, yy as int, row as int, j as int),
            (start_num == start_den && end_num <= end_den) ==> diag_seen_upto(grid@, wall_data@, visibility@, cx as int, cy as int, xx as int, xy as int, yx as int, yy as int, radius as int, row as int, j as int),
            (start_num == start_den && end_num <= end_den) ==> start_n == start_d || diag_seen_from(grid@, wall_data@, visibility@, cx as int, cy as int, xx as int, xy as int, yx as int, yy as int, radius as int, j as int)
                || !diag_clear(grid@, wall_data@, cx as int, cy as int, xx as int, xy as int, yx as int, yy as int, row as int, j as int) || j > radius,
            forall|m: int| m >= j ==> #[trigger] axis_cell_kept(orig, visibility@, cx as int, cy as int, xx as int, xy as int, yx as int, yy as int, m),
        invariant
            grid@.len() >= GRID_SIZE,
            visibility@.len() == orig.len(),
            orig.len() >= GRID_SIZE,
            fov_fits(cx as int, radius as int),
            fov_fits(cy as int, radius as int),
            1 <= radius <= 46340,
            1 <= row <= j,
            j <= radius + 1,
            radius_sq == radius * radius,
            slope_ok(start_n, start_d),
            slope_ok(end_num, end_den),
            octant_transform(xx, xy, yx, yy),
            only_marks_in_radius(orig, visibility@, cx as int, cy as int, radius as int),
            init == (row == 1 && start_num == 1 && start_den == 1 && end_num == 0 && end_den == 1),
            init && j > row ==> first_row_marked(
                visibility@,
                cx as int,
                cy as int,
                radius as int,
                xx as int,
                xy as int,
                yx as int,
                yy as int,
            ),
            clear == (open_square(grid@, wall_data@, cx as int, cy as int, radius as int)
                && start_num == 1 && start_den == 1 && end_num == 0 && end_den == 1),
            clear ==> open_square_cells(cx as int, cy as int, radius as int, xx as int, xy as int, yx as int, yy as int, radius + 1),
            clear ==> start_n == 1 && start_d == 1,
            clear ==> rows_marked(visibility@, cx as int, cy as int, radius as int, xx as int, xy as int, yx as int, yy as int, row as int, j as int),
            0 < start_n,
            0 < start_den,
            marks_in_wedge(orig, visibility@, cx as int, cy as int, xx as int, xy as int, yx as int, yy as int, row as int),
            forall|m: int|
                1 <= m && end_num * (2 * m - 1) > end_den ==> #[trigger] axis_cell_kept(orig, visibility@, cx as int, cy as int, xx as int, xy as int, yx as int, yy as int, m),
            end_num == 0 ==> forall|k: int|
                row <= k < j && k < radius ==> !#[trigger] axis_blocks(grid@, wall_data@, cx as int, cy as int, xx as int, xy as int, yx as int, yy as int, k),
            diag_scan_inv(grid@, wall_data@, orig, visibility@, cx as int, cy as int, xx as int, xy as int, yx as int, yy as int, row as int, j as int, radius as int, start_n as int, start_d as int, start_num as int, start_den as int, end_num as int, end_den as int),
            diag_behind_kept(grid@, wall_data@, orig, visibility@, cx as int, cy as int, xx as int, xy as int, yx as int, yy as int, j as int, radius as int),
        ensures
            visibility@ == scan_rows(grid@, wall_data@, cx as int, cy as int, radius as int, xx as int, xy as int, yx as int, yy as int, end_num as int, end_den as int, row as int, start_num as int, start_den as int, orig),
            row <= done_to,
            end_num == 0 ==> axis_seen_upto(visibility@, cx as int, cy as int, xx as int, xy as int, yx as int, yy as int, row as int, done_to) && (done_to > radius
                || !axis_clear(grid@, wall_data@, cx as int, cy as int, xx as int, xy as int, yx as int, yy as int, row as int, done_to)),
            (start_num == start_den && end_num <= end_den) ==> diag_seen_upto(grid@, wall_data@, visibility@, cx as int, cy as int, xx as int, xy as int, yx as int, yy as int, radius as int, row as int, done_to) && (done_to > radius
                || !diag_clear(grid@, wall_data@, cx as int, cy as int, xx as int, xy as int, yx as int, yy as int, row as int, done_to) || diag_seen_from(grid@, wall_data@, visibility@, cx as int, cy as int, xx as int, xy as int, yx as int, yy as int, radius as int, done_to)),
            diag_scan_inv(grid@, wall_data@, orig, visibility@, cx as int, cy as int, xx as int, xy as int, yx as int, yy as int, row as int, j as int, radius as int, start_n as int, start_d as int, start_num as int, start_den as int, end_num as int, end_den as int),
            diag_behind_kept(grid@, wall_data@, orig, visibility@, cx as int, cy as int, xx as int, xy as int, yx as int, yy as int, j as int, radius as int),
            only_marks_in_radius(orig, visibility@, cx as int, cy as int, radius as int),
            clear ==> rows_marked(visibility@, cx as int, cy as int, radius as int, xx as int, xy as int, yx as int, yy as int, row as int, radius + 1),
            marks_in_wedge(orig, visibility@, cx as int, cy as int, xx as int, xy as int, yx as int, yy as int, row as int),
            forall|m: int|
                1 <= m && end_num * (2 * m - 1) > end_den ==> #[trigger] axis_cell_kept(orig, visibility@, cx as int, cy as int, xx as int, xy as int, yx as int, yy as int, m),
            end_num == 0 ==> forall|k: int, m: int|
                #![trigger axis_blocks(grid@, wall_data@, cx as int, cy as int, xx as int, xy as int, yx as int, yy as int, k), axis_cell_kept(orig, visibility@, cx as int, cy as int, xx as int, xy as int, yx as int, yy as int, m)]
                row <= k < m && axis_blocks(grid@, wall_data@, cx as int, cy as int, xx as int, xy as int, yx as int, yy as int, k)
                    ==> axis_cell_kept(orig, visibility@, cx as int, cy as int, xx as int, xy as int, yx as int, yy as int, m),
            init ==> first_row_marked(
                visibility@,
                cx as int,
                cy as int,
                radius as int,
                xx as int,
                xy as int,
                yx as int,
                yy as int,
            ),
        decreases radius + 1 - j,
    {
        let mut blocked = false;
        let mut new_start_n: i64 = 0;
        let mut new_start_d: i64 = 1;
        let dy: i32 = -j;
        let mut dx: i32 = dy;
        let ghost first = init && j == row;
        let ghost row_vis = visibility@;
        let ghost row_sn = start_n as int;
        let ghost row_sd = start_d as int;
        let ghost cres = scan_cells(grid@, wall_data@, cx as int, cy as int, radius as int, xx as int, xy as int, yx as int, yy as int, end_num as int, end_den as int, j as int, -(j as int), false, row_sn, row_sd, 0, 1, row_vis);
        proof {
            lemma_scan_row(grid@, wall_data@, cx as int, cy as int, radius as int, xx as int, xy as int, yx as int, yy as int, end_num as int, end_den as int, j as int, row_sn, row_sd, row_vis);
        }
        proof {
            lemma_diag_split(grid@, wall_data@, orig, visibility@, cx as int, cy as int, xx as int, xy as int, yx as int, yy as int, j as int, radius as int);
            lemma_lower_row_start(grid@, wall_data@, visibility@, cx as int, cy as int, xx as int, xy as int, yx as int, yy as int, radius as int, row as int, j as int, end_num == 0, (start_num == start_den && end_num <= end_den), start_n == start_d);
        }
        while dx <= 0
            invariant
                grid@.len() >= GRID_SIZE,
                visibility@.len() == orig.len(),
                orig.len() >= GRID_SIZE,
                fov_fits(cx as int, radius as int),
                fov_fits(cy as int, radius as int),
                1 <= radius <= 46340,
                1 <= row <= j <= radius,
                dy == -j,
                dy <= dx <= 1,
                radius_sq == radius * radius,
                slope_ok(start_n, start_d),
                slope_ok(new_start_n, new_start_d),
                slope_ok(end_num, end_den),
                octant_transform(xx, xy, yx, yy),
                only_marks_in_radius(orig, visibility@, cx as int, cy as int, radius as int),
                first == (init && j == row),
                first ==> j == 1 && end_num == 0 && end_den == 1,
                first && dx <= dy + 1 ==> start_n == 1 && start_d == 1,
                dx == dy ==> !blocked,
                clear == (open_square(grid@, wall_data@, cx as int, cy as int, radius as int)
                    && start_num == 1 && start_den == 1 && end_num == 0 && end_den == 1),
                clear ==> open_square_cells(cx as int, cy as int, radius as int, xx as int, xy as int, yx as int, yy as int, radius + 1),
                clear ==> !blocked && start_n == 1 && start_d == 1,
                clear ==> rows_marked(visibility@, cx as int, cy as int, radius as int, xx as int, xy as int, yx as int, yy as int, row as int, j as int),
                clear ==> row_prefix_marked(visibility@, cx as int, cy as int, radius as int, xx as int, xy as int, yx as int, yy as int, dy as int, dx as int),
                0 < start_n,
                0 < start_den,
                blocked && dx <= 0 ==> 0 < new_start_n,
                scan_cells(grid@, wall_data@, cx as int, cy as int, radius as int, xx as int, xy as int, yx as int, yy as int, end_num as int, end_den as int, j as int, dx as int, blocked, start_n as int, start_d as int, new_start_n as int, new_start_d as int, visibility@) == cres,
                lower_cell_inv(grid@, wall_data@, visibility@, cx as int, cy as int, xx as int, xy as int, yx as int, yy as int, radius as int, row as int, j as int, dx as int, end_num == 0, (start_num == start_den && end_num <= end_den), start_n == start_d, blocked),
                marks_in_wedge(orig, visibility@, cx as int, cy as int, xx as int, xy as int, yx as int, yy as int, row as int),
                forall|m: int|
                    1 <= m && end_num * (2 * m - 1) > end_den ==> #[trigger] axis_cell_kept(orig, visibility@, cx as int, cy as int, xx as int, xy as int, yx as int, yy as int, m),
                forall|m: int| m >= j + 1 ==> #[trigger] axis_cell_kept(orig, visibility@, cx as int, cy as int, xx as int, xy as int, yx as int, yy as int, m),
                end_num == 0 && j < radius && dx == 1 && axis_blocks(grid@, wall_data@, cx as int, cy as int, xx as int, xy as int, yx as int, yy as int, j as int) ==> blocked,
                diag_scan_inv(grid@, wall_data@, orig, visibility@, cx as int, cy as int, xx as int, xy as int, yx as int, yy as int, row as int, j as int, radius as int, start_n as int, start_d as int, start_num as int, start_den as int, end_num as int, end_den as int),
                diag_behind_kept(grid@, wall_data@, orig, visibility@, cx as int, cy as int, xx as int, xy as int, yx as int, yy as int, j + 1, radius as int),
                diag_row_kept(grid@, wall_data@, orig, visibility@, cx as int, cy as int, xx as int, xy as int, yx as int, yy as int, j as int, radius as int),
                blocked ==> frac_le(new_start_n as int, new_start_d as int, start_n as int, start_d as int),
                j < radius && dx > dy && diag_blocks(grid@, wall_data@, cx as int, cy as int, xx as int, xy as int, yx as int, yy as int, j as int)
                    ==> (blocked ==> frac_le(new_start_n as int, new_start_d as int, 2 * j - 1, 2 * j + 1))
                    && (!blocked ==> frac_le(start_n as int, start_d as int, 2 * j - 1, 2 * j + 1)),
                first && dx >= dy + 1 ==> (radius >= 2 && in_grid(
                    cx - xx - xy,
                    cy - yx - yy,
                ) ==> visibility@[tile_index(cx - xx - xy, cy - yx - yy)] == 255),
                first && dx >= dy + 2 ==> first_row_marked(
                    visibility@,
                    cx as int,
                    cy as int,
                    radius as int,
                    xx as int,
                    xy as int,
                    yx as int,
                    yy as int,
                ),
                init && j > row ==> first_row_marked(
                    visibility@,
                    cx as int,
                    cy as int,
                    radius as int,
                    xx as int,
                    xy as int,
                    yx as int,
                    yy as int,
                ),
            ensures
                visibility@ == cres.0 && blocked == cres.1 && start_n as int == cres.2 && start_d as int == cres.3,
                only_marks_in_radius(orig, visibility@, cx as int, cy as int, radius as int),
                slope_ok(start_n, start_d),
                lower_cell_inv(grid@, wall_data@, visibility@, cx as int, cy as int, xx as int, xy as int, yx as int, yy as int, radius as int, row as int, j as int, dx as int, end_num == 0, (start_num == start_den && end_num <= end_den), start_n == start_d, blocked),
                end_num == 0 ==> dx == 1,
                (start_num == start_den && end_num <= end_den) ==> dx > dy,
                clear ==> !blocked && start_n == 1 && start_d == 1,
                clear ==> rows_marked(visibility@, cx as int, cy as int, radius as int, xx as int, xy as int, yx as int, yy as int, row as int, j as int),
                clear ==> row_prefix_marked(visibility@, cx as int, cy as int, radius as int, xx as int, xy as int, yx as int, yy as int, dy as int, 1),
                0 < start_n,
                marks_in_wedge(orig, visibility@, cx as int, cy as int, xx as int, xy as int, yx as int, yy as int, row as int),
                forall|m: int|
                    1 <= m && end_num * (2 * m - 1) > end_den ==> #[trigger] axis_cell_kept(orig, visibility@, cx as int, cy as int, xx as int, xy as int, yx as int, yy as int, m),
                forall|m: int| m >= j + 1 ==> #[trigger] axis_cell_kept(orig, visibility@, cx as int, cy as int, xx as int, xy as int, yx as int, yy as int, m),
                end_num == 0 && j < radius && axis_blocks(grid@, wall_data@, cx as int, cy as int, xx as int, xy as int, yx as int, yy as int, j as int) ==> blocked,
                diag_scan_inv(grid@, wall_data@, orig, visibility@, cx as int, cy as int, xx as int, xy as int, yx as int, yy as int, row as int, j as int, radius as int, start_n as int, start_d as int, start_num as int, start_den as int, end_num as int, end_den as int),
                diag_behind_kept(grid@, wall_data@, orig, visibility@, cx as int, cy as int, xx as int, xy as int, yx as int, yy as int, j + 1, radius as int),
                diag_row_kept(grid@, wall_data@, orig, visibility@, cx as int, cy as int, xx as int, xy as int, yx as int, yy as int, j as int, radius as int),
                j < radius && !blocked && diag_blocks(grid@, wall_data@, cx as int, cy as int, xx as int, xy as int, yx as int, yy as int, j as int)
                    ==> frac_le(start_n as int, start_d as int, 2 * j - 1, 2 * j + 1)
                    || frac_lt(2 * j + 1, 2 * j - 1, end_num as int, end_den as int),
                first ==> first_row_marked(
                    visibility@,
                    cx as int,
                    cy as int,
                    radius as int,
                    xx as int,
                    xy as int,
                    yx as int,
                    yy as int,
                ),
                init && j > row ==> first_row_marked(
                    visibility@,
                    cx as int,
                    cy as int,
                    radius as int,
                    xx as int,
                    xy as int,
                    yx as int,
                    yy as int,
                ),
            decreases 1 - dx,
        {
            proof {
                lemma_times_unit(dx as int, xx as int, j as int);
                lemma_times_unit(dy as int, xy as int, j as int);
                lemma_times_unit(dx as int, yx as int, j as int);
                lemma_times_unit(dy as int, yy as int, j as int);
                lemma_times_unit((dy + 1) as int, xy as int, j as int);
                lemma_times_unit((dy + 1) as int, yy as int, j as int);
                lemma_radius_square(j as int);
                lemma_square_le(dx as int, j as int);
                lemma_square_le(dy as int, j as int);
                lemma_octant_unit(dx as int, dy as int, xx as int, xy as int, yx as int, yy as int, j as int);
                lemma_octant_unit(dx as int, (dy + 1) as int, xx as int, xy as int, yx as int, yy as int, j as int);
            }
            let ghost vis_top = visibility@;
            let mx = cx + dx * xx + dy * xy;
            let my = cy + dx * yx + dy * yy;
            // Slopes of the left and right edges of this cell, as fractions with
            // positive denominators.
            let dx64 = dx as i64;
            let j64 = j as i64;
            let l_num: i64 = 1 - 2 * dx64;
            let l_den: i64 = 2 * j64 - 1;
            let r_num: i64 = 0 - 2 * dx64 - 1;
            let r_den: i64 = 2 * j64 + 1;
            proof {
                if clear {
                    assert(start_n * r_den == r_den && r_num * start_d == r_num && l_num * end_den
                        == l_num && end_num * l_den == 0) by (nonlinear_arith)
                        requires
                            start_n == 1,
                            start_d == 1,
                            end_num == 0,
                            end_den == 1,
                    ;
                    lemma_octant_unit(dx as int, dy as int, xx as int, xy as int, yx as int, yy as int, j as int);
                    assert(in_grid(
                        octant_x(cx as int, dx as int, dy as int, xx as int, xy as int),
                        octant_y(cy as int, dx as int, dy as int, yx as int, yy as int),
                    ));
                }
            }
            proof {
                if dx == 0 {
                    lemma_pos_product(start_n as int, r_den as int);
                }
                lemma_diag_processed(start_n as int, start_d as int, end_num as int, end_den as int, j as int);
                if end_num == 0 {
                    lemma_pos_product(l_num as int, end_den as int);
                }
            }
            if slope_lt(start_n, start_d, r_num, r_den) {
                proof {
                    lemma_scan_skip(grid@, wall_data@, cx as int, cy as int, radius as int, xx as int, xy as int, yx as int, yy as int, end_num as int, end_den as int, j as int, dx as int, blocked, start_n as int, start_d as int, new_start_n as int, new_start_d as int, visibility@);
                    lemma_lower_cell_skip(grid@, wall_data@, visibility@, cx as int, cy as int, xx as int, xy as int, yx as int, yy as int, radius as int, row as int, j as int, dx as int, end_num == 0, (start_num == start_den && end_num <= end_den), start_n == start_d, blocked);
                }
                dx = dx + 1;
                continue;
            }
            if slope_lt(l_num, l_den, end_num, end_den) {
                proof {
                    lemma_scan_stop(grid@, wall_data@, cx as int, cy as int, radius as int, xx as int, xy as int, yx as int, yy as int, end_num as int, end_den as int, j as int, dx as int, blocked, start_n as int, start_d as int, new_start_n as int, new_start_d as int, visibility@);
                }
                break;
            }
            let dx2 = dx as i64;
            let dy2 = dy as i64;
            proof {
                if first && dx == dy + 1 {
                    assert(dx * xx == 0 && dy * xy == -xy && dx * yx == 0 && dy * yy == -yy
                        && dx2 * dx2 + dy2 * dy2 == 1 && radius_sq >= 1) by (nonlinear_arith)
                        requires
                            dx == 0,
                            dy == -1,
                            dx2 == 0,
                            dy2 == -1,
                            radius_sq == radius * radius,
                            radius >= 1,
                    ;
                }
                if first && dx == dy {
                    assert(dx * xx == -xx && dy * xy == -xy && dx * yx == -yx && dy * yy == -yy
                        && dx2 * dx2 + dy2 * dy2 == 2 && (radius >= 2 ==> radius_sq >= 4))
                        by (nonlinear_arith)
                        requires
                            dx == -1,
                            dy == -1,
                            dx2 == -1,
                            dy2 == -1,
                            radius_sq == radius * radius,
                            radius >= 1,
                    ;
                }
            }
            proof {
                if dx == 0 {
                    assert(dx2 * dx2 + dy2 * dy2 <= radius_sq as i64) by (nonlinear_arith)
                        requires
                            dx2 == 0,
                            dy2 == -j,
                            1 <= j <= radius,
                            radius_sq == radius * radius,
                    ;
                }
                if dx == dy {
                    assert((dx2 * dx2 + dy2 * dy2 <= radius_sq as i64) == (j * j + j * j <= radius * radius))
                        by (nonlinear_arith)
                        requires
                            dx2 == -j,
                            dy2 == -j,
                            radius_sq == radius * radius,
                    ;
                }
            }
            if dx2 * dx2 + dy2 * dy2 <= radius_sq as i64 {
                if mx >= 0 && my >= 0 && mx < GRID_W as i32 && my < GRID_H as i32 {
                    let idx = (my * 512 + mx) as usize;
                    let ghost before = visibility@;
                    proof {
                        lemma_octant_distance(
                            dx as int,
                            dy as int,
                            xx as int,
                            xy as int,
                            yx as int,
                            yy as int,
                        );
                    }
                    visibility[idx] = 255;
                    proof {
                        assert(idx == tile_index(mx as int, my as int));
                        lemma_mark_keeps(before, idx as int);
                        lemma_mark_cell(before, visibility@, cx as int, cy as int, xx as int, xy as int, yx as int, yy as int, dx as int, dy as int, row as int);
                        lemma_wedge_trans(orig, before, visibility@, cx as int, cy as int, xx as int, xy as int, yx as int, yy as int, row as int, row as int, row as int);
                        lemma_axis_kept_trans(orig, before, visibility@, cx as int, cy as int, xx as int, xy as int, yx as int, yy as int);
                        lemma_mark_keeps_diag(grid@, wall_data@, orig, before, visibility@, cx as int, cy as int, xx as int, xy as int, yx as int, yy as int, row as int, j as int, dx as int, radius as int, start_n as int, start_d as int, start_num as int, start_den as int, end_num as int, end_den as int);
                    }
                    assert(only_marks_in_radius(before, visibility@, cx as int, cy as int, radius as int)) by {
                        assert(within_radius(mx as int, my as int, cx as int, cy as int, radius as int));
                        assert(idx == tile_index(mx as int, my as int));
                    }
                    proof {
                        lemma_only_marks_trans(orig, before, visibility@, cx as int, cy as int, radius as int);
                    }
                }
            }
            let ghost vis_m = visibility@;
            proof {
                assert(keeps_marks(vis_top, visibility@));
                if dx == 0 {
                    assert(mx as int == octant_x(cx as int, 0, -(j as int), xx as int, xy as int));
                    assert(my as int == octant_y(cy as int, 0, -(j as int), yx as int, yy as int));
                }
                if dx == dy {
                    assert(mx as int == octant_x(cx as int, -(j as int), -(j as int), xx as int, xy as int));
                    assert(my as int == octant_y(cy as int, -(j as int), -(j as int), yx as int, yy as int));
                }
            }
            proof {
                if clear {
                    assert(only_marks_in_radius(vis_top, visibility@, cx as int, cy as int, radius as int));
                    lemma_rows_kept(vis_top, visibility@, cx as int, cy as int, radius as int, xx as int, xy as int, yx as int, yy as int, row as int, j as int, radius as int);
                    lemma_prefix_kept(vis_top, visibility@, cx as int, cy as int, radius as int, xx as int, xy as int, yx as int, yy as int, dy as int, dx as int, radius as int);
                    assert(row_prefix_marked(visibility@, cx as int, cy as int, radius as int, xx as int, xy as int, yx as int, yy as int, dy as int, dx + 1)) by {
                        if dx * dx + dy * dy <= radius * radius {
                            assert(visibility@[tile_index(mx as int, my as int)] == 255);
                        }
                    }
                }
                if first && dx == dy + 1 {
                    assert(first_row_marked(
                        visibility@,
                        cx as int,
                        cy as int,
                        radius as int,
                        xx as int,
                        xy as int,
                        yx as int,
                        yy as int,
                    ));
                }
            }
            let from_x = cx + dx * xx + (dy + 1) * xy;
            let from_y = cy + dx * yx + (dy + 1) * yy;
            proof {
                if dx == dy {
                    assert(mx as int == octant_x(cx as int, -(j as int), -(j as int), xx as int, xy as int));
                    assert(my as int == octant_y(cy as int, -(j as int), -(j as int), yx as int, yy as int));
                    assert(from_x as int == octant_x(cx as int, -(j as int), -(j as int) + 1, xx as int, xy as int));
                    assert(from_y as int == octant_y(cy as int, -(j as int), -(j as int) + 1, yx as int, yy as int));
                }
                if dx == 0 {
                    assert(mx as int == octant_x(cx as int, 0, -(j as int), xx as int, xy as int));
                    assert(my as int == octant_y(cy as int, 0, -(j as int), yx as int, yy as int));
                    assert(from_x as int == octant_x(cx as int, 0, -(j as int) + 1, xx as int, xy as int));
                    assert(from_y as int == octant_y(cy as int, 0, -(j as int) + 1, yx as int, yy as int));
                }
            }
            let ghost bh = spec_blocks_vision(grid@, wall_data@, mx as int, my as int, from_x as int, from_y as int);
            let ghost blocked0 = blocked;
            let ghost start_one0 = start_n == start_d;
            let ghost st_sn = start_n as int;
            let ghost st_sd = start_d as int;
            let ghost st_nsn = new_start_n as int;
            let ghost st_nsd = new_start_d as int;
            proof {
                lemma_row_slope_le_diag(dx as int, j as int);
                lemma_full_grid_slice(grid@.len() as int, mx as int, my as int);
                lemma_full_grid_slice(grid@.len() as int, from_x as int, from_y as int);
            }
            if blocked {
                if blocks_vision(grid, wall_data, mx, my, from_x, from_y) {
                    new_start_n = r_num;
                    new_start_d = r_den;
                } else {
                    blocked = false;
                    let ghost old_n = start_n;
                    let ghost old_d = start_d;
                    start_n = new_start_n;
                    start_d = new_start_d;
                    proof {
                        lemma_lower_start(grid@, wall_data@, orig, visibility@, cx as int, cy as int, xx as int, xy as int, yx as int, yy as int, row as int, j as int, radius as int, old_n as int, old_d as int, start_n as int, start_d as int, start_num as int, start_den as int, end_num as int, end_den as int);
                    }
                }
            } else if blocks_vision(grid, wall_data, mx, my, from_x, from_y) && j < radius {
                blocked = true;
                let ghost before = visibility@;
                cast_light(
                    grid,
                    wall_data,
                    visibility,
                    cx,
                    cy,
                    radius,
                    j + 1,
                    start_n,
                    start_d,
                    l_num,
                    l_den,
                    xx,
                    xy,
                    yx,
                    yy,
                );
                proof {
                    lemma_only_marks_trans(orig, before, visibility@, cx as int, cy as int, radius as int);
                    lemma_child_keeps_axis(before, visibility@, cx as int, cy as int, xx as int, xy as int, yx as int, yy as int, j as int, l_num as int);
                    lemma_wedge_trans(orig, before, visibility@, cx as int, cy as int, xx as int, xy as int, yx as int, yy as int, row as int, j + 1, row as int);
                    lemma_axis_kept_trans(orig, before, visibility@, cx as int, cy as int, xx as int, xy as int, yx as int, yy as int);
                    lemma_only_marks_keeps(before, visibility@, cx as int, cy as int, radius as int);
                    lemma_child_keeps_diag_inv(grid@, wall_data@, orig, before, visibility@, cx as int, cy as int, xx as int, xy as int, yx as int, yy as int, row as int, j as int, dx as int, radius as int, start_n as int, start_d as int, start_num as int, start_den as int, end_num as int, end_den as int, l_num as int, l_den as int);
                    if first && dx >= dy {
                        if dx == dy + 1 {
                            lemma_first_row_kept(
                                before,
                                visibility@,
                                cx as int,
                                cy as int,
                                radius as int,
                                xx as int,
                                xy as int,
                                yx as int,
                                yy as int,
                                radius as int,
                            );
                        }
                        let d = (cx - xx - xy, cy - yx - yy);
                        if radius >= 2 && in_grid(d.0, d.1) {
                            assert(visibility@[tile_index(d.0, d.1)] == before[tile_index(d.0, d.1)]
                                || visibility@[tile_index(d.0, d.1)] == 255);
                        }
                    }
                    if init && j > row {
                        lemma_first_row_kept(
                            before,
                            visibility@,
                            cx as int,
                            cy as int,
                            radius as int,
                            xx as int,
                            xy as int,
                            yx as int,
                            yy as int,
                            radius as int,
                        );
                    }
                }
                new_start_n = r_num;
                new_start_d = r_den;
            }
            proof {
                lemma_scan_cell(grid@, wall_data@, cx as int, cy as int, radius as int, xx as int, xy as int, yx as int, yy as int, end_num as int, end_den as int, j as int, dx as int, blocked0, st_sn, st_sd, st_nsn, st_nsd, vis_top, vis_m, bh, blocked, start_n as int, start_d as int, new_start_n as int, new_start_d as int, visibility@);
                lemma_lower_cell_step(grid@, wall_data@, vis_top, vis_m, visibility@, cx as int, cy as int, xx as int, xy as int, yx as int, yy as int, radius as int, row as int, j as int, dx as int, end_num == 0, (start_num == start_den && end_num <= end_den), start_one0, start_n == start_d, blocked0, blocked, bh);
            }
            dx = dx + 1;
        }
        proof {
            lemma_diag_row_combine(grid@, wall_data@, orig, visibility@, cx as int, cy as int, xx as int, xy as int, yx as int, yy as int, j as int, radius as int);
            lemma_seen_init(grid@, wall_data@, visibility@, cx as int, cy as int, xx as int, xy as int, yx as int, yy as int, radius as int, row as int, j as int);
            lemma_lower_row_end(grid@, wall_data@, visibility@, cx as int, cy as int, xx as int, xy as int, yx as int, yy as int, radius as int, row as int, j as int, dx as int, end_num == 0, (start_num == start_den && end_num <= end_den), start_n == start_d, blocked);
            done_to = j + 1;
        }
        if blocked {
            break;
        }
        proof {
            lemma_diag_next_row(grid@, wall_data@, orig, visibility@, cx as int, cy as int, xx as int, xy as int, yx as int, yy as int, row as int, j as int, radius as int, start_n as int, start_d as int, start_num as int, start_den as int, end_num as int, end_den as int);
            lemma_diag_split(grid@, wall_data@, orig, visibility@, cx as int, cy as int, xx as int, xy as int, yx as int, yy as int, j + 1, radius as int);
            if clear {
                assert forall|dx2: int, dy2: int|
                    row <= -dy2 < j + 1 && dy2 <= dx2 <= 0 && dx2 * dx2 + dy2 * dy2 <= radius * radius implies visibility@[tile_index(
                    #[trigger] octant_x(cx as int, dx2, dy2, xx as int, xy as int),
                    #[trigger] octant_y(cy as int, dx2, dy2, yx as int, yy as int),
                )] == 255 by {
                    if -dy2 == j {
                        assert(dy2 == dy);
                    }
                }
            }
        }
        j = j + 1;
    }
    proof {
        lemma_seen_final(grid@, wall_data@, visibility@, cx as int, cy as int, xx as int, xy as int, yx as int, yy as int, radius as int, row as int, done_to);
        lemma_diag_final(grid@, wall_data@, orig, visibility@, cx as int, cy as int, xx as int, xy as int, yx as int, yy as int, row as int, j as int, radius as int, start_n as int, start_d as int, start_num as int, start_den as int, end_num as int, end_den as int);
    }
}

/// The octant multipliers that map octant-local (dx, dy) to world offsets; each
/// octant scans a 45 degree wedge.
pub open spec fn spec_octant(k: int) -> (i32, i32, i32, i32) {
    if k == 0 {
        (1, 0, 0, 1)
    } else if k == 1 {
        (0, 1, 1, 0)
    } else if k == 2 {
        (0, -1i32, 1, 0)
    } else if k == 3 {
        (-1i32, 0, 0, 1)
    } else if k == 4 {
        (-1i32, 0, 0, -1i32)
    } else if k == 5 {
        (0, -1i32, -1i32, 0)
    } else if k == 6 {
        (0, 1, -1i32, 0)
    } else {
        (1, 0, 0, -1i32)
    }
}

proof fn lemma_spec_octant(k: int)
    requires
        0 <= k < 8,
    ensures
        octant_transform(spec_octant(k).0, spec_octant(k).1, spec_octant(k).2, spec_octant(k).3),
{
    if k == 0 {
    } else if k == 1 {
    } else if k == 2 {
    } else if k == 3 {
    } else if k == 4 {
    } else if k == 5 {
    } else if k == 6 {
    } else {
    }
}

/// (x, y) lies on the row or the column through (cx, cy), and a tile strictly between
/// them blocks the sightline that reaches it from its neighbour on the side of (cx, cy).
pub open spec fn hidden_on_axis(grid: Seq<u32>, wall_data: Seq<u16>, cx: int, cy: int, x: int, y: int) -> bool {
    ||| y == cy && x > cx && exists|k: int|
        1 <= k < x - cx && #[trigger] spec_blocks_vision(grid, wall_data, cx + k, cy, cx + k - 1, cy)
    ||| y == cy && x < cx && exists|k: int|
        1 <= k < cx - x && #[trigger] spec_blocks_vision(grid, wall_data, cx - k, cy, cx - k + 1, cy)
    ||| x == cx && y > cy && exists|k: int|
        1 <= k < y - cy && #[trigger] spec_blocks_vision(grid, wall_data, cx, cy + k, cx, cy + k - 1)
    ||| x == cx && y < cy && exists|k: int|
        1 <= k < cy - y && #[trigger] spec_blocks_vision(grid, wall_data, cx, cy - k, cx, cy - k + 1)
}

proof fn lemma_unit_neg(u: int, m: int)
    by (nonlinear_arith)
    requires
        -1 <= u <= 1,
        1 <= m,
        u * m <= -1,
    ensures
        u == -1,
{
}

proof fn lemma_unit_pos(u: int, m: int)
    by (nonlinear_arith)
    requires
        -1 <= u <= 1,
        1 <= m,
        -(u * m) <= -1,
    ensures
        u == 1,
{
}

proof fn lemma_unit_zero(u: int, v: int)
    by (nonlinear_arith)
    requires
        u == 1 || u == -1,
        u * u + v * v == 1,
    ensures
        v == 0,
{
}

/// An octant scan from the viewpoint keeps every tile hidden on an axis that lies in
/// its wedge: such a tile is the octant's own axis cell, behind the blocking one.
proof fn lemma_hidden_kept(
    grid: Seq<u32>,
    wall_data: Seq<u16>,
    before: Seq<u8>,
    after: Seq<u8>,
    cx: int,
    cy: int,
    xx: int,
    xy: int,
    yx: int,
    yy: int,
    x: int,
    y: int,
)
    requires
        -1 <= xx <= 1,
        -1 <= xy <= 1,
        -1 <= yx <= 1,
        -1 <= yy <= 1,
        xx * xx + yx * yx == 1,
        xy * xy + yy * yy == 1,
        xx * xy + yx * yy == 0,
        in_wedge(x, y, cx, cy, xx, xy, yx, yy, 1),
        hidden_on_axis(grid, wall_data, cx, cy, x, y),
        forall|k: int, m: int|
            #![trigger axis_blocks(grid, wall_data, cx, cy, xx, xy, yx, yy, k), axis_cell_kept(before, after, cx, cy, xx, xy, yx, yy, m)]
            1 <= k < m && axis_blocks(grid, wall_data, cx, cy, xx, xy, yx, yy, k) ==> axis_cell_kept(
                before,
                after,
                cx,
                cy,
                xx,
                xy,
                yx,
                yy,
                m,
            ),
    ensures
        in_grid(x, y) ==> after[tile_index(x, y)] == before[tile_index(x, y)],
{
    if y == cy && x > cx && exists|k: int|
        1 <= k < x - cx && #[trigger] spec_blocks_vision(grid, wall_data, cx + k, cy, cx + k - 1, cy) {
        let k0 = choose|k: int|
            1 <= k < x - cx && #[trigger] spec_blocks_vision(grid, wall_data, cx + k, cy, cx + k - 1, cy);
        let m = x - cx;
        assert(local_dy(x, y, cx, cy, xy, yy) == xy * m) by (nonlinear_arith)
            requires
                x - cx == m,
                y - cy == 0,
        ;
        lemma_unit_neg(xy, m); lemma_unit_zero(xy, yy);
        assert(octant_x(cx, 0, -m, xx, xy) == x && octant_y(cy, 0, -m, yx, yy) == y);
        assert(octant_x(cx, 0, -k0, xx, xy) == cx + k0 && octant_y(cy, 0, -k0, yx, yy) == cy);
        assert(octant_x(cx, 0, -k0 + 1, xx, xy) == cx + k0 - 1 && octant_y(cy, 0, -k0 + 1, yx, yy) == cy);
        assert(axis_blocks(grid, wall_data, cx, cy, xx, xy, yx, yy, k0));
        assert(axis_cell_kept(before, after, cx, cy, xx, xy, yx, yy, m));
    } else if y == cy && x < cx && exists|k: int|
        1 <= k < cx - x && #[trigger] spec_blocks_vision(grid, wall_data, cx - k, cy, cx - k + 1, cy) {
        let k0 = choose|k: int|
            1 <= k < cx - x && #[trigger] spec_blocks_vision(grid, wall_data, cx - k, cy, cx - k + 1, cy);
        let m = cx - x;
        assert(local_dy(x, y, cx, cy, xy, yy) == -(xy * m)) by (nonlinear_arith)
            requires
                x - cx == -m,
                y - cy == 0,
        ;
        lemma_unit_pos(xy, m); lemma_unit_zero(xy, yy);
        assert(octant_x(cx, 0, -m, xx, xy) == x && octant_y(cy, 0, -m, yx, yy) == y);
        assert(octant_x(cx, 0, -k0, xx, xy) == cx - k0 && octant_y(cy, 0, -k0, yx, yy) == cy);
        assert(octant_x(cx, 0, -k0 + 1, xx, xy) == cx - k0 + 1 && octant_y(cy, 0, -k0 + 1, yx, yy) == cy);
        assert(axis_blocks(grid, wall_data, cx, cy, xx, xy, yx, yy, k0));
        assert(axis_cell_kept(before, after, cx, cy, xx, xy, yx, yy, m));
    } else if x == cx && y > cy && exists|k: int|
        1 <= k < y - cy && #[trigger] spec_blocks_vision(grid, wall_data, cx, cy + k, cx, cy + k - 1) {
        let k0 = choose|k: int|
            1 <= k < y - cy && #[trigger] spec_blocks_vision(grid, wall_data, cx, cy + k, cx, cy + k - 1);
        let m = y - cy;
        assert(local_dy(x, y, cx, cy, xy, yy) == yy * m) by (nonlinear_arith)
            requires
                x - cx == 0,
                y - cy == m,
        ;
        lemma_unit_neg(yy, m); lemma_unit_zero(yy, xy);
        assert(octant_x(cx, 0, -m, xx, xy) == x && octant_y(cy, 0, -m, yx, yy) == y);
        assert(octant_x(cx, 0, -k0, xx, xy) == cx && octant_y(cy, 0, -k0, yx, yy) == cy + k0);
        assert(octant_x(cx, 0, -k0 + 1, xx, xy) == cx && octant_y(cy, 0, -k0 + 1, yx, yy) == cy + k0 - 1);
        assert(axis_blocks(grid, wall_data, cx, cy, xx, xy, yx, yy, k0));
        assert(axis_cell_kept(before, after, cx, cy, xx, xy, yx, yy, m));
    } else {
        let k0 = choose|k: int|
            1 <= k < cy - y && #[trigger] spec_blocks_vision(grid, wall_data, cx, cy - k, cx, cy - k + 1);
        let m = cy - y;
        assert(local_dy(x, y, cx, cy, xy, yy) == -(yy * m)) by (nonlinear_arith)
            requires
                x - cx == 0,
                y - cy == -m,
        ;
        lemma_unit_pos(yy, m); lemma_unit_zero(yy, xy);
        assert(octant_x(cx, 0, -m, xx, xy) == x && octant_y(cy, 0, -m, yx, yy) == y);
        assert(octant_x(cx, 0, -k0, xx, xy) == cx && octant_y(cy, 0, -k0, yx, yy) == cy - k0);
        assert(octant_x(cx, 0, -k0 + 1, xx, xy) == cx && octant_y(cy, 0, -k0 + 1, yx, yy) == cy - k0 + 1);
        assert(axis_blocks(grid, wall_data, cx, cy, xx, xy, yx, yy, k0));
        assert(axis_cell_kept(before, after, cx, cy, xx, xy, yx, yy, m));
    }
}

/// (x, y) lies on a diagonal through (cx, cy), and a tile strictly between them
/// blocks the sightlines that reach it from both of its neighbours on the side of
/// (cx, cy): the one in its row and the one in its column.
pub open spec fn hidden_on_diagonal(grid: Seq<u32>, wall_data: Seq<u16>, cx: int, cy: int, x: int, y: int) -> bool {
    ||| x > cx && y - cy == x - cx && exists|k: int|
        1 <= k < x - cx && #[trigger] spec_blocks_vision(grid, wall_data, cx + k, cy + k, cx + k - 1, cy + k)
            && spec_blocks_vision(grid, wall_data, cx + k, cy + k, cx + k, cy + k - 1)
    ||| x > cx && cy - y == x - cx && exists|k: int|
        1 <= k < x - cx && #[trigger] spec_blocks_vision(grid, wall_data, cx + k, cy - k, cx + k - 1, cy - k)
            && spec_blocks_vision(grid, wall_data, cx + k, cy - k, cx + k, cy - k + 1)
    ||| x < cx && y - cy == cx - x && exists|k: int|
        1 <= k < cx - x && #[trigger] spec_blocks_vision(grid, wall_data, cx - k, cy + k, cx - k + 1, cy + k)
            && spec_blocks_vision(grid, wall_data, cx - k, cy + k, cx - k, cy + k - 1)
    ||| x < cx && cy - y == cx - x && exists|k: int|
        1 <= k < cx - x && #[trigger] spec_blocks_vision(grid, wall_data, cx - k, cy - k, cx - k + 1, cy - k)
            && spec_blocks_vision(grid, wall_data, cx - k, cy - k, cx - k, cy - k + 1)
}

/// (x, y) is hidden from (cx, cy) behind a blocking tile on its row, column or
/// diagonal.
pub open spec fn hidden_from(grid: Seq<u32>, wall_data: Seq<u16>, cx: int, cy: int, x: int, y: int) -> bool {
    hidden_on_axis(grid, wall_data, cx, cy, x, y) || hidden_on_diagonal(grid, wall_data, cx, cy, x, y)
}

proof fn lemma_signed_unit(p: int, q: int, s: int, t: int)
    requires
        -1 <= p <= 1,
        -1 <= q <= 1,
        p * p + q * q == 1,
        s == 1 || s == -1,
        t == 1 || t == -1,
    ensures
        p * s + q * t == 1 || p * s + q * t == -1,
        p == 0 ==> (q == 1 || q == -1),
        p != 0 ==> q == 0,
{
    if p == 0 {
        assert(q * q == 1);
        assert(q == 1 || q == -1) by (nonlinear_arith)
            requires
                q * q == 1,
                -1 <= q <= 1,
        ;
    } else {
        assert(p == 1 || p == -1);
        assert(p * p == 1) by (nonlinear_arith)
            requires
                p == 1 || p == -1,
        ;
        assert(q == 0) by (nonlinear_arith)
            requires
                q * q == 0,
        ;
    }
    assert(p * s + q * t == 1 || p * s + q * t == -1) by (nonlinear_arith)
        requires
            (p == 0 && (q == 1 || q == -1)) || ((p == 1 || p == -1) && q == 0),
            s == 1 || s == -1,
            t == 1 || t == -1,
    ;
}

/// An octant scan keeps every tile hidden on a diagonal that lies in its wedge: such a
/// tile is the octant's own diagonal cell, behind the blocking one.
proof fn lemma_diag_tile_kept(
    grid: Seq<u32>,
    wall_data: Seq<u16>,
    before: Seq<u8>,
    after: Seq<u8>,
    cx: int,
    cy: int,
    xx: int,
    xy: int,
    yx: int,
    yy: int,
    sx: int,
    sy: int,
    m: int,
    k: int,
)
    requires
        -1 <= xx <= 1,
        -1 <= xy <= 1,
        -1 <= yx <= 1,
        -1 <= yy <= 1,
        xx * xx + yx * yx == 1,
        xy * xy + yy * yy == 1,
        xx * xy + yx * yy == 0,
        xx * xx + xy * xy == 1,
        yx * yx + yy * yy == 1,
        xx * yx + xy * yy == 0,
        sx == 1 || sx == -1,
        sy == 1 || sy == -1,
        1 <= k < m,
        in_wedge(cx + sx * m, cy + sy * m, cx, cy, xx, xy, yx, yy, 1),
        spec_blocks_vision(grid, wall_data, cx + sx * k, cy + sy * k, cx + sx * k - sx, cy + sy * k),
        spec_blocks_vision(grid, wall_data, cx + sx * k, cy + sy * k, cx + sx * k, cy + sy * k - sy),
        forall|k2: int, m2: int|
            #![trigger diag_blocks(grid, wall_data, cx, cy, xx, xy, yx, yy, k2), diag_cell_kept(before, after, cx, cy, xx, xy, yx, yy, m2)]
            1 <= k2 < m2 && diag_blocks(grid, wall_data, cx, cy, xx, xy, yx, yy, k2) ==> diag_cell_kept(
                before,
                after,
                cx,
                cy,
                xx,
                xy,
                yx,
                yy,
                m2,
            ),
    ensures
        in_grid(cx + sx * m, cy + sy * m) ==> after[tile_index(cx + sx * m, cy + sy * m)] == before[tile_index(
            cx + sx * m,
            cy + sy * m,
        )],
{
    let x = cx + sx * m;
    let y = cy + sy * m;
    let a = xx * sx + yx * sy;
    let b = xy * sx + yy * sy;
    lemma_signed_unit(xx, yx, sx, sy);
    lemma_signed_unit(xy, yy, sx, sy);
    assert(local_dx(x, y, cx, cy, xx, yx) == a * m && local_dy(x, y, cx, cy, xy, yy) == b * m)
        by (nonlinear_arith)
        requires
            x - cx == sx * m,
            y - cy == sy * m,
            a == xx * sx + yx * sy,
            b == xy * sx + yy * sy,
    ;
    assert(a == -1 && b == -1) by (nonlinear_arith)
        requires
            a == 1 || a == -1,
            b == 1 || b == -1,
            b * m <= -1,
            a * m <= 0,
            1 <= m,
    ;
    // The transform is orthogonal, so the viewpoint-to-tile direction is the image of
    // the octant diagonal.
    assert(xx + xy == -sx && yx + yy == -sy) by (nonlinear_arith)
        requires
            xx * sx + yx * sy == -1,
            xy * sx + yy * sy == -1,
            xx * xx + xy * xy == 1,
            yx * yx + yy * yy == 1,
            xx * yx + xy * yy == 0,
    ;
    assert((xy == -sx && yy == 0) || (xy == 0 && yy == -sy)) by (nonlinear_arith)
        requires
            xy * sx + yy * sy == -1,
            xy == 0 ==> (yy == 1 || yy == -1),
            xy != 0 ==> yy == 0,
            -1 <= xy <= 1,
            sx == 1 || sx == -1,
            sy == 1 || sy == -1,
    ;
    assert(octant_x(cx, -m, -m, xx, xy) == x && octant_y(cy, -m, -m, yx, yy) == y) by (nonlinear_arith)
        requires
            xx + xy == -sx,
            yx + yy == -sy,
            x == cx + sx * m,
            y == cy + sy * m,
    ;
    assert(octant_x(cx, -k, -k, xx, xy) == cx + sx * k && octant_y(cy, -k, -k, yx, yy) == cy + sy * k)
        by (nonlinear_arith)
        requires
            xx + xy == -sx,
            yx + yy == -sy,
    ;
    assert(octant_x(cx, -k, -k + 1, xx, xy) == cx + sx * k + xy && octant_y(cy, -k, -k + 1, yx, yy)
        == cy + sy * k + yy) by (nonlinear_arith)
        requires
            xx + xy == -sx,
            yx + yy == -sy,
    ;
    assert(diag_blocks(grid, wall_data, cx, cy, xx, xy, yx, yy, k));
    assert(diag_cell_kept(before, after, cx, cy, xx, xy, yx, yy, m));
}

proof fn lemma_diag_hidden_kept(
    grid: Seq<u32>,
    wall_data: Seq<u16>,
    before: Seq<u8>,
    after: Seq<u8>,
    cx: int,
    cy: int,
    xx: int,
    xy: int,
    yx: int,
    yy: int,
    x: int,
    y: int,
)
    requires
        -1 <= xx <= 1,
        -1 <= xy <= 1,
        -1 <= yx <= 1,
        -1 <= yy <= 1,
        xx * xx + yx * yx == 1,
        xy * xy + yy * yy == 1,
        xx * xy + yx * yy == 0,
        xx * xx + xy * xy == 1,
        yx * yx + yy * yy == 1,
        xx * yx + xy * yy == 0,
        in_wedge(x, y, cx, cy, xx, xy, yx, yy, 1),
        hidden_on_diagonal(grid, wall_data, cx, cy, x, y),
        forall|k2: int, m2: int|
            #![trigger diag_blocks(grid, wall_data, cx, cy, xx, xy, yx, yy, k2), diag_cell_kept(before, after, cx, cy, xx, xy, yx, yy, m2)]
            1 <= k2 < m2 && diag_blocks(grid, wall_data, cx, cy, xx, xy, yx, yy, k2) ==> diag_cell_kept(
                before,
                after,
                cx,
                cy,
                xx,
                xy,
                yx,
                yy,
                m2,
            ),
    ensures
        in_grid(x, y) ==> after[tile_index(x, y)] == before[tile_index(x, y)],
{
    if x > cx && y - cy == x - cx && exists|k: int|
        1 <= k < x - cx && #[trigger] spec_blocks_vision(grid, wall_data, cx + k, cy + k, cx + k - 1, cy + k)
            && spec_blocks_vision(grid, wall_data, cx + k, cy + k, cx + k, cy + k - 1) {
        let k = choose|k: int|
            1 <= k < x - cx && #[trigger] spec_blocks_vision(grid, wall_data, cx + k, cy + k, cx + k - 1, cy + k)
                && spec_blocks_vision(grid, wall_data, cx + k, cy + k, cx + k, cy + k - 1);
        lemma_diag_tile_kept(grid, wall_data, before, after, cx, cy, xx, xy, yx, yy, 1, 1, x - cx, k);
    } else if x > cx && cy - y == x - cx && exists|k: int|
        1 <= k < x - cx && #[trigger] spec_blocks_vision(grid, wall_data, cx + k, cy - k, cx + k - 1, cy - k)
            && spec_blocks_vision(grid, wall_data, cx + k, cy - k, cx + k, cy - k + 1) {
        let k = choose|k: int|
            1 <= k < x - cx && #[trigger] spec_blocks_vision(grid, wall_data, cx + k, cy - k, cx + k - 1, cy - k)
                && spec_blocks_vision(grid, wall_data, cx + k, cy - k, cx + k, cy - k + 1);
        lemma_diag_tile_kept(grid, wall_data, before, after, cx, cy, xx, xy, yx, yy, 1, -1, x - cx, k);
    } else if x < cx && y - cy == cx - x && exists|k: int|
        1 <= k < cx - x && #[trigger] spec_blocks_vision(grid, wall_data, cx - k, cy + k, cx - k + 1, cy + k)
            && spec_blocks_vision(grid, wall_data, cx - k, cy + k, cx - k, cy + k - 1) {
        let k = choose|k: int|
            1 <= k < cx - x && #[trigger] spec_blocks_vision(grid, wall_data, cx - k, cy + k, cx - k + 1, cy + k)
                && spec_blocks_vision(grid, wall_data, cx - k, cy + k, cx - k, cy + k - 1);
        lemma_diag_tile_kept(grid, wall_data, before, after, cx, cy, xx, xy, yx, yy, -1, 1, cx - x, k);
    } else {
        let k = choose|k: int|
            1 <= k < cx - x && #[trigger] spec_blocks_vision(grid, wall_data, cx - k, cy - k, cx - k + 1, cy - k)
                && spec_blocks_vision(grid, wall_data, cx - k, cy - k, cx - k, cy - k + 1);
        lemma_diag_tile_kept(grid, wall_data, before, after, cx, cy, xx, xy, yx, yy, -1, -1, cx - x, k);
    }
}

/// (x, y) lies on the row or the column through (cx, cy), within the radius, and no
/// tile strictly between them blocks the sightline that reaches it from its
/// neighbour on the side of (cx, cy).
pub open spec fn seen_on_axis(grid: Seq<u32>, wall_data: Seq<u16>, cx: int, cy: int, radius: int, x: int, y: int) -> bool {
    &&& 0 <= radius
    &&& within_radius(x, y, cx, cy, radius)
    &&& {
        ||| y == cy && x > cx && forall|k: int|
            1 <= k < x - cx ==> !#[trigger] spec_blocks_vision(grid, wall_data, cx + k, cy, cx + k - 1, cy)
        ||| y == cy && x < cx && forall|k: int|
            1 <= k < cx - x ==> !#[trigger] spec_blocks_vision(grid, wall_data, cx - k, cy, cx - k + 1, cy)
        ||| x == cx && y > cy && forall|k: int|
            1 <= k < y - cy ==> !#[trigger] spec_blocks_vision(grid, wall_data, cx, cy + k, cx, cy + k - 1)
        ||| x == cx && y < cy && forall|k: int|
            1 <= k < cy - y ==> !#[trigger] spec_blocks_vision(grid, wall_data, cx, cy - k, cx, cy - k + 1)
    }
}

/// (x, y) lies on a diagonal through (cx, cy), within the radius, and no tile strictly
/// between them blocks the sightline that reaches it from its neighbour in its row
/// on the side of (cx, cy), or none blocks the one from its neighbour in its column.
pub open spec fn seen_on_diagonal(grid: Seq<u32>, wall_data: Seq<u16>, cx: int, cy: int, radius: int, x: int, y: int) -> bool {
    &&& 0 <= radius
    &&& within_radius(x, y, cx, cy, radius)
    &&& {
        ||| x > cx && y - cy == x - cx && ((forall|k: int|
            1 <= k < x - cx ==> !#[trigger] spec_blocks_vision(grid, wall_data, cx + k, cy + k, cx + k - 1, cy + k))
            || (forall|k: int|
            1 <= k < x - cx ==> !#[trigger] spec_blocks_vision(grid, wall_data, cx + k, cy + k, cx + k, cy + k - 1)))
        ||| x > cx && cy - y == x - cx && ((forall|k: int|
            1 <= k < x - cx ==> !#[trigger] spec_blocks_vision(grid, wall_data, cx + k, cy - k, cx + k - 1, cy - k))
            || (forall|k: int|
            1 <= k < x - cx ==> !#[trigger] spec_blocks_vision(grid, wall_data, cx + k, cy - k, cx + k, cy - k + 1)))
        ||| x < cx && y - cy == cx - x && ((forall|k: int|
            1 <= k < cx - x ==> !#[trigger] spec_blocks_vision(grid, wall_data, cx - k, cy + k, cx - k + 1, cy + k))
            || (forall|k: int|
            1 <= k < cx - x ==> !#[trigger] spec_blocks_vision(grid, wall_data, cx - k, cy + k, cx - k, cy + k - 1)))
        ||| x < cx && cy - y == cx - x && ((forall|k: int|
            1 <= k < cx - x ==> !#[trigger] spec_blocks_vision(grid, wall_data, cx - k, cy - k, cx - k + 1, cy - k))
            || (forall|k: int|
            1 <= k < cx - x ==> !#[trigger] spec_blocks_vision(grid, wall_data, cx - k, cy - k, cx - k, cy - k + 1)))
    }
}

/// (x, y) is in clear sight of (cx, cy) along its row, column or diagonal.
pub open spec fn seen_from(grid: Seq<u32>, wall_data: Seq<u16>, cx: int, cy: int, radius: int, x: int, y: int) -> bool {
    seen_on_axis(grid, wall_data, cx, cy, radius, x, y) || seen_on_diagonal(grid, wall_data, cx, cy, radius, x, y)
}

/// The octant scan with multipliers number k sees its axis and its diagonal.
pub open spec fn octant_sees(grid: Seq<u32>, wall_data: Seq<u16>, vis: Seq<u8>, cx: int, cy: int, radius: int, k: int) -> bool {
    let o = spec_octant(k);
    &&& axis_seen_from(grid, wall_data, vis, cx, cy, o.0 as int, o.1 as int, o.2 as int, o.3 as int, radius, 1)
    &&& diag_seen_from(grid, wall_data, vis, cx, cy, o.0 as int, o.1 as int, o.2 as int, o.3 as int, radius, 1)
}

proof fn lemma_within_bounds(a: int, b: int, r: int)
    by (nonlinear_arith)
    requires
        a * a + b * b <= r * r,
        0 <= r,
    ensures
        -r <= a <= r,
        -r <= b <= r,
{
}

proof fn lemma_diag_world_dist(a: int, b: int, m: int, r: int)
    by (nonlinear_arith)
    requires
        a == m || a == -m,
        b == m || b == -m,
        a * a + b * b <= r * r,
    ensures
        m * m + m * m <= r * r,
{
}

/// The tile on the east arm of the cross through the viewpoint: octant 2 sees its axis.
proof fn lemma_seen_axis_east(grid: Seq<u32>, wall_data: Seq<u16>, vis: Seq<u8>, cx: int, cy: int, radius: int, x: int, y: int)
    requires
        octant_sees(grid, wall_data, vis, cx, cy, radius, 2),
        0 <= radius,
        within_radius(x, y, cx, cy, radius),
        y == cy && x > cx,
        forall|k: int| 1 <= k < x - cx ==> !#[trigger] spec_blocks_vision(grid, wall_data, cx + k, cy, cx + k - 1, cy),
    ensures
        in_grid(x, y) ==> vis[tile_index(x, y)] == 255,
{
    reveal(axis_seen_from);
    reveal(axis_clear);
    let m = x - cx;
    lemma_within_bounds(x - cx, y - cy, radius);
    assert(spec_octant(2) == (0i32, -1i32, 1i32, 0i32));
    assert(axis_seen_from(grid, wall_data, vis, cx, cy, 0int, (-1int), 1int, 0int, radius, 1));
    assert forall|k: int| 1 <= k < m implies !#[trigger] axis_blocks(grid, wall_data, cx, cy, 0int, (-1int), 1int, 0int, k) by {
        assert(octant_x(cx, 0, -k, 0int, (-1int)) == cx + k && octant_y(cy, 0, -k, 1int, 0int) == cy);
        assert(octant_x(cx, 0, -k + 1, 0int, (-1int)) == cx + k - 1 && octant_y(cy, 0, -k + 1, 1int, 0int) == cy);
        assert(!spec_blocks_vision(grid, wall_data, cx + k, cy, cx + k - 1, cy));
    }
    assert(axis_clear(grid, wall_data, cx, cy, 0int, (-1int), 1int, 0int, 1, m));
    assert(octant_x(cx, 0, -m, 0int, (-1int)) == x && octant_y(cy, 0, -m, 1int, 0int) == y);
    assert(axis_marked(vis, cx, cy, 0int, (-1int), 1int, 0int, m));
}

/// The tile on the west arm of the cross through the viewpoint: octant 1 sees its axis.
proof fn lemma_seen_axis_west(grid: Seq<u32>, wall_data: Seq<u16>, vis: Seq<u8>, cx: int, cy: int, radius: int, x: int, y: int)
    requires
        octant_sees(grid, wall_data, vis, cx, cy, radius, 1),
        0 <= radius,
        within_radius(x, y, cx, cy, radius),
        y == cy && x < cx,
        forall|k: int| 1 <= k < cx - x ==> !#[trigger] spec_blocks_vision(grid, wall_data, cx - k, cy, cx - k + 1, cy),
    ensures
        in_grid(x, y) ==> vis[tile_index(x, y)] == 255,
{
    reveal(axis_seen_from);
    reveal(axis_clear);
    let m = cx - x;
    lemma_within_bounds(x - cx, y - cy, radius);
    assert(spec_octant(1) == (0i32, 1i32, 1i32, 0i32));
    assert(axis_seen_from(grid, wall_data, vis, cx, cy, 0int, 1int, 1int, 0int, radius, 1));
    assert forall|k: int| 1 <= k < m implies !#[trigger] axis_blocks(grid, wall_data, cx, cy, 0int, 1int, 1int, 0int, k) by {
        assert(octant_x(cx, 0, -k, 0int, 1int) == cx - k && octant_y(cy, 0, -k, 1int, 0int) == cy);
        assert(octant_x(cx, 0, -k + 1, 0int, 1int) == cx - k + 1 && octant_y(cy, 0, -k + 1, 1int, 0int) == cy);
        assert(!spec_blocks_vision(grid, wall_data, cx - k, cy, cx - k + 1, cy));
    }
    assert(axis_clear(grid, wall_data, cx, cy, 0int, 1int, 1int, 0int, 1, m));
    assert(octant_x(cx, 0, -m, 0int, 1int) == x && octant_y(cy, 0, -m, 1int, 0int) == y);
    assert(axis_marked(vis, cx, cy, 0int, 1int, 1int, 0int, m));
}

/// The tile on the south arm of the cross through the viewpoint: octant 4 sees its axis.
proof fn lemma_seen_axis_south(grid: Seq<u32>, wall_data: Seq<u16>, vis: Seq<u8>, cx: int, cy: int, radius: int, x: int, y: int)
    requires
        octant_sees(grid, wall_data, vis, cx, cy, radius, 4),
        0 <= radius,
        within_radius(x, y, cx, cy, radius),
        x == cx && y > cy,
        forall|k: int| 1 <= k < y - cy ==> !#[trigger] spec_blocks_vision(grid, wall_data, cx, cy + k, cx, cy + k - 1),
    ensures
        in_grid(x, y) ==> vis[tile_index(x, y)] == 255,
{
    reveal(axis_seen_from);
    reveal(axis_clear);
    let m = y - cy;
    lemma_within_bounds(x - cx, y - cy, radius);
    assert(spec_octant(4) == (-1i32, 0i32, 0i32, -1i32));
    assert(axis_seen_from(grid, wall_data, vis, cx, cy, (-1int), 0int, 0int, (-1int), radius, 1));
    assert forall|k: int| 1 <= k < m implies !#[trigger] axis_blocks(grid, wall_data, cx, cy, (-1int), 0int, 0int, (-1int), k) by {
        assert(octant_x(cx, 0, -k, (-1int), 0int) == cx && octant_y(cy, 0, -k, 0int, (-1int)) == cy + k);
        assert(octant_x(cx, 0, -k + 1, (-1int), 0int) == cx && octant_y(cy, 0, -k + 1, 0int, (-1int)) == cy + k - 1);
        assert(!spec_blocks_vision(grid, wall_data, cx, cy + k, cx, cy + k - 1));
    }
    assert(axis_clear(grid, wall_data, cx, cy, (-1int), 0int, 0int, (-1int), 1, m));
    assert(octant_x(cx, 0, -m, (-1int), 0int) == x && octant_y(cy, 0, -m, 0int, (-1int)) == y);
    assert(axis_marked(vis, cx, cy, (-1int), 0int, 0int, (-1int), m));
}

/// The tile on the north arm of the cross through the viewpoint: octant 0 sees its axis.
proof fn lemma_seen_axis_north(grid: Seq<u32>, wall_data: Seq<u16>, vis: Seq<u8>, cx: int, cy: int, radius: int, x: int, y: int)
    requires
        octant_sees(grid, wall_data, vis, cx, cy, radius, 0),
        0 <= radius,
        within_radius(x, y, cx, cy, radius),
        x == cx && y < cy,
        forall|k: int| 1 <= k < cy - y ==> !#[trigger] spec_blocks_vision(grid, wall_data, cx, cy - k, cx, cy - k + 1),
    ensures
        in_grid(x, y) ==> vis[tile_index(x, y)] == 255,
{
    reveal(axis_seen_from);
    reveal(axis_clear);
    let m = cy - y;
    lemma_within_bounds(x - cx, y - cy, radius);
    assert(spec_octant(0) == (1i32, 0i32, 0i32, 1i32));
    assert(axis_seen_from(grid, wall_data, vis, cx, cy, 1int, 0int, 0int, 1int, radius, 1));
    assert forall|k: int| 1 <= k < m implies !#[trigger] axis_blocks(grid, wall_data, cx, cy, 1int, 0int, 0int, 1int, k) by {
        assert(octant_x(cx, 0, -k, 1int, 0int) == cx && octant_y(cy, 0, -k, 0int, 1int) == cy - k);
        assert(octant_x(cx, 0, -k + 1, 1int, 0int) == cx && octant_y(cy, 0, -k + 1, 0int, 1int) == cy - k + 1);
        assert(!spec_blocks_vision(grid, wall_data, cx, cy - k, cx, cy - k + 1));
    }
    assert(axis_clear(grid, wall_data, cx, cy, 1int, 0int, 0int, 1int, 1, m));
    assert(octant_x(cx, 0, -m, 1int, 0int) == x && octant_y(cy, 0, -m, 0int, 1int) == y);
    assert(axis_marked(vis, cx, cy, 1int, 0int, 0int, 1int, m));
}

/// The tile on a diagonal through the viewpoint, clear along one kind of neighbour:
/// octant 5 sees its diagonal.
proof fn lemma_seen_diag_se_row(grid: Seq<u32>, wall_data: Seq<u16>, vis: Seq<u8>, cx: int, cy: int, radius: int, x: int, y: int)
    requires
        octant_sees(grid, wall_data, vis, cx, cy, radius, 5),
        0 <= radius,
        within_radius(x, y, cx, cy, radius),
        x > cx && y - cy == x - cx,
        forall|k: int| 1 <= k < x - cx ==> !#[trigger] spec_blocks_vision(grid, wall_data, cx + k, cy + k, cx + k - 1, cy + k),
    ensures
        in_grid(x, y) ==> vis[tile_index(x, y)] == 255,
{
    reveal(diag_seen_from);
    reveal(diag_clear);
    let m = x - cx;
    lemma_within_bounds(x - cx, y - cy, radius);
    lemma_diag_world_dist(x - cx, y - cy, m, radius);
    assert(spec_octant(5) == (0i32, -1i32, -1i32, 0i32));
    assert(diag_seen_from(grid, wall_data, vis, cx, cy, 0int, (-1int), (-1int), 0int, radius, 1));
    assert forall|k: int| 1 <= k < m implies !#[trigger] diag_blocks(grid, wall_data, cx, cy, 0int, (-1int), (-1int), 0int, k) by {
        assert(octant_x(cx, -k, -k, 0int, (-1int)) == cx + k && octant_y(cy, -k, -k, (-1int), 0int) == cy + k);
        assert(octant_x(cx, -k, -k + 1, 0int, (-1int)) == cx + k - 1 && octant_y(cy, -k, -k + 1, (-1int), 0int) == cy + k);
        assert(!spec_blocks_vision(grid, wall_data, cx + k, cy + k, cx + k - 1, cy + k));
    }
    assert(diag_clear(grid, wall_data, cx, cy, 0int, (-1int), (-1int), 0int, 1, m));
    assert(octant_x(cx, -m, -m, 0int, (-1int)) == x && octant_y(cy, -m, -m, (-1int), 0int) == y);
    assert(diag_marked(vis, cx, cy, 0int, (-1int), (-1int), 0int, m));
}

/// The tile on a diagonal through the viewpoint, clear along one kind of neighbour:
/// octant 4 sees its diagonal.
proof fn lemma_seen_diag_se_col(grid: Seq<u32>, wall_data: Seq<u16>, vis: Seq<u8>, cx: int, cy: int, radius: int, x: int, y: int)
    requires
        octant_sees(grid, wall_data, vis, cx, cy, radius, 4),
        0 <= radius,
        within_radius(x, y, cx, cy, radius),
        x > cx && y - cy == x - cx,
        forall|k: int| 1 <= k < x - cx ==> !#[trigger] spec_blocks_vision(grid, wall_data, cx + k, cy + k, cx + k, cy + k - 1),
    ensures
        in_grid(x, y) ==> vis[tile_index(x, y)] == 255,
{
    reveal(diag_seen_from);
    reveal(diag_clear);
    let m = x - cx;
    lemma_within_bounds(x - cx, y - cy, radius);
    lemma_diag_world_dist(x - cx, y - cy, m, radius);
    assert(spec_octant(4) == (-1i32, 0i32, 0i32, -1i32));
    assert(diag_seen_from(grid, wall_data, vis, cx, cy, (-1int), 0int, 0int, (-1int), radius, 1));
    assert forall|k: int| 1 <= k < m implies !#[trigger] diag_blocks(grid, wall_data, cx, cy, (-1int), 0int, 0int, (-1int), k) by {
        assert(octant_x(cx, -k, -k, (-1int), 0int) == cx + k && octant_y(cy, -k, -k, 0int, (-1int)) == cy + k);
        assert(octant_x(cx, -k, -k + 1, (-1int), 0int) == cx + k && octant_y(cy, -k, -k + 1, 0int, (-1int)) == cy + k - 1);
        assert(!spec_blocks_vision(grid, wall_data, cx + k, cy + k, cx + k, cy + k - 1));
    }
    assert(diag_clear(grid, wall_data, cx, cy, (-1int), 0int, 0int, (-1int), 1, m));
    assert(octant_x(cx, -m, -m, (-1int), 0int) == x && octant_y(cy, -m, -m, 0int, (-1int)) == y);
    assert(diag_marked(vis, cx, cy, (-1int), 0int, 0int, (-1int), m));
}

/// The tile on a diagonal through the viewpoint, clear along one kind of neighbour:
/// octant 2 sees its diagonal.
proof fn lemma_seen_diag_ne_row(grid: Seq<u32>, wall_data: Seq<u16>, vis: Seq<u8>, cx: int, cy: int, radius: int, x: int, y: int)
    requires
        octant_sees(grid, wall_data, vis, cx, cy, radius, 2),
        0 <= radius,
        within_radius(x, y, cx, cy, radius),
        x > cx && cy - y == x - cx,
        forall|k: int| 1 <= k < x - cx ==> !#[trigger] spec_blocks_vision(grid, wall_data, cx + k, cy - k, cx + k - 1, cy - k),
    ensures
        in_grid(x, y) ==> vis[tile_index(x, y)] == 255,
{
    reveal(diag_seen_from);
    reveal(diag_clear);
    let m = x - cx;
    lemma_within_bounds(x - cx, y - cy, radius);
    lemma_diag_world_dist(x - cx, y - cy, m, radius);
    assert(spec_octant(2) == (0i32, -1i32, 1i32, 0i32));
    assert(diag_seen_from(grid, wall_data, vis, cx, cy, 0int, (-1int), 1int, 0int, radius, 1));
    assert forall|k: int| 1 <= k < m implies !#[trigger] diag_blocks(grid, wall_data, cx, cy, 0int, (-1int), 1int, 0int, k) by {
        assert(octant_x(cx, -k, -k, 0int, (-1int)) == cx + k && octant_y(cy, -k, -k, 1int, 0int) == cy - k);
        assert(octant_x(cx, -k, -k + 1, 0int, (-1int)) == cx + k - 1 && octant_y(cy, -k, -k + 1, 1int, 0int) == cy - k);
        assert(!spec_blocks_vision(grid, wall_data, cx + k, cy - k, cx + k - 1, cy - k));
    }
    assert(diag_clear(grid, wall_data, cx, cy, 0int, (-1int), 1int, 0int, 1, m));
    assert(octant_x(cx, -m, -m, 0int, (-1int)) == x && octant_y(cy, -m, -m, 1int, 0int) == y);
    assert(diag_marked(vis, cx, cy, 0int, (-1int), 1int, 0int, m));
}

/// The tile on a diagonal through the viewpoint, clear along one kind of neighbour:
/// octant 3 sees its diagonal.
proof fn lemma_seen_diag_ne_col(grid: Seq<u32>, wall_data: Seq<u16>, vis: Seq<u8>, cx: int, cy: int, radius: int, x: int, y: int)
    requires
        octant_sees(grid, wall_data, vis, cx, cy, radius, 3),
        0 <= radius,
        within_radius(x, y, cx, cy, radius),
        x > cx && cy - y == x - cx,
        forall|k: int| 1 <= k < x - cx ==> !#[trigger] spec_blocks_vision(grid, wall_data, cx + k, cy - k, cx + k, cy - k + 1),
    ensures
        in_grid(x, y) ==> vis[tile_index(x, y)] == 255,
{
    reveal(diag_seen_from);
    reveal(diag_clear);
    let m = x - cx;
    lemma_within_bounds(x - cx, y - cy, radius);
    lemma_diag_world_dist(x - cx, y - cy, m, radius);
    assert(spec_octant(3) == (-1i32, 0i32, 0i32, 1i32));
    assert(diag_seen_from(grid, wall_data, vis, cx, cy, (-1int), 0int, 0int, 1int, radius, 1));
    assert forall|k: int| 1 <= k < m implies !#[trigger] diag_blocks(grid, wall_data, cx, cy, (-1int), 0int, 0int, 1int, k) by {
        assert(octant_x(cx, -k, -k, (-1int), 0int) == cx + k && octant_y(cy, -k, -k, 0int, 1int) == cy - k);
        assert(octant_x(cx, -k, -k + 1, (-1int), 0int) == cx + k && octant_y(cy, -k, -k + 1, 0int, 1int) == cy - k + 1);
        assert(!spec_blocks_vision(grid, wall_data, cx + k, cy - k, cx + k, cy - k + 1));
    }
    assert(diag_clear(grid, wall_data, cx, cy, (-1int), 0int, 0int, 1int, 1, m));
    assert(octant_x(cx, -m, -m, (-1int), 0int) == x && octant_y(cy, -m, -m, 0int, 1int) == y);
    assert(diag_marked(vis, cx, cy, (-1int), 0int, 0int, 1int, m));
}

/// The tile on a diagonal through the viewpoint, clear along one kind of neighbour:
/// octant 6 sees its diagonal.
proof fn lemma_seen_diag_sw_row(grid: Seq<u32>, wall_data: Seq<u16>, vis: Seq<u8>, cx: int, cy: int, radius: int, x: int, y: int)
    requires
        octant_sees(grid, wall_data, vis, cx, cy, radius, 6),
        0 <= radius,
        within_radius(x, y, cx, cy, radius),
        x < cx && y - cy == cx - x,
        forall|k: int| 1 <= k < cx - x ==> !#[trigger] spec_blocks_vision(grid, wall_data, cx - k, cy + k, cx - k + 1, cy + k),
    ensures
        in_grid(x, y) ==> vis[tile_index(x, y)] == 255,
{
    reveal(diag_seen_from);
    reveal(diag_clear);
    let m = cx - x;
    lemma_within_bounds(x - cx, y - cy, radius);
    lemma_diag_world_dist(x - cx, y - cy, m, radius);
    assert(spec_octant(6) == (0i32, 1i32, -1i32, 0i32));
    assert(diag_seen_from(grid, wall_data, vis, cx, cy, 0int, 1int, (-1int), 0int, radius, 1));
    assert forall|k: int| 1 <= k < m implies !#[trigger] diag_blocks(grid, wall_data, cx, cy, 0int, 1int, (-1int), 0int, k) by {
        assert(octant_x(cx, -k, -k, 0int, 1int) == cx - k && octant_y(cy, -k, -k, (-1int), 0int) == cy + k);
        assert(octant_x(cx, -k, -k + 1, 0int, 1int) == cx - k + 1 && octant_y(cy, -k, -k + 1, (-1int), 0int) == cy + k);
        assert(!spec_blocks_vision(grid, wall_data, cx - k, cy + k, cx - k + 1, cy + k));
    }
    assert(diag_clear(grid, wall_data, cx, cy, 0int, 1int, (-1int), 0int, 1, m));
    assert(octant_x(cx, -m, -m, 0int, 1int) == x && octant_y(cy, -m, -m, (-1int), 0int) == y);
    assert(diag_marked(vis, cx, cy, 0int, 1int, (-1int), 0int, m));
}

/// The tile on a diagonal through the viewpoint, clear along one kind of neighbour:
/// octant 7 sees its diagonal.
proof fn lemma_seen_diag_sw_col(grid: Seq<u32>, wall_data: Seq<u16>, vis: Seq<u8>, cx: int, cy: int, radius: int, x: int, y: int)
    requires
        octant_sees(grid, wall_data, vis, cx, cy, radius, 7),
        0 <= radius,
        within_radius(x, y, cx, cy, radius),
        x < cx && y - cy == cx - x,
        forall|k: int| 1 <= k < cx - x ==> !#[trigger] spec_blocks_vision(grid, wall_data, cx - k, cy + k, cx - k, cy + k - 1),
    ensures
        in_grid(x, y) ==> vis[tile_index(x, y)] == 255,
{
    reveal(diag_seen_from);
    reveal(diag_clear);
    let m = cx - x;
    lemma_within_bounds(x - cx, y - cy, radius);
    lemma_diag_world_dist(x - cx, y - cy, m, radius);
    assert(spec_octant(7) == (1i32, 0i32, 0i32, -1i32));
    assert(diag_seen_from(grid, wall_data, vis, cx, cy, 1int, 0int, 0int, (-1int), radius, 1));
    assert forall|k: int| 1 <= k < m implies !#[trigger] diag_blocks(grid, wall_data, cx, cy, 1int, 0int, 0int, (-1int), k) by {
        assert(octant_x(cx, -k, -k, 1int, 0int) == cx - k && octant_y(cy, -k, -k, 0int, (-1int)) == cy + k);
        assert(octant_x(cx, -k, -k + 1, 1int, 0int) == cx - k && octant_y(cy, -k, -k + 1, 0int, (-1int)) == cy + k - 1);
        assert(!spec_blocks_vision(grid, wall_data, cx - k, cy + k, cx - k, cy + k - 1));
    }
    assert(diag_clear(grid, wall_data, cx, cy, 1int, 0int, 0int, (-1int), 1, m));
    assert(octant_x(cx, -m, -m, 1int, 0int) == x && octant_y(cy, -m, -m, 0int, (-1int)) == y);
    assert(diag_marked(vis, cx, cy, 1int, 0int, 0int, (-1int), m));
}

/// The tile on a diagonal through the viewpoint, clear along one kind of neighbour:
/// octant 1 sees its diagonal.
proof fn lemma_seen_diag_nw_row(grid: Seq<u32>, wall_data: Seq<u16>, vis: Seq<u8>, cx: int, cy: int, radius: int, x: int, y: int)
    requires
        octant_sees(grid, wall_data, vis, cx, cy, radius, 1),
        0 <= radius,
        within_radius(x, y, cx, cy, radius),
        x < cx && cy - y == cx - x,
        forall|k: int| 1 <= k < cx - x ==> !#[trigger] spec_blocks_vision(grid, wall_data, cx - k, cy - k, cx - k + 1, cy - k),
    ensures
        in_grid(x, y) ==> vis[tile_index(x, y)] == 255,
{
    reveal(diag_seen_from);
    reveal(diag_clear);
    let m = cx - x;
    lemma_within_bounds(x - cx, y - cy, radius);
    lemma_diag_world_dist(x - cx, y - cy, m, radius);
    assert(spec_octant(1) == (0i32, 1i32, 1i32, 0i32));
    assert(diag_seen_from(grid, wall_data, vis, cx, cy, 0int, 1int, 1int, 0int, radius, 1));
    assert forall|k: int| 1 <= k < m implies !#[trigger] diag_blocks(grid, wall_data, cx, cy, 0int, 1int, 1int, 0int, k) by {
        assert(octant_x(cx, -k, -k, 0int, 1int) == cx - k && octant_y(cy, -k, -k, 1int, 0int) == cy - k);
        assert(octant_x(cx, -k, -k + 1, 0int, 1int) == cx - k + 1 && octant_y(cy, -k, -k + 1, 1int, 0int) == cy - k);
        assert(!spec_blocks_vision(grid, wall_data, cx - k, cy - k, cx - k + 1, cy - k));
    }
    assert(diag_clear(grid, wall_data, cx, cy, 0int, 1int, 1int, 0int, 1, m));
    assert(octant_x(cx, -m, -m, 0int, 1int) == x && octant_y(cy, -m, -m, 1int, 0int) == y);
    assert(diag_marked(vis, cx, cy, 0int, 1int, 1int, 0int, m));
}

/// The tile on a diagonal through the viewpoint, clear along one kind of neighbour:
/// octant 0 sees its diagonal.
proof fn lemma_seen_diag_nw_col(grid: Seq<u32>, wall_data: Seq<u16>, vis: Seq<u8>, cx: int, cy: int, radius: int, x: int, y: int)
    requires
        octant_sees(grid, wall_data, vis, cx, cy, radius, 0),
        0 <= radius,
        within_radius(x, y, cx, cy, radius),
        x < cx && cy - y == cx - x,
        forall|k: int| 1 <= k < cx - x ==> !#[trigger] spec_blocks_vision(grid, wall_data, cx - k, cy - k, cx - k, cy - k + 1),
    ensures
        in_grid(x, y) ==> vis[tile_index(x, y)] == 255,
{
    reveal(diag_seen_from);
    reveal(diag_clear);
    let m = cx - x;
    lemma_within_bounds(x - cx, y - cy, radius);
    lemma_diag_world_dist(x - cx, y - cy, m, radius);
    assert(spec_octant(0) == (1i32, 0i32, 0i32, 1i32));
    assert(diag_seen_from(grid, wall_data, vis, cx, cy, 1int, 0int, 0int, 1int, radius, 1));
    assert forall|k: int| 1 <= k < m implies !#[trigger] diag_blocks(grid, wall_data, cx, cy, 1int, 0int, 0int, 1int, k) by {
        assert(octant_x(cx, -k, -k, 1int, 0int) == cx - k && octant_y(cy, -k, -k, 0int, 1int) == cy - k);
        assert(octant_x(cx, -k, -k + 1, 1int, 0int) == cx - k && octant_y(cy, -k, -k + 1, 0int, 1int) == cy - k + 1);
        assert(!spec_blocks_vision(grid, wall_data, cx - k, cy - k, cx - k, cy - k + 1));
    }
    assert(diag_clear(grid, wall_data, cx, cy, 1int, 0int, 0int, 1int, 1, m));
    assert(octant_x(cx, -m, -m, 1int, 0int) == x && octant_y(cy, -m, -m, 0int, 1int) == y);
    assert(diag_marked(vis, cx, cy, 1int, 0int, 0int, 1int, m));
}

/// A tile in clear sight of the viewpoint along its row, column or diagonal is marked
/// once the eight octant scans have run.
proof fn lemma_seen_marked(grid: Seq<u32>, wall_data: Seq<u16>, vis: Seq<u8>, cx: int, cy: int, radius: int, x: int, y: int)
    requires
        forall|k: int| 0 <= k < 8 ==> #[trigger] octant_sees(grid, wall_data, vis, cx, cy, radius, k),
        seen_from(grid, wall_data, cx, cy, radius, x, y),
    ensures
        in_grid(x, y) ==> vis[tile_index(x, y)] == 255,
{
    if seen_on_axis(grid, wall_data, cx, cy, radius, x, y) && y == cy && x > cx && (forall|k: int| 1 <= k < x - cx ==> !#[trigger] spec_blocks_vision(grid, wall_data, cx + k, cy, cx + k - 1, cy)) {
        assert(octant_sees(grid, wall_data, vis, cx, cy, radius, 2));
        lemma_seen_axis_east(grid, wall_data, vis, cx, cy, radius, x, y);
    } else if seen_on_axis(grid, wall_data, cx, cy, radius, x, y) && y == cy && x < cx && (forall|k: int| 1 <= k < cx - x ==> !#[trigger] spec_blocks_vision(grid, wall_data, cx - k, cy, cx - k + 1, cy)) {
        assert(octant_sees(grid, wall_data, vis, cx, cy, radius, 1));
        lemma_seen_axis_west(grid, wall_data, vis, cx, cy, radius, x, y);
    } else if seen_on_axis(grid, wall_data, cx, cy, radius, x, y) && x == cx && y > cy && (forall|k: int| 1 <= k < y - cy ==> !#[trigger] spec_blocks_vision(grid, wall_data, cx, cy + k, cx, cy + k - 1)) {
        assert(octant_sees(grid, wall_data, vis, cx, cy, radius, 4));
        lemma_seen_axis_south(grid, wall_data, vis, cx, cy, radius, x, y);
    } else if seen_on_axis(grid, wall_data, cx, cy, radius, x, y) && x == cx && y < cy && (forall|k: int| 1 <= k < cy - y ==> !#[trigger] spec_blocks_vision(grid, wall_data, cx, cy - k, cx, cy - k + 1)) {
        assert(octant_sees(grid, wall_data, vis, cx, cy, radius, 0));
        lemma_seen_axis_north(grid, wall_data, vis, cx, cy, radius, x, y);
    } else if seen_on_diagonal(grid, wall_data, cx, cy, radius, x, y) && x > cx && y - cy == x - cx && (forall|k: int| 1 <= k < x - cx ==> !#[trigger] spec_blocks_vision(grid, wall_data, cx + k, cy + k, cx + k - 1, cy + k)) {
        assert(octant_sees(grid, wall_data, vis, cx, cy, radius, 5));
        lemma_seen_diag_se_row(grid, wall_data, vis, cx, cy, radius, x, y);
    } else if seen_on_diagonal(grid, wall_data, cx, cy, radius, x, y) && x > cx && y - cy == x - cx && (forall|k: int| 1 <= k < x - cx ==> !#[trigger] spec_blocks_vision(grid, wall_data, cx + k, cy + k, cx + k, cy + k - 1)) {
        assert(octant_sees(grid, wall_data, vis, cx, cy, radius, 4));
        lemma_seen_diag_se_col(grid, wall_data, vis, cx, cy, radius, x, y);
    } else if seen_on_diagonal(grid, wall_data, cx, cy, radius, x, y) && x > cx && cy - y == x - cx && (forall|k: int| 1 <= k < x - cx ==> !#[trigger] spec_blocks_vision(grid, wall_data, cx + k, cy - k, cx + k - 1, cy - k)) {
        assert(octant_sees(grid, wall_data, vis, cx, cy, radius, 2));
        lemma_seen_diag_ne_row(grid, wall_data, vis, cx, cy, radius, x, y);
    } else if seen_on_diagonal(grid, wall_data, cx, cy, radius, x, y) && x > cx && cy - y == x - cx && (forall|k: int| 1 <= k < x - cx ==> !#[trigger] spec_blocks_vision(grid, wall_data, cx + k, cy - k, cx + k, cy - k + 1)) {
        assert(octant_sees(grid, wall_data, vis, cx, cy, radius, 3));
        lemma_seen_diag_ne_col(grid, wall_data, vis, cx, cy, radius, x, y);
    } else if seen_on_diagonal(grid, wall_data, cx, cy, radius, x, y) && x < cx && y - cy == cx - x && (forall|k: int| 1 <= k < cx - x ==> !#[trigger] spec_blocks_vision(grid, wall_data, cx - k, cy + k, cx - k + 1, cy + k)) {
        assert(octant_sees(grid, wall_data, vis, cx, cy, radius, 6));
        lemma_seen_diag_sw_row(grid, wall_data, vis, cx, cy, radius, x, y);
    } else if seen_on_diagonal(grid, wall_data, cx, cy, radius, x, y) && x < cx && y - cy == cx - x && (forall|k: int| 1 <= k < cx - x ==> !#[trigger] spec_blocks_vision(grid, wall_data, cx - k, cy + k, cx - k, cy + k - 1)) {
        assert(octant_sees(grid, wall_data, vis, cx, cy, radius, 7));
        lemma_seen_diag_sw_col(grid, wall_data, vis, cx, cy, radius, x, y);
    } else if seen_on_diagonal(grid, wall_data, cx, cy, radius, x, y) && x < cx && cy - y == cx - x && (forall|k: int| 1 <= k < cx - x ==> !#[trigger] spec_blocks_vision(grid, wall_data, cx - k, cy - k, cx - k + 1, cy - k)) {
        assert(octant_sees(grid, wall_data, vis, cx, cy, radius, 1));
        lemma_seen_diag_nw_row(grid, wall_data, vis, cx, cy, radius, x, y);
    } else if seen_on_diagonal(grid, wall_data, cx, cy, radius, x, y) && x < cx && cy - y == cx - x && (forall|k: int| 1 <= k < cx - x ==> !#[trigger] spec_blocks_vision(grid, wall_data, cx - k, cy - k, cx - k, cy - k + 1)) {
        assert(octant_sees(grid, wall_data, vis, cx, cy, radius, 0));
        lemma_seen_diag_nw_col(grid, wall_data, vis, cx, cy, radius, x, y);
    }
}

/// The tiles around (cx, cy) that are in the grid are marked: the four orthogonal
/// neighbours when the radius is at least 1, the four diagonal ones when it is at
/// least 2.
pub open spec fn neighbours_marked(vis: Seq<u8>, cx: int, cy: int, radius: int) -> bool {
    forall|dx: int, dy: int|
        -1 <= dx <= 1 && -1 <= dy <= 1 && (dx != 0 || dy != 0) && (if dx == 0 || dy == 0 {
            radius >= 1
        } else {
            radius >= 2
        }) && in_grid(cx + dx, cy + dy) ==> #[trigger] vis[tile_index(cx + dx, cy + dy)] == 255
}

fn octant_multipliers(k: usize) -> (m: (i32, i32, i32, i32))
    requires
        k < 8,
    ensures
        octant_transform(m.0, m.1, m.2, m.3),
        m == spec_octant(k as int),
{
    if k == 0 {
        (1, 0, 0, 1)
    } else if k == 1 {
        (0, 1, 1, 0)
    } else if k == 2 {
        (0, -1, 1, 0)
    } else if k == 3 {
        (-1, 0, 0, 1)
    } else if k == 4 {
        (-1, 0, 0, -1)
    } else if k == 5 {
        (0, -1, -1, 0)
    } else if k == 6 {
        (0, 1, -1, 0)
    } else {
        (1, 0, 0, -1)
    }
}

/// The buffer after the viewpoint's own tile (when in the grid) is marked and the
/// first k octant scans have run, each from row 1 between slopes 1 and 0.
pub open spec fn fov_octants(grid: Seq<u32>, wall_data: Seq<u16>, vis: Seq<u8>, cx: int, cy: int, radius: int, k: int) -> Seq<u8>
    decreases k,
{
    if k <= 0 {
        if in_grid(cx, cy) {
            vis.update(tile_index(cx, cy), 255u8)
        } else {
            vis
        }
    } else {
        let o = spec_octant(k - 1);
        octant_scan(
            grid,
            wall_data,
            fov_octants(grid, wall_data, vis, cx, cy, radius, k - 1),
            cx,
            cy,
            radius,
            1,
            1,
            1,
            0,
            1,
            o.0 as int,
            o.1 as int,
            o.2 as int,
            o.3 as int,
        )
    }
}

/// The visibility buffer after shadowcasting from (cx, cy): the origin and all eight
/// octants.
pub open spec fn field_of_view(grid: Seq<u32>, wall_data: Seq<u16>, vis: Seq<u8>, cx: int, cy: int, radius: int) -> Seq<u8> {
    fov_octants(grid, wall_data, vis, cx, cy, radius, 8)
}

/// Compute full 360 degree shadowcasting visibility from (cx, cy) within `radius`: the
/// buffer becomes exactly `field_of_view` of the buffer as given (the origin marked,
/// then the eight octant scans). As consequences stated for readers: the origin (when
/// in the grid) is marked 255, so are its orthogonal neighbours for a radius of at
/// least 1 and its diagonal ones for at least 2 (walls or not), and every other change
/// marks with 255 a grid tile within the radius; nothing else in the buffer changes. In
/// the open (every tile of the square around the origin in the grid and blocking no
/// sightline) every tile within the radius is marked. Along the row, column and
/// diagonals through the origin, a tile within the radius with a clear line to the
/// origin is marked, and a tile behind a blocking tile keeps its old value.
pub fn compute_fov(grid: &[u32], wall_data: &[u16], visibility: &mut [u8], cx: i32, cy: i32, radius: i32)
    requires
        grid@.len() >= GRID_SIZE,
        old(visibility)@.len() >= GRID_SIZE,
        fov_fits(cx as int, radius as int),
        fov_fits(cy as int, radius as int),
        -46340 <= radius <= 46340,
    ensures
        final(visibility)@ == field_of_view(grid@, wall_data@, old(visibility)@, cx as int, cy as int, radius as int),
        in_grid(cx as int, cy as int) ==> final(visibility)@[tile_index(cx as int, cy as int)] == 255,
        neighbours_marked(final(visibility)@, cx as int, cy as int, radius as int),
        only_marks_in_radius(old(visibility)@, final(visibility)@, cx as int, cy as int, radius as int),
        0 <= radius && open_square(grid@, wall_data@, cx as int, cy as int, radius as int) ==> forall|
            x: int,
            y: int,
        | within_radius(x, y, cx as int, cy as int, radius as int) ==> #[trigger] final(visibility)@[tile_index(
            x,
            y,
        )] == 255,
        forall|x: int, y: int|
            in_grid(x, y) && hidden_from(grid@, wall_data@, cx as int, cy as int, x, y)
                ==> #[trigger] final(visibility)@[tile_index(x, y)] == old(visibility)@[tile_index(x, y)],
        forall|x: int, y: int|
            in_grid(x, y) && seen_from(grid@, wall_data@, cx as int, cy as int, radius as int, x, y)
                ==> #[trigger] final(visibility)@[tile_index(x, y)] == 255,
{
    let ghost orig = visibility@;
    if cx >= 0 && cy >= 0 && cx < GRID_W as i32 && cy < GRID_H as i32 {
        visibility[(cy * 512 + cx) as usize] = 255;
    }
    assert(only_marks_in_radius(orig, visibility@, cx as int, cy as int, radius as int));
    assert(visibility@ == fov_octants(grid@, wall_data@, orig, cx as int, cy as int, radius as int, 0));
    let ghost marked = visibility@;
    let mut k: usize = 0;
    while k < 8
        invariant
            k <= 8,
            visibility@ == fov_octants(grid@, wall_data@, orig, cx as int, cy as int, radius as int, k as int),
            grid@.len() >= GRID_SIZE,
            visibility@.len() == orig.len(),
            orig.len() >= GRID_SIZE,
            fov_fits(cx as int, radius as int),
            fov_fits(cy as int, radius as int),
            -46340 <= radius <= 46340,
            only_marks_in_radius(orig, visibility@, cx as int, cy as int, radius as int),
            in_grid(cx as int, cy as int) ==> visibility@[tile_index(cx as int, cy as int)] == 255,
            forall|x: int, y: int|
                in_grid(x, y) && hidden_from(grid@, wall_data@, cx as int, cy as int, x, y)
                    ==> #[trigger] visibility@[tile_index(x, y)] == orig[tile_index(x, y)],
            forall|k2: int|
                0 <= k2 < k ==> #[trigger] octant_sees(grid@, wall_data@, visibility@, cx as int, cy as int, radius as int, k2),
            forall|k2: int|
                0 <= k2 < k ==> #[trigger] first_row_marked(
                    visibility@,
                    cx as int,
                    cy as int,
                    radius as int,
                    spec_octant(k2).0 as int,
                    spec_octant(k2).1 as int,
                    spec_octant(k2).2 as int,
                    spec_octant(k2).3 as int,
                ),
            0 <= radius && open_square(grid@, wall_data@, cx as int, cy as int, radius as int)
                ==> forall|k2: int|
                0 <= k2 < k ==> #[trigger] rows_marked(
                    visibility@,
                    cx as int,
                    cy as int,
                    radius as int,
                    spec_octant(k2).0 as int,
                    spec_octant(k2).1 as int,
                    spec_octant(k2).2 as int,
                    spec_octant(k2).3 as int,
                    1,
                    radius + 1,
                ),
        decreases 8 - k,
    {
        let (xx, xy, yx, yy) = octant_multipliers(k);
        let ghost before = visibility@;
        cast_light(grid, wall_data, visibility, cx, cy, radius, 1, 1, 1, 0, 1, xx, xy, yx, yy);
        proof {
            assert(visibility@ == fov_octants(grid@, wall_data@, orig, cx as int, cy as int, radius as int, k + 1));
            lemma_only_marks_keeps(before, visibility@, cx as int, cy as int, radius as int);
            assert forall|k2: int| 0 <= k2 < k + 1 implies #[trigger] octant_sees(grid@, wall_data@, visibility@, cx as int, cy as int, radius as int, k2) by {
                let o = spec_octant(k2);
                if k2 < k {
                    assert(octant_sees(grid@, wall_data@, before, cx as int, cy as int, radius as int, k2));
                    lemma_seen_persist(grid@, wall_data@, before, visibility@, cx as int, cy as int, o.0 as int, o.1 as int, o.2 as int, o.3 as int, radius as int, 1, 1);
                }
            }
            assert forall|x: int, y: int|
                in_grid(x, y) && hidden_from(grid@, wall_data@, cx as int, cy as int, x, y) implies #[trigger] visibility@[tile_index(
                x,
                y,
            )] == orig[tile_index(x, y)] by {
                if in_wedge(x, y, cx as int, cy as int, xx as int, xy as int, yx as int, yy as int, 1) {
                    if hidden_on_axis(grid@, wall_data@, cx as int, cy as int, x, y) {
                        lemma_hidden_kept(grid@, wall_data@, before, visibility@, cx as int, cy as int, xx as int, xy as int, yx as int, yy as int, x, y);
                    } else {
                        lemma_diag_hidden_kept(grid@, wall_data@, before, visibility@, cx as int, cy as int, xx as int, xy as int, yx as int, yy as int, x, y);
                    }
                }
                assert(before[tile_index(x, y)] == orig[tile_index(x, y)]);
            }
            lemma_only_marks_trans(orig, before, visibility@, cx as int, cy as int, radius as int);
            assert forall|k2: int| 0 <= k2 < k + 1 implies #[trigger] first_row_marked(
                visibility@,
                cx as int,
                cy as int,
                radius as int,
                spec_octant(k2).0 as int,
                spec_octant(k2).1 as int,
                spec_octant(k2).2 as int,
                spec_octant(k2).3 as int,
            ) by {
                if k2 < k {
                    lemma_first_row_kept(
                        before,
                        visibility@,
                        cx as int,
                        cy as int,
                        radius as int,
                        spec_octant(k2).0 as int,
                        spec_octant(k2).1 as int,
                        spec_octant(k2).2 as int,
                        spec_octant(k2).3 as int,
                        radius as int,
                    );
                }
            }
        }
        proof {
            if 0 <= radius && open_square(grid@, wall_data@, cx as int, cy as int, radius as int) {
                assert forall|k2: int| 0 <= k2 < k + 1 implies #[trigger] rows_marked(
                    visibility@,
                    cx as int,
                    cy as int,
                    radius as int,
                    spec_octant(k2).0 as int,
                    spec_octant(k2).1 as int,
                    spec_octant(k2).2 as int,
                    spec_octant(k2).3 as int,
                    1,
                    radius + 1,
                ) by {
                    if k2 < k {
                        let o = spec_octant(k2);
                        lemma_spec_octant(k2);
                        lemma_open_square_cells(
                            grid@,
                            wall_data@,
                            cx as int,
                            cy as int,
                            radius as int,
                            o.0 as int,
                            o.1 as int,
                            o.2 as int,
                            o.3 as int,
                        );
                        lemma_rows_kept(
                            before,
                            visibility@,
                            cx as int,
                            cy as int,
                            radius as int,
                            o.0 as int,
                            o.1 as int,
                            o.2 as int,
                            o.3 as int,
                            1,
                            radius + 1,
                            radius as int,
                        );
                    }
                }
            }
        }
        k = k + 1;
    }
    proof {
        assert forall|x: int, y: int|
            in_grid(x, y) && seen_from(grid@, wall_data@, cx as int, cy as int, radius as int, x, y) implies #[trigger] visibility@[tile_index(
            x,
            y,
        )] == 255 by {
            lemma_seen_marked(grid@, wall_data@, visibility@, cx as int, cy as int, radius as int, x, y);
        }
        if 0 <= radius && open_square(grid@, wall_data@, cx as int, cy as int, radius as int) {
            assert(!spec_blocks_vision(grid@, wall_data@, cx as int, cy as int, 0, 0));
            assert forall|x: int, y: int| within_radius(x, y, cx as int, cy as int, radius as int) implies #[trigger] visibility@[tile_index(
                x,
                y,
            )] == 255 by {
                if x != cx || y != cy {
                    lemma_fov_cover(visibility@, cx as int, cy as int, radius as int, x, y);
                }
            }
        }
        let v = visibility@;
        let c = cx as int;
        let d = cy as int;
        let r = radius as int;
        assert(first_row_marked(v, c, d, r, spec_octant(0).0 as int, spec_octant(0).1 as int, spec_octant(0).2 as int, spec_octant(0).3 as int));
        assert(first_row_marked(v, c, d, r, spec_octant(1).0 as int, spec_octant(1).1 as int, spec_octant(1).2 as int, spec_octant(1).3 as int));
        assert(first_row_marked(v, c, d, r, spec_octant(2).0 as int, spec_octant(2).1 as int, spec_octant(2).2 as int, spec_octant(2).3 as int));
        assert(first_row_marked(v, c, d, r, spec_octant(3).0 as int, spec_octant(3).1 as int, spec_octant(3).2 as int, spec_octant(3).3 as int));
        assert(first_row_marked(v, c, d, r, spec_octant(4).0 as int, spec_octant(4).1 as int, spec_octant(4).2 as int, spec_octant(4).3 as int));
        assert(first_row_marked(v, c, d, r, spec_octant(5).0 as int, spec_octant(5).1 as int, spec_octant(5).2 as int, spec_octant(5).3 as int));
        assert(first_row_marked(v, c, d, r, spec_octant(6).0 as int, spec_octant(6).1 as int, spec_octant(6).2 as int, spec_octant(6).3 as int));
        assert(first_row_marked(v, c, d, r, spec_octant(7).0 as int, spec_octant(7).1 as int, spec_octant(7).2 as int, spec_octant(7).3 as int));
    }
}

/// A colonist as the fog of war sees it: the tile it stands on and whether it carries
/// a torch or a headlight.
#[derive(Clone, Copy, Debug)]
pub struct FogViewer {
    pub x: i32,
    pub y: i32,
    pub has_light: bool,
}

/// Vision radius of a viewer: 3 at night without a light, the torch radius (capped by
/// the vision radius) at night with one, the full vision radius by day.
pub open spec fn spec_viewer_radius(is_night: bool, has_light: bool, vision_radius: i32) -> i32 {
    if is_night && !has_light {
        3
    } else if is_night {
        if TORCH_VISION_RADIUS < vision_radius {
            TORCH_VISION_RADIUS
        } else {
            vision_radius
        }
    } else {
        vision_radius
    }
}

/// The vision radius of one viewer.
pub fn viewer_radius(is_night: bool, has_light: bool, vision_radius: i32) -> (r: i32)
    ensures
        r == spec_viewer_radius(is_night, has_light, vision_radius),
{
    if is_night && !has_light {
        3
    } else if is_night {
        if TORCH_VISION_RADIUS < vision_radius {
            TORCH_VISION_RADIUS
        } else {
            vision_radius
        }
    } else {
        vision_radius
    }
}

/// By day a light changes nothing: every viewer sees its full vision radius, with or
/// without a torch or headlight.
pub proof fn lemma_daylight_ignores_light(has_light: bool, vision_radius: i32)
    ensures
        spec_viewer_radius(false, has_light, vision_radius) == vision_radius,
        spec_viewer_radius(false, true, vision_radius) == spec_viewer_radius(false, false, vision_radius),
{
}

/// At night a viewer without a light sees 3 tiles, whatever the vision radius.
pub proof fn lemma_dark_without_light(vision_radius: i32)
    ensures
        spec_viewer_radius(true, false, vision_radius) == 3,
{
}

/// At night a light gives the smaller of the torch radius (8 tiles) and the vision
/// radius.
pub proof fn lemma_torch_radius(vision_radius: i32)
    ensures
        spec_viewer_radius(true, true, vision_radius) <= 8,
        spec_viewer_radius(true, true, vision_radius) <= vision_radius,
        spec_viewer_radius(true, true, vision_radius) == 8
            || spec_viewer_radius(true, true, vision_radius) == vision_radius,
{
}

/// Fog texture value of a tile: visible, explored (dimmed) or shrouded.
pub open spec fn spec_fog_texture(visible: u8, explored: u8) -> u8 {
    if visible > 0 {
        FOG_VISIBLE
    } else if explored > 0 {
        FOG_EXPLORED
    } else {
        FOG_SHROUDED
    }
}

/// The tiles the viewers stand on, in order.
pub open spec fn viewer_tiles(viewers: Seq<FogViewer>) -> Seq<(i32, i32)> {
    Seq::new(viewers.len(), |k: int| (viewers[k].x, viewers[k].y))
}

/// (x, y) is in sight of viewer v: within its vision radius (or its own tile), and
/// not hidden behind a blocking tile on the row, column or diagonal through the viewer.
pub open spec fn in_view_range(
    grid: Seq<u32>,
    wall_data: Seq<u16>,
    v: FogViewer,
    is_night: bool,
    vision_radius: i32,
    x: int,
    y: int,
) -> bool {
    &&& (within_radius(x, y, v.x as int, v.y as int, spec_viewer_radius(is_night, v.has_light, vision_radius) as int)
        || (x == v.x && y == v.y))
    &&& !hidden_from(grid, wall_data, v.x as int, v.y as int, x, y)
}

/// One of the first n viewers has (x, y) in sight.
pub open spec fn in_range_of_some(
    grid: Seq<u32>,
    wall_data: Seq<u16>,
    viewers: Seq<FogViewer>,
    n: int,
    is_night: bool,
    vision_radius: i32,
    x: int,
    y: int,
) -> bool {
    exists|k: int| 0 <= k < n && #[trigger] in_view_range(grid, wall_data, viewers[k], is_night, vision_radius, x, y)
}

/// Every viewer's vision radius (as the time of day and its light give it) is one the
/// scan takes, and its coordinates fit that radius.
pub open spec fn viewers_ok(viewers: Seq<FogViewer>, is_night: bool, vision_radius: i32) -> bool {
    forall|k: int|
        0 <= k < viewers.len() ==> {
            let r = spec_viewer_radius(is_night, #[trigger] viewers[k].has_light, vision_radius) as int;
            &&& -46340 <= r <= 46340
            &&& fov_fits(viewers[k].x as int, r)
            &&& fov_fits(viewers[k].y as int, r)
        }
}

/// A viewer's own tile (when in the grid) and the neighbours that its radius reaches
/// are marked, so is every tile within its radius when the square around it is open,
/// and so is every tile in clear sight of it along its row, column or diagonal.
pub open spec fn viewer_surroundings_marked(
    grid: Seq<u32>,
    wall_data: Seq<u16>,
    vis: Seq<u8>,
    v: FogViewer,
    is_night: bool,
    vision_radius: i32,
) -> bool {
    let r = spec_viewer_radius(is_night, v.has_light, vision_radius) as int;
    &&& (in_grid(v.x as int, v.y as int) ==> vis[tile_index(v.x as int, v.y as int)] == 255)
    &&& neighbours_marked(vis, v.x as int, v.y as int, r)
    &&& (0 <= r && open_square(grid, wall_data, v.x as int, v.y as int, r) ==> forall|x: int, y: int|
        within_radius(x, y, v.x as int, v.y as int, r) ==> #[trigger] vis[tile_index(x, y)] == 255)
    &&& forall|x: int, y: int|
        in_grid(x, y) && seen_from(grid, wall_data, v.x as int, v.y as int, r, x, y) ==> #[trigger] vis[tile_index(x, y)] == 255
}

proof fn lemma_surroundings_kept(
    grid: Seq<u32>,
    wall_data: Seq<u16>,
    a: Seq<u8>,
    b: Seq<u8>,
    v: FogViewer,
    is_night: bool,
    vision_radius: i32,
    cx: int,
    cy: int,
    r: int,
)
    requires
        viewer_surroundings_marked(grid, wall_data, a, v, is_night, vision_radius),
        only_marks_in_radius(a, b, cx, cy, r),
    ensures
        viewer_surroundings_marked(grid, wall_data, b, v, is_night, vision_radius),
{
    let vr = spec_viewer_radius(is_night, v.has_light, vision_radius) as int;
    if 0 <= vr && open_square(grid, wall_data, v.x as int, v.y as int, vr) {
        assert forall|x: int, y: int| within_radius(x, y, v.x as int, v.y as int, vr) implies #[trigger] b[tile_index(
            x,
            y,
        )] == 255 by {
            assert(a[tile_index(x, y)] == 255);
            assert(in_grid(x, y)) by {
                assert(-vr <= x - v.x <= vr && -vr <= y - v.y <= vr) by (nonlinear_arith)
                    requires
                        (x - v.x) * (x - v.x) + (y - v.y) * (y - v.y) <= vr * vr,
                        0 <= vr,
                ;
                assert(!spec_blocks_vision(grid, wall_data, x, y, 0, 0));
            }
            assert(b[tile_index(x, y)] == a[tile_index(x, y)] || b[tile_index(x, y)] == 255);
        }
    }
    if in_grid(v.x as int, v.y as int) {
        let t = tile_index(v.x as int, v.y as int);
        assert(b[t] == a[t] || b[t] == 255);
    }
    assert forall|x: int, y: int|
        in_grid(x, y) && seen_from(grid, wall_data, v.x as int, v.y as int, vr, x, y) implies #[trigger] b[tile_index(x, y)] == 255 by {
        assert(a[tile_index(x, y)] == 255);
        assert(b[tile_index(x, y)] == a[tile_index(x, y)] || b[tile_index(x, y)] == 255);
    }
    assert forall|dx: int, dy: int|
        -1 <= dx <= 1 && -1 <= dy <= 1 && (dx != 0 || dy != 0) && (if dx == 0 || dy == 0 {
            vr >= 1
        } else {
            vr >= 2
        }) && in_grid(v.x + dx, v.y + dy) implies #[trigger] b[tile_index(v.x + dx, v.y + dy)]
        == 255 by {
        assert(a[tile_index(v.x + dx, v.y + dy)] == 255);
        assert(b[tile_index(v.x + dx, v.y + dy)] == a[tile_index(v.x + dx, v.y + dy)] || b[tile_index(
            v.x + dx,
            v.y + dy,
        )] == 255);
    }
}

fn same_tiles(viewers: &[FogViewer], prev: &Vec<(i32, i32)>) -> (r: bool)
    ensures
        r == (viewer_tiles(viewers@) == prev@),
{
    if viewers.len() != prev.len() {
        assert(viewer_tiles(viewers@).len() != prev@.len());
        return false;
    }
    let mut k: usize = 0;
    while k < viewers.len()
        invariant
            k <= viewers@.len(),
            viewers@.len() == prev@.len(),
            forall|j: int| 0 <= j < k ==> #[trigger] prev@[j] == viewer_tiles(viewers@)[j],
        decreases viewers@.len() - k,
    {
        let (px, py) = prev[k];
        if viewers[k].x != px || viewers[k].y != py {
            assert(viewer_tiles(viewers@)[k as int] != prev@[k as int]);
            return false;
        }
        k = k + 1;
    }
    assert(viewer_tiles(viewers@) =~= prev@);
    true
}

/// The visibility buffer after the field of view of each of the first n viewers has
/// been cast onto `vis`, in order, each with its own vision radius.
pub open spec fn fog_of_viewers(
    grid: Seq<u32>,
    wall_data: Seq<u16>,
    viewers: Seq<FogViewer>,
    is_night: bool,
    vision_radius: i32,
    vis: Seq<u8>,
    n: int,
) -> Seq<u8>
    decreases n,
{
    if n <= 0 {
        vis
    } else {
        let v = viewers[n - 1];
        field_of_view(
            grid,
            wall_data,
            fog_of_viewers(grid, wall_data, viewers, is_night, vision_radius, vis, n - 1),
            v.x as int,
            v.y as int,
            spec_viewer_radius(is_night, v.has_light, vision_radius) as int,
        )
    }
}

/// Update the fog of war for the viewers' current tiles. When the tiles are those of
/// the last update (and there were some), nothing changes and the result is false.
/// Otherwise the tiles are recorded, visibility is recomputed from scratch (exactly
/// `fog_of_viewers` of a cleared buffer; in particular each
/// viewer's tile and the neighbours its radius reaches become visible, so does all of
/// its range when it stands in the open and every tile of its range in clear sight
/// along its row, column or diagonal; only tiles in some viewer's range and not hidden
/// from that viewer behind a blocking tile on its row, column or diagonal can be), every
/// visible tile becomes explored for good, the texture shows each tile as visible,
/// explored or shrouded, and the result is true.
pub fn update_fog(
    grid: &[u32],
    wall_data: &[u16],
    viewers: &[FogViewer],
    is_night: bool,
    vision_radius: i32,
    fog_visibility: &mut [u8],
    fog_explored: &mut [u8],
    fog_texture_data: &mut [u8],
    prev_tiles: &mut Vec<(i32, i32)>,
) -> (changed: bool)
    requires
        grid@.len() >= GRID_SIZE,
        old(fog_visibility)@.len() >= GRID_SIZE,
        old(fog_explored)@.len() >= GRID_SIZE,
        old(fog_texture_data)@.len() >= GRID_SIZE,
        viewers_ok(viewers@, is_night, vision_radius),
    ensures
        changed == !(viewer_tiles(viewers@) == old(prev_tiles)@ && old(prev_tiles)@.len() > 0),
        !changed ==> final(fog_visibility)@ == old(fog_visibility)@ && final(fog_explored)@ == old(
            fog_explored,
        )@ && final(fog_texture_data)@ == old(fog_texture_data)@ && final(prev_tiles)@ == old(
            prev_tiles,
        )@,
        changed ==> final(prev_tiles)@ == viewer_tiles(viewers@),
        changed ==> final(fog_visibility)@ == fog_of_viewers(
            grid@,
            wall_data@,
            viewers@,
            is_night,
            vision_radius,
            Seq::new(old(fog_visibility)@.len(), |i: int| 0u8),
            viewers@.len() as int,
        ),
        final(fog_visibility)@.len() == old(fog_visibility)@.len(),
        final(fog_explored)@.len() == old(fog_explored)@.len(),
        final(fog_texture_data)@.len() == old(fog_texture_data)@.len(),
        changed ==> forall|k: int|
            0 <= k < viewers@.len() ==> #[trigger] viewer_surroundings_marked(
                grid@,
                wall_data@,
                final(fog_visibility)@,
                viewers@[k],
                is_night,
                vision_radius,
            ),
        changed ==> forall|x: int, y: int|
            in_grid(x, y) ==> #[trigger] final(fog_visibility)@[tile_index(x, y)] == 0 || (
            final(fog_visibility)@[tile_index(x, y)] == 255 && in_range_of_some(
                grid@,
                wall_data@,
                viewers@,
                viewers@.len() as int,
                is_night,
                vision_radius,
                x,
                y,
            )),
        changed ==> forall|i: int|
            GRID_SIZE <= i < old(fog_visibility)@.len() ==> #[trigger] final(fog_visibility)@[i] == 0,
        changed ==> forall|i: int|
            0 <= i < GRID_SIZE ==> #[trigger] final(fog_explored)@[i] == (if final(fog_visibility)@[i]
                > 0 {
                255u8
            } else {
                old(fog_explored)@[i]
            }),
        changed ==> forall|i: int|
            0 <= i < GRID_SIZE ==> old(fog_explored)@[i] > 0 ==> #[trigger] final(fog_explored)@[i] > 0,
        changed ==> forall|i: int|
            GRID_SIZE <= i < old(fog_explored)@.len() ==> #[trigger] final(fog_explored)@[i] == old(
                fog_explored,
            )@[i],
        changed ==> forall|i: int|
            0 <= i < GRID_SIZE ==> #[trigger] final(fog_texture_data)@[i] == spec_fog_texture(
                final(fog_visibility)@[i],
                final(fog_explored)@[i],
            ),
        changed ==> forall|i: int|
            GRID_SIZE <= i < old(fog_texture_data)@.len() ==> #[trigger] final(fog_texture_data)@[i]
                == old(fog_texture_data)@[i],
{
    let same = same_tiles(viewers, prev_tiles);
    if same && prev_tiles.len() != 0 {
        return false;
    }
    let mut current: Vec<(i32, i32)> = Vec::new();
    let mut k: usize = 0;
    while k < viewers.len()
        invariant
            k <= viewers@.len(),
            current@ == viewer_tiles(viewers@).subrange(0, k as int),
        decreases viewers@.len() - k,
    {
        current.push((viewers[k].x, viewers[k].y));
        k = k + 1;
    }
    assert(viewer_tiles(viewers@).subrange(0, viewers@.len() as int) =~= viewer_tiles(viewers@));
    *prev_tiles = current;

    let vis_len = fog_visibility.len();
    let mut i: usize = 0;
    while i < vis_len
        invariant
            i <= vis_len,
            fog_visibility@.len() == vis_len,
            forall|j: int| 0 <= j < i ==> #[trigger] fog_visibility@[j] == 0,
        decreases vis_len - i,
    {
        fog_visibility[i] = 0;
        i = i + 1;
    }

    let ghost zeros = Seq::new(vis_len as nat, |i: int| 0u8);
    assert(fog_visibility@ =~= zeros);
    let mut n: usize = 0;
    while n < viewers.len()
        invariant
            n <= viewers@.len(),
            fog_visibility@ == fog_of_viewers(grid@, wall_data@, viewers@, is_night, vision_radius, zeros, n as int),
            grid@.len() >= GRID_SIZE,
            vis_len >= GRID_SIZE,
            fog_visibility@.len() == vis_len,
            viewers_ok(viewers@, is_night, vision_radius),
            forall|x: int, y: int|
                in_grid(x, y) ==> #[trigger] fog_visibility@[tile_index(x, y)] == 0 || (
                fog_visibility@[tile_index(x, y)] == 255 && in_range_of_some(
                    grid@,
                    wall_data@,
                    viewers@,
                    n as int,
                    is_night,
                    vision_radius,
                    x,
                    y,
                )),
            forall|j: int| GRID_SIZE <= j < vis_len ==> #[trigger] fog_visibility@[j] == 0,
            forall|k2: int|
                0 <= k2 < n ==> #[trigger] viewer_surroundings_marked(
                    grid@,
                    wall_data@,
                    fog_visibility@,
                    viewers@[k2],
                    is_night,
                    vision_radius,
                ),
        decreases viewers@.len() - n,
    {
        let v = viewers[n];
        assert(fov_fits(viewers@[n as int].x as int, spec_viewer_radius(is_night, viewers@[n as int].has_light, vision_radius) as int));
        let r = viewer_radius(is_night, v.has_light, vision_radius);
        let ghost before = fog_visibility@;
        compute_fov(grid, wall_data, fog_visibility, v.x, v.y, r);
        assert(fog_visibility@ == fog_of_viewers(grid@, wall_data@, viewers@, is_night, vision_radius, zeros, n + 1));
        assert forall|x: int, y: int| in_grid(x, y) implies #[trigger] fog_visibility@[tile_index(x, y)] == 0
            || (fog_visibility@[tile_index(x, y)] == 255 && in_range_of_some(
            grid@,
            wall_data@,
            viewers@,
            n + 1,
            is_night,
            vision_radius,
            x,
            y,
        )) by {
            if fog_visibility@[tile_index(x, y)] != before[tile_index(x, y)] {
                assert(in_view_range(grid@, wall_data@, viewers@[n as int], is_night, vision_radius, x, y));
            } else if before[tile_index(x, y)] == 255 {
                let k3 = choose|k3: int|
                    0 <= k3 < n && #[trigger] in_view_range(grid@, wall_data@, viewers@[k3], is_night, vision_radius, x, y);
                assert(in_view_range(grid@, wall_data@, viewers@[k3], is_night, vision_radius, x, y));
            }
        }
        assert forall|k2: int| 0 <= k2 < n + 1 implies #[trigger] viewer_surroundings_marked(
            grid@,
            wall_data@,
            fog_visibility@,
            viewers@[k2],
            is_night,
            vision_radius,
        ) by {
            if k2 < n {
                lemma_surroundings_kept(
                    grid@,
                    wall_data@,
                    before,
                    fog_visibility@,
                    viewers@[k2],
                    is_night,
                    vision_radius,
                    v.x as int,
                    v.y as int,
                    r as int,
                );
            }
        }
        n = n + 1;
    }

    let mut i: usize = 0;
    let ghost explored0 = fog_explored@;
    while i < GRID_SIZE
        invariant
            i <= GRID_SIZE,
            fog_visibility@.len() >= GRID_SIZE,
            fog_explored@.len() == explored0.len(),
            explored0.len() >= GRID_SIZE,
            forall|j: int|
                0 <= j < i ==> #[trigger] fog_explored@[j] == (if fog_visibility@[j] > 0 {
                    255u8
                } else {
                    explored0[j]
                }),
            forall|j: int| i <= j < explored0.len() ==> #[trigger] fog_explored@[j] == explored0[j],
        decreases GRID_SIZE - i,
    {
        if fog_visibility[i] > 0 {
            fog_explored[i] = 255;
        }
        i = i + 1;
    }

    let mut i: usize = 0;
    let ghost texture0 = fog_texture_data@;
    while i < GRID_SIZE
        invariant
            i <= GRID_SIZE,
            fog_visibility@.len() >= GRID_SIZE,
            fog_explored@.len() >= GRID_SIZE,
            fog_texture_data@.len() == texture0.len(),
            texture0.len() >= GRID_SIZE,
            forall|j: int|
                0 <= j < i ==> #[trigger] fog_texture_data@[j] == spec_fog_texture(
                    fog_visibility@[j],
                    fog_explored@[j],
                ),
            forall|j: int| i <= j < texture0.len() ==> #[trigger] fog_texture_data@[j] == texture0[j],
        decreases GRID_SIZE - i,
    {
        fog_texture_data[i] = if fog_visibility[i] > 0 {
            FOG_VISIBLE
        } else if fog_explored[i] > 0 {
            FOG_EXPLORED
        } else {
            FOG_SHROUDED
        };
        i = i + 1;
    }
    true
}

} // verus!
