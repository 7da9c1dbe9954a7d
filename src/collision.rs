use vstd::prelude::*;
use vstd::arithmetic::div_mod::{lemma_fundamental_div_mod, lemma_mod_pos_bound};
use crate::grid::{CellMap, CellState, cell_at_spec, lemma_row_len_le_max, max_row_len};
use crate::movement::Pose;

verus! {

/// The four edges of a tile, in the order in which the push-out considers
/// them: on equal distances the earlier one wins.
#[derive(Debug, Clone, Copy, PartialEq, Eq, Structural)]
pub enum Edge {
    Right,
    Bottom,
    Left,
    Top,
}

/// The tile that a clamped position falls in lies outside the map: past the
/// last row, or past the end of a row shorter than the map is wide.
#[derive(Debug, Clone, Copy, PartialEq, Eq, Structural)]
pub struct OutOfBoundsError {
    pub column: usize,
    pub row: usize,
}

/// `v` kept inside `0..extent`: at or past the far edge it becomes one unit
/// short of that edge, and below zero it becomes zero (an empty extent
/// leaves only zero).
pub open spec fn clamp_spec(v: int, extent: int) -> int {
    if v >= extent {
        if extent > 0 {
            extent - 1
        } else {
            0
        }
    } else if v < 0 {
        0
    } else {
        v
    }
}

/// The edge with the least distance, the earliest of right, bottom, left,
/// top where several share it.
pub open spec fn nearest_edge_spec(right: int, bottom: int, left: int, top: int) -> Edge {
    if right <= bottom && right <= left && right <= top {
        Edge::Right
    } else if bottom <= left && bottom <= top {
        Edge::Bottom
    } else if left <= top {
        Edge::Left
    } else {
        Edge::Top
    }
}

/// The point `(x, y)` inside tile `(tx, ty)` snapped onto the given edge of
/// that tile: only the coordinate across that edge changes.
pub open spec fn snap_to_edge(x: int, y: int, tx: int, ty: int, cell_size: int, edge: Edge) -> (int, int) {
    match edge {
        Edge::Right => ((tx + 1) * cell_size, y),
        Edge::Bottom => (x, (ty + 1) * cell_size),
        Edge::Left => (tx * cell_size, y),
        Edge::Top => (x, ty * cell_size),
    }
}

/// The edge of tile `(tx, ty)` nearest to `(x, y)`.
pub open spec fn push_edge(x: int, y: int, tx: int, ty: int, cell_size: int) -> Edge {
    nearest_edge_spec(
        (tx + 1) * cell_size - x,
        (ty + 1) * cell_size - y,
        x - tx * cell_size,
        y - ty * cell_size,
    )
}

/// What resolving a position against the map gives: the position clamped
/// into the map's extent; then, in a wall tile, snapped to the tile's
/// nearest edge; an error where the tile holds no cell.
pub open spec fn resolve_spec(rows: Seq<Seq<CellState>>, x: int, y: int, cell_size: int) -> Result<
    (int, int),
    (int, int),
> {
    let cx = clamp_spec(x, max_row_len(rows) * cell_size);
    let cy = clamp_spec(y, rows.len() * cell_size);
    let tx = cx / cell_size;
    let ty = cy / cell_size;
    match cell_at_spec(rows, tx, ty) {
        None => Err((tx, ty)),
        Some(CellState::Hallway) => Ok((cx, cy)),
        Some(CellState::Wall) => Ok(snap_to_edge(cx, cy, tx, ty, cell_size, push_edge(cx, cy, tx, ty, cell_size))),
    }
}

/// The map's extents in world units fit a coordinate.
pub open spec fn extents_fit(map: &CellMap, cell_size: u32) -> bool {
    &&& max_row_len(map@) * cell_size <= i64::MAX
    &&& map@.len() * cell_size <= i64::MAX
}

proof fn lemma_tile_bounds(v: int, cell_size: int)
    requires
        0 <= v,
        0 < cell_size,
    ensures
        (v / cell_size) * cell_size <= v < (v / cell_size + 1) * cell_size,
        0 <= v / cell_size,
{
    lemma_fundamental_div_mod(v, cell_size);
    lemma_mod_pos_bound(v, cell_size);
    let q = v / cell_size;
    assert(q * cell_size <= v < (q + 1) * cell_size) by (nonlinear_arith)
        requires
            v == cell_size * q + v % cell_size,
            0 <= v % cell_size < cell_size,
    ;
    assert(0 <= q) by (nonlinear_arith)
        requires
            v < (q + 1) * cell_size,
            0 <= v,
            0 < cell_size,
    ;
}

proof fn lemma_tile_below(v: int, cell_size: int, n: int)
    requires
        0 <= v < n * cell_size,
        0 < cell_size,
    ensures
        v / cell_size < n,
{
    lemma_tile_bounds(v, cell_size);
    let q = v / cell_size;
    assert(q < n) by (nonlinear_arith)
        requires
            q * cell_size <= v,
            v < n * cell_size,
            0 < cell_size,
    ;
}

/// Keeps a coordinate inside `0..extent` as `clamp_spec` says.
pub fn clamp_to_extent(v: i64, extent: u64) -> (r: i64)
    requires
        extent <= i64::MAX,
    ensures
        r == clamp_spec(v as int, extent as int),
        extent > 0 ==> 0 <= r < extent,
        extent > 0 && v >= extent ==> r == extent - 1,
        v <= 0 ==> r == 0,
{
    let e = extent as i64;
    if v >= e {
        if e > 0 {
            e - 1
        } else {
            0
        }
    } else if v < 0 {
        0
    } else {
        v
    }
}

/// Picks the edge with the least distance; on equal distances the earlier
/// of right, bottom, left, top.
pub fn nearest_edge(right: i64, bottom: i64, left: i64, top: i64) -> (r: Edge)
    ensures
        r == nearest_edge_spec(right as int, bottom as int, left as int, top as int),
{
    let mut best = right;
    let mut edge = Edge::Right;
    if bottom < best {
        best = bottom;
        edge = Edge::Bottom;
    }
    if left < best {
        best = left;
        edge = Edge::Left;
    }
    if top < best {
        edge = Edge::Top;
    }
    edge
}

/// Clamps the pose's position into the map, finds its tile, and where that
/// tile is a wall snaps the position to the tile's nearest edge. The heading
/// is kept.
pub fn resolve(pose: Pose, map: &CellMap, cell_size: u32) -> (r: Result<Pose, OutOfBoundsError>)
    requires
        cell_size > 0,
        extents_fit(map, cell_size),
    ensures
        match r {
            Ok(p) => resolve_spec(map@, pose.x as int, pose.y as int, cell_size as int) == Ok::<
                (int, int),
                (int, int),
            >((p.x as int, p.y as int)) && p.heading == pose.heading,
            Err(e) => resolve_spec(map@, pose.x as int, pose.y as int, cell_size as int) == Err::<
                (int, int),
                (int, int),
            >((e.column as int, e.row as int)),
        },
{
    let width = map.width();
    let height = map.height();
    let cs = cell_size as u64;
    let extent_x = (width as u64) * cs;
    let extent_y = (height as u64) * cs;
    let cx = clamp_to_extent(pose.x, extent_x);
    let cy = clamp_to_extent(pose.y, extent_y);
    proof {
        lemma_tile_bounds(cx as int, cs as int);
        lemma_tile_bounds(cy as int, cs as int);
        if extent_x > 0 {
            lemma_tile_below(cx as int, cs as int, width as int);
        }
        if extent_y > 0 {
            lemma_tile_below(cy as int, cs as int, height as int);
        }
    }
    let tx64 = (cx as u64) / cs;
    let ty64 = (cy as u64) / cs;
    let tx = tx64 as usize;
    let ty = ty64 as usize;
    match map.cell_at(tx, ty) {
        None => Err(OutOfBoundsError { column: tx, row: ty }),
        Some(CellState::Hallway) => Ok(Pose { x: cx, y: cy, heading: pose.heading }),
        Some(CellState::Wall) => {
            proof {
                lemma_row_len_le_max(map@, ty as int);
                assert((tx64 + 1) * cs <= width * cs) by (nonlinear_arith)
                    requires
                        tx64 + 1 <= width,
                ;
                assert((ty64 + 1) * cs <= height * cs) by (nonlinear_arith)
                    requires
                        ty64 + 1 <= height,
                ;
            }
            let left_x = (tx64 * cs) as i64;
            let top_y = (ty64 * cs) as i64;
            let right_x = ((tx64 + 1) * cs) as i64;
            let bottom_y = ((ty64 + 1) * cs) as i64;
            let edge = nearest_edge(right_x - cx, bottom_y - cy, cx - left_x, cy - top_y);
            let p = match edge {
                Edge::Right => Pose { x: right_x, y: cy, heading: pose.heading },
                Edge::Bottom => Pose { x: cx, y: bottom_y, heading: pose.heading },
                Edge::Left => Pose { x: left_x, y: cy, heading: pose.heading },
                Edge::Top => Pose { x: cx, y: top_y, heading: pose.heading },
            };
            Ok(p)
        },
    }
}

/// Every row is as long as the map is wide.
pub open spec fn is_rectangular(rows: Seq<Seq<CellState>>) -> bool {
    forall|i: int| 0 <= i < rows.len() ==> #[trigger] rows[i].len() == max_row_len(rows)
}

proof fn lemma_div_unique(v: int, cell_size: int, q: int)
    requires
        0 <= v,
        0 < cell_size,
        q * cell_size <= v < (q + 1) * cell_size,
    ensures
        v / cell_size == q,
{
    lemma_fundamental_div_mod(v, cell_size);
    lemma_mod_pos_bound(v, cell_size);
    let d = v / cell_size;
    assert(d == q) by (nonlinear_arith)
        requires
            v == cell_size * d + v % cell_size,
            0 <= v % cell_size < cell_size,
            q * cell_size <= v < (q + 1) * cell_size,
            0 < cell_size,
    ;
}

/// A wall push moves the clamped position along one axis only, onto an edge
/// of its tile, and by the least of the four distances to the tile's edges.
pub proof fn lemma_push_one_axis(rows: Seq<Seq<CellState>>, x: int, y: int, cell_size: int)
    requires
        cell_size > 0,
        ({
            let cx = clamp_spec(x, max_row_len(rows) * cell_size);
            let cy = clamp_spec(y, rows.len() * cell_size);
            cell_at_spec(rows, cx / cell_size, cy / cell_size) == Some(CellState::Wall)
        }),
    ensures
        ({
            let cx = clamp_spec(x, max_row_len(rows) * cell_size);
            let cy = clamp_spec(y, rows.len() * cell_size);
            let tx = cx / cell_size;
            let ty = cy / cell_size;
            let q = resolve_spec(rows, x, y, cell_size)->Ok_0;
            let right = (tx + 1) * cell_size - cx;
            let bottom = (ty + 1) * cell_size - cy;
            let left = cx - tx * cell_size;
            let top = cy - ty * cell_size;
            &&& resolve_spec(rows, x, y, cell_size) is Ok
            &&& (q.1 == cy && (q.0 == tx * cell_size || q.0 == (tx + 1) * cell_size)) || (q.0 == cx
                && (q.1 == ty * cell_size || q.1 == (ty + 1) * cell_size))
            &&& {
                let moved = if q.0 > cx {
                    q.0 - cx
                } else if q.0 < cx {
                    cx - q.0
                } else if q.1 > cy {
                    q.1 - cy
                } else {
                    cy - q.1
                };
                &&& moved <= right && moved <= bottom && moved <= left && moved <= top
                &&& (moved == right || moved == bottom || moved == left || moved == top)
            }
        }),
{
    let cx = clamp_spec(x, max_row_len(rows) * cell_size);
    let cy = clamp_spec(y, rows.len() * cell_size);
    assert(cx >= 0 && cy >= 0);
    lemma_tile_bounds(cx, cell_size);
    lemma_tile_bounds(cy, cell_size);
}

/// Resolving an already resolved position changes nothing: the result is
/// the same position again. The one way it can differ is on a map with rows
/// shorter than its width, where a push onto the far edge of a wall tile can
/// land in a tile that holds no cell; on a rectangular map that never
/// happens.
pub proof fn lemma_resolve_idempotent(rows: Seq<Seq<CellState>>, x: int, y: int, cell_size: int)
    requires
        cell_size > 0,
        resolve_spec(rows, x, y, cell_size) is Ok,
    ensures
        ({
            let q = resolve_spec(rows, x, y, cell_size)->Ok_0;
            &&& resolve_spec(rows, q.0, q.1, cell_size) is Ok ==> resolve_spec(rows, q.0, q.1, cell_size)
                == resolve_spec(rows, x, y, cell_size)
            &&& is_rectangular(rows) ==> resolve_spec(rows, q.0, q.1, cell_size) is Ok
        }),
{
    let w = max_row_len(rows) as int;
    let h = rows.len() as int;
    let ew = w * cell_size;
    let eh = h * cell_size;
    let cx = clamp_spec(x, ew);
    let cy = clamp_spec(y, eh);
    let tx = cx / cell_size;
    let ty = cy / cell_size;
    lemma_tile_bounds(cx, cell_size);
    lemma_tile_bounds(cy, cell_size);
    let cell = cell_at_spec(rows, tx, ty);
    assert(cell is Some);
    lemma_row_len_le_max(rows, ty);
    assert(tx < w && ty < h);
    assert((tx + 1) * cell_size <= ew && (ty + 1) * cell_size <= eh) by (nonlinear_arith)
        requires
            tx + 1 <= w,
            ty + 1 <= h,
            ew == w * cell_size,
            eh == h * cell_size,
            0 < cell_size,
    ;
    assert(cx < ew) by (nonlinear_arith)
        requires
            cx < (tx + 1) * cell_size,
            (tx + 1) * cell_size <= ew,
    ;
    assert(cy < eh);
    let q = resolve_spec(rows, x, y, cell_size)->Ok_0;
    let qx = q.0;
    let qy = q.1;
    let r2 = resolve_spec(rows, qx, qy, cell_size);
    if cell == Some(CellState::Hallway) {
        assert(clamp_spec(qx, ew) == qx);
        assert(clamp_spec(qy, eh) == qy);
    } else {
        let edge = push_edge(cx, cy, tx, ty, cell_size);
        match edge {
            Edge::Right => {
                assert(clamp_spec(qy, eh) == qy);
                if qx < ew {
                    assert(clamp_spec(qx, ew) == qx);
                    assert((tx + 2) * cell_size == (tx + 1) * cell_size + cell_size) by (nonlinear_arith);
                    lemma_div_unique(qx, cell_size, tx + 1);
                    assert((tx + 1) * cell_size == tx * cell_size + cell_size) by (nonlinear_arith);
                } else {
                    assert(qx == ew);
                    assert(clamp_spec(qx, ew) == ew - 1);
                    assert((tx + 1) * cell_size == tx * cell_size + cell_size) by (nonlinear_arith);
                    lemma_div_unique(ew - 1, cell_size, tx);
                }
            },
            Edge::Bottom => {
                assert(clamp_spec(qx, ew) == qx);
                if qy < eh {
                    assert(clamp_spec(qy, eh) == qy);
                    assert((ty + 2) * cell_size == (ty + 1) * cell_size + cell_size) by (nonlinear_arith);
                    lemma_div_unique(qy, cell_size, ty + 1);
                    assert((ty + 1) * cell_size == ty * cell_size + cell_size) by (nonlinear_arith);
                } else {
                    assert(qy == eh);
                    assert(clamp_spec(qy, eh) == eh - 1);
                    assert((ty + 1) * cell_size == ty * cell_size + cell_size) by (nonlinear_arith);
                    lemma_div_unique(eh - 1, cell_size, ty);
                }
            },
            Edge::Left => {
                assert(clamp_spec(qx, ew) == qx);
                assert(clamp_spec(qy, eh) == qy);
                lemma_div_unique(qx, cell_size, tx);
                assert((tx + 1) * cell_size == tx * cell_size + cell_size) by (nonlinear_arith);
            },
            Edge::Top => {
                assert(clamp_spec(qx, ew) == qx);
                assert(clamp_spec(qy, eh) == qy);
                lemma_div_unique(qy, cell_size, ty);
                assert((ty + 1) * cell_size == ty * cell_size + cell_size) by (nonlinear_arith);
            },
        }
    }
    if is_rectangular(rows) {
        let cx2 = clamp_spec(qx, ew);
        let cy2 = clamp_spec(qy, eh);
        lemma_tile_bounds(cx2, cell_size);
        lemma_tile_below(cx2, cell_size, w);
        lemma_tile_bounds(cy2, cell_size);
        lemma_tile_below(cy2, cell_size, h);
        assert(rows[cy2 / cell_size].len() == w);
    }
}

} // verus!
