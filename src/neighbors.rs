//! The neighbour query: the block of up to three by three chunks around a
//! position.
use vstd::prelude::*;
use crate::chunk_map::{
    ChunkMap, axis_chunk, chunk_coords, chunk_index_of, viewport_ok, radius_ok,
    lemma_index_in_grid,
};
use crate::geometry::{Vector2, len_sq};
use crate::particle::position_in_bounds;

verus! {

/// The chunk indices of row `y`, columns `x_lo` to `x_hi`.
pub open spec fn block_row(x_lo: int, x_hi: int, y: int, dim_x: int) -> Seq<int> {
    Seq::new((x_hi - x_lo + 1) as nat, |k: int| x_lo + k + y * dim_x)
}

/// The chunk indices of columns `x_lo` to `x_hi` of rows `y_lo` to `y_hi`, row
/// by row.
pub open spec fn block(x_lo: int, x_hi: int, y_lo: int, y_hi: int, dim_x: int) -> Seq<int>
    decreases y_hi - y_lo + 1,
{
    if y_hi < y_lo {
        Seq::empty()
    } else {
        block(x_lo, x_hi, y_lo, y_hi - 1, dim_x) + block_row(x_lo, x_hi, y_hi, dim_x)
    }
}

/// The larger of two integers.
pub open spec fn max(a: int, b: int) -> int {
    if a >= b {
        a
    } else {
        b
    }
}

/// The smaller of two integers.
pub open spec fn min(a: int, b: int) -> int {
    if a <= b {
        a
    } else {
        b
    }
}

/// The indices of the chunks of the three by three block around chunk
/// `(cx, cy)` that lie on a `dim_x` by `dim_y` grid.
pub open spec fn nearby_spec(cx: int, cy: int, dim_x: int, dim_y: int) -> Seq<int> {
    block(max(cx - 1, 0), min(cx + 1, dim_x - 1), max(cy - 1, 0), min(cy + 1, dim_y - 1), dim_x)
}

/// The chunk indices that the neighbour query returns for `pos`.
pub open spec fn nearby_of(map: ChunkMap, pos: Vector2, win: (i64, i64), radius: int) -> Seq<int> {
    let c = chunk_coords((pos.x as int, pos.y as int), win, radius, map.dim_x as int, map.dim_y as int);
    nearby_spec(c.0, c.1, map.dim_x as int, map.dim_y as int)
}

/// Every column and row of a block has its index in it.
proof fn lemma_block_contains(x_lo: int, x_hi: int, y_lo: int, y_hi: int, dim_x: int, x: int, y: int)
    requires
        x_lo <= x <= x_hi,
        y_lo <= y <= y_hi,
    ensures
        block(x_lo, x_hi, y_lo, y_hi, dim_x).contains(x + y * dim_x),
    decreases y_hi - y_lo,
{
    let row = block_row(x_lo, x_hi, y_hi, dim_x);
    let prev = block(x_lo, x_hi, y_lo, y_hi - 1, dim_x);
    if y == y_hi {
        assert(row[x - x_lo] == x + y * dim_x);
        assert((prev + row)[prev.len() + (x - x_lo)] == x + y * dim_x);
    } else {
        lemma_block_contains(x_lo, x_hi, y_lo, y_hi - 1, dim_x, x, y);
        let k = choose|k: int| 0 <= k < prev.len() && prev[k] == x + y * dim_x;
        assert((prev + row)[k] == x + y * dim_x);
    }
}

/// Two coordinates at most `radius` apart fall in chunks at most one apart.
proof fn lemma_axis_close(a: int, b: int, extent: int, radius: int, dim: int)
    requires
        -radius <= a - b <= radius,
        radius >= 1,
        dim >= 1,
    ensures
        -1 <= axis_chunk(a, extent, radius, dim) - axis_chunk(b, extent, radius, dim) <= 1,
{
    let w = 4 * radius;
    let ta = 2 * a + extent;
    let tb = 2 * b + extent;
    let qa = ta / w;
    let qb = tb / w;
    if ta >= 0 && tb >= 0 {
        assert(-1 <= qa - qb <= 1) by (nonlinear_arith)
            requires
                w > 0,
                ta >= 0,
                tb >= 0,
                -w < ta - tb < w,
                qa == ta / w,
                qb == tb / w,
        ;
    } else if ta >= 0 {
        assert(qa == 0) by (nonlinear_arith)
            requires
                w > 0,
                0 <= ta < w,
                qa == ta / w,
        ;
    } else if tb >= 0 {
        assert(qb == 0) by (nonlinear_arith)
            requires
                w > 0,
                0 <= tb < w,
                qb == tb / w,
        ;
    }
}

/// For two positions within the smoothing radius of each other, the chunk
/// of each is among the chunks that the neighbour query returns for the
/// other, on any grid.
pub proof fn lemma_neighbor_completeness(
    map: ChunkMap,
    p1: Vector2,
    p2: Vector2,
    win: (i64, i64),
    radius: int,
)
    requires
        map.wf(),
        radius >= 1,
        len_sq(p1.x - p2.x, p1.y - p2.y) <= radius * radius,
    ensures
        nearby_of(map, p1, win, radius).contains(
            chunk_index_of(p2, win, radius, map.dim_x as int, map.dim_y as int),
        ),
        nearby_of(map, p2, win, radius).contains(
            chunk_index_of(p1, win, radius, map.dim_x as int, map.dim_y as int),
        ),
{
    lemma_one_way(map, p1, p2, win, radius);
    assert(len_sq(p2.x - p1.x, p2.y - p1.y) == len_sq(p1.x - p2.x, p1.y - p2.y)) by (nonlinear_arith);
    lemma_one_way(map, p2, p1, win, radius);
}

proof fn lemma_one_way(map: ChunkMap, p1: Vector2, p2: Vector2, win: (i64, i64), radius: int)
    requires
        map.wf(),
        radius >= 1,
        len_sq(p1.x - p2.x, p1.y - p2.y) <= radius * radius,
    ensures
        nearby_of(map, p1, win, radius).contains(
            chunk_index_of(p2, win, radius, map.dim_x as int, map.dim_y as int),
        ),
{
    let dx = p1.x - p2.x;
    let dy = p1.y - p2.y;
    assert(-radius <= dx <= radius && -radius <= dy <= radius) by (nonlinear_arith)
        requires
            dx * dx + dy * dy <= radius * radius,
            radius >= 1,
    ;
    let dim_x = map.dim_x as int;
    let dim_y = map.dim_y as int;
    lemma_axis_close(p1.x as int, p2.x as int, win.0 as int, radius, dim_x);
    lemma_axis_close(-p1.y, -p2.y, win.1 as int, radius, dim_y);
    let c1 = chunk_coords((p1.x as int, p1.y as int), win, radius, dim_x, dim_y);
    let c2 = chunk_coords((p2.x as int, p2.y as int), win, radius, dim_x, dim_y);
    lemma_block_contains(
        max(c1.0 - 1, 0),
        min(c1.0 + 1, dim_x - 1),
        max(c1.1 - 1, 0),
        min(c1.1 + 1, dim_y - 1),
        dim_x,
        c2.0,
        c2.1,
    );
}

/// Uses chunking and the position of a particle to return the indices of
/// the chunks around it: the three by three block centred on its own chunk,
/// row by row, without the chunks that fall off the grid.
pub fn get_nearby_chunks(
    position: &(i64, i64),
    chunk_map: &ChunkMap,
    window_dims: &(i64, i64),
    smoothing_radius: i64,
) -> (r: Vec<usize>)
    requires
        chunk_map.wf(),
        position_in_bounds(Vector2 { x: position.0, y: position.1 }),
        viewport_ok(*window_dims),
        radius_ok(smoothing_radius as int),
    ensures
        r@.map_values(|i: usize| i as int) == nearby_of(
            *chunk_map,
            Vector2 { x: position.0, y: position.1 },
            *window_dims,
            smoothing_radius as int,
        ),
        r@.len() <= 9,
        forall|k: int| 0 <= k < r@.len() ==> #[trigger] r@[k] < chunk_map.chunks@.len(),
{
    let coords = chunk_map.get_chunk_coordinates(position, window_dims, smoothing_radius);
    let (cx, cy) = coords;
    let dim_x = chunk_map.dim_x;
    let dim_y = chunk_map.dim_y;
    let x_lo: usize = if cx >= 1 { cx - 1 } else { 0 };
    let x_hi: usize = if cx + 1 <= dim_x - 1 { cx + 1 } else { dim_x - 1 };
    let y_lo: usize = if cy >= 1 { cy - 1 } else { 0 };
    let y_hi: usize = if cy + 1 <= dim_y - 1 { cy + 1 } else { dim_y - 1 };
    let n = chunk_map.chunks.len();
    let mut nearby_chunks: Vec<usize> = Vec::with_capacity(9);
    let mut y = y_lo;
    while y <= y_hi
        invariant
            y_lo <= y <= y_hi + 1,
            y_hi < dim_y,
            x_lo <= x_hi < dim_x,
            y_hi - y_lo <= 2,
            x_hi - x_lo <= 2,
            chunk_map.wf(),
            dim_x == chunk_map.dim_x,
            dim_y == chunk_map.dim_y,
            n == dim_x * dim_y,
            nearby_chunks@.map_values(|i: usize| i as int) == block(
                x_lo as int,
                x_hi as int,
                y_lo as int,
                y - 1,
                dim_x as int,
            ),
            nearby_chunks@.len() == (y - y_lo) * (x_hi - x_lo + 1),
            forall|k: int| 0 <= k < nearby_chunks@.len() ==> #[trigger] nearby_chunks@[k] < n,
        decreases y_hi + 1 - y,
    {
        let ghost before = nearby_chunks@;
        let mut x = x_lo;
        while x <= x_hi
            invariant
                x_lo <= x <= x_hi + 1,
                y_lo <= y <= y_hi,
                y_hi < dim_y,
                x_hi < dim_x,
                y_hi - y_lo <= 2,
                x_hi - x_lo <= 2,
                chunk_map.wf(),
                dim_x == chunk_map.dim_x,
                dim_y == chunk_map.dim_y,
                n == dim_x * dim_y,
                before.map_values(|i: usize| i as int) == block(
                    x_lo as int,
                    x_hi as int,
                    y_lo as int,
                    y - 1,
                    dim_x as int,
                ),
                before.len() == (y - y_lo) * (x_hi - x_lo + 1),
                nearby_chunks@.map_values(|i: usize| i as int) == before.map_values(
                    |i: usize| i as int,
                ) + block_row(x_lo as int, x - 1, y as int, dim_x as int),
                nearby_chunks@.len() == before.len() + (x - x_lo),
                forall|k: int| 0 <= k < nearby_chunks@.len() ==> #[trigger] nearby_chunks@[k] < n,
            decreases x_hi + 1 - x,
        {
            proof {
                lemma_index_in_grid(x as int, y as int, dim_x as int, dim_y as int);
            }
            let index = x + y * dim_x;
            let ghost prev = nearby_chunks@;
            nearby_chunks.push(index);
            proof {
                assert(nearby_chunks@.map_values(|i: usize| i as int) =~= prev.map_values(
                    |i: usize| i as int,
                ).push(index as int));
                assert(block_row(x_lo as int, x as int, y as int, dim_x as int) =~= block_row(
                    x_lo as int,
                    x - 1,
                    y as int,
                    dim_x as int,
                ).push(index as int));
                assert(nearby_chunks@.map_values(|i: usize| i as int) =~= before.map_values(
                    |i: usize| i as int,
                ) + block_row(x_lo as int, x as int, y as int, dim_x as int));
            }
            x = x + 1;
        }
        assert(nearby_chunks@.len() == (y + 1 - y_lo) * (x_hi - x_lo + 1)) by (nonlinear_arith)
            requires
                nearby_chunks@.len() == before.len() + (x - x_lo),
                before.len() == (y - y_lo) * (x_hi - x_lo + 1),
                x == x_hi + 1,
        ;
        y = y + 1;
    }
    assert(nearby_chunks@.len() <= 9) by (nonlinear_arith)
        requires
            nearby_chunks@.len() == (y - y_lo) * (x_hi - x_lo + 1),
            y - y_lo <= 3,
            x_hi - x_lo + 1 <= 3,
            y >= y_lo,
            x_hi >= x_lo,
    ;
    nearby_chunks
}

} // verus!
