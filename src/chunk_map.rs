//! The spatial grid of chunks and its double buffer.
use vstd::prelude::*;
use crate::config::{SMOOTHING_RADIUS_LIMIT, VIEWPORT_LIMIT};
use crate::geometry::Vector2;
use crate::particle::{Particle, position_in_bounds, velocity_in_bounds, radius_in_bounds};

verus! {

/// A snapshot of one particle, as a chunk holds it.
#[derive(Clone, Copy, Debug, PartialEq, Eq, Structural)]
pub struct ChunkEntry {
    /// The particle's index in the store.
    pub id: usize,
    pub pos: Vector2,
    pub velocity: Vector2,
    pub radius: i64,
}

impl ChunkEntry {
    /// The snapshot is of a state that the simulation can advance.
    pub open spec fn valid(&self) -> bool {
        &&& position_in_bounds(self.pos)
        &&& velocity_in_bounds(self.velocity)
        &&& radius_in_bounds(self.radius as int)
    }
}

/// The snapshot of the `i`-th particle of `ps`.
pub open spec fn entry_of(ps: Seq<Particle>, i: int) -> ChunkEntry {
    ChunkEntry {
        id: i as usize,
        pos: ps[i].pos,
        velocity: ps[i].velocity.vec,
        radius: ps[i].collider.radius,
    }
}

/// A viewport size that the grid accepts.
pub open spec fn viewport_ok(win: (i64, i64)) -> bool {
    0 <= win.0 <= VIEWPORT_LIMIT && 0 <= win.1 <= VIEWPORT_LIMIT
}

/// A smoothing radius that the grid accepts.
pub open spec fn radius_ok(radius: int) -> bool {
    1 <= radius <= SMOOTHING_RADIUS_LIMIT
}

/// The chunk column (or row) of a coordinate along an axis of the given
/// extent: chunks are `2 * radius` wide and start at the viewport's lower edge;
/// the index is clamped to `[0, dim - 1]`.
pub open spec fn axis_chunk(coord: int, extent: int, radius: int, dim: int) -> int {
    let t = 2 * coord + extent;
    if t < 0 {
        0
    } else if t / (4 * radius) > dim - 1 {
        dim - 1
    } else {
        t / (4 * radius)
    }
}

/// The number of chunks needed to cover `extent` with chunks `2 * radius`
/// wide.
pub open spec fn chunk_count(extent: int, radius: int) -> int {
    (extent + 2 * radius - 1) / (2 * radius)
}

/// The chunk coordinates of a position on a grid of the given shape. The x
/// axis grows to the right, the y axis grows upward while rows are numbered
/// from the top.
pub open spec fn chunk_coords(
    pos: (int, int),
    win: (i64, i64),
    radius: int,
    dim_x: int,
    dim_y: int,
) -> (int, int) {
    (
        axis_chunk(pos.0, win.0 as int, radius, dim_x),
        axis_chunk(-pos.1, win.1 as int, radius, dim_y),
    )
}

/// The index, in row-major order, of the chunk that holds `pos`.
pub open spec fn chunk_index_of(
    pos: Vector2,
    win: (i64, i64),
    radius: int,
    dim_x: int,
    dim_y: int,
) -> int {
    let c = chunk_coords((pos.x as int, pos.y as int), win, radius, dim_x, dim_y);
    c.0 + c.1 * dim_x
}

/// The snapshots that distributing the first `n` particles of `ps` appends to
/// chunk `c`, in the particles' order.
pub open spec fn distributed(
    ps: Seq<Particle>,
    n: int,
    win: (i64, i64),
    radius: int,
    dim_x: int,
    dim_y: int,
    c: int,
) -> Seq<ChunkEntry>
    decreases n,
{
    if n <= 0 {
        Seq::empty()
    } else {
        let prev = distributed(ps, n - 1, win, radius, dim_x, dim_y, c);
        if chunk_index_of(ps[n - 1].pos, win, radius, dim_x, dim_y) == c {
            prev.push(entry_of(ps, n - 1))
        } else {
            prev
        }
    }
}

/// `n` empty chunks.
pub open spec fn empty_cells(n: int) -> Seq<Seq<ChunkEntry>> {
    Seq::new(n as nat, |i: int| Seq::<ChunkEntry>::empty())
}

/// A grid of `dim_x` by `dim_y` chunks in row-major order, each a list of
/// particle snapshots. A grid is filled by one writer while it is the write
/// grid of a frame and only read, through shared references, while it is the
/// read grid, so its chunks need no locks.
#[derive(Debug)]
pub struct ChunkMap {
    pub chunks: Vec<Vec<ChunkEntry>>,
    pub dim_x: usize,
    pub dim_y: usize,
}

/// A cell index computed from in-range coordinates is in range.
pub proof fn lemma_index_in_grid(cx: int, cy: int, dim_x: int, dim_y: int)
    requires
        0 <= cx < dim_x,
        0 <= cy < dim_y,
    ensures
        0 <= cx + cy * dim_x < dim_x * dim_y,
{
    assert(cy * dim_x <= (dim_y - 1) * dim_x) by (nonlinear_arith)
        requires
            0 <= cy < dim_y,
            dim_x > 0,
    ;
    assert((dim_y - 1) * dim_x + dim_x == dim_x * dim_y) by (nonlinear_arith);
    assert(0 <= cy * dim_x) by (nonlinear_arith)
        requires
            0 <= cy,
            dim_x > 0,
    ;
}

impl ChunkMap {
    /// The shape is at least one chunk each way and the chunk list matches it.
    pub open spec fn wf(&self) -> bool {
        &&& self.dim_x >= 1
        &&& self.dim_y >= 1
        &&& self.chunks@.len() == self.dim_x * self.dim_y
    }

    /// The contents of the chunks.
    pub open spec fn cells(&self) -> Seq<Seq<ChunkEntry>> {
        self.chunks@.map_values(|c: Vec<ChunkEntry>| c@)
    }

    /// Every snapshot that the grid holds is of a state that can be advanced.
    pub open spec fn entries_valid(&self) -> bool {
        forall|c: int, k: int|
            0 <= c < self.cells().len() && 0 <= k < self.cells()[c].len()
                ==> (#[trigger] self.cells()[c][k]).valid()
    }

    /// The chunk coordinates of `pos` on this grid.
    pub open spec fn coords_spec(&self, pos: (int, int), win: (i64, i64), radius: int) -> (
        int,
        int,
    ) {
        chunk_coords(pos, win, radius, self.dim_x as int, self.dim_y as int)
    }

    /// A grid of one empty chunk.
    pub fn new() -> (r: ChunkMap)
        ensures
            r.wf(),
            r.dim_x == 1,
            r.dim_y == 1,
            r.cells() == empty_cells(1),
    {
        let mut chunks: Vec<Vec<ChunkEntry>> = Vec::new();
        chunks.push(Vec::new());
        let r = ChunkMap { chunks, dim_x: 1, dim_y: 1 };
        assert(r.cells() =~= empty_cells(1));
        r
    }

    /// The chunk index along one axis for the doubled offset `t` from the
    /// viewport's lower edge, clamped to `[0, dim - 1]`.
    fn axis_index(t: i64, width: i64, dim: usize) -> (r: usize)
        requires
            width > 0,
            dim >= 1,
        ensures
            r as int == (if t < 0 {
                0
            } else if t / width > dim - 1 {
                dim - 1
            } else {
                t / width
            }),
            r < dim,
    {
        if t < 0 {
            0
        } else {
            let q = t / width;
            assert(0 <= q <= t) by (nonlinear_arith)
                requires
                    t >= 0,
                    width > 0,
                    q == t / width,
            ;
            if q as u64 > (dim - 1) as u64 {
                dim - 1
            } else {
                q as usize
            }
        }
    }

    /// Returns the x, y coordinates of the chunk that holds a position.
    pub fn get_chunk_coordinates(
        &self,
        position: &(i64, i64),
        win_dimensions: &(i64, i64),
        smoothing_radius: i64,
    ) -> (r: (usize, usize))
        requires
            self.wf(),
            position_in_bounds(Vector2 { x: position.0, y: position.1 }),
            viewport_ok(*win_dimensions),
            radius_ok(smoothing_radius as int),
        ensures
            r.0 as int == self.coords_spec(
                (position.0 as int, position.1 as int),
                *win_dimensions,
                smoothing_radius as int,
            ).0,
            r.1 as int == self.coords_spec(
                (position.0 as int, position.1 as int),
                *win_dimensions,
                smoothing_radius as int,
            ).1,
            r.0 < self.dim_x,
            r.1 < self.dim_y,
    {
        let width = 4 * smoothing_radius;
        let tx = 2 * position.0 + win_dimensions.0;
        let ty = 2 * (-position.1) + win_dimensions.1;
        let chunk_x = Self::axis_index(tx, width, self.dim_x);
        let chunk_y = Self::axis_index(ty, width, self.dim_y);
        (chunk_x, chunk_y)
    }

    /// Replaces the chunks by `new_dim_x` by `new_dim_y` empty ones, taking a
    /// zero size as one.
    pub fn resize(&mut self, new_dim_x: usize, new_dim_y: usize)
        requires
            (if new_dim_x == 0 { 1 } else { new_dim_x as int }) * (if new_dim_y == 0 {
                1
            } else {
                new_dim_y as int
            }) <= usize::MAX,
        ensures
            final(self).wf(),
            is_resized(*final(self), new_dim_x, new_dim_y),
    {
        let dim_x = if new_dim_x == 0 { 1 } else { new_dim_x };
        let dim_y = if new_dim_y == 0 { 1 } else { new_dim_y };
        let n = dim_x * dim_y;
        let mut chunks: Vec<Vec<ChunkEntry>> = Vec::with_capacity(n);
        let mut i: usize = 0;
        while i < n
            invariant
                i <= n,
                chunks@.len() == i,
                forall|j: int| 0 <= j < i ==> (#[trigger] chunks@[j])@ == Seq::<ChunkEntry>::empty(),
            decreases n - i,
        {
            chunks.push(Vec::new());
            i = i + 1;
        }
        self.chunks = chunks;
        self.dim_x = dim_x;
        self.dim_y = dim_y;
        assert(self.cells() =~= empty_cells(n as int));
    }

    /// Empties every chunk, keeping the shape.
    pub fn clear_chunks(&mut self)
        ensures
            final(self).dim_x == old(self).dim_x,
            final(self).dim_y == old(self).dim_y,
            final(self).chunks@.len() == old(self).chunks@.len(),
            final(self).cells() == empty_cells(old(self).chunks@.len() as int),
    {
        let n = self.chunks.len();
        let mut i: usize = 0;
        while i < n
            invariant
                i <= n,
                self.chunks@.len() == n,
                self.dim_x == old(self).dim_x,
                self.dim_y == old(self).dim_y,
                forall|j: int| 0 <= j < i ==> (#[trigger] self.chunks@[j])@ == Seq::<ChunkEntry>::empty(),
            decreases n - i,
        {
            self.chunks[i].clear();
            i = i + 1;
        }
        assert(self.cells() =~= empty_cells(n as int));
    }

    /// Appends a snapshot of every particle, in order, to the chunk that
    /// holds its position.
    pub fn distribute_particles(
        &mut self,
        particles: &Vec<Particle>,
        win_dimensions: &(i64, i64),
        smoothing_radius: i64,
    )
        requires
            old(self).wf(),
            viewport_ok(*win_dimensions),
            radius_ok(smoothing_radius as int),
            forall|i: int| 0 <= i < particles@.len() ==> position_in_bounds(#[trigger] particles@[i].pos),
        ensures
            final(self).wf(),
            final(self).dim_x == old(self).dim_x,
            final(self).dim_y == old(self).dim_y,
            final(self).cells().len() == old(self).cells().len(),
            forall|c: int|
                0 <= c < final(self).cells().len() ==> #[trigger] final(self).cells()[c] == old(
                    self,
                ).cells()[c] + distributed(
                    particles@,
                    particles@.len() as int,
                    *win_dimensions,
                    smoothing_radius as int,
                    old(self).dim_x as int,
                    old(self).dim_y as int,
                    c,
                ),
    {
        let n = particles.len();
        let mut i: usize = 0;
        while i < n
            invariant
                i <= n,
                n == particles@.len(),
                self.wf(),
                self.dim_x == old(self).dim_x,
                self.dim_y == old(self).dim_y,
                self.cells().len() == old(self).cells().len(),
                viewport_ok(*win_dimensions),
                radius_ok(smoothing_radius as int),
                forall|j: int| 0 <= j < particles@.len() ==> position_in_bounds(#[trigger] particles@[j].pos),
                forall|c: int|
                    0 <= c < self.cells().len() ==> #[trigger] self.cells()[c] == old(
                        self,
                    ).cells()[c] + distributed(
                        particles@,
                        i as int,
                        *win_dimensions,
                        smoothing_radius as int,
                        self.dim_x as int,
                        self.dim_y as int,
                        c,
                    ),
            decreases n - i,
        {
            let p = particles[i];
            let coord = self.get_chunk_coordinates(&(p.pos.x, p.pos.y), win_dimensions, smoothing_radius);
            proof {
                lemma_index_in_grid(coord.0 as int, coord.1 as int, self.dim_x as int, self.dim_y as int);
            }
            let len = self.chunks.len();
            assert(coord.0 + coord.1 * self.dim_x < len);
            let index = coord.0 + coord.1 * self.dim_x;
            let entry = ChunkEntry {
                id: i,
                pos: p.pos,
                velocity: p.velocity.vec,
                radius: p.collider.radius,
            };
            let ghost before = self.cells();
            self.chunks[index].push(entry);
            proof {
                assert forall|c: int| 0 <= c < self.cells().len() implies #[trigger] self.cells()[c]
                    == old(self).cells()[c] + distributed(
                    particles@,
                    i + 1,
                    *win_dimensions,
                    smoothing_radius as int,
                    self.dim_x as int,
                    self.dim_y as int,
                    c,
                ) by {
                    let prev = distributed(
                        particles@,
                        i as int,
                        *win_dimensions,
                        smoothing_radius as int,
                        self.dim_x as int,
                        self.dim_y as int,
                        c,
                    );
                    assert(before[c] == old(self).cells()[c] + prev);
                    if c == index {
                        assert(self.cells()[c] =~= (old(self).cells()[c] + prev).push(entry));
                        assert((old(self).cells()[c] + prev).push(entry) =~= old(self).cells()[c]
                            + prev.push(entry));
                    } else {
                        assert(self.cells()[c] == before[c]);
                    }
                }
            }
            i = i + 1;
        }
    }
}

/// `map` is what resizing to `new_dim_x` by `new_dim_y` gives: that shape,
/// a zero size taken as one, with every chunk empty.
pub open spec fn is_resized(map: ChunkMap, new_dim_x: usize, new_dim_y: usize) -> bool {
    &&& map.dim_x == (if new_dim_x == 0 { 1 } else { new_dim_x })
    &&& map.dim_y == (if new_dim_y == 0 { 1 } else { new_dim_y })
    &&& map.cells() == empty_cells(map.dim_x * map.dim_y)
}

/// Resizing twice in a row to the same shape gives the same grid both times:
/// the shape asked for, with every chunk empty, whatever the grid held
/// before either call.
pub proof fn lemma_resize_idempotent(first: ChunkMap, second: ChunkMap, new_dim_x: usize, new_dim_y: usize)
    requires
        is_resized(first, new_dim_x, new_dim_y),
        is_resized(second, new_dim_x, new_dim_y),
    ensures
        first.dim_x == second.dim_x,
        first.dim_y == second.dim_y,
        first.cells() == second.cells(),
        forall|c: int| 0 <= c < second.cells().len() ==> (#[trigger] second.cells()[c]).len() == 0,
{
}

impl Default for ChunkMap {
    /// A grid of one empty chunk.
    fn default() -> (r: ChunkMap)
        ensures
            r.wf(),
            r.dim_x == 1,
            r.dim_y == 1,
            r.cells() == empty_cells(1),
    {
        ChunkMap::new()
    }
}

/// Two grids: the one that the current frame reads, filled during the last
/// frame, and the one that the current frame fills.
#[derive(Debug)]
pub struct ChunkMapDoubleBuffer {
    pub read_chunk_map: ChunkMap,
    pub write_chunk_map: ChunkMap,
}

impl ChunkMapDoubleBuffer {
    /// Both grids are well formed and every snapshot in the read grid is of a
    /// state that can be advanced: what a frame needs, and leaves behind.
    pub open spec fn wf(&self) -> bool {
        &&& self.read_chunk_map.wf()
        &&& self.read_chunk_map.entries_valid()
        &&& self.write_chunk_map.wf()
    }

    /// Two grids of one empty chunk each.
    pub fn new() -> (r: ChunkMapDoubleBuffer)
        ensures
            r.wf(),
            r.read_chunk_map.wf(),
            r.write_chunk_map.wf(),
            r.read_chunk_map.cells() == empty_cells(1),
            r.write_chunk_map.cells() == empty_cells(1),
    {
        ChunkMapDoubleBuffer { read_chunk_map: ChunkMap::new(), write_chunk_map: ChunkMap::new() }
    }

    /// Exchanges the two grids.
    pub fn swap(&mut self)
        ensures
            final(self).read_chunk_map == old(self).write_chunk_map,
            final(self).write_chunk_map == old(self).read_chunk_map,
    {
        std::mem::swap(&mut self.read_chunk_map, &mut self.write_chunk_map);
    }
}

impl Default for ChunkMapDoubleBuffer {
    /// Two grids of one empty chunk each.
    fn default() -> (r: ChunkMapDoubleBuffer)
        ensures
            r.read_chunk_map.wf(),
            r.write_chunk_map.wf(),
            r.read_chunk_map.cells() == empty_cells(1),
            r.write_chunk_map.cells() == empty_cells(1),
    {
        ChunkMapDoubleBuffer::new()
    }
}

} // verus!
