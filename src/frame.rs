//! The per-particle update and the frame driver: distribute into the write
//! grid, update every particle against the read grid, swap.
use vstd::prelude::*;
use crate::boundary::{border_collision, border_spec};
use crate::chunk_map::{
    ChunkEntry, ChunkMap, ChunkMapDoubleBuffer, axis_chunk, chunk_coords, chunk_count,
    chunk_index_of, distributed, empty_cells, entry_of, lemma_index_in_grid, viewport_ok,
};
use crate::collision::{
    clamp_speed, clamp_speed_spec, collision_result, resolve_collision, saturate,
    saturate_component,
};
use crate::config::{SimConfig, MICROS_PER_SECOND};
use crate::force::{fallback_direction, fallback_spec, force_spec, force_with_fallback};
use crate::geometry::{Vector2, UNIT, abs, div_trunc, div_toward_zero, len_sq, lemma_div_trunc_bound};
use crate::neighbors::{get_nearby_chunks, lemma_neighbor_completeness, nearby_of};
use crate::particle::{Particle, Velocity, all_valid, position_in_bounds, velocity_in_bounds};

verus! {

/// The velocity after a force `f` has acted for `dt` microseconds, within the
/// component bounds.
pub open spec fn apply_force(vel: Vector2, f: (int, int), dt: int) -> Vector2 {
    Vector2 {
        x: saturate(vel.x + div_trunc(f.0 * dt, MICROS_PER_SECOND as int)) as i64,
        y: saturate(vel.y + div_trunc(f.1 * dt, MICROS_PER_SECOND as int)) as i64,
    }
}

/// The velocity of particle `id`, at `pos` and moving at `vel`, after it has
/// met the snapshot `e`: the dispersion force over the time step, then the
/// collision. A particle does not meet its own snapshot.
pub open spec fn pair_step(
    pos: Vector2,
    vel: Vector2,
    radius: int,
    id: int,
    e: ChunkEntry,
    config: SimConfig,
    dt: int,
    dir: Vector2,
) -> Vector2 {
    if e.id as int == id {
        vel
    } else {
        let v1 = apply_force(vel, force_spec(pos, e.pos, config.smoothing_radius as int, dir), dt);
        collision_result(pos, v1, radius, e)
    }
}

/// The velocity after meeting each snapshot of `entries` in turn.
pub open spec fn fold_entries(
    pos: Vector2,
    vel: Vector2,
    radius: int,
    id: int,
    entries: Seq<ChunkEntry>,
    config: SimConfig,
    dt: int,
    dir: Vector2,
) -> Vector2
    decreases entries.len(),
{
    if entries.len() == 0 {
        vel
    } else {
        let before = fold_entries(pos, vel, radius, id, entries.drop_last(), config, dt, dir);
        pair_step(pos, before, radius, id, entries.last(), config, dt, dir)
    }
}

/// The velocity after meeting the snapshots of each chunk of `idxs` in turn.
pub open spec fn fold_chunks(
    pos: Vector2,
    vel: Vector2,
    radius: int,
    id: int,
    cells: Seq<Seq<ChunkEntry>>,
    idxs: Seq<int>,
    config: SimConfig,
    dt: int,
    dir: Vector2,
) -> Vector2
    decreases idxs.len(),
{
    if idxs.len() == 0 {
        vel
    } else {
        let before = fold_chunks(pos, vel, radius, id, cells, idxs.drop_last(), config, dt, dir);
        fold_entries(pos, before, radius, id, cells[idxs.last()], config, dt, dir)
    }
}

/// The particle moved for `dt` microseconds at velocity `v`, which it keeps.
pub open spec fn integrate(p: Particle, v: Vector2, dt: int) -> Particle {
    Particle {
        pos: Vector2 {
            x: (p.pos.x + div_trunc(v.x * dt, MICROS_PER_SECOND as int)) as i64,
            y: (p.pos.y + div_trunc(v.y * dt, MICROS_PER_SECOND as int)) as i64,
        },
        collider: p.collider,
        velocity: Velocity { vec: v },
    }
}

/// Particle `id` after one update against the grid `map`: the forces and
/// collisions of every snapshot in the chunks around it, the speed limit, the
/// move, and the wall checks. `dir` stands for the unit vector between
/// coincident particles.
pub open spec fn update_spec(
    p: Particle,
    id: int,
    map: ChunkMap,
    win: (i64, i64),
    config: SimConfig,
    dt: int,
    dir: Vector2,
) -> Particle {
    let v = fold_chunks(
        p.pos,
        p.velocity.vec,
        p.collider.radius as int,
        id,
        map.cells(),
        nearby_of(map, p.pos, win, config.smoothing_radius as int),
        config,
        dt,
        dir,
    );
    let v2 = clamp_speed_spec(v, config.max_velocity as int);
    border_spec(integrate(p, v2, dt), win, config)
}

/// `new_p` is particle `id`, `old_p` before, after one update in which some
/// pair of draws gave the direction between coincident particles.
pub open spec fn updated_from(
    new_p: Particle,
    old_p: Particle,
    id: int,
    map: ChunkMap,
    win: (i64, i64),
    config: SimConfig,
    dt: int,
) -> bool {
    exists|a: u32, b: u32|
        new_p == update_spec(old_p, id, map, win, config, dt, #[trigger] fallback_spec(a, b))
}

/// The particle lies within the walls of the viewport, where they leave
/// room for it.
pub open spec fn contained(p: Particle, win: (i64, i64)) -> bool {
    let r = p.collider.radius as int;
    &&& win.0 / 2 >= r ==> r - win.0 / 2 <= p.pos.x <= win.0 / 2 - r
    &&& win.1 / 2 >= r ==> r - win.1 / 2 <= p.pos.y <= win.1 / 2 - r
}

/// The particle moves no faster than `max`.
pub open spec fn speed_within(p: Particle, max: int) -> bool {
    len_sq(p.velocity.vec.x as int, p.velocity.vec.y as int) <= max * max
}

/// The velocity after a force `f` has acted for `dt` microseconds.
fn apply_force_exec(vel: Vector2, f: Vector2, dt: i64, radius: i64) -> (r: Vector2)
    requires
        velocity_in_bounds(vel),
        abs(f.x as int) <= radius * radius,
        abs(f.y as int) <= radius * radius,
        1 <= radius <= 0x100_0000,
        1 <= dt <= MICROS_PER_SECOND,
    ensures
        r == apply_force(vel, (f.x as int, f.y as int), dt as int),
        velocity_in_bounds(r),
{
    assert(radius * radius <= 0x1_0000_0000_0000) by (nonlinear_arith)
        requires
            1 <= radius <= 0x100_0000,
    ;
    assert(abs(f.x * dt) <= 0x10_0000_0000_0000_0000 && abs(f.y * dt) <= 0x10_0000_0000_0000_0000)
        by (nonlinear_arith)
        requires
            abs(f.x as int) <= 0x1_0000_0000_0000,
            abs(f.y as int) <= 0x1_0000_0000_0000,
            1 <= dt <= MICROS_PER_SECOND,
    ;
    let ax = div_toward_zero(f.x as i128 * dt as i128, MICROS_PER_SECOND as i128);
    let ay = div_toward_zero(f.y as i128 * dt as i128, MICROS_PER_SECOND as i128);
    let x = saturate_component(vel.x as i128 + ax);
    let y = saturate_component(vel.y as i128 + ay);
    Vector2 { x, y }
}

/// Updates particle `id` against the grid `chunk_map_read` over `dt`
/// microseconds, with `dir` standing for the unit vector between coincident
/// particles: forces and collisions of every snapshot in the chunks around
/// it but its own, then the speed limit, the move and the wall checks.
pub fn update_particle_with(
    particle: &mut Particle,
    id: usize,
    chunk_map_read: &ChunkMap,
    win_dimensions: &(i64, i64),
    config: &SimConfig,
    dt: i64,
    dir: Vector2,
)
    requires
        old(particle).valid(),
        chunk_map_read.wf(),
        chunk_map_read.entries_valid(),
        viewport_ok(*win_dimensions),
        config.wf(),
        1 <= dt <= MICROS_PER_SECOND,
        -UNIT <= dir.x <= UNIT,
        -UNIT <= dir.y <= UNIT,
    ensures
        *final(particle) == update_spec(
            *old(particle),
            id as int,
            *chunk_map_read,
            *win_dimensions,
            *config,
            dt as int,
            dir,
        ),
        final(particle).valid(),
        speed_within(*final(particle), config.max_velocity as int),
        contained(*final(particle), *win_dimensions),
{
    let pos = particle.pos;
    let radius = particle.collider.radius;
    let smoothing_radius = config.smoothing_radius;
    let nearby = get_nearby_chunks(&(pos.x, pos.y), chunk_map_read, win_dimensions, smoothing_radius);
    let ghost idxs = nearby@.map_values(|i: usize| i as int);
    let ghost cells = chunk_map_read.cells();
    let ghost v0 = particle.velocity.vec;
    let mut vel = particle.velocity.vec;
    let mut k: usize = 0;
    while k < nearby.len()
        invariant
            k <= nearby@.len(),
            idxs == nearby@.map_values(|i: usize| i as int),
            cells == chunk_map_read.cells(),
            forall|q: int| 0 <= q < nearby@.len() ==> #[trigger] nearby@[q] < chunk_map_read.chunks@.len(),
            chunk_map_read.entries_valid(),
            config.wf(),
            smoothing_radius == config.smoothing_radius,
            1 <= dt <= MICROS_PER_SECOND,
            -UNIT <= dir.x <= UNIT,
            -UNIT <= dir.y <= UNIT,
            old(particle).valid(),
            pos == old(particle).pos,
            radius == old(particle).collider.radius,
            velocity_in_bounds(vel),
            vel == fold_chunks(pos, v0, radius as int, id as int, cells, idxs.take(k as int), *config, dt as int, dir),
        decreases nearby@.len() - k,
    {
        let c = nearby[k];
        let chunk = &chunk_map_read.chunks[c];
        let ghost vk = vel;
        assert(cells[c as int] == chunk@);
        let mut j: usize = 0;
        while j < chunk.len()
            invariant
                j <= chunk@.len(),
                cells[c as int] == chunk@,
                c < chunk_map_read.chunks@.len(),
                cells == chunk_map_read.cells(),
                chunk_map_read.entries_valid(),
                config.wf(),
                smoothing_radius == config.smoothing_radius,
                1 <= dt <= MICROS_PER_SECOND,
                -UNIT <= dir.x <= UNIT,
                -UNIT <= dir.y <= UNIT,
                old(particle).valid(),
                pos == old(particle).pos,
                radius == old(particle).collider.radius,
                velocity_in_bounds(vel),
                vel == fold_entries(pos, vk, radius as int, id as int, chunk@.take(j as int), *config, dt as int, dir),
            decreases chunk@.len() - j,
        {
            let e = chunk[j];
            assert(cells[c as int][j as int].valid());
            if e.id != id {
                let f = force_with_fallback(pos, e.pos, smoothing_radius, dir);
                let v1 = apply_force_exec(vel, f, dt, smoothing_radius);
                vel = resolve_collision(pos, v1, radius, &e);
            }
            assert(chunk@.take(j + 1).drop_last() =~= chunk@.take(j as int));
            assert(chunk@.take(j + 1).last() == e);
            j = j + 1;
        }
        assert(chunk@.take(j as int) =~= chunk@);
        assert(idxs.take(k + 1).drop_last() =~= idxs.take(k as int));
        assert(idxs.take(k + 1).last() == c as int);
        k = k + 1;
    }
    assert(idxs.take(k as int) =~= idxs);
    let v2 = clamp_speed(vel, config.max_velocity);
    proof {
        lemma_div_trunc_bound(v2.x * dt, MICROS_PER_SECOND as int);
        lemma_div_trunc_bound(v2.y * dt, MICROS_PER_SECOND as int);
        assert(abs(v2.x * dt) <= 0x8000_0000 * MICROS_PER_SECOND && abs(v2.y * dt) <= 0x8000_0000
            * MICROS_PER_SECOND) by (nonlinear_arith)
            requires
                velocity_in_bounds(v2),
                1 <= dt <= MICROS_PER_SECOND,
        ;
    }
    let mx = div_toward_zero(v2.x as i128 * dt as i128, MICROS_PER_SECOND as i128);
    let my = div_toward_zero(v2.y as i128 * dt as i128, MICROS_PER_SECOND as i128);
    proof {
        assert(abs(mx as int) <= 0x8000_0000 && abs(my as int) <= 0x8000_0000) by (nonlinear_arith)
            requires
                abs(mx as int) * MICROS_PER_SECOND <= abs(v2.x * dt),
                abs(my as int) * MICROS_PER_SECOND <= abs(v2.y * dt),
                abs(v2.x * dt) <= 0x8000_0000 * MICROS_PER_SECOND,
                abs(v2.y * dt) <= 0x8000_0000 * MICROS_PER_SECOND,
        ;
    }
    particle.pos = Vector2 { x: pos.x + mx as i64, y: pos.y + my as i64 };
    particle.velocity = Velocity { vec: v2 };
    border_collision(particle, win_dimensions, config);
}

/// Updates particle `id` against the grid `chunk_map_read` over `dt`
/// microseconds, drawing a random direction for coincident particles.
pub fn update_particle(
    particle: &mut Particle,
    id: usize,
    chunk_map_read: &ChunkMap,
    win_dimensions: &(i64, i64),
    config: &SimConfig,
    dt: i64,
)
    requires
        old(particle).valid(),
        chunk_map_read.wf(),
        chunk_map_read.entries_valid(),
        viewport_ok(*win_dimensions),
        config.wf(),
        1 <= dt <= MICROS_PER_SECOND,
    ensures
        updated_from(
            *final(particle),
            *old(particle),
            id as int,
            *chunk_map_read,
            *win_dimensions,
            *config,
            dt as int,
        ),
        final(particle).valid(),
        speed_within(*final(particle), config.max_velocity as int),
        contained(*final(particle), *win_dimensions),
{
    let a: u32 = rand::random::<u32>();
    let b: u32 = rand::random::<u32>();
    let dir = fallback_direction(a, b);
    update_particle_with(particle, id, chunk_map_read, win_dimensions, config, dt, dir);
}

/// The snapshots that distributing `ps` appends to each chunk are of states
/// that can be advanced.
proof fn lemma_distributed_valid(
    ps: Seq<Particle>,
    n: int,
    win: (i64, i64),
    radius: int,
    dim_x: int,
    dim_y: int,
    c: int,
)
    requires
        all_valid(ps),
        n <= ps.len(),
    ensures
        forall|k: int|
            0 <= k < distributed(ps, n, win, radius, dim_x, dim_y, c).len() ==> (
            #[trigger] distributed(ps, n, win, radius, dim_x, dim_y, c)[k]).valid(),
    decreases n,
{
    if n > 0 {
        lemma_distributed_valid(ps, n - 1, win, radius, dim_x, dim_y, c);
        assert(ps[n - 1].valid());
        let prev = distributed(ps, n - 1, win, radius, dim_x, dim_y, c);
        let cur = distributed(ps, n, win, radius, dim_x, dim_y, c);
        assert forall|k: int| 0 <= k < cur.len() implies (#[trigger] cur[k]).valid() by {
            if k < prev.len() {
                assert(cur[k] == prev[k]);
            } else {
                assert(cur[k] == entry_of(ps, n - 1));
            }
        }
    }
}

/// The grid that a frame fills from `ps` on a viewport of size `win`: the
/// shape that covers the viewport with chunks twice the smoothing radius
/// wide, each chunk holding the snapshots of the particles in it, in order.
pub open spec fn filled_grid(map: ChunkMap, ps: Seq<Particle>, win: (i64, i64), radius: int) -> bool {
    &&& map.wf()
    &&& map.dim_x == chunk_count(win.0 as int, radius)
    &&& map.dim_y == chunk_count(win.1 as int, radius)
    &&& forall|c: int|
        0 <= c < map.cells().len() ==> #[trigger] map.cells()[c] == distributed(
            ps,
            ps.len() as int,
            win,
            radius,
            map.dim_x as int,
            map.dim_y as int,
            c,
        )
}

/// Distributing the first `n` particles puts the snapshot of each of them
/// in the chunk that holds its position.
proof fn lemma_distributed_contains(
    ps: Seq<Particle>,
    n: int,
    win: (i64, i64),
    radius: int,
    dim_x: int,
    dim_y: int,
    j: int,
)
    requires
        0 <= j < n <= ps.len(),
    ensures
        distributed(ps, n, win, radius, dim_x, dim_y, chunk_index_of(ps[j].pos, win, radius, dim_x, dim_y))
            .contains(entry_of(ps, j)),
    decreases n,
{
    let c = chunk_index_of(ps[j].pos, win, radius, dim_x, dim_y);
    let cur = distributed(ps, n, win, radius, dim_x, dim_y, c);
    if j == n - 1 {
        assert(cur[cur.len() - 1] == entry_of(ps, j));
    } else {
        lemma_distributed_contains(ps, n - 1, win, radius, dim_x, dim_y, j);
        let prev = distributed(ps, n - 1, win, radius, dim_x, dim_y, c);
        let k = choose|k: int| 0 <= k < prev.len() && prev[k] == entry_of(ps, j);
        assert(cur[k] == entry_of(ps, j));
    }
}

/// A chunk coordinate lies on the grid.
proof fn lemma_axis_chunk_in_range(coord: int, extent: int, radius: int, dim: int)
    requires
        radius >= 1,
        dim >= 1,
    ensures
        0 <= axis_chunk(coord, extent, radius, dim) < dim,
{
    let t = 2 * coord + extent;
    if t >= 0 {
        assert(t / (4 * radius) >= 0) by (nonlinear_arith)
            requires
                t >= 0,
                radius >= 1,
        ;
    }
}

/// In a grid filled from `ps`, the snapshot of each of two particles within
/// the smoothing radius of each other lies in one of the chunks that the
/// neighbour query returns for the other.
pub proof fn lemma_neighbors_found(
    map: ChunkMap,
    ps: Seq<Particle>,
    win: (i64, i64),
    radius: int,
    i: int,
    j: int,
)
    requires
        filled_grid(map, ps, win, radius),
        radius >= 1,
        0 <= i < ps.len(),
        0 <= j < ps.len(),
        len_sq(ps[i].pos.x - ps[j].pos.x, ps[i].pos.y - ps[j].pos.y) <= radius * radius,
    ensures
        exists|k: int|
            0 <= k < nearby_of(map, ps[i].pos, win, radius).len() && map.cells()[#[trigger] nearby_of(
                map,
                ps[i].pos,
                win,
                radius,
            )[k]].contains(entry_of(ps, j)),
        exists|k: int|
            0 <= k < nearby_of(map, ps[j].pos, win, radius).len() && map.cells()[#[trigger] nearby_of(
                map,
                ps[j].pos,
                win,
                radius,
            )[k]].contains(entry_of(ps, i)),
{
    lemma_neighbor_completeness(map, ps[i].pos, ps[j].pos, win, radius);
    lemma_found_one_way(map, ps, win, radius, i, j);
    lemma_found_one_way(map, ps, win, radius, j, i);
}

proof fn lemma_found_one_way(map: ChunkMap, ps: Seq<Particle>, win: (i64, i64), radius: int, i: int, j: int)
    requires
        filled_grid(map, ps, win, radius),
        radius >= 1,
        0 <= i < ps.len(),
        0 <= j < ps.len(),
        nearby_of(map, ps[i].pos, win, radius).contains(
            chunk_index_of(ps[j].pos, win, radius, map.dim_x as int, map.dim_y as int),
        ),
    ensures
        exists|k: int|
            0 <= k < nearby_of(map, ps[i].pos, win, radius).len() && map.cells()[#[trigger] nearby_of(
                map,
                ps[i].pos,
                win,
                radius,
            )[k]].contains(entry_of(ps, j)),
{
    let dim_x = map.dim_x as int;
    let dim_y = map.dim_y as int;
    let c = chunk_index_of(ps[j].pos, win, radius, dim_x, dim_y);
    lemma_axis_chunk_in_range(ps[j].pos.x as int, win.0 as int, radius, dim_x);
    lemma_axis_chunk_in_range(-ps[j].pos.y, win.1 as int, radius, dim_y);
    let cc = chunk_coords((ps[j].pos.x as int, ps[j].pos.y as int), win, radius, dim_x, dim_y);
    lemma_index_in_grid(cc.0, cc.1, dim_x, dim_y);
    lemma_distributed_contains(ps, ps.len() as int, win, radius, dim_x, dim_y, j);
    assert(map.cells()[c] == distributed(ps, ps.len() as int, win, radius, dim_x, dim_y, c));
    let nearby = nearby_of(map, ps[i].pos, win, radius);
    let k = choose|k: int| 0 <= k < nearby.len() && nearby[k] == c;
    assert(map.cells()[nearby[k]].contains(entry_of(ps, j)));
}

/// The grid that covers the viewport has at most `usize::MAX` chunks.
pub open spec fn grid_fits(win: (i64, i64), radius: int) -> bool {
    chunk_count(win.0 as int, radius) * chunk_count(win.1 as int, radius) <= usize::MAX
}

/// The distributing phase of a frame: on a viewport of nonzero area, the
/// write grid is reshaped to the viewport, or emptied where its shape fits,
/// and filled with snapshots of the particles; the read grid is left alone.
/// Returns whether the frame goes on, that is whether the area is nonzero.
pub fn prepare_frame(
    chunk_map_double_buffer: &mut ChunkMapDoubleBuffer,
    particles: &Vec<Particle>,
    win_dimensions: &(i64, i64),
    config: &SimConfig,
) -> (r: bool)
    requires
        old(chunk_map_double_buffer).write_chunk_map.wf(),
        all_valid(particles@),
        viewport_ok(*win_dimensions),
        config.wf(),
        grid_fits(*win_dimensions, config.smoothing_radius as int),
    ensures
        r == (win_dimensions.0 != 0 && win_dimensions.1 != 0),
        final(chunk_map_double_buffer).read_chunk_map == old(chunk_map_double_buffer).read_chunk_map,
        !r ==> *final(chunk_map_double_buffer) == *old(chunk_map_double_buffer),
        final(chunk_map_double_buffer).write_chunk_map.wf(),
        r ==> final(chunk_map_double_buffer).write_chunk_map.entries_valid(),
        r ==> filled_grid(
            final(chunk_map_double_buffer).write_chunk_map,
            particles@,
            *win_dimensions,
            config.smoothing_radius as int,
        ),
{
    let win_width = win_dimensions.0;
    let win_height = win_dimensions.1;
    // A world of zero size has nothing to compute.
    if win_width == 0 || win_height == 0 {
        return false;
    }
    let smoothing_radius = config.smoothing_radius;
    let cell = 2 * smoothing_radius;
    let chunks_dim_x = ((win_width + cell - 1) / cell) as usize;
    let chunks_dim_y = ((win_height + cell - 1) / cell) as usize;
    assert(1 <= chunks_dim_x <= 0x8000_0000 && 1 <= chunks_dim_y <= 0x8000_0000) by (nonlinear_arith)
        requires
            1 <= win_width <= 0x8000_0000,
            1 <= win_height <= 0x8000_0000,
            cell >= 2,
            chunks_dim_x as int == (win_width + cell - 1) as int / cell as int,
            chunks_dim_y as int == (win_height + cell - 1) as int / cell as int,
    ;
    assert((if chunks_dim_x == 0 {
        1
    } else {
        chunks_dim_x as int
    }) * (if chunks_dim_y == 0 {
        1
    } else {
        chunks_dim_y as int
    }) <= usize::MAX);
    assert forall|q: int| 0 <= q < particles@.len() implies position_in_bounds(
        #[trigger] particles@[q].pos,
    ) by {
        assert(particles@[q].valid());
    }
    if chunk_map_double_buffer.write_chunk_map.dim_x != chunks_dim_x
        || chunk_map_double_buffer.write_chunk_map.dim_y != chunks_dim_y {
        chunk_map_double_buffer.write_chunk_map.resize(chunks_dim_x, chunks_dim_y);
    } else {
        chunk_map_double_buffer.write_chunk_map.clear_chunks();
    }
    let ghost emptied = chunk_map_double_buffer.write_chunk_map;
    assert(emptied.cells() == empty_cells(emptied.cells().len() as int));
    chunk_map_double_buffer.write_chunk_map.distribute_particles(
        particles,
        win_dimensions,
        smoothing_radius,
    );
    proof {
        let m = chunk_map_double_buffer.write_chunk_map;
        assert forall|c: int| 0 <= c < m.cells().len() implies #[trigger] m.cells()[c]
            == distributed(
            particles@,
            particles@.len() as int,
            *win_dimensions,
            smoothing_radius as int,
            m.dim_x as int,
            m.dim_y as int,
            c,
        ) by {
            assert(emptied.cells()[c] == Seq::<ChunkEntry>::empty());
            assert(m.cells()[c] =~= distributed(
                particles@,
                particles@.len() as int,
                *win_dimensions,
                smoothing_radius as int,
                m.dim_x as int,
                m.dim_y as int,
                c,
            ));
        }
        assert forall|c: int, k: int|
            0 <= c < m.cells().len() && 0 <= k < m.cells()[c].len() implies (#[trigger] m.cells()[c][k]).valid() by {
            lemma_distributed_valid(
                particles@,
                particles@.len() as int,
                *win_dimensions,
                smoothing_radius as int,
                m.dim_x as int,
                m.dim_y as int,
                c,
            );
        }
    }
    true
}

/// Advances the simulation by one frame that took `frame_dt_us`
/// microseconds. On a viewport of zero area nothing happens. Otherwise the
/// write grid is reshaped to the viewport, or emptied where its shape fits,
/// and filled with snapshots of the particles; then every particle is
/// updated against the read grid, filled by the previous frame, over the
/// frame's time step; last the two grids are swapped.
pub fn simulate(
    chunk_map_double_buffer: &mut ChunkMapDoubleBuffer,
    particles: &mut Vec<Particle>,
    win_dimensions: &(i64, i64),
    config: &SimConfig,
    frame_dt_us: i64,
)
    requires
        old(chunk_map_double_buffer).wf(),
        all_valid(old(particles)@),
        viewport_ok(*win_dimensions),
        config.wf(),
        grid_fits(*win_dimensions, config.smoothing_radius as int),
    ensures
        final(chunk_map_double_buffer).wf(),
        final(particles)@.len() == old(particles)@.len(),
        all_valid(final(particles)@),
        win_dimensions.0 == 0 || win_dimensions.1 == 0 ==> *final(chunk_map_double_buffer) == *old(
            chunk_map_double_buffer,
        ) && final(particles)@ == old(particles)@,
        win_dimensions.0 != 0 && win_dimensions.1 != 0 ==> {
            &&& final(chunk_map_double_buffer).write_chunk_map == old(
                chunk_map_double_buffer,
            ).read_chunk_map
            &&& filled_grid(
                final(chunk_map_double_buffer).read_chunk_map,
                old(particles)@,
                *win_dimensions,
                config.smoothing_radius as int,
            )
            &&& forall|i: int|
                0 <= i < final(particles)@.len() ==> {
                    &&& speed_within(#[trigger] final(particles)@[i], config.max_velocity as int)
                    &&& contained(final(particles)@[i], *win_dimensions)
                    &&& updated_from(
                        final(particles)@[i],
                        old(particles)@[i],
                        i,
                        old(chunk_map_double_buffer).read_chunk_map,
                        *win_dimensions,
                        *config,
                        config.step_spec(frame_dt_us as int),
                    )
                }
        },
{
    let ghost old_read = chunk_map_double_buffer.read_chunk_map;
    if !prepare_frame(chunk_map_double_buffer, particles, win_dimensions, config) {
        return;
    }
    let dt = config.step_duration(frame_dt_us);
    let n = particles.len();
    let mut i: usize = 0;
    while i < n
        invariant
            i <= n,
            n == particles@.len(),
            n == old(particles)@.len(),
            chunk_map_double_buffer.read_chunk_map == old_read,
            old_read == old(chunk_map_double_buffer).read_chunk_map,
            old_read.wf(),
            old_read.entries_valid(),
            viewport_ok(*win_dimensions),
            config.wf(),
            dt == config.step_spec(frame_dt_us as int),
            1 <= dt <= MICROS_PER_SECOND,
            all_valid(old(particles)@),
            forall|q: int| i <= q < n ==> #[trigger] particles@[q] == old(particles)@[q],
            forall|q: int|
                0 <= q < i ==> {
                    &&& (#[trigger] particles@[q]).valid()
                    &&& speed_within(particles@[q], config.max_velocity as int)
                    &&& contained(particles@[q], *win_dimensions)
                    &&& updated_from(
                        particles@[q],
                        old(particles)@[q],
                        q,
                        old_read,
                        *win_dimensions,
                        *config,
                        dt as int,
                    )
                },
        decreases n - i,
    {
        let mut p = particles[i];
        assert(old(particles)@[i as int].valid());
        update_particle(
            &mut p,
            i,
            &chunk_map_double_buffer.read_chunk_map,
            win_dimensions,
            config,
            dt,
        );
        particles.set(i, p);
        i = i + 1;
    }
    chunk_map_double_buffer.swap();
}

} // verus!
