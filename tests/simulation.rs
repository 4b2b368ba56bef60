use fluid_simulation::article::{app, MATH_CONFIG};
use fluid_simulation::boundary::border_collision;
use fluid_simulation::chunk_map::{ChunkEntry, ChunkMap, ChunkMapDoubleBuffer};
use fluid_simulation::collision::{clamp_speed, resolve_collision};
use fluid_simulation::config::SimConfig;
use fluid_simulation::density::{density_color, density_pixel, pixel_position, pixel_weight};
use fluid_simulation::force::{calculate_force, fallback_direction, force_with_fallback};
use fluid_simulation::frame::{prepare_frame, simulate, update_particle, update_particle_with};
use fluid_simulation::geometry::{ceil_sqrt, isqrt, Vector2, UNIT};
use fluid_simulation::neighbors::get_nearby_chunks;
use fluid_simulation::particle::{CircleCollider, Gravity, Particle, Velocity};
use fluid_simulation::setup::initial_particles;

const R: i64 = 70 * UNIT;

fn particle(x: i64, y: i64, vx: i64, vy: i64, radius: i64) -> Particle {
    Particle {
        pos: Vector2::new(x, y),
        collider: CircleCollider::new(radius),
        velocity: Velocity::new(vx, vy),
    }
}

fn speed_sq(p: &Particle) -> i128 {
    let x = p.velocity.vec.x as i128;
    let y = p.velocity.vec.y as i128;
    x * x + y * y
}

#[test]
fn defaults_match_the_simulation_constants() {
    let c = SimConfig::default();
    assert_eq!(c.smoothing_radius, 71_680);
    assert_eq!(c.max_velocity, 307_200);
    assert_eq!((c.damping_num, c.damping_den), (85, 100));
    assert_eq!(Gravity::default().0, Vector2::new(0, -98 * UNIT));
    assert_eq!(CircleCollider::default().radius, 512);
    assert_eq!(Velocity::default().vec, Vector2::zero());
    let p = Particle::default();
    assert_eq!(p.pos, Vector2::zero());
    assert_eq!(p.collider.radius, 512);
}

#[test]
fn time_step_is_capped_and_floored() {
    let c = SimConfig::default();
    assert_eq!(c.step_duration(50_000), 16_667);
    assert_eq!(c.step_duration(0), 100);
    assert_eq!(c.step_duration(-5), 100);
    assert_eq!(c.step_duration(10_000), 10_000);
}

#[test]
fn square_roots() {
    assert_eq!(isqrt(0), 0);
    assert_eq!(isqrt(24), 4);
    assert_eq!(isqrt(25), 5);
    assert_eq!(isqrt(1 << 64), 1 << 32);
    assert_eq!(ceil_sqrt(24), 5);
    assert_eq!(ceil_sqrt(25), 5);
    assert_eq!(ceil_sqrt(26), 6);
}

#[test]
fn chunk_coordinates_are_clamped_to_the_grid() {
    let mut map = ChunkMap::new();
    map.resize(4, 3);
    let win = (560 * UNIT, 420 * UNIT);
    assert_eq!(map.get_chunk_coordinates(&(0, 0), &win, R), (2, 1));
    assert_eq!(map.get_chunk_coordinates(&(-280 * UNIT, 210 * UNIT), &win, R), (0, 0));
    assert_eq!(map.get_chunk_coordinates(&(-1_000_000_000, 0), &win, R), (0, 1));
    assert_eq!(map.get_chunk_coordinates(&(1_000_000_000, -1_000_000_000), &win, R), (3, 2));
    assert_eq!(map.get_chunk_coordinates(&(279 * UNIT, -209 * UNIT), &win, R), (3, 2));
}

#[test]
fn resize_gives_empty_chunks_of_the_new_shape() {
    let mut map = ChunkMap::new();
    map.resize(4, 3);
    assert_eq!((map.dim_x, map.dim_y, map.chunks.len()), (4, 3, 12));
    map.resize(0, 5);
    assert_eq!((map.dim_x, map.dim_y, map.chunks.len()), (1, 5, 5));
}

#[test]
fn resize_twice_keeps_shape_and_drops_snapshots() {
    let mut map = ChunkMap::new();
    map.resize(4, 3);
    let ps = vec![particle(0, 0, 0, 0, 512)];
    map.distribute_particles(&ps, &(560 * UNIT, 420 * UNIT), R);
    map.resize(4, 3);
    let first: Vec<usize> = map.chunks.iter().map(|c| c.len()).collect();
    map.resize(4, 3);
    let second: Vec<usize> = map.chunks.iter().map(|c| c.len()).collect();
    assert_eq!((map.dim_x, map.dim_y), (4, 3));
    assert_eq!(first, vec![0; 12]);
    assert_eq!(first, second);
}

#[test]
fn distribute_appends_snapshots_in_order_and_clear_empties() {
    let mut map = ChunkMap::new();
    map.resize(4, 3);
    let win = (560 * UNIT, 420 * UNIT);
    let ps = vec![
        particle(0, 0, 5, 6, 512),
        particle(-280 * UNIT, 210 * UNIT, 0, 0, 600),
        particle(10, 10, 1, 1, 512),
    ];
    map.distribute_particles(&ps, &win, R);
    let centre = 2 + 1 * 4;
    assert_eq!(map.chunks[centre].len(), 2);
    assert_eq!(
        map.chunks[centre][0],
        ChunkEntry { id: 0, pos: Vector2::new(0, 0), velocity: Vector2::new(5, 6), radius: 512 }
    );
    assert_eq!(map.chunks[centre][1].id, 2);
    assert_eq!(map.chunks[0].len(), 1);
    assert_eq!(map.chunks[0][0].radius, 600);
    let total: usize = map.chunks.iter().map(|c| c.len()).sum();
    assert_eq!(total, 3);
    map.clear_chunks();
    assert_eq!((map.dim_x, map.dim_y, map.chunks.len()), (4, 3, 12));
    assert!(map.chunks.iter().all(|c| c.is_empty()));
}

#[test]
fn nearby_chunks_in_the_middle_and_at_a_corner() {
    let mut map = ChunkMap::new();
    map.resize(4, 3);
    let win = (560 * UNIT, 420 * UNIT);
    assert_eq!(get_nearby_chunks(&(0, 0), &map, &win, R), vec![1, 2, 3, 5, 6, 7, 9, 10, 11]);
    assert_eq!(get_nearby_chunks(&(-200 * UNIT, 0), &map, &win, R), vec![0, 1, 4, 5, 8, 9]);
    assert_eq!(get_nearby_chunks(&(-280 * UNIT, 210 * UNIT), &map, &win, R), vec![0, 1, 4, 5]);
    let single = ChunkMap::new();
    assert_eq!(get_nearby_chunks(&(0, 0), &single, &win, R), vec![0]);
}

#[test]
fn close_particles_find_each_other() {
    let mut map = ChunkMap::new();
    map.resize(4, 3);
    let win = (560 * UNIT, 420 * UNIT);
    let a = (-1, 1);
    let b = (-1 + 69 * UNIT, 1);
    let ca = map.get_chunk_coordinates(&a, &win, R);
    let cb = map.get_chunk_coordinates(&b, &win, R);
    assert_ne!(ca, cb);
    assert!(get_nearby_chunks(&a, &map, &win, R).contains(&(cb.0 + cb.1 * 4)));
    assert!(get_nearby_chunks(&b, &map, &win, R).contains(&(ca.0 + ca.1 * 4)));
}

#[test]
fn force_is_zero_beyond_the_smoothing_radius() {
    let f = calculate_force(Vector2::new(0, 0), Vector2::new(R + 1, 0), R);
    assert_eq!(f, Vector2::zero());
    let f = calculate_force(Vector2::new(0, 0), Vector2::new(50 * UNIT, 50 * UNIT), R);
    assert_eq!(f, Vector2::zero());
    let f = calculate_force(Vector2::new(0, 0), Vector2::new(R, 0), R);
    assert_eq!(f, Vector2::zero());
}

#[test]
fn force_pushes_apart_with_squared_gap() {
    let f = calculate_force(Vector2::new(0, 0), Vector2::new(-35 * UNIT, 0), R);
    assert_eq!(f, Vector2::new(1_254_400, 0));
    let f = calculate_force(Vector2::new(0, 0), Vector2::new(0, 35 * UNIT), R);
    assert_eq!(f, Vector2::new(0, -1_254_400));
    let near = calculate_force(Vector2::new(0, 0), Vector2::new(-69 * UNIT, 0), R);
    assert_eq!(near, Vector2::new(1024, 0));
}

#[test]
fn coincident_particles_get_a_fallback_direction() {
    let f = force_with_fallback(Vector2::new(5, 5), Vector2::new(5, 5), R, Vector2::new(UNIT, 0));
    assert_eq!(f, Vector2::new(5_017_600, 0));
    let g = calculate_force(Vector2::new(5, 5), Vector2::new(5, 5), R);
    let len_sq = (g.x as i128) * (g.x as i128) + (g.y as i128) * (g.y as i128);
    assert!(len_sq <= 5_017_600i128 * 5_017_600);
    assert!(len_sq >= 5_007_000i128 * 5_007_000);
    assert_eq!(fallback_direction(1024, 1024), Vector2::new(UNIT, 0));
    assert_eq!(fallback_direction(0, 0), Vector2::new(-724, -724));
    assert_eq!(fallback_direction(1025, 1025), Vector2::new(724, 724));
    assert_eq!(fallback_direction(1024 + 3, 1024 + 4), Vector2::new(614, 819));
    assert_eq!(fallback_direction(2048 + 1024 + 3, 1024 + 4), Vector2::new(614, 819));
    for (a, b) in [(0u32, 7u32), (5, 2047), (u32::MAX, 3), (1000, 1100), (1024, 1025)] {
        let d = fallback_direction(a, b);
        let l = d.x as i64 * d.x as i64 + d.y as i64 * d.y as i64;
        assert!(l <= UNIT * UNIT && l >= (UNIT - 2) * (UNIT - 2));
    }
}

#[test]
fn head_on_collision_exchanges_velocities() {
    let v = 100 * UNIT;
    let radius = 3328;
    let a = particle(0, 0, v, 0, radius);
    let b = particle(2000, 0, -v, 0, radius);
    let a_entry = ChunkEntry { id: 0, pos: a.pos, velocity: a.velocity.vec, radius };
    let b_entry = ChunkEntry { id: 1, pos: b.pos, velocity: b.velocity.vec, radius };
    let a_after = resolve_collision(a.pos, a.velocity.vec, radius, &b_entry);
    let b_after = resolve_collision(b.pos, b.velocity.vec, radius, &a_entry);
    assert_eq!(a_after, Vector2::new(-v, 0));
    assert_eq!(b_after, Vector2::new(v, 0));
    assert_eq!(a_after.x + b_after.x, a.velocity.vec.x + b.velocity.vec.x);
}

#[test]
fn separating_or_distant_particles_do_not_collide() {
    let v = 100 * UNIT;
    let radius = 3328;
    let other = ChunkEntry { id: 1, pos: Vector2::new(2000, 0), velocity: Vector2::new(v, 0), radius };
    assert_eq!(resolve_collision(Vector2::new(0, 0), Vector2::new(-v, 0), radius, &other), Vector2::new(-v, 0));
    let far = ChunkEntry { id: 1, pos: Vector2::new(4000, 0), velocity: Vector2::new(-v, 0), radius };
    assert_eq!(resolve_collision(Vector2::new(0, 0), Vector2::new(v, 0), radius, &far), Vector2::new(v, 0));
}

#[test]
fn speed_is_rescaled_to_the_limit() {
    assert_eq!(clamp_speed(Vector2::new(3000, 4000), 1000), Vector2::new(600, 800));
    assert_eq!(clamp_speed(Vector2::new(-3000, 4000), 1000), Vector2::new(-600, 800));
    assert_eq!(clamp_speed(Vector2::new(600, 800), 1000), Vector2::new(600, 800));
}

#[test]
fn walls_clamp_and_reflect_with_damping() {
    let c = SimConfig::default();
    let win = (200 * UNIT, 100 * UNIT);
    let mut p = particle(150 * UNIT, -60 * UNIT, 100, -200, 10 * UNIT);
    border_collision(&mut p, &win, &c);
    assert_eq!(p.pos, Vector2::new(90 * UNIT, -40 * UNIT));
    assert_eq!(p.velocity.vec, Vector2::new(-85, 170));
    let mut q = particle(0, 0, 7, 7, 10 * UNIT);
    border_collision(&mut q, &win, &c);
    assert_eq!(q.pos, Vector2::zero());
    assert_eq!(q.velocity.vec, Vector2::new(7, 7));
}

#[test]
fn one_update_moves_a_lone_particle() {
    let c = SimConfig::default();
    let win = (560 * UNIT, 420 * UNIT);
    let map = ChunkMap::new();
    let mut p = particle(0, 0, 60 * UNIT, 0, 512);
    update_particle_with(&mut p, 0, &map, &win, &c, 10_000, Vector2::new(UNIT, 0));
    assert_eq!(p.pos, Vector2::new(614, 0));
    assert_eq!(p.velocity.vec, Vector2::new(60 * UNIT, 0));
}

#[test]
fn update_caps_speed_and_ignores_own_snapshot() {
    let c = SimConfig::default();
    let win = (560 * UNIT, 420 * UNIT);
    let mut map = ChunkMap::new();
    map.resize(4, 3);
    let ps = vec![particle(0, 0, 3 * c.max_velocity / 5 * 2, 4 * c.max_velocity / 5 * 2, 512)];
    map.distribute_particles(&ps, &win, R);
    let mut p = ps[0];
    update_particle_with(&mut p, 0, &map, &win, &c, 1_000, Vector2::new(UNIT, 0));
    assert_eq!(p.velocity.vec, Vector2::new(184_320, 245_760));
}

#[test]
fn frames_keep_particles_valid_slow_and_inside() {
    let c = SimConfig::default();
    let win = (200 * UNIT, 150 * UNIT);
    let mut buffer = ChunkMapDoubleBuffer::new();
    let mut ps = initial_particles(10, 10, 6656);
    ps[3] = ps[4];
    ps[7].velocity = Velocity::new(2_000_000_000, -2_000_000_000);
    for _ in 0..20 {
        simulate(&mut buffer, &mut ps, &win, &c, 16_000);
        let max = c.max_velocity as i128;
        for p in &ps {
            assert!(speed_sq(p) <= max * max);
            let r = p.collider.radius;
            assert!(p.pos.x >= r - win.0 / 2 && p.pos.x <= win.0 / 2 - r);
            assert!(p.pos.y >= r - win.1 / 2 && p.pos.y <= win.1 / 2 - r);
        }
    }
    assert_eq!(buffer.read_chunk_map.dim_x, 2);
    assert_eq!(buffer.read_chunk_map.dim_y, 2);
    let total: usize = buffer.read_chunk_map.chunks.iter().map(|c| c.len()).sum();
    assert_eq!(total, 100);
}

#[test]
fn zero_area_viewport_skips_the_frame() {
    let c = SimConfig::default();
    let mut buffer = ChunkMapDoubleBuffer::new();
    let mut ps = vec![particle(0, 0, 1000, 0, 512)];
    simulate(&mut buffer, &mut ps, &(0, 100 * UNIT), &c, 16_000);
    assert_eq!(ps[0], particle(0, 0, 1000, 0, 512));
    assert_eq!(buffer.read_chunk_map.chunks.len(), 1);
    assert_eq!(buffer.write_chunk_map.chunks.len(), 1);
}

#[test]
fn frames_swap_the_grids() {
    let c = SimConfig::default();
    let win = (560 * UNIT, 420 * UNIT);
    let mut buffer = ChunkMapDoubleBuffer::new();
    let mut ps = vec![particle(0, 0, 0, 0, 512), particle(50 * UNIT, 0, 0, 0, 512)];
    simulate(&mut buffer, &mut ps, &win, &c, 16_000);
    assert_eq!((buffer.read_chunk_map.dim_x, buffer.read_chunk_map.dim_y), (4, 3));
    assert_eq!(buffer.read_chunk_map.chunks[6][0].id, 0);
    assert_eq!((buffer.write_chunk_map.dim_x, buffer.write_chunk_map.dim_y), (1, 1));
    // With an empty read grid the first frame feels no forces.
    assert_eq!(ps[0].velocity.vec, Vector2::zero());
    simulate(&mut buffer, &mut ps, &win, &c, 16_000);
    assert!(ps[0].velocity.vec.x < 0);
    assert!(ps[1].velocity.vec.x > 0);
}

#[test]
fn lattice_of_particles_at_rest() {
    let ps = initial_particles(100, 100, 6656);
    assert_eq!(ps.len(), 10_000);
    assert_eq!(ps[0].pos, Vector2::new(-50 * 6656, 50 * 6656));
    assert_eq!(ps[101].pos, Vector2::new(-49 * 6656, 49 * 6656));
    assert_eq!(ps[9999].pos, Vector2::new(49 * 6656, -49 * 6656));
    assert_eq!(ps[5].collider.radius, 3328);
    assert_eq!(ps[5].velocity.vec, Vector2::zero());
}

#[test]
fn density_pixels_and_colours() {
    assert_eq!(pixel_position(0, 4, 2), Vector2::new(-2 * UNIT, UNIT));
    assert_eq!(pixel_position(5, 4, 2), Vector2::new(-UNIT, 0));
    assert_eq!(density_color(0), [0, 0, 0, 255]);
    assert_eq!(density_color(300), [255, 1, 0, 255]);
    assert_eq!(density_color(70_000), [255, 255, 1, 255]);
    assert_eq!(density_color(u64::MAX), [255, 255, 255, 255]);
    let win = (560 * UNIT, 420 * UNIT);
    let mut map = ChunkMap::new();
    map.resize(4, 3);
    let ps = vec![particle(0, 0, 0, 0, 512), particle(35 * UNIT, 0, 0, 0, 512)];
    map.distribute_particles(&ps, &win, R);
    assert_eq!(pixel_weight(Vector2::new(0, 0), &map, &win, R), 71_680 * 71_680 + 35_840 * 35_840);
    assert_eq!(pixel_weight(Vector2::new(0, 200 * UNIT), &map, &win, R), 0);
    let centre = 210 * 560 + 280;
    assert_eq!(density_pixel(centre, 560, 420, &map, R), [255, 24, 0, 255]);
}

#[test]
fn write_up_configuration() {
    assert_eq!(app(), MATH_CONFIG.to_string());
    assert_eq!(
        app(),
        "MathJax = {\n        tex: {\n            inlineMath: [['$', '$'], ['\\(', '\\)']]\n        }\n    };"
    );
}

#[test]
fn speed_for_colouring() {
    assert_eq!(particle(0, 0, 3000, 4000, 512).speed(), 5000);
    assert_eq!(particle(0, 0, -1, 1, 512).speed(), 1);
    assert_eq!(particle(0, 0, 0, 0, 512).speed(), 0);
}

#[test]
fn prepare_fills_only_the_write_grid() {
    let c = SimConfig::default();
    let win = (560 * UNIT, 420 * UNIT);
    let mut buffer = ChunkMapDoubleBuffer::new();
    let ps = vec![particle(0, 0, 0, 0, 512), particle(-270 * UNIT, 200 * UNIT, 0, 0, 512)];
    assert!(prepare_frame(&mut buffer, &ps, &win, &c));
    assert_eq!(buffer.read_chunk_map.chunks.len(), 1);
    assert!(buffer.read_chunk_map.chunks[0].is_empty());
    assert_eq!((buffer.write_chunk_map.dim_x, buffer.write_chunk_map.dim_y), (4, 3));
    assert_eq!(buffer.write_chunk_map.chunks[6][0].id, 0);
    assert_eq!(buffer.write_chunk_map.chunks[0][0].id, 1);
    assert!(!prepare_frame(&mut buffer, &ps, &(560 * UNIT, 0), &c));
}

#[test]
fn random_update_of_coincident_particles_stays_bounded() {
    let c = SimConfig::default();
    let win = (560 * UNIT, 420 * UNIT);
    let mut map = ChunkMap::new();
    map.resize(4, 3);
    let ps = vec![particle(0, 0, 0, 0, 512), particle(0, 0, 0, 0, 512)];
    map.distribute_particles(&ps, &win, R);
    let mut p = ps[0];
    update_particle(&mut p, 0, &map, &win, &c, 16_000);
    let max = c.max_velocity as i128;
    assert!(speed_sq(&p) <= max * max);
    assert!(speed_sq(&p) > 0);
}

#[test]
fn force_is_unit_direction_at_tiny_separations() {
    let diagonal = calculate_force(Vector2::new(0, 0), Vector2::new(-1, -1), R);
    let straight = calculate_force(Vector2::new(0, 0), Vector2::new(-1, 0), R);
    assert_eq!(diagonal, Vector2::new(3_547_839, 3_547_839));
    assert_eq!(straight, Vector2::new(5_017_460, 0));
    let d2 = (diagonal.x as i128).pow(2) + (diagonal.y as i128).pow(2);
    let s2 = (straight.x as i128).pow(2) + (straight.y as i128).pow(2);
    assert!(d2 <= s2);
    assert!(s2 <= 5_017_600i128 * 5_017_600);
}

#[test]
fn force_magnitude_falls_with_distance() {
    let mut last = i128::MAX;
    for k in 0..=70 {
        let f = calculate_force(Vector2::new(0, 0), Vector2::new(-k * UNIT - 3, -7 * k), R);
        let m = (f.x as i128).pow(2) + (f.y as i128).pow(2);
        assert!(m <= last);
        last = m;
    }
    assert_eq!(last, 0);
}
