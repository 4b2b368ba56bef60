//! Reflection off the viewport's walls.
use vstd::prelude::*;
use crate::chunk_map::viewport_ok;
use crate::config::SimConfig;
use crate::geometry::{Vector2, abs, div_trunc, lemma_div_trunc_bound, div_toward_zero, len_sq, COORD_LIMIT, VELOCITY_LIMIT};
use crate::particle::{Particle, Velocity, velocity_in_bounds, radius_in_bounds};

verus! {

/// Bound on a coordinate between integration and the wall check.
pub const MOVED_COORD_LIMIT: i64 = 0x2_0000_0000;

/// A velocity component reversed and scaled by the damping factor
/// `num / den`, rounding toward zero.
pub open spec fn reflect(v: int, num: int, den: int) -> int {
    -div_trunc(v * num, den)
}

/// Position and velocity along one axis after the wall checks: past the
/// upper wall `half - radius` the position is set to it and the velocity
/// reflected; then, past the lower wall `radius - half`, likewise.
pub open spec fn border_axis(p: int, v: int, half: int, radius: int, num: int, den: int) -> (
    int,
    int,
) {
    let hi = half - radius;
    let lo = radius - half;
    let p1 = if p > hi { hi } else { p };
    let v1 = if p > hi { reflect(v, num, den) } else { v };
    if p1 < lo {
        (lo, reflect(v1, num, den))
    } else {
        (p1, v1)
    }
}

/// The particle after the wall checks on both axes, the walls standing
/// half the viewport's width (and height), rounded down, from the origin.
pub open spec fn border_spec(p: Particle, win: (i64, i64), config: SimConfig) -> Particle {
    let r = p.collider.radius as int;
    let ax = border_axis(
        p.pos.x as int,
        p.velocity.vec.x as int,
        win.0 / 2,
        r,
        config.damping_num as int,
        config.damping_den as int,
    );
    let ay = border_axis(
        p.pos.y as int,
        p.velocity.vec.y as int,
        win.1 / 2,
        r,
        config.damping_num as int,
        config.damping_den as int,
    );
    Particle {
        pos: Vector2 { x: ax.0 as i64, y: ay.0 as i64 },
        collider: p.collider,
        velocity: Velocity { vec: Vector2 { x: ax.1 as i64, y: ay.1 as i64 } },
    }
}

/// Reflection never makes a component larger.
proof fn lemma_reflect_bound(v: int, num: int, den: int)
    requires
        0 <= num < den,
    ensures
        abs(reflect(v, num, den)) <= abs(v),
{
    lemma_div_trunc_bound(v * num, den);
    let q = abs(div_trunc(v * num, den));
    let av = abs(v);
    assert(abs(v * num) == av * num) by (nonlinear_arith)
        requires
            av == abs(v),
            num >= 0,
    ;
    assert(q <= av) by (nonlinear_arith)
        requires
            q * den <= av * num,
            0 <= num < den,
            q >= 0,
            av >= 0,
    ;
}

/// One axis of the wall checks.
fn border_axis_exec(p: i64, v: i64, half: i64, radius: i64, num: i64, den: i64) -> (r: (i64, i64))
    requires
        -MOVED_COORD_LIMIT <= p <= MOVED_COORD_LIMIT,
        -VELOCITY_LIMIT <= v <= VELOCITY_LIMIT,
        0 <= half <= 0x4000_0000,
        1 <= radius <= 0x10_0000,
        0 <= num < den <= 0x1_0000,
    ensures
        r.0 == border_axis(p as int, v as int, half as int, radius as int, num as int, den as int).0,
        r.1 == border_axis(p as int, v as int, half as int, radius as int, num as int, den as int).1,
        abs(r.1 as int) <= abs(v as int),
        -COORD_LIMIT <= r.0 <= COORD_LIMIT,
        half >= radius ==> radius - half <= r.0 <= half - radius,
{
    let hi = half - radius;
    let lo = radius - half;
    let mut pos = p;
    let mut vel = v;
    assert(abs(v * num) <= 0x8000_0000_0000) by (nonlinear_arith)
        requires
            -VELOCITY_LIMIT <= v <= VELOCITY_LIMIT,
            0 <= num <= 0x1_0000,
    ;
    if pos > hi {
        pos = hi;
        proof {
            lemma_reflect_bound(v as int, num as int, den as int);
        }
        vel = -(div_toward_zero(vel as i128 * num as i128, den as i128) as i64);
    }
    assert(abs(vel * num) <= 0x8000_0000_0000) by (nonlinear_arith)
        requires
            abs(vel as int) <= VELOCITY_LIMIT,
            0 <= num <= 0x1_0000,
    ;
    if pos < lo {
        pos = lo;
        proof {
            lemma_reflect_bound(vel as int, num as int, den as int);
        }
        vel = -(div_toward_zero(vel as i128 * num as i128, den as i128) as i64);
    }
    (pos, vel)
}

/// Detects a particle outside of the viewport, moves it back inside and
/// reverses, with damping, the velocity component that carried it out. Both
/// axes are checked on every call.
pub fn border_collision(particle: &mut Particle, win_dimensions: &(i64, i64), config: &SimConfig)
    requires
        -MOVED_COORD_LIMIT <= old(particle).pos.x <= MOVED_COORD_LIMIT,
        -MOVED_COORD_LIMIT <= old(particle).pos.y <= MOVED_COORD_LIMIT,
        velocity_in_bounds(old(particle).velocity.vec),
        radius_in_bounds(old(particle).collider.radius as int),
        viewport_ok(*win_dimensions),
        config.wf(),
    ensures
        *final(particle) == border_spec(*old(particle), *win_dimensions, *config),
        final(particle).valid(),
        len_sq(final(particle).velocity.vec.x as int, final(particle).velocity.vec.y as int)
            <= len_sq(old(particle).velocity.vec.x as int, old(particle).velocity.vec.y as int),
        win_dimensions.0 / 2 >= old(particle).collider.radius ==> old(particle).collider.radius
            - win_dimensions.0 / 2 <= final(particle).pos.x <= win_dimensions.0 / 2 - old(
            particle,
        ).collider.radius,
        win_dimensions.1 / 2 >= old(particle).collider.radius ==> old(particle).collider.radius
            - win_dimensions.1 / 2 <= final(particle).pos.y <= win_dimensions.1 / 2 - old(
            particle,
        ).collider.radius,
{
    let radius = particle.collider.radius;
    let ax = border_axis_exec(
        particle.pos.x,
        particle.velocity.vec.x,
        win_dimensions.0 / 2,
        radius,
        config.damping_num,
        config.damping_den,
    );
    let ay = border_axis_exec(
        particle.pos.y,
        particle.velocity.vec.y,
        win_dimensions.1 / 2,
        radius,
        config.damping_num,
        config.damping_den,
    );
    let ghost v = particle.velocity.vec;
    proof {
        assert(ax.1 * ax.1 <= v.x * v.x && ay.1 * ay.1 <= v.y * v.y) by (nonlinear_arith)
            requires
                abs(ax.1 as int) <= abs(v.x as int),
                abs(ay.1 as int) <= abs(v.y as int),
        ;
    }
    particle.pos = Vector2 { x: ax.0, y: ay.0 };
    particle.velocity = Velocity { vec: Vector2 { x: ax.1, y: ay.1 } };
}

} // verus!
