//! Elastic collisions between particles and the speed limit applied after
//! them.
use vstd::prelude::*;
use crate::chunk_map::ChunkEntry;
use crate::force::COLLISION_EPSILON;
use crate::geometry::{
    Vector2, VELOCITY_LIMIT, dot, len_sq, abs, div_trunc, div_toward_zero, ceil_sqrt,
    ceil_sqrt_spec, lemma_div_trunc_bound, lemma_abs_sq,
};
use crate::particle::{position_in_bounds, velocity_in_bounds, radius_in_bounds, RADIUS_LIMIT};

verus! {

/// `v` limited to the velocity component bounds.
pub open spec fn saturate(v: int) -> int {
    if v > VELOCITY_LIMIT {
        VELOCITY_LIMIT as int
    } else if v < -VELOCITY_LIMIT {
        -VELOCITY_LIMIT
    } else {
        v
    }
}

/// `v` limited to the velocity component bounds.
pub fn saturate_component(v: i128) -> (r: i64)
    ensures
        r == saturate(v as int),
        -VELOCITY_LIMIT <= r <= VELOCITY_LIMIT,
{
    if v > VELOCITY_LIMIT as i128 {
        VELOCITY_LIMIT
    } else if v < -(VELOCITY_LIMIT as i128) {
        -VELOCITY_LIMIT
    } else {
        v as i64
    }
}

/// A particle at `pos` moving at `vel` with the given radius overlaps the
/// snapshot `other`, the distance between their centres, floored at
/// `COLLISION_EPSILON`, being below half the sum of their radii, and the two
/// are approaching each other.
pub open spec fn collides(pos: Vector2, vel: Vector2, radius: int, other: ChunkEntry) -> bool {
    let dx = pos.x - other.pos.x;
    let dy = pos.y - other.pos.y;
    let dvx = vel.x - other.velocity.x;
    let dvy = vel.y - other.velocity.y;
    let s = radius + other.radius;
    &&& 4 * len_sq(dx, dy) < s * s
    &&& 2 * COLLISION_EPSILON < s
    &&& dot(dx, dy, -dvx, -dvy) > 0
}

/// The velocity after a collision with `other`, before the bounds are
/// applied: the elastic update along the line of centres, with each squared
/// radius standing for a mass, `v - (2 m2 / (m1 + m2)) (<dv, dp> / dist^2) dp`.
pub open spec fn collision_spec(pos: Vector2, vel: Vector2, radius: int, other: ChunkEntry) -> (
    int,
    int,
) {
    if !collides(pos, vel, radius, other) {
        (vel.x as int, vel.y as int)
    } else {
        let dx = pos.x - other.pos.x;
        let dy = pos.y - other.pos.y;
        let dvx = vel.x - other.velocity.x;
        let dvy = vel.y - other.velocity.y;
        let m1 = radius * radius;
        let m2 = other.radius * other.radius;
        let l = len_sq(dx, dy);
        let dist2 = if l < COLLISION_EPSILON * COLLISION_EPSILON {
            COLLISION_EPSILON * COLLISION_EPSILON
        } else {
            l
        };
        let k = div_trunc(2 * m2 * dot(dvx, dvy, dx, dy), m1 + m2);
        (vel.x - div_trunc(k * dx, dist2), vel.y - div_trunc(k * dy, dist2))
    }
}

/// The velocity after a collision with `other`, within the component bounds.
pub open spec fn collision_result(pos: Vector2, vel: Vector2, radius: int, other: ChunkEntry) -> Vector2 {
    let c = collision_spec(pos, vel, radius, other);
    Vector2 { x: saturate(c.0) as i64, y: saturate(c.1) as i64 }
}

/// The velocity of a particle at `pos` moving at `vel` after it meets the
/// snapshot `other`: unchanged unless the two overlap and approach, else
/// the elastic-collision update, kept within the component bounds.
pub fn resolve_collision(pos: Vector2, vel: Vector2, radius: i64, other: &ChunkEntry) -> (r: Vector2)
    requires
        position_in_bounds(pos),
        velocity_in_bounds(vel),
        radius_in_bounds(radius as int),
        other.valid(),
    ensures
        r == collision_result(pos, vel, radius as int, *other),
        velocity_in_bounds(r),
{
    let dx = pos.x as i128 - other.pos.x as i128;
    let dy = pos.y as i128 - other.pos.y as i128;
    let dvx = vel.x as i128 - other.velocity.x as i128;
    let dvy = vel.y as i128 - other.velocity.y as i128;
    assert(dx * dx <= 0x10_0000_0000_0000_0000 && dy * dy <= 0x10_0000_0000_0000_0000)
        by (nonlinear_arith)
        requires
            -0x1_0000_0000 <= dx <= 0x1_0000_0000,
            -0x1_0000_0000 <= dy <= 0x1_0000_0000,
    ;
    assert(0 <= dx * dx && 0 <= dy * dy) by (nonlinear_arith);
    let l = dx * dx + dy * dy;
    let s = radius as i128 + other.radius as i128;
    assert(s * s <= 0x400_0000_0000) by (nonlinear_arith)
        requires
            0 < s <= 2 * RADIUS_LIMIT,
    ;
    proof {
        assert(abs(dx * dvx) <= 0x2_0000_0000_0000_0000 && abs(dy * dvy) <= 0x2_0000_0000_0000_0000)
            by (nonlinear_arith)
            requires
                -0x1_0000_0000 <= dx <= 0x1_0000_0000,
                -0x1_0000_0000 <= dy <= 0x1_0000_0000,
                -0x1_0000_0000 <= dvx <= 0x1_0000_0000,
                -0x1_0000_0000 <= dvy <= 0x1_0000_0000,
        ;
    }
    let approach = -(dx * dvx + dy * dvy);
    if !(4 * l < s * s && 2 * (COLLISION_EPSILON as i128) < s && approach > 0) {
        proof {
            assert(dot(dx as int, dy as int, -dvx, -dvy) == approach) by (nonlinear_arith)
                requires
                    approach == -(dx * dvx + dy * dvy),
            ;
        }
        return vel;
    }
    proof {
        assert(dot(dx as int, dy as int, -dvx, -dvy) == approach) by (nonlinear_arith)
            requires
                approach == -(dx * dvx + dy * dvy),
        ;
        assert(-0x10_0000 < dx < 0x10_0000 && -0x10_0000 < dy < 0x10_0000) by (nonlinear_arith)
            requires
                4 * (dx * dx + dy * dy) < s * s,
                0 < s <= 2 * RADIUS_LIMIT,
        ;
    }
    let eps2 = (COLLISION_EPSILON as i128) * (COLLISION_EPSILON as i128);
    let dist2 = if l < eps2 { eps2 } else { l };
    let r1 = radius as i128;
    let r2 = other.radius as i128;
    assert(1 <= r1 * r1 <= 0x100_0000_0000 && 1 <= r2 * r2 <= 0x100_0000_0000) by (nonlinear_arith)
        requires
            1 <= r1 <= RADIUS_LIMIT,
            1 <= r2 <= RADIUS_LIMIT,
    ;
    let m1 = r1 * r1;
    let m2 = r2 * r2;
    let dotv = dvx * dx + dvy * dy;
    assert(abs(dotv as int) <= 0x40_0000_0000_0000) by (nonlinear_arith)
        requires
            -0x10_0000 < dx < 0x10_0000,
            -0x10_0000 < dy < 0x10_0000,
            -0x1_0000_0000 <= dvx <= 0x1_0000_0000,
            -0x1_0000_0000 <= dvy <= 0x1_0000_0000,
            dotv == dvx * dx + dvy * dy,
    ;
    assert(abs(2 * m2 * dotv) <= 0x8000_0000_0000_0000_0000_0000) by (nonlinear_arith)
        requires
            abs(dotv as int) <= 0x40_0000_0000_0000,
            1 <= m2 <= 0x100_0000_0000,
    ;
    let k = div_toward_zero(2 * m2 * dotv, m1 + m2);
    proof {
        lemma_div_trunc_bound(2 * m2 * dotv, m1 + m2);
        assert(abs(k * dx) <= 0x8_0000_0000_0000_0000_0000_0000_0000 && abs(k * dy)
            <= 0x8_0000_0000_0000_0000_0000_0000_0000) by (nonlinear_arith)
            requires
                abs(k as int) <= 0x8000_0000_0000_0000_0000_0000,
                -0x10_0000 < dx < 0x10_0000,
                -0x10_0000 < dy < 0x10_0000,
        ;
        assert(dot(dvx as int, dvy as int, dx as int, dy as int) == dotv);
    }
    let ix = div_toward_zero(k * dx, dist2);
    let iy = div_toward_zero(k * dy, dist2);
    proof {
        lemma_div_trunc_bound(k * dx, dist2 as int);
        lemma_div_trunc_bound(k * dy, dist2 as int);
    }
    let nx = saturate_component(vel.x as i128 - ix);
    let ny = saturate_component(vel.y as i128 - iy);
    Vector2 { x: nx, y: ny }
}

/// `v` rescaled, if its length exceeds `max`, to length at most `max`: each
/// component is multiplied by `max` and divided by the least integer not
/// below the length.
pub open spec fn clamp_speed_spec(v: Vector2, max: int) -> Vector2 {
    let l = len_sq(v.x as int, v.y as int);
    if l <= max * max {
        v
    } else {
        let c = ceil_sqrt_spec(l);
        Vector2 { x: div_trunc(v.x * max, c) as i64, y: div_trunc(v.y * max, c) as i64 }
    }
}

/// Limits the speed of `v` to `max` by uniform rescaling.
pub fn clamp_speed(v: Vector2, max: i64) -> (r: Vector2)
    requires
        velocity_in_bounds(v),
        0 <= max <= VELOCITY_LIMIT,
    ensures
        r == clamp_speed_spec(v, max as int),
        len_sq(r.x as int, r.y as int) <= max * max,
        velocity_in_bounds(r),
{
    let l = v.length_squared();
    let m = max as i128;
    assert(m * m <= 0x4000_0000_0000_0000) by (nonlinear_arith)
        requires
            0 <= m <= VELOCITY_LIMIT,
    ;
    assert(l <= 0x8000_0000_0000_0000) by (nonlinear_arith)
        requires
            l == v.x * v.x + v.y * v.y,
            -VELOCITY_LIMIT <= v.x <= VELOCITY_LIMIT,
            -VELOCITY_LIMIT <= v.y <= VELOCITY_LIMIT,
    ;
    if l <= (m * m) as u128 {
        return v;
    }
    let c = ceil_sqrt(l);
    let ci = c as i128;
    assert(ci > 0) by (nonlinear_arith)
        requires
            l <= ci * ci,
            l > m * m,
            m >= 0,
            ci >= 0,
    ;
    assert(abs(v.x * m) <= 0x4000_0000_0000_0000 && abs(v.y * m) <= 0x4000_0000_0000_0000)
        by (nonlinear_arith)
        requires
            0 <= m <= VELOCITY_LIMIT,
            -VELOCITY_LIMIT <= v.x <= VELOCITY_LIMIT,
            -VELOCITY_LIMIT <= v.y <= VELOCITY_LIMIT,
    ;
    let x = div_toward_zero(v.x as i128 * m, ci);
    let y = div_toward_zero(v.y as i128 * m, ci);
    proof {
        lemma_div_trunc_bound(v.x * m, ci as int);
        lemma_div_trunc_bound(v.y * m, ci as int);
        let ax = abs(x as int);
        let ay = abs(y as int);
        let bx = abs(v.x as int);
        let by_ = abs(v.y as int);
        lemma_abs_sq(v.x as int);
        lemma_abs_sq(v.y as int);
        lemma_abs_sq(x as int);
        lemma_abs_sq(y as int);
        assert(ax * ci <= bx * m && ay * ci <= by_ * m) by (nonlinear_arith)
            requires
                ax * ci <= abs(v.x * m),
                ay * ci <= abs(v.y * m),
                bx == abs(v.x as int),
                by_ == abs(v.y as int),
                m >= 0,
        ;
        assert(ax * ax + ay * ay <= m * m) by (nonlinear_arith)
            requires
                0 <= ax * ci <= bx * m,
                0 <= ay * ci <= by_ * m,
                ax >= 0,
                ay >= 0,
                bx * bx + by_ * by_ == l,
                l <= ci * ci,
                ci > 0,
                m >= 0,
        ;
        assert(len_sq(x as int, y as int) == ax * ax + ay * ay);
        assert(ax <= m && ay <= m) by (nonlinear_arith)
            requires
                ax * ax + ay * ay <= m * m,
                ax >= 0,
                ay >= 0,
                m >= 0,
        ;
    }
    Vector2 { x: x as i64, y: y as i64 }
}

/// Dividing a multiple of `c` by `c` gives the factor back exactly.
proof fn lemma_div_trunc_exact(a: int, c: int)
    requires
        c > 0,
    ensures
        div_trunc(a * c, c) == a,
{
    if a >= 0 {
        assert(a * c >= 0 && (a * c) / c == a) by (nonlinear_arith)
            requires
                a >= 0,
                c > 0,
        ;
    } else {
        assert(a * c < 0 && (-(a * c)) / c == -a) by (nonlinear_arith)
            requires
                a < 0,
                c > 0,
        ;
    }
}

/// Two particles of equal radius on one horizontal line, moving at the same
/// vertical speed, that overlap and approach each other, at least
/// `COLLISION_EPSILON` apart: the collision makes each take the other's
/// horizontal velocity, so the two exchange velocities along the line of
/// centres and their total momentum is kept.
pub proof fn lemma_head_on_exchange(a: ChunkEntry, b: ChunkEntry)
    requires
        a.valid(),
        b.valid(),
        a.radius == b.radius,
        a.pos.y == b.pos.y,
        a.velocity.y == b.velocity.y,
        abs(a.pos.x - b.pos.x) >= COLLISION_EPSILON,
        collides(a.pos, a.velocity, a.radius as int, b),
    ensures
        collides(b.pos, b.velocity, b.radius as int, a),
        collision_result(a.pos, a.velocity, a.radius as int, b).x == b.velocity.x,
        collision_result(a.pos, a.velocity, a.radius as int, b).y == a.velocity.y,
        collision_result(b.pos, b.velocity, b.radius as int, a).x == a.velocity.x,
        collision_result(b.pos, b.velocity, b.radius as int, a).y == b.velocity.y,
{
    lemma_exchange_one_way(a, b);
    let dx = a.pos.x - b.pos.x;
    let dvx = a.velocity.x - b.velocity.x;
    assert(dot(-dx, 0, dvx, 0) == dot(dx, 0, -dvx, 0)) by (nonlinear_arith);
    assert(len_sq(-dx, 0) == len_sq(dx, 0)) by (nonlinear_arith);
    lemma_exchange_one_way(b, a);
}

proof fn lemma_exchange_one_way(a: ChunkEntry, b: ChunkEntry)
    requires
        a.valid(),
        b.valid(),
        a.radius == b.radius,
        a.pos.y == b.pos.y,
        a.velocity.y == b.velocity.y,
        abs(a.pos.x - b.pos.x) >= COLLISION_EPSILON,
        collides(a.pos, a.velocity, a.radius as int, b),
    ensures
        collision_result(a.pos, a.velocity, a.radius as int, b).x == b.velocity.x,
        collision_result(a.pos, a.velocity, a.radius as int, b).y == a.velocity.y,
{
    let dx = a.pos.x - b.pos.x;
    let dvx = a.velocity.x - b.velocity.x;
    let m = a.radius * a.radius;
    assert(m > 0) by (nonlinear_arith)
        requires
            m == a.radius * a.radius,
            a.radius >= 1,
    ;
    let l = len_sq(dx, 0);
    assert(l == dx * dx) by (nonlinear_arith)
        requires
            l == len_sq(dx, 0),
    ;
    assert(l >= COLLISION_EPSILON * COLLISION_EPSILON) by (nonlinear_arith)
        requires
            l == dx * dx,
            abs(dx) >= COLLISION_EPSILON,
    ;
    let x = dot(dvx, 0, dx, 0);
    assert(x == dvx * dx) by (nonlinear_arith)
        requires
            x == dot(dvx, 0, dx, 0),
    ;
    assert(2 * m * x == x * (m + m)) by (nonlinear_arith);
    lemma_div_trunc_exact(x, m + m);
    let k = div_trunc(2 * m * x, m + m);
    assert(k == x);
    assert(k * dx == dvx * l) by (nonlinear_arith)
        requires
            k == dvx * dx,
            l == dx * dx,
    ;
    lemma_div_trunc_exact(dvx, l);
    assert(k * 0 == 0 * l) by (nonlinear_arith);
    lemma_div_trunc_exact(0, l);
    let c = collision_spec(a.pos, a.velocity, a.radius as int, b);
    assert(c.0 == a.velocity.x - dvx);
    assert(c.1 == a.velocity.y);
}

} // verus!
