//! The force kernel and the collision resolver: what one particle does to
//! another.
use vstd::prelude::*;
use crate::geometry::{
    Vector2, UNIT, len_sq, isqrt, isqrt_spec, lemma_isqrt_spec,
    div_trunc, lemma_div_trunc_bound, abs, div_toward_zero, lemma_abs_sq,
    lemma_rounded_pair, lemma_length_from_rounding, magnitude_at_most, magnitude_at_least,
};
use crate::particle::position_in_bounds;
use crate::chunk_map::radius_ok;

verus! {

/// Floor on the distance between two particles in the collision formula: a
/// tenth of a pixel.
pub const COLLISION_EPSILON: i64 = 102;

/// Relies on `rand::random`: a value drawn from the thread-local generator,
/// used to pick a direction for two coincident particles. Nothing is known of
/// the value.
pub assume_specification<T>[ rand::random::<T> ]() -> (r: T)
    where
        rand::distributions::Standard: rand::distributions::Distribution<T>,
;

/// Sub-units per raw unit in which a length is measured before a vector is
/// divided by it, so that the quotient is a unit vector up to a relative error
/// of `1 / FINE`.
pub const FINE: i64 = 0x10_0000;

/// The components, each in `[-1024, 1023]`, that the draws `a` and `b` give.
pub open spec fn draw_components(a: u32, b: u32) -> (int, int) {
    (a as int % 2048 - 1024, b as int % 2048 - 1024)
}

/// The direction that the two draws `a` and `b` give: the vector of
/// `draw_components(a, b)` scaled to length `UNIT`, its length measured in
/// units of `1 / FINE` and rounded up, each component rounded toward zero;
/// `(UNIT, 0)` where both components are zero.
pub open spec fn fallback_spec(a: u32, b: u32) -> Vector2 {
    let v = draw_components(a, b);
    if v.0 == 0 && v.1 == 0 {
        Vector2 { x: UNIT, y: 0 }
    } else {
        let c = isqrt_spec(len_sq(v.0, v.1) * (FINE * FINE)) + 1;
        Vector2 {
            x: div_trunc(v.0 * (UNIT * FINE), c) as i64,
            y: div_trunc(v.1 * (UNIT * FINE), c) as i64,
        }
    }
}

/// The direction used for two coincident particles, made from two draws:
/// each draw gives a signed component, and the vector is scaled to length
/// `UNIT` up to rounding.
pub fn fallback_direction(a: u32, b: u32) -> (r: Vector2)
    ensures
        r == fallback_spec(a, b),
        (UNIT - 2) * (UNIT - 2) <= len_sq(r.x as int, r.y as int) <= UNIT * UNIT,
        -UNIT <= r.x <= UNIT,
        -UNIT <= r.y <= UNIT,
{
    let vx = (a % 2048) as i64 - 1024;
    let vy = (b % 2048) as i64 - 1024;
    if vx == 0 && vy == 0 {
        return Vector2 { x: UNIT, y: 0 };
    }
    let v = Vector2 { x: vx, y: vy };
    let l = v.length_squared();
    assert(1 <= vx * vx + vy * vy <= 0x20_0000) by (nonlinear_arith)
        requires
            -1024 <= vx <= 1023,
            -1024 <= vy <= 1023,
            vx != 0 || vy != 0,
    ;
    let fine2: u128 = FINE as u128 * FINE as u128;
    let n = l * fine2;
    let d = isqrt(n);
    proof {
        lemma_isqrt_spec(n as int, d as int);
        assert(FINE <= d) by (nonlinear_arith)
            requires
                n == l * (FINE * FINE),
                l >= 1,
                n < (d + 1) * (d + 1),
                d >= 0,
        ;
        assert(d <= 0x1000_0000_0000) by (nonlinear_arith)
            requires
                d * d <= n,
                n <= 0x20_0000 * (FINE * FINE),
                d >= 0,
        ;
    }
    let c = d as i128 + 1;
    let scale: i128 = 0x4000_0000;
    assert(scale == UNIT * FINE);
    let x = div_toward_zero(vx as i128 * scale, c);
    let y = div_toward_zero(vy as i128 * scale, c);
    proof {
        lemma_div_trunc_bound(vx * scale, c as int);
        lemma_div_trunc_bound(vy * scale, c as int);
        assert(abs(vx * scale) == abs(vx as int) * scale && abs(vy * scale) == abs(vy as int) * scale)
            by (nonlinear_arith)
            requires
                scale > 0,
        ;
        lemma_rounded_pair(x as int, y as int, vx as int, vy as int, c as int, scale as int);
        let ls = len_sq(x as int, y as int);
        assert(ls >= 0) by (nonlinear_arith)
            requires
                ls == x * x + y * y,
        ;
        let u = UNIT as int;
        let lf = l * (FINE * FINE);
        assert(ls * (c * c) <= l * (scale * scale));
        assert(l * (scale * scale) == lf * (u * u)) by (nonlinear_arith)
            requires
                scale == u * FINE,
                lf == l * (FINE * FINE),
        ;
        assert(ls <= u * u) by (nonlinear_arith)
            requires
                ls * (c * c) <= lf * (u * u),
                lf < c * c,
                ls >= 0,
                u > 0,
        ;
        let ax = abs(x as int);
        let ay = abs(y as int);
        let p = (ax + 1) * (ax + 1) + (ay + 1) * (ay + 1);
        assert(p >= u * u - 3) by (nonlinear_arith)
            requires
                p * (c * c) >= lf * (u * u),
                (c - 1) * (c - 1) <= lf,
                c >= FINE + 1,
                u == UNIT,
                p >= 0,
        ;
        lemma_abs_sq(x as int);
        lemma_abs_sq(y as int);
        lemma_length_from_rounding(ax, ay, u);
        assert(ax <= u && ay <= u) by (nonlinear_arith)
            requires
                ax * ax + ay * ay <= u * u,
                ax >= 0,
                ay >= 0,
                u > 0,
        ;
    }
    Vector2 { x: x as i64, y: y as i64 }
}

/// The distance whose square is `l`, in units of `1 / FINE`, rounded down.
pub open spec fn fine_distance(l: int) -> int {
    isqrt_spec(l * (FINE * FINE))
}

/// How far the distance whose square is `l` falls short of the smoothing
/// radius, in units of `1 / FINE`.
pub open spec fn fine_gap(l: int, radius: int) -> int {
    radius * FINE - fine_distance(l)
}

/// The dispersion force that a particle at `p2` exerts on one at `p1`, in
/// raw units per second squared. Beyond the smoothing radius it is zero.
/// Within it, it is the unit vector from `p2` to `p1` scaled by
/// `(radius - d)^2` for the distance `d`, in pixel terms: raw, the scale is
/// `(radius - d)^2 / UNIT`, which is `fine_gap^2 / (FINE^2 * UNIT)`. Each
/// component is rounded toward zero. Where the two coincide, the direction
/// `dir`, of length about `UNIT`, stands for the unit vector.
pub open spec fn force_spec(p1: Vector2, p2: Vector2, radius: int, dir: Vector2) -> (int, int) {
    let dx = p1.x - p2.x;
    let dy = p1.y - p2.y;
    let l = len_sq(dx, dy);
    if l > radius * radius {
        (0, 0)
    } else if l == 0 {
        (
            div_trunc(dir.x * (radius * radius), UNIT * UNIT),
            div_trunc(dir.y * (radius * radius), UNIT * UNIT),
        )
    } else {
        let d = fine_distance(l);
        let g = fine_gap(l, radius);
        (div_trunc(dx * (g * g), d * (FINE * UNIT)), div_trunc(dy * (g * g), d * (FINE * UNIT)))
    }
}

/// From a bound on a rounded vector scaled by `g / (d * FINE * UNIT)`, where
/// `d` is the rounded-down fine length: its length is at most
/// `g / (FINE^2 * UNIT)` times `1 + 1 / FINE`.
proof fn lemma_fine_upper(ls: int, l: int, d: int, f: int, u: int, g: int)
    requires
        ls >= 0,
        g >= 0,
        f >= 1,
        u >= 1,
        d >= f,
        ls * ((d * (f * u)) * (d * (f * u))) <= l * (g * g),
        l * (f * f) < (d + 1) * (d + 1),
    ensures
        ls * ((f * f * f * u) * (f * f * f * u)) <= (g * (f + 1)) * (g * (f + 1)),
{
    let x = ls * ((f * u) * (f * u));
    let g2 = g * g;
    assert(x * (d * d) <= l * g2) by (nonlinear_arith)
        requires
            ls * ((d * (f * u)) * (d * (f * u))) <= l * (g * g),
            x == ls * ((f * u) * (f * u)),
            g2 == g * g,
    ;
    assert(x * (d * d) * (f * f) <= (d + 1) * (d + 1) * g2) by (nonlinear_arith)
        requires
            x * (d * d) <= l * g2,
            l * (f * f) < (d + 1) * (d + 1),
            g2 >= 0,
            f >= 1,
    ;
    assert((d + 1) * f <= d * (f + 1)) by (nonlinear_arith)
        requires
            d >= f,
    ;
    assert((d + 1) * (d + 1) * (f * f) <= (d * d) * ((f + 1) * (f + 1))) by (nonlinear_arith)
        requires
            0 <= (d + 1) * f <= d * (f + 1),
    ;
    assert(x * (f * f) * (f * f) * (d * d) <= (f + 1) * (f + 1) * g2 * (d * d)) by (nonlinear_arith)
        requires
            x * (d * d) * (f * f) <= (d + 1) * (d + 1) * g2,
            (d + 1) * (d + 1) * (f * f) <= (d * d) * ((f + 1) * (f + 1)),
            g2 >= 0,
            f >= 1,
    ;
    assert(x * (f * f) * (f * f) <= (f + 1) * (f + 1) * g2) by (nonlinear_arith)
        requires
            x * (f * f) * (f * f) * (d * d) <= (f + 1) * (f + 1) * g2 * (d * d),
            d >= 1,
    ;
    assert(ls * ((f * f * f * u) * (f * f * f * u)) == x * (f * f) * (f * f)) by (nonlinear_arith)
        requires
            x == ls * ((f * u) * (f * u)),
    ;
    assert((g * (f + 1)) * (g * (f + 1)) == (f + 1) * (f + 1) * g2) by (nonlinear_arith)
        requires
            g2 == g * g,
    ;
}

/// From a bound on a rounded vector scaled by `g / (d * FINE * UNIT)`, where
/// `d` is the rounded-down fine length: within one unit per component it has
/// length at least `g / (FINE^2 * UNIT)`.
proof fn lemma_fine_lower(p: int, l: int, d: int, f: int, u: int, g: int)
    requires
        p >= 0,
        g >= 0,
        d >= 1,
        f >= 1,
        u >= 1,
        p * ((d * (f * u)) * (d * (f * u))) >= l * (g * g),
        d * d <= l * (f * f),
    ensures
        p * ((f * f * u) * (f * f * u)) >= g * g,
{
    let y = p * ((f * u) * (f * u));
    let g2 = g * g;
    assert(y * (d * d) >= l * g2) by (nonlinear_arith)
        requires
            p * ((d * (f * u)) * (d * (f * u))) >= l * (g * g),
            y == p * ((f * u) * (f * u)),
            g2 == g * g,
    ;
    assert(y * (f * f) * (d * d) >= g2 * (d * d)) by (nonlinear_arith)
        requires
            y * (d * d) >= l * g2,
            d * d <= l * (f * f),
            g2 >= 0,
            f >= 1,
    ;
    assert(y * (f * f) >= g2) by (nonlinear_arith)
        requires
            y * (f * f) * (d * d) >= g2 * (d * d),
            d >= 1,
    ;
    assert(p * ((f * f * u) * (f * f * u)) == y * (f * f)) by (nonlinear_arith)
        requires
            y == p * ((f * u) * (f * u)),
    ;
}

/// The force that a particle at `pos2` exerts on one at `pos1`, with `dir`
/// standing for the unit vector where the two coincide. Within the
/// smoothing radius its length is `(radius - d)^2 / UNIT`, that is
/// `fine_gap^2 / (FINE^2 * UNIT)`, up to rounding: at most that times
/// `1 + 1 / FINE`, and at least that less `sqrt(2)`.
pub fn force_with_fallback(pos1: Vector2, pos2: Vector2, smoothing_radius: i64, dir: Vector2) -> (r:
    Vector2)
    requires
        position_in_bounds(pos1),
        position_in_bounds(pos2),
        radius_ok(smoothing_radius as int),
        -UNIT <= dir.x <= UNIT,
        -UNIT <= dir.y <= UNIT,
    ensures
        r.x == force_spec(pos1, pos2, smoothing_radius as int, dir).0,
        r.y == force_spec(pos1, pos2, smoothing_radius as int, dir).1,
        len_sq(pos1.x - pos2.x, pos1.y - pos2.y) > smoothing_radius * smoothing_radius ==> r.x == 0
            && r.y == 0,
        ({
            let l = len_sq(pos1.x - pos2.x, pos1.y - pos2.y);
            let g = fine_gap(l, smoothing_radius as int);
            0 < l <= smoothing_radius * smoothing_radius ==> {
                &&& magnitude_at_most(r, g * g * (FINE + 1), FINE * FINE * FINE * UNIT)
                &&& magnitude_at_least(r, g * g, FINE * FINE * UNIT)
                &&& abs(r.x as int) * (FINE * FINE * UNIT) <= g * g
                &&& abs(r.y as int) * (FINE * FINE * UNIT) <= g * g
            }
        }),
        len_sq(pos1.x - pos2.x, pos1.y - pos2.y) == 0 ==> {
            let rr = smoothing_radius * smoothing_radius;
            &&& len_sq(r.x as int, r.y as int) * ((UNIT * UNIT) * (UNIT * UNIT)) <= len_sq(
                dir.x as int,
                dir.y as int,
            ) * (rr * rr)
            &&& ((abs(r.x as int) + 1) * (abs(r.x as int) + 1) + (abs(r.y as int) + 1) * (abs(
                r.y as int,
            ) + 1)) * ((UNIT * UNIT) * (UNIT * UNIT)) >= len_sq(dir.x as int, dir.y as int) * (rr
                * rr)
        },
        abs(r.x as int) * UNIT <= smoothing_radius * smoothing_radius,
        abs(r.y as int) * UNIT <= smoothing_radius * smoothing_radius,
{
    let dx = pos1.x as i128 - pos2.x as i128;
    let dy = pos1.y as i128 - pos2.y as i128;
    let radius = smoothing_radius as i128;
    let diff = Vector2 { x: pos1.x - pos2.x, y: pos1.y - pos2.y };
    let l = diff.length_squared();
    assert(0 < radius * radius <= 0x1_0000_0000_0000) by (nonlinear_arith)
        requires
            1 <= radius <= 0x100_0000,
    ;
    let r2 = (radius * radius) as u128;
    if l > r2 {
        return Vector2 { x: 0, y: 0 };
    }
    if l == 0 {
        let scale: i128 = 0x10_0000;
        assert(scale == UNIT * UNIT);
        let rr = radius * radius;
        assert(-0x400_0000_0000_0000 <= dir.x * rr <= 0x400_0000_0000_0000) by (nonlinear_arith)
            requires
                -UNIT <= dir.x <= UNIT,
                0 < rr <= 0x1_0000_0000_0000,
        ;
        assert(-0x400_0000_0000_0000 <= dir.y * rr <= 0x400_0000_0000_0000) by (nonlinear_arith)
            requires
                -UNIT <= dir.y <= UNIT,
                0 < rr <= 0x1_0000_0000_0000,
        ;
        let fx = div_toward_zero(dir.x as i128 * rr, scale);
        let fy = div_toward_zero(dir.y as i128 * rr, scale);
        proof {
            lemma_div_trunc_bound(dir.x * rr, scale as int);
            lemma_div_trunc_bound(dir.y * rr, scale as int);
            assert(abs(dir.x * rr) == abs(dir.x as int) * rr && abs(dir.y * rr) == abs(dir.y as int)
                * rr) by (nonlinear_arith)
                requires
                    rr > 0,
            ;
            lemma_rounded_pair(fx as int, fy as int, dir.x as int, dir.y as int, scale as int, rr as int);
            assert(abs(fx as int) * UNIT <= rr && abs(fy as int) * UNIT <= rr) by (nonlinear_arith)
                requires
                    abs(fx as int) * scale <= abs(dir.x as int) * rr,
                    abs(fy as int) * scale <= abs(dir.y as int) * rr,
                    abs(dir.x as int) <= UNIT,
                    abs(dir.y as int) <= UNIT,
                    scale == UNIT * UNIT,
                    rr > 0,
            ;
        }
        return Vector2 { x: fx as i64, y: fy as i64 };
    }
    let fine2: u128 = 0x100_0000_0000;
    assert(fine2 == FINE * FINE);
    assert(l * fine2 <= 0x1_0000_0000_0000 * 0x100_0000_0000) by (nonlinear_arith)
        requires
            l <= radius * radius,
            radius * radius <= 0x1_0000_0000_0000,
            fine2 == 0x100_0000_0000,
    ;
    let n = l * fine2;
    let d = isqrt(n) as i128;
    let fine = FINE as i128;
    proof {
        lemma_isqrt_spec(n as int, d as int);
        assert(fine <= d <= radius * fine) by (nonlinear_arith)
            requires
                d * d <= n,
                n < (d + 1) * (d + 1),
                n == l * (fine * fine),
                1 <= l <= radius * radius,
                d >= 0,
                fine >= 1,
                radius >= 1,
        ;
        assert(abs(dx as int) * fine <= d && abs(dy as int) * fine <= d) by (nonlinear_arith)
            requires
                dx * dx + dy * dy == l,
                n == l * (fine * fine),
                n < (d + 1) * (d + 1),
                d >= 0,
                fine >= 1,
        ;
    }
    let g = radius * fine - d;
    assert(0 <= g * g <= 0x100_0000_0000_0000_0000_0000) by (nonlinear_arith)
        requires
            0 <= g <= radius * fine,
            radius <= 0x100_0000,
            fine == 0x10_0000,
    ;
    let gg = g * g;
    let unit_fine: i128 = 0x4000_0000;
    assert(unit_fine == FINE * UNIT);
    assert(d * unit_fine <= 0x1000_0000_0000 * 0x4000_0000) by (nonlinear_arith)
        requires
            0 <= d <= radius * fine,
            radius <= 0x100_0000,
            fine == 0x10_0000,
            unit_fine == 0x4000_0000,
    ;
    let q = d * unit_fine;
    assert(abs(dx * gg) == abs(dx as int) * gg && abs(dy * gg) == abs(dy as int) * gg
        && abs(dx as int) * gg <= 0x100_0000 * 0x100_0000_0000_0000_0000_0000 && abs(dy as int) * gg
        <= 0x100_0000 * 0x100_0000_0000_0000_0000_0000) by (nonlinear_arith)
        requires
            gg >= 0,
            gg <= 0x100_0000_0000_0000_0000_0000,
            abs(dx as int) * fine <= d,
            abs(dy as int) * fine <= d,
            d <= radius * fine,
            radius <= 0x100_0000,
            fine >= 1,
    ;
    let fx = div_toward_zero(dx * gg, q);
    let fy = div_toward_zero(dy * gg, q);
    proof {
        lemma_div_trunc_bound(dx * gg, q as int);
        lemma_div_trunc_bound(dy * gg, q as int);
        lemma_rounded_pair(fx as int, fy as int, dx as int, dy as int, q as int, gg as int);
        let ls = len_sq(fx as int, fy as int);
        assert(ls >= 0) by (nonlinear_arith)
            requires
                ls == fx * fx + fy * fy,
        ;
        let u = UNIT as int;
        let f = fine as int;
        assert(q == d * (f * u));
        lemma_fine_upper(ls, l as int, d as int, f, u, gg as int);
        let ax = abs(fx as int);
        let ay = abs(fy as int);
        let p = (ax + 1) * (ax + 1) + (ay + 1) * (ay + 1);
        assert(p >= 0) by (nonlinear_arith)
            requires
                p == (ax + 1) * (ax + 1) + (ay + 1) * (ay + 1),
        ;
        lemma_fine_lower(p, l as int, d as int, f, u, gg as int);
        assert(ax * (f * f * u) <= gg && ay * (f * f * u) <= gg) by (nonlinear_arith)
            requires
                ax * q <= abs(dx as int) * gg,
                ay * q <= abs(dy as int) * gg,
                abs(dx as int) * f <= d,
                abs(dy as int) * f <= d,
                q == d * (f * u),
                d >= 1,
                f >= 1,
                gg >= 0,
                ax >= 0,
                ay >= 0,
        ;
        assert(ax * u <= radius * radius && ay * u <= radius * radius) by (nonlinear_arith)
            requires
                ax * (f * f * u) <= gg,
                ay * (f * f * u) <= gg,
                gg == g * g,
                0 <= g <= radius * f,
                f >= 1,
        ;
        assert(fine_distance(l as int) == d);
        assert(fine_gap(l as int, radius as int) == g);
    }
    Vector2 { x: fx as i64, y: fy as i64 }
}

/// Returns the force generated by the proximity of two particles: zero
/// beyond the smoothing radius, along the unit vector from `pos2` to `pos1`
/// within it, of length `(radius - d)^2` in pixel terms up to rounding. Where
/// the two coincide, a random direction is used, and the length is
/// `radius^2` in pixel terms, up to rounding.
pub fn calculate_force(pos1: Vector2, pos2: Vector2, smoothing_radius: i64) -> (r: Vector2)
    requires
        position_in_bounds(pos1),
        position_in_bounds(pos2),
        radius_ok(smoothing_radius as int),
    ensures
        len_sq(pos1.x - pos2.x, pos1.y - pos2.y) > smoothing_radius * smoothing_radius ==> r.x == 0
            && r.y == 0,
        0 < len_sq(pos1.x - pos2.x, pos1.y - pos2.y) <= smoothing_radius * smoothing_radius ==> r.x
            == force_spec(pos1, pos2, smoothing_radius as int, Vector2 { x: 0, y: 0 }).0 && r.y
            == force_spec(pos1, pos2, smoothing_radius as int, Vector2 { x: 0, y: 0 }).1,
        ({
            let l = len_sq(pos1.x - pos2.x, pos1.y - pos2.y);
            let g = fine_gap(l, smoothing_radius as int);
            0 < l <= smoothing_radius * smoothing_radius ==> {
                &&& magnitude_at_most(r, g * g * (FINE + 1), FINE * FINE * FINE * UNIT)
                &&& magnitude_at_least(r, g * g, FINE * FINE * UNIT)
            }
        }),
        len_sq(pos1.x - pos2.x, pos1.y - pos2.y) == 0 ==> {
            &&& exists|a: u32, b: u32|
                r.x == force_spec(pos1, pos2, smoothing_radius as int, #[trigger] fallback_spec(a, b)).0
                    && r.y == force_spec(pos1, pos2, smoothing_radius as int, fallback_spec(a, b)).1
            &&& magnitude_at_most(r, smoothing_radius as int * smoothing_radius as int, UNIT as int)
            &&& magnitude_at_least(r, (UNIT - 2) * (smoothing_radius * smoothing_radius), UNIT * UNIT)
        },
        abs(r.x as int) * UNIT <= smoothing_radius * smoothing_radius,
        abs(r.y as int) * UNIT <= smoothing_radius * smoothing_radius,
{
    if pos1.x == pos2.x && pos1.y == pos2.y {
        let a: u32 = rand::random::<u32>();
        let b: u32 = rand::random::<u32>();
        let dir = fallback_direction(a, b);
        let r = force_with_fallback(pos1, pos2, smoothing_radius, dir);
        proof {
            assert(len_sq(pos1.x - pos2.x, pos1.y - pos2.y) == 0) by (nonlinear_arith)
                requires
                    pos1.x == pos2.x,
                    pos1.y == pos2.y,
            ;
            let rr = smoothing_radius * smoothing_radius;
            let u = UNIT as int;
            let ld = len_sq(dir.x as int, dir.y as int);
            let ls = len_sq(r.x as int, r.y as int);
            let ax = abs(r.x as int);
            let ay = abs(r.y as int);
            let p = (ax + 1) * (ax + 1) + (ay + 1) * (ay + 1);
            assert(ls >= 0) by (nonlinear_arith)
                requires
                    ls == r.x * r.x + r.y * r.y,
            ;
            assert(ls * (u * u) <= rr * rr) by (nonlinear_arith)
                requires
                    ls * ((u * u) * (u * u)) <= ld * (rr * rr),
                    ld <= u * u,
                    u > 0,
                    ls >= 0,
            ;
            assert(p * ((u * u) * (u * u)) >= ((u - 2) * rr) * ((u - 2) * rr)) by (nonlinear_arith)
                requires
                    p * ((u * u) * (u * u)) >= ld * (rr * rr),
                    ld >= (u - 2) * (u - 2),
            ;
        }
        r
    } else {
        assert(len_sq(pos1.x - pos2.x, pos1.y - pos2.y) > 0) by (nonlinear_arith)
            requires
                pos1.x != pos2.x || pos1.y != pos2.y,
        ;
        force_with_fallback(pos1, pos2, smoothing_radius, Vector2 { x: 0, y: 0 })
    }
}

} // verus!
