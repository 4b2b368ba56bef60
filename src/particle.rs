//! The particle store's records.
use vstd::prelude::*;
use crate::geometry::{
    Vector2, UNIT, COORD_LIMIT, VELOCITY_LIMIT, isqrt, isqrt_spec, lemma_isqrt_spec, len_sq,
};

verus! {

/// Bound on a collider's radius.
pub const RADIUS_LIMIT: i64 = 0x10_0000;

/// A constant acceleration, in raw units per second squared.
#[derive(Clone, Copy, Debug)]
pub struct Gravity(pub Vector2);

impl Default for Gravity {
    /// 98 pixels per second squared, pointing down.
    fn default() -> (r: Gravity)
        ensures
            r.0.x == 0,
            r.0.y == -98 * UNIT,
    {
        Gravity(Vector2 { x: 0, y: -98 * UNIT })
    }
}

/// The circle that a particle occupies, by its radius.
#[derive(Clone, Copy, Debug, PartialEq, Eq, Structural)]
pub struct CircleCollider {
    pub radius: i64,
}

impl CircleCollider {
    /// A collider of the given radius.
    pub fn new(radius: i64) -> (r: CircleCollider)
        ensures
            r.radius == radius,
    {
        CircleCollider { radius }
    }
}

impl Default for CircleCollider {
    /// Half a pixel.
    fn default() -> (r: CircleCollider)
        ensures
            r.radius == UNIT / 2,
    {
        CircleCollider { radius: UNIT / 2 }
    }
}

/// A velocity in raw units per second.
#[derive(Clone, Copy, Debug, PartialEq, Eq, Structural)]
pub struct Velocity {
    pub vec: Vector2,
}

impl Velocity {
    /// The velocity with the given components.
    pub fn new(x: i64, y: i64) -> (r: Velocity)
        ensures
            r.vec.x == x,
            r.vec.y == y,
    {
        Velocity { vec: Vector2 { x, y } }
    }
}

impl Default for Velocity {
    /// At rest.
    fn default() -> (r: Velocity)
        ensures
            r.vec.x == 0,
            r.vec.y == 0,
    {
        Velocity { vec: Vector2 { x: 0, y: 0 } }
    }
}

/// One particle: where it is, how large it is and how it moves.
#[derive(Clone, Copy, Debug, PartialEq, Eq, Structural)]
pub struct Particle {
    pub pos: Vector2,
    pub collider: CircleCollider,
    pub velocity: Velocity,
}

impl Default for Particle {
    /// At rest at the origin, with the default collider.
    fn default() -> (r: Particle)
        ensures
            r.pos.x == 0,
            r.pos.y == 0,
            r.collider.radius == UNIT / 2,
            r.velocity.vec.x == 0,
            r.velocity.vec.y == 0,
    {
        Particle {
            pos: Vector2 { x: 0, y: 0 },
            collider: CircleCollider { radius: UNIT / 2 },
            velocity: Velocity { vec: Vector2 { x: 0, y: 0 } },
        }
    }
}

/// A position within the coordinate bounds.
pub open spec fn position_in_bounds(p: Vector2) -> bool {
    -COORD_LIMIT <= p.x <= COORD_LIMIT && -COORD_LIMIT <= p.y <= COORD_LIMIT
}

/// A velocity within the component bounds.
pub open spec fn velocity_in_bounds(v: Vector2) -> bool {
    -VELOCITY_LIMIT <= v.x <= VELOCITY_LIMIT && -VELOCITY_LIMIT <= v.y <= VELOCITY_LIMIT
}

/// A radius that a collider may have.
pub open spec fn radius_in_bounds(r: int) -> bool {
    1 <= r <= RADIUS_LIMIT
}

impl Particle {
    /// The particle's state is one that the simulation can advance: position
    /// and velocity within their bounds, and a positive radius.
    pub open spec fn valid(&self) -> bool {
        &&& position_in_bounds(self.pos)
        &&& velocity_in_bounds(self.velocity.vec)
        &&& radius_in_bounds(self.collider.radius as int)
    }

    /// The particle's speed, rounded down, for a renderer that colours
    /// particles by how fast they move.
    pub fn speed(&self) -> (r: u64)
        requires
            velocity_in_bounds(self.velocity.vec),
        ensures
            r == isqrt_spec(len_sq(self.velocity.vec.x as int, self.velocity.vec.y as int)),
    {
        let l = self.velocity.vec.length_squared();
        assert(l <= 0x8000_0000_0000_0000) by (nonlinear_arith)
            requires
                l == self.velocity.vec.x * self.velocity.vec.x + self.velocity.vec.y
                    * self.velocity.vec.y,
                -VELOCITY_LIMIT <= self.velocity.vec.x <= VELOCITY_LIMIT,
                -VELOCITY_LIMIT <= self.velocity.vec.y <= VELOCITY_LIMIT,
        ;
        let r = isqrt(l);
        proof {
            lemma_isqrt_spec(l as int, r as int);
        }
        r
    }
}

/// Every particle of the store can be advanced.
pub open spec fn all_valid(ps: Seq<Particle>) -> bool {
    forall|i: int| 0 <= i < ps.len() ==> #[trigger] ps[i].valid()
}

} // verus!
