//! The initial particle store: a lattice of particles at rest.
use vstd::prelude::*;
use crate::geometry::Vector2;
use crate::geometry::COORD_LIMIT;
use crate::particle::{CircleCollider, Particle, Velocity, all_valid, RADIUS_LIMIT};

verus! {

/// The `k`-th particle of a lattice of `columns` by `rows` particles of the
/// given diameter, row by row from the top: at rest, spaced one diameter
/// apart, with the lattice's middle column and row on the axes.
pub open spec fn lattice_at(k: int, columns: int, rows: int, diameter: int) -> Particle {
    let row = k / columns;
    let col = k % columns;
    Particle {
        pos: Vector2 {
            x: ((col - columns / 2) * diameter) as i64,
            y: ((rows / 2 - row) * diameter) as i64,
        },
        collider: CircleCollider { radius: (diameter / 2) as i64 },
        velocity: Velocity { vec: Vector2 { x: 0, y: 0 } },
    }
}

/// A lattice of `columns` by `rows` particles at rest, each of the given
/// diameter, touching its neighbours, centred on the origin.
pub fn initial_particles(columns: usize, rows: usize, particle_diameter: i64) -> (r: Vec<Particle>)
    requires
        1 <= columns,
        1 <= rows,
        columns * rows <= usize::MAX,
        2 <= particle_diameter <= 2 * RADIUS_LIMIT,
        (columns / 2) * particle_diameter <= COORD_LIMIT,
        (rows / 2) * particle_diameter <= COORD_LIMIT,
    ensures
        r@.len() == columns * rows,
        forall|k: int|
            0 <= k < r@.len() ==> #[trigger] r@[k] == lattice_at(
                k,
                columns as int,
                rows as int,
                particle_diameter as int,
            ),
        all_valid(r@),
{
    assert(columns <= 0x1_0000_0001 && rows <= 0x1_0000_0001) by (nonlinear_arith)
        requires
            (columns / 2) * particle_diameter <= COORD_LIMIT,
            (rows / 2) * particle_diameter <= COORD_LIMIT,
            particle_diameter >= 2,
    ;
    let n = columns * rows;
    let mut particles: Vec<Particle> = Vec::with_capacity(n);
    let mut k: usize = 0;
    while k < n
        invariant
            k <= n,
            n == columns * rows,
            1 <= columns <= 0x1_0000_0001,
            1 <= rows <= 0x1_0000_0001,
            2 <= particle_diameter <= 2 * RADIUS_LIMIT,
            (columns / 2) * particle_diameter <= COORD_LIMIT,
            (rows / 2) * particle_diameter <= COORD_LIMIT,
            particles@.len() == k,
            forall|q: int|
                0 <= q < k ==> #[trigger] particles@[q] == lattice_at(
                    q,
                    columns as int,
                    rows as int,
                    particle_diameter as int,
                ),
            forall|q: int| 0 <= q < k ==> (#[trigger] particles@[q]).valid(),
        decreases n - k,
    {
        let row = k / columns;
        let col = k % columns;
        assert(row < rows) by (nonlinear_arith)
            requires
                k < columns * rows,
                row == k / columns,
                columns >= 1,
        ;
        let dx = col as i64 - (columns / 2) as i64;
        let dy = (rows / 2) as i64 - row as i64;
        assert(-COORD_LIMIT <= dx * particle_diameter <= COORD_LIMIT && -COORD_LIMIT <= dy
            * particle_diameter <= COORD_LIMIT) by (nonlinear_arith)
            requires
                -(columns / 2) <= dx <= columns / 2,
                -(rows / 2) <= dy <= rows / 2,
                (columns / 2) * particle_diameter <= COORD_LIMIT,
                (rows / 2) * particle_diameter <= COORD_LIMIT,
                particle_diameter >= 2,
        ;
        let p = Particle {
            pos: Vector2 { x: dx * particle_diameter, y: dy * particle_diameter },
            collider: CircleCollider { radius: particle_diameter / 2 },
            velocity: Velocity { vec: Vector2 { x: 0, y: 0 } },
        };
        particles.push(p);
        k = k + 1;
    }
    particles
}

} // verus!
