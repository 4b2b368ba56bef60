//! The simulation's constants, gathered in one value passed in at setup.
use vstd::prelude::*;
use crate::geometry::{UNIT, VELOCITY_LIMIT};

verus! {

/// Bound on the smoothing radius.
pub const SMOOTHING_RADIUS_LIMIT: i64 = 0x100_0000;

/// Bound on the width and the height of the viewport.
pub const VIEWPORT_LIMIT: i64 = 0x8000_0000;

/// Microseconds in a second: velocities are in raw units per second and time
/// steps in microseconds.
pub const MICROS_PER_SECOND: i64 = 1_000_000;

/// Bound on the denominator of the damping factor.
pub const DAMPING_DEN_LIMIT: i64 = 0x1_0000;

/// The constants of a simulation.
#[derive(Clone, Copy, Debug)]
pub struct SimConfig {
    /// Interaction cutoff distance; chunks are twice as wide.
    pub smoothing_radius: i64,
    /// Largest speed that a particle keeps after a frame.
    pub max_velocity: i64,
    /// Numerator of the factor by which a reflected velocity component is scaled.
    pub damping_num: i64,
    /// Denominator of the damping factor.
    pub damping_den: i64,
    /// Longest time step, in microseconds.
    pub max_dt_us: i64,
    /// Shortest time step, in microseconds.
    pub min_dt_us: i64,
}

impl SimConfig {
    /// The constants are in the ranges that the simulation accepts: a positive
    /// smoothing radius, a damping factor below one, a nonempty range of time
    /// steps of at most a second.
    pub open spec fn wf(&self) -> bool {
        &&& 1 <= self.smoothing_radius <= SMOOTHING_RADIUS_LIMIT
        &&& 0 <= self.max_velocity <= VELOCITY_LIMIT
        &&& 0 <= self.damping_num < self.damping_den <= DAMPING_DEN_LIMIT
        &&& 1 <= self.min_dt_us <= self.max_dt_us <= MICROS_PER_SECOND
    }

    /// The time step used for a frame that took `frame_dt_us` microseconds:
    /// capped at the longest step and floored at the shortest.
    pub open spec fn step_spec(&self, frame_dt_us: int) -> int {
        if frame_dt_us > self.max_dt_us {
            self.max_dt_us as int
        } else if frame_dt_us < self.min_dt_us {
            self.min_dt_us as int
        } else {
            frame_dt_us
        }
    }

    /// The time step used for a frame that took `frame_dt_us` microseconds.
    pub fn step_duration(&self, frame_dt_us: i64) -> (r: i64)
        requires
            self.wf(),
        ensures
            r == self.step_spec(frame_dt_us as int),
            1 <= r <= MICROS_PER_SECOND,
    {
        if frame_dt_us > self.max_dt_us {
            self.max_dt_us
        } else if frame_dt_us < self.min_dt_us {
            self.min_dt_us
        } else {
            frame_dt_us
        }
    }
}

impl Default for SimConfig {
    /// A smoothing radius of 70 pixels, speeds capped at 300 pixels per
    /// second, 85 percent of a reflected component kept, and steps between a
    /// tenth of a millisecond and a sixtieth of a second.
    fn default() -> (r: SimConfig)
        ensures
            r.smoothing_radius == 70 * UNIT,
            r.max_velocity == 300 * UNIT,
            r.damping_num == 85,
            r.damping_den == 100,
            r.max_dt_us == 16_667,
            r.min_dt_us == 100,
            r.wf(),
    {
        SimConfig {
            smoothing_radius: 70 * UNIT,
            max_velocity: 300 * UNIT,
            damping_num: 85,
            damping_den: 100,
            max_dt_us: 16_667,
            min_dt_us: 100,
        }
    }
}

} // verus!
