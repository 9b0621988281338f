//! Body descriptors and the circular-orbit model.
//!
//! A body's world position on its orbit and its surface-rotation phase are
//! pure functions of the elapsed time; both are stated exactly over the
//! fixed-point trigonometry in [`crate::math`].

use vstd::prelude::*;
use crate::math::tdiv;
use crate::math::div_trunc;
use crate::math::sin_turn;
use crate::math::cos_turn;
use crate::math::sin_turn_spec;
use crate::math::cos_turn_spec;
use crate::math::lemma_tdiv_bound;
use crate::math::RAD_TO_TURN;

verus! {

/// One body of the scene, immutable for a whole frame.
///
/// Lengths are fixed-point world units (1000 sub-units per unit, one world
/// unit projecting to one pixel at unit zoom); angular speeds are
/// fixed-point radians per time unit. `has_ring` is an explicit capability
/// flag, decided when the data is built, never inferred at render time.
pub struct Planet {
    pub radius: i64,
    pub distance_from_sun: i64,
    pub orbit_speed: i64,
    pub rotation_speed: i64,
    pub color: u32,
    pub is_sun: bool,
    pub has_ring: bool,
}

impl Planet {
    /// Validity of a body: positive radius, bounded magnitudes so every
    /// projection stays in machine range, a 24-bit color, and the central
    /// body pinned to the plane origin.
    pub open spec fn wf(&self) -> bool {
        &&& 0 < self.radius <= 1_000_000
        &&& 0 <= self.distance_from_sun <= 100_000_000
        &&& -1_000_000 <= self.orbit_speed <= 1_000_000
        &&& -1_000_000 <= self.rotation_speed <= 1_000_000
        &&& self.color <= 0xFFFFFF
        &&& self.is_sun ==> self.distance_from_sun == 0
    }

    /// Builds a body descriptor from its geometric and orbital parameters.
    pub fn new(
        radius: i64,
        distance_from_sun: i64,
        orbit_speed: i64,
        rotation_speed: i64,
        color: u32,
        is_sun: bool,
        has_ring: bool,
    ) -> (p: Planet)
        requires
            0 < radius <= 1_000_000,
            0 <= distance_from_sun <= 100_000_000,
            -1_000_000 <= orbit_speed <= 1_000_000,
            -1_000_000 <= rotation_speed <= 1_000_000,
            color <= 0xFFFFFF,
            is_sun ==> distance_from_sun == 0,
        ensures
            p.wf(),
            p.radius == radius,
            p.distance_from_sun == distance_from_sun,
            p.orbit_speed == orbit_speed,
            p.rotation_speed == rotation_speed,
            p.color == color,
            p.is_sun == is_sun,
            p.has_ring == has_ring,
    {
        Planet { radius, distance_from_sun, orbit_speed, rotation_speed, color, is_sun, has_ring }
    }

    /// The binary angle swept on the orbit after `time` time units.
    pub open spec fn orbit_angle_turn(&self, time: int) -> int {
        tdiv(tdiv(time * self.orbit_speed, 1000) * (RAD_TO_TURN as int), 1000)
    }

    /// World x coordinate on the orbit at `time` (the central body never
    /// moves).
    pub open spec fn orbit_x_spec(&self, time: int) -> int {
        if self.is_sun {
            0
        } else {
            tdiv(self.distance_from_sun * cos_turn_spec(self.orbit_angle_turn(time)), 1000)
        }
    }

    /// World z coordinate on the orbit at `time`.
    pub open spec fn orbit_z_spec(&self, time: int) -> int {
        if self.is_sun {
            0
        } else {
            tdiv(self.distance_from_sun * sin_turn_spec(self.orbit_angle_turn(time)), 1000)
        }
    }

    /// The surface-rotation phase at `time`, as a binary angle. It only
    /// feeds the procedural surface patterns; there is no mesh to rotate.
    pub open spec fn rotation_angle_spec(&self, time: int) -> int {
        tdiv(tdiv(time * self.rotation_speed, 1000) * (RAD_TO_TURN as int), 1000)
    }

    /// Position `(x, z)` in the orbital plane at `time`: a circular path of
    /// radius `distance_from_sun` around the origin.
    pub fn orbit_position(&self, time: i64) -> (pos: (i64, i64))
        requires
            self.wf(),
            -1_000_000_000 <= time <= 1_000_000_000,
        ensures
            pos.0 == self.orbit_x_spec(time as int),
            pos.1 == self.orbit_z_spec(time as int),
            -100_000_000 <= pos.0 <= 100_000_000,
            -100_000_000 <= pos.1 <= 100_000_000,
    {
        if self.is_sun {
            return (0, 0);
        }
        proof {
            assert(-1_000_000_000_000_000 <= time as int * self.orbit_speed as int
                <= 1_000_000_000_000_000) by (nonlinear_arith)
                requires
                    -1_000_000_000 <= time <= 1_000_000_000,
                    -1_000_000 <= self.orbit_speed <= 1_000_000,
            ;
        }
        let rad_fp: i64 = div_trunc(time * self.orbit_speed, 1000);
        proof {
            lemma_tdiv_bound(
                time as int * self.orbit_speed as int,
                1000,
                1_000_000_000_000_000,
            );
        }
        let angle: i64 = div_trunc(rad_fp * RAD_TO_TURN, 1000);
        let c: i64 = cos_turn(angle);
        let s: i64 = sin_turn(angle);
        proof {
            assert(-100_000_000_000 <= self.distance_from_sun as int * (c as int)
                <= 100_000_000_000) by (nonlinear_arith)
                requires
                    0 <= self.distance_from_sun <= 100_000_000,
                    -1000 <= c <= 1000,
            ;
            assert(-100_000_000_000 <= self.distance_from_sun as int * (s as int)
                <= 100_000_000_000) by (nonlinear_arith)
                requires
                    0 <= self.distance_from_sun <= 100_000_000,
                    -1000 <= s <= 1000,
            ;
            lemma_tdiv_bound(
                self.distance_from_sun as int * (c as int),
                1000,
                100_000_000_000,
            );
            lemma_tdiv_bound(
                self.distance_from_sun as int * (s as int),
                1000,
                100_000_000_000,
            );
        }
        let x: i64 = div_trunc(self.distance_from_sun * c, 1000);
        let z: i64 = div_trunc(self.distance_from_sun * s, 1000);
        (x, z)
    }

    /// The surface-rotation phase at `time`, as a binary angle.
    pub fn rotation_angle(&self, time: i64) -> (a: i64)
        requires
            self.wf(),
            -1_000_000_000 <= time <= 1_000_000_000,
        ensures
            a == self.rotation_angle_spec(time as int),
            -20_000_000_000_000 <= a <= 20_000_000_000_000,
    {
        proof {
            assert(-1_000_000_000_000_000 <= time as int * self.rotation_speed as int
                <= 1_000_000_000_000_000) by (nonlinear_arith)
                requires
                    -1_000_000_000 <= time <= 1_000_000_000,
                    -1_000_000 <= self.rotation_speed <= 1_000_000,
            ;
        }
        let rad_fp: i64 = div_trunc(time * self.rotation_speed, 1000);
        proof {
            lemma_tdiv_bound(
                time as int * self.rotation_speed as int,
                1000,
                1_000_000_000_000_000,
            );
            lemma_tdiv_bound(rad_fp as int * (RAD_TO_TURN as int), 1000, 10_430_000_000_000_000);
        }
        div_trunc(rad_fp * RAD_TO_TURN, 1000)
    }
}

} // verus!
