//! Camera state and its per-frame update.
//!
//! The update is an explicit function from the current state and the input
//! flags to the next state: velocities accumulate acceleration and decay
//! under friction, the position saturates at the world bound, and the zoom
//! is clamped into its working range on every step.

use vstd::prelude::*;
use crate::math::tdiv;
use crate::math::clamp_spec;
use crate::math::div_trunc;
use crate::math::clamp_i64;

verus! {

/// Acceleration added per input flag per step, fixed-point pixels.
pub const CAMERA_ACCEL: i64 = 500;

/// Zoom change per input flag per step, fixed-point.
pub const ZOOM_STEP: i64 = 30;

/// Smallest allowed zoom, fixed-point.
pub const ZOOM_MIN: i64 = 300;

/// Largest allowed zoom, fixed-point.
pub const ZOOM_MAX: i64 = 3000;

/// Largest world coordinate the camera may reach, fixed-point.
pub const CAMERA_LIMIT: i64 = 100_000_000;

/// The camera pose and motion state, in fixed-point world units.
pub struct CameraState {
    pub x: i64,
    pub z: i64,
    pub vel_x: i64,
    pub vel_z: i64,
    pub zoom: i64,
}

/// One frame's worth of movement input flags.
pub struct CameraInput {
    pub left: bool,
    pub right: bool,
    pub forward: bool,
    pub back: bool,
    pub zoom_in: bool,
    pub zoom_out: bool,
}

/// One velocity component after a step: acceleration from the two opposing
/// flags, then friction of nine tenths.
pub open spec fn vel_step_spec(v: int, dec: bool, inc: bool) -> int {
    let v1 = if dec {
        v - CAMERA_ACCEL
    } else {
        v
    };
    let v2 = if inc {
        v1 + CAMERA_ACCEL
    } else {
        v1
    };
    tdiv(v2 * 9, 10)
}

/// The camera state after one update step.
pub open spec fn camera_step_spec(c: CameraState, inp: CameraInput) -> CameraState {
    let vx = vel_step_spec(c.vel_x as int, inp.left, inp.right);
    let vz = vel_step_spec(c.vel_z as int, inp.forward, inp.back);
    let z1 = if inp.zoom_in {
        c.zoom + ZOOM_STEP
    } else {
        c.zoom as int
    };
    let z2 = if inp.zoom_out {
        z1 - ZOOM_STEP
    } else {
        z1
    };
    CameraState {
        x: clamp_spec(c.x + vx, -CAMERA_LIMIT as int, CAMERA_LIMIT as int) as i64,
        z: clamp_spec(c.z + vz, -CAMERA_LIMIT as int, CAMERA_LIMIT as int) as i64,
        vel_x: vx as i64,
        vel_z: vz as i64,
        zoom: clamp_spec(z2, ZOOM_MIN as int, ZOOM_MAX as int) as i64,
    }
}

/// The zoom is inside `[ZOOM_MIN, ZOOM_MAX]` after an update step from any
/// state under any input, so it is in range after every sequence of
/// external adjustments that ends in a step.
pub proof fn lemma_zoom_always_in_range(c: CameraState, inp: CameraInput)
    ensures
        300 <= camera_step_spec(c, inp).zoom <= 3000,
{
}

/// Friction keeps a bounded velocity bounded across a step.
pub proof fn lemma_vel_step_bounded(v: int, dec: bool, inc: bool)
    requires
        -4500 <= v <= 4500,
    ensures
        -4500 <= vel_step_spec(v, dec, inc) <= 4500,
{
    crate::math::lemma_tdiv_bound(
        (if inc {
            (if dec {
                v - 500
            } else {
                v
            }) + 500
        } else {
            (if dec {
                v - 500
            } else {
                v
            })
        }) * 9,
        10,
        45000,
    );
}

impl CameraState {
    /// A valid camera: bounded position and velocity, zoom in range.
    pub open spec fn wf(&self) -> bool {
        &&& -100_000_000 <= self.x <= 100_000_000
        &&& -100_000_000 <= self.z <= 100_000_000
        &&& -4500 <= self.vel_x <= 4500
        &&& -4500 <= self.vel_z <= 4500
        &&& 300 <= self.zoom <= 3000
    }

    /// The camera at the world origin, at rest, at unit zoom.
    pub fn start() -> (c: CameraState)
        ensures
            c.wf(),
            c.x == 0,
            c.z == 0,
            c.vel_x == 0,
            c.vel_z == 0,
            c.zoom == 1000,
    {
        CameraState { x: 0, z: 0, vel_x: 0, vel_z: 0, zoom: 1000 }
    }

    /// One update step from the input flags: returns the next state and
    /// leaves this one untouched.
    pub fn step(&self, inp: &CameraInput) -> (n: CameraState)
        requires
            self.wf(),
        ensures
            n == camera_step_spec(*self, *inp),
            n.wf(),
    {
        proof {
            lemma_vel_step_bounded(self.vel_x as int, inp.left, inp.right);
            lemma_vel_step_bounded(self.vel_z as int, inp.forward, inp.back);
        }
        let mut vx: i64 = self.vel_x;
        if inp.left {
            vx = vx - CAMERA_ACCEL;
        }
        if inp.right {
            vx = vx + CAMERA_ACCEL;
        }
        let vx2: i64 = div_trunc(vx * 9, 10);
        let mut vz: i64 = self.vel_z;
        if inp.forward {
            vz = vz - CAMERA_ACCEL;
        }
        if inp.back {
            vz = vz + CAMERA_ACCEL;
        }
        let vz2: i64 = div_trunc(vz * 9, 10);
        let mut zm: i64 = self.zoom;
        if inp.zoom_in {
            zm = zm + ZOOM_STEP;
        }
        if inp.zoom_out {
            zm = zm - ZOOM_STEP;
        }
        CameraState {
            x: clamp_i64(self.x + vx2, -CAMERA_LIMIT, CAMERA_LIMIT),
            z: clamp_i64(self.z + vz2, -CAMERA_LIMIT, CAMERA_LIMIT),
            vel_x: vx2,
            vel_z: vz2,
            zoom: clamp_i64(zm, ZOOM_MIN, ZOOM_MAX),
        }
    }
}

} // verus!
