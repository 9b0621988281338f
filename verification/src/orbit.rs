//! Sampled orbit-path outlines: one fixed-color dot per sample point on a
//! circle around the projected central body, 360 samples, no interpolation
//! — gaps may appear at small radii, exactly as specified.

use vstd::prelude::*;
use crate::renderer::Renderer;
use crate::renderer::pix;
use crate::renderer::lemma_put_pixel_pointwise;
use crate::math::tdiv;
use crate::math::rdiv;
use crate::math::cos_turn_spec;
use crate::math::sin_turn_spec;

verus! {

/// Packed color of every orbit outline.
pub const ORBIT_COLOR: u32 = 0x444444;

/// Number of samples around the circle.
pub const ORBIT_STEPS: i64 = 360;

/// The screen x pixel of sample `i` of the outline of radius `r` around
/// fixed-point center `(cx, _)`.
pub open spec fn orbit_sample_px(cx: int, r: int, i: int) -> int {
    rdiv(cx + tdiv(r * cos_turn_spec(i * 65536 / 360), 1000), 1000)
}

/// The screen y pixel of sample `i`.
pub open spec fn orbit_sample_py(cy: int, r: int, i: int) -> int {
    rdiv(cy + tdiv(r * sin_turn_spec(i * 65536 / 360), 1000), 1000)
}

/// Whether one of the first `n` samples lands on pixel `(x, y)`.
pub open spec fn orbit_hit_upto(cx: int, cy: int, r: int, n: int, x: int, y: int) -> bool {
    exists|j: int|
        0 <= j < n && #[trigger] orbit_sample_px(cx, r, j) == x && orbit_sample_py(cy, r, j) == y
}

/// Whether any of the 360 samples lands on pixel `(x, y)`.
pub open spec fn orbit_hit(cx: int, cy: int, r: int, x: int, y: int) -> bool {
    orbit_hit_upto(cx, cy, r, 360, x, y)
}

/// The color the orbit rasterizer leaves at `(x, y)`, if any. Every
/// sample writes the same color, so the draw order never shows.
pub open spec fn orbit_color_at(cx: int, cy: int, r: int, x: int, y: int) -> Option<u32> {
    if orbit_hit(cx, cy, r, x, y) {
        Some(ORBIT_COLOR)
    } else {
        None
    }
}

impl Renderer {
    /// Draws a sampled circular outline of fixed-point radius `radius`
    /// around fixed-point screen center `center`: exactly the pixels some
    /// sample lands on take the outline color.
    pub fn draw_orbit(&mut self, center: (i64, i64), radius: i64)
        requires
            old(self).wf(),
            -1_500_000_000 <= center.0 <= 1_500_000_000,
            -1_500_000_000 <= center.1 <= 1_500_000_000,
            0 <= radius <= 400_000_000,
        ensures
            final(self).wf(),
            final(self).width == old(self).width,
            final(self).height == old(self).height,
            final(self).camera_x == old(self).camera_x,
            final(self).camera_z == old(self).camera_z,
            final(self).zoom == old(self).zoom,
            final(self).buffer@.len() == old(self).buffer@.len(),
            forall|px: int, py: int|
                0 <= px < old(self).width && 0 <= py < old(self).height
                    ==> #[trigger] final(self).buffer@[pix(old(self).width as int, px, py)] == (
                match orbit_color_at(center.0 as int, center.1 as int, radius as int, px, py) {
                    Some(c) => c,
                    None => old(self).buffer@[pix(old(self).width as int, px, py)],
                }),
    {
        let cx: i64 = center.0;
        let cy: i64 = center.1;
        let ghost w_i = old(self).width as int;
        let ghost h_i = old(self).height as int;
        let mut i: i64 = 0;
        while i < ORBIT_STEPS
            invariant
                0 <= i <= 360,
                self.wf(),
                self.width == old(self).width,
                self.height == old(self).height,
                self.camera_x == old(self).camera_x,
                self.camera_z == old(self).camera_z,
                self.zoom == old(self).zoom,
                self.buffer@.len() == old(self).buffer@.len(),
                w_i == self.width as int,
                h_i == self.height as int,
                cx == center.0,
                cy == center.1,
                -1_500_000_000 <= cx <= 1_500_000_000,
                -1_500_000_000 <= cy <= 1_500_000_000,
                0 <= radius <= 400_000_000,
                forall|qx: int, qy: int|
                    0 <= qx < w_i && 0 <= qy < h_i ==> #[trigger] self.buffer@[pix(w_i, qx, qy)]
                        == (if orbit_hit_upto(cx as int, cy as int, radius as int, i as int, qx, qy) {
                        ORBIT_COLOR
                    } else {
                        old(self).buffer@[pix(w_i, qx, qy)]
                    }),
            decreases 360 - i,
        {
            let angle: i64 = i * 65536 / 360;
            let c: i64 = crate::math::cos_turn(angle);
            let s: i64 = crate::math::sin_turn(angle);
            proof {
                crate::math::lemma_mul_bound(radius as int, c as int, 400_000_000, 1000);
                crate::math::lemma_mul_bound(radius as int, s as int, 400_000_000, 1000);
                crate::math::lemma_tdiv_bound(
                    (radius as int) * (c as int),
                    1000,
                    400_000_000_000,
                );
                crate::math::lemma_tdiv_bound(
                    (radius as int) * (s as int),
                    1000,
                    400_000_000_000,
                );
            }
            let sx: i64 = cx + crate::math::div_trunc(radius * c, 1000);
            let sy: i64 = cy + crate::math::div_trunc(radius * s, 1000);
            let px: i64 = crate::math::div_round(sx, 1000);
            let py: i64 = crate::math::div_round(sy, 1000);
            proof {
                assert(px as int == orbit_sample_px(cx as int, radius as int, i as int));
                assert(py as int == orbit_sample_py(cy as int, radius as int, i as int));
            }
            let ghost prev_buf = self.buffer@;
            self.put_pixel(px, py, ORBIT_COLOR);
            proof {
                lemma_put_pixel_pointwise(w_i, h_i, prev_buf, px as int, py as int, ORBIT_COLOR);
                assert forall|qx: int, qy: int|
                    0 <= qx < w_i && 0 <= qy < h_i implies #[trigger] self.buffer@[pix(
                    w_i,
                    qx,
                    qy,
                )] == (if orbit_hit_upto(
                    cx as int,
                    cy as int,
                    radius as int,
                    i as int + 1,
                    qx,
                    qy,
                ) {
                    ORBIT_COLOR
                } else {
                    old(self).buffer@[pix(w_i, qx, qy)]
                }) by {
                    if qx == px as int && qy == py as int {
                        assert(orbit_sample_px(cx as int, radius as int, i as int) == qx
                            && orbit_sample_py(cy as int, radius as int, i as int) == qy);
                        assert(orbit_hit_upto(
                            cx as int,
                            cy as int,
                            radius as int,
                            i as int + 1,
                            qx,
                            qy,
                        ));
                    } else {
                        if orbit_hit_upto(cx as int, cy as int, radius as int, i as int + 1, qx, qy) {
                            let j = choose|j: int|
                                0 <= j < i as int + 1 && #[trigger] orbit_sample_px(
                                    cx as int,
                                    radius as int,
                                    j,
                                ) == qx && orbit_sample_py(cy as int, radius as int, j) == qy;
                            if j == i as int {
                                assert(false);
                            }
                            assert(orbit_hit_upto(
                                cx as int,
                                cy as int,
                                radius as int,
                                i as int,
                                qx,
                                qy,
                            ));
                        }
                    }
                }
            }
            i = i + 1;
        }
    }
}

} // verus!
