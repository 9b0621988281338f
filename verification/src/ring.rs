//! Flat-color ring (annulus) rendering around a body's screen position.
//!
//! The ring radii are fixed ratios of the body's on-screen radius, so they
//! scale with zoom exactly as the body itself does.

use vstd::prelude::*;
use crate::renderer::Renderer;
use crate::renderer::pix;
use crate::renderer::lemma_put_pixel_pointwise;

verus! {

/// Packed color of the ring.
pub const RING_COLOR: u32 = 0xC8B090;

/// Inner ring radius for a body of screen radius `sr`: 1.6 times it.
pub open spec fn ring_inner_spec(sr: int) -> int {
    sr * 16 / 10
}

/// Outer ring radius for a body of screen radius `sr`: 1.9 times it.
pub open spec fn ring_outer_spec(sr: int) -> int {
    sr * 19 / 10
}

/// For any visible screen radius the annulus is a real band: the inner
/// radius stays strictly below the outer one. Both are the stated fixed
/// multiples of the same screen radius, so they scale with zoom exactly
/// as the body's own radius does.
pub proof fn lemma_ring_radii_ordered(sr: int)
    requires
        sr >= 3,
    ensures
        0 < ring_inner_spec(sr) < ring_outer_spec(sr),
{
    vstd::arithmetic::div_mod::lemma_fundamental_div_mod(sr * 16, 10);
    vstd::arithmetic::div_mod::lemma_fundamental_div_mod(sr * 19, 10);
    let q1 = sr * 16 / 10;
    let r1 = sr * 16 % 10;
    let q2 = sr * 19 / 10;
    let r2 = sr * 19 % 10;
    assert(sr * 19 - sr * 16 == 3 * sr) by (nonlinear_arith);
    assert(10 * (q2 - q1) == 3 * sr + r1 - r2);
    if sr >= 4 {
        assert(q2 - q1 >= 1);
    } else {
        assert(sr == 3);
        assert(sr * 16 == 48 && sr * 19 == 57) by (nonlinear_arith)
            requires
                sr == 3,
        ;
    }
    vstd::arithmetic::div_mod::lemma_div_pos_is_pos(sr * 16, 10);
    assert(q1 >= 1);
}

/// Computes the inner ring radius from a body's screen radius.
pub fn ring_inner(sr: i64) -> (r: i64)
    requires
        0 <= sr <= 10_000_000,
    ensures
        r == ring_inner_spec(sr as int),
        0 <= r <= 16_000_000,
{
    proof {
        vstd::arithmetic::div_mod::lemma_div_pos_is_pos(16 * (sr as int), 10);
        vstd::arithmetic::div_mod::lemma_div_is_ordered(16 * (sr as int), 160_000_000, 10);
    }
    sr * 16 / 10
}

/// Computes the outer ring radius from a body's screen radius.
pub fn ring_outer(sr: i64) -> (r: i64)
    requires
        0 <= sr <= 10_000_000,
    ensures
        r == ring_outer_spec(sr as int),
        0 <= r <= 19_000_000,
{
    proof {
        vstd::arithmetic::div_mod::lemma_div_pos_is_pos(19 * (sr as int), 10);
        vstd::arithmetic::div_mod::lemma_div_is_ordered(19 * (sr as int), 190_000_000, 10);
    }
    sr * 19 / 10
}

/// Whether pixel `(x, y)` lies on the annulus between `inner` and `outer`
/// around center `(cx, cy)` (all fixed-point).
pub open spec fn ring_hit(cx: int, cy: int, inner: int, outer: int, x: int, y: int) -> bool {
    let dx = 1000 * x - cx;
    let dy = 1000 * y - cy;
    let d2 = dx * dx + dy * dy;
    inner * inner <= d2 <= outer * outer
}

/// The color the ring rasterizer writes at `(x, y)`, if any.
pub open spec fn ring_color_at(
    cx: int,
    cy: int,
    inner: int,
    outer: int,
    color: u32,
    x: int,
    y: int,
) -> Option<u32> {
    if ring_hit(cx, cy, inner, outer, x, y) {
        Some(color)
    } else {
        None
    }
}

/// Outside the outer radius' bounding box no pixel is on the annulus.
pub proof fn lemma_ring_outside_bbox(
    cx: int,
    cy: int,
    inner: int,
    outer: int,
    color: u32,
    x: int,
    y: int,
)
    requires
        outer >= 0,
        1000 * x < cx - outer || 1000 * x > cx + outer || 1000 * y < cy - outer || 1000 * y > cy
            + outer,
    ensures
        ring_color_at(cx, cy, inner, outer, color, x, y) is None,
{
    assert((1000 * x - cx) * (1000 * x - cx) + (1000 * y - cy) * (1000 * y - cy) > outer
        * outer) by (nonlinear_arith)
        requires
            outer >= 0,
            1000 * x < cx - outer || 1000 * x > cx + outer || 1000 * y < cy - outer || 1000 * y
                > cy + outer,
    ;
}

impl Renderer {
    /// Draws a flat-colored annulus: each pixel whose fixed-point distance
    /// from the center lies between the radii takes `color`; every other
    /// pixel keeps its previous value.
    pub fn draw_ring(&mut self, center: (i64, i64), inner_r: i64, outer_r: i64, color: u32)
        requires
            old(self).wf(),
            -1_500_000_000 <= center.0 <= 1_500_000_000,
            -1_500_000_000 <= center.1 <= 1_500_000_000,
            0 <= inner_r <= 20_000_000,
            0 <= outer_r <= 20_000_000,
        ensures
            final(self).wf(),
            final(self).width == old(self).width,
            final(self).height == old(self).height,
            final(self).camera_x == old(self).camera_x,
            final(self).camera_z == old(self).camera_z,
            final(self).zoom == old(self).zoom,
            final(self).buffer@.len() == old(self).buffer@.len(),
            forall|px: int, py: int|
                0 <= px < old(self).width && 0 <= py < old(self).height
                    ==> #[trigger] final(self).buffer@[pix(old(self).width as int, px, py)] == (
                match ring_color_at(
                    center.0 as int,
                    center.1 as int,
                    inner_r as int,
                    outer_r as int,
                    color,
                    px,
                    py,
                ) {
                    Some(c) => c,
                    None => old(self).buffer@[pix(old(self).width as int, px, py)],
                }),
    {
        let cx: i64 = center.0;
        let cy: i64 = center.1;
        let ghost w_i = old(self).width as int;
        let ghost h_i = old(self).height as int;
        proof {
            crate::math::lemma_floor_bracket(cx as int - outer_r as int, 1000);
            crate::math::lemma_floor_bracket(-(cx as int + outer_r as int), 1000);
            crate::math::lemma_floor_bracket(cy as int - outer_r as int, 1000);
            crate::math::lemma_floor_bracket(-(cy as int + outer_r as int), 1000);
        }
        let min_x: i64 = crate::math::div_floor(cx - outer_r, 1000);
        let max_x: i64 = crate::math::div_ceil_up(cx + outer_r, 1000);
        let min_y: i64 = crate::math::div_floor(cy - outer_r, 1000);
        let max_y: i64 = crate::math::div_ceil_up(cy + outer_r, 1000);
        proof {
            assert forall|px: int, py: int|
                0 <= px < w_i && 0 <= py < h_i && py < min_y implies ring_color_at(
                cx as int,
                cy as int,
                inner_r as int,
                outer_r as int,
                color,
                px,
                py,
            ) is None by {
                lemma_ring_outside_bbox(
                    cx as int,
                    cy as int,
                    inner_r as int,
                    outer_r as int,
                    color,
                    px,
                    py,
                );
            }
        }
        let mut y: i64 = min_y;
        while y <= max_y
            invariant
                min_y <= y <= max_y + 1,
                self.wf(),
                self.width == old(self).width,
                self.height == old(self).height,
                self.camera_x == old(self).camera_x,
                self.camera_z == old(self).camera_z,
                self.zoom == old(self).zoom,
                self.buffer@.len() == old(self).buffer@.len(),
                w_i == self.width as int,
                h_i == self.height as int,
                0 <= inner_r <= 20_000_000,
                0 <= outer_r <= 20_000_000,
                -1_500_000_000 <= cx <= 1_500_000_000,
                -1_500_000_000 <= cy <= 1_500_000_000,
                cx == center.0,
                cy == center.1,
                min_x == (cx as int - outer_r as int) / 1000,
                max_x == -((-(cx as int + outer_r as int)) / 1000),
                min_y == (cy as int - outer_r as int) / 1000,
                max_y == -((-(cy as int + outer_r as int)) / 1000),
                forall|px: int, py: int|
                    0 <= px < w_i && 0 <= py < h_i ==> #[trigger] self.buffer@[pix(w_i, px, py)]
                        == (if py < y {
                        match ring_color_at(
                            cx as int,
                            cy as int,
                            inner_r as int,
                            outer_r as int,
                            color,
                            px,
                            py,
                        ) {
                            Some(c) => c,
                            None => old(self).buffer@[pix(w_i, px, py)],
                        }
                    } else {
                        old(self).buffer@[pix(w_i, px, py)]
                    }),
            decreases max_y + 1 - y,
        {
            proof {
                crate::math::lemma_floor_bracket(cx as int - outer_r as int, 1000);
                crate::math::lemma_floor_bracket(-(cx as int + outer_r as int), 1000);
                crate::math::lemma_floor_bracket(cy as int - outer_r as int, 1000);
                crate::math::lemma_floor_bracket(-(cy as int + outer_r as int), 1000);
                assert forall|px: int| 0 <= px < w_i && px < min_x implies ring_color_at(
                    cx as int,
                    cy as int,
                    inner_r as int,
                    outer_r as int,
                    color,
                    px,
                    y as int,
                ) is None by {
                    lemma_ring_outside_bbox(
                        cx as int,
                        cy as int,
                        inner_r as int,
                        outer_r as int,
                        color,
                        px,
                        y as int,
                    );
                }
            }
            let mut x: i64 = min_x;
            while x <= max_x
                invariant
                    min_x <= x <= max_x + 1,
                    min_y <= y <= max_y,
                    self.wf(),
                    self.width == old(self).width,
                    self.height == old(self).height,
                    self.camera_x == old(self).camera_x,
                    self.camera_z == old(self).camera_z,
                    self.zoom == old(self).zoom,
                    self.buffer@.len() == old(self).buffer@.len(),
                    w_i == self.width as int,
                    h_i == self.height as int,
                    0 <= inner_r <= 20_000_000,
                    0 <= outer_r <= 20_000_000,
                    -1_500_000_000 <= cx <= 1_500_000_000,
                    -1_500_000_000 <= cy <= 1_500_000_000,
                    cx == center.0,
                    cy == center.1,
                    min_x == (cx as int - outer_r as int) / 1000,
                    max_x == -((-(cx as int + outer_r as int)) / 1000),
                    min_y == (cy as int - outer_r as int) / 1000,
                    max_y == -((-(cy as int + outer_r as int)) / 1000),
                    forall|px: int, py: int|
                        0 <= px < w_i && 0 <= py < h_i ==> #[trigger] self.buffer@[pix(
                            w_i,
                            px,
                            py,
                        )] == (if py < y || (py == y && px < x) {
                            match ring_color_at(
                                cx as int,
                                cy as int,
                                inner_r as int,
                                outer_r as int,
                                color,
                                px,
                                py,
                            ) {
                                Some(c) => c,
                                None => old(self).buffer@[pix(w_i, px, py)],
                            }
                        } else {
                            old(self).buffer@[pix(w_i, px, py)]
                        }),
                decreases max_x + 1 - x,
            {
                proof {
                    crate::math::lemma_floor_bracket(cx as int - outer_r as int, 1000);
                    crate::math::lemma_floor_bracket(-(cx as int + outer_r as int), 1000);
                    crate::math::lemma_mul_bound(
                        1000 * (x as int) - cx as int,
                        1000 * (x as int) - cx as int,
                        21_000_000,
                        21_000_000,
                    );
                    crate::math::lemma_mul_bound(
                        1000 * (y as int) - cy as int,
                        1000 * (y as int) - cy as int,
                        21_000_000,
                        21_000_000,
                    );
                    crate::math::lemma_mul_bound(
                        inner_r as int,
                        inner_r as int,
                        20_000_000,
                        20_000_000,
                    );
                    crate::math::lemma_mul_bound(
                        outer_r as int,
                        outer_r as int,
                        20_000_000,
                        20_000_000,
                    );
                }
                let dx: i64 = 1000 * x - cx;
                let dy: i64 = 1000 * y - cy;
                let d2: i64 = dx * dx + dy * dy;
                let inner2: i64 = inner_r * inner_r;
                let outer2: i64 = outer_r * outer_r;
                let ghost buf_before = self.buffer@;
                if inner2 <= d2 && d2 <= outer2 {
                    self.put_pixel(x, y, color);
                    proof {
                        lemma_put_pixel_pointwise(w_i, h_i, buf_before, x as int, y as int, color);
                    }
                }
                x = x + 1;
            }
            proof {
                crate::math::lemma_floor_bracket(-(cx as int + outer_r as int), 1000);
                assert forall|px: int| 0 <= px < w_i && px > max_x implies ring_color_at(
                    cx as int,
                    cy as int,
                    inner_r as int,
                    outer_r as int,
                    color,
                    px,
                    y as int,
                ) is None by {
                    lemma_ring_outside_bbox(
                        cx as int,
                        cy as int,
                        inner_r as int,
                        outer_r as int,
                        color,
                        px,
                        y as int,
                    );
                }
            }
            y = y + 1;
        }
        proof {
            crate::math::lemma_floor_bracket(-(cy as int + outer_r as int), 1000);
            assert forall|px: int, py: int|
                0 <= px < w_i && 0 <= py < h_i && py > max_y implies ring_color_at(
                cx as int,
                cy as int,
                inner_r as int,
                outer_r as int,
                color,
                px,
                py,
            ) is None by {
                lemma_ring_outside_bbox(
                    cx as int,
                    cy as int,
                    inner_r as int,
                    outer_r as int,
                    color,
                    px,
                    py,
                );
            }
        }
    }
}

} // verus!
