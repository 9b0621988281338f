//! The decorative ship overlay: a disc-shaped hull with panel shading,
//! two dark wing strips, engine dots and a shaded cockpit, drawn at a
//! fixed offset from the viewport center. Its shape and colors depend on
//! nothing but the pixel offsets from its anchor, so the sprite is
//! identical every frame.

use vstd::prelude::*;
use crate::renderer::Renderer;
use crate::renderer::pix;
use crate::renderer::lemma_put_pixel_pointwise;
use crate::math::sin_turn_spec;
use crate::math::cos_turn_spec;
use crate::color::shade_color_spec;

verus! {

/// Hull color of the ship.
pub const SHIP_BODY_COLOR: u32 = 0xB3B3B3;

/// Wing color of the ship.
pub const SHIP_WING_COLOR: u32 = 0x444444;

/// Engine color of the ship.
pub const SHIP_ENGINE_COLOR: u32 = 0x66CCFF;

/// Cockpit color of the ship.
pub const SHIP_COCKPIT_COLOR: u32 = 0x9999FF;

/// Vertical offset of the ship's anchor below the viewport center.
pub const SHIP_OFFSET_Y: i64 = 140;

/// Hull pixel at offset `(dx, dy)` from the anchor: a disc of radius 12
/// with a panel-shading pattern over fixed local coordinates.
pub open spec fn ship_body_at(dx: int, dy: int) -> Option<u32> {
    if -12 <= dx <= 12 && -12 <= dy <= 12 && dx * dx + dy * dy <= 144 {
        let p = sin_turn_spec(dx * 5215) * cos_turn_spec(dy * 5215);
        let v = (if p >= 0 {
            p
        } else {
            -p
        }) / 1000;
        Some(shade_color_spec(SHIP_BODY_COLOR, 700 + 300 * v / 1000))
    } else {
        None
    }
}

/// Wing pixel at offset `(dx, dy)`: two flat strips beside the hull.
pub open spec fn ship_wing_at(dx: int, dy: int) -> Option<u32> {
    if -6 <= dy <= 6 && ((-16 <= dx <= -8) || (8 <= dx <= 16)) {
        Some(SHIP_WING_COLOR)
    } else {
        None
    }
}

/// Engine pixel at offset `(dx, dy)`: a small disc below the hull.
pub open spec fn ship_engine_at(dx: int, dy: int) -> Option<u32> {
    if 10 <= dy <= 12 && -4 <= dx <= 4 && dx * dx + (dy - 10) * (dy - 10) <= 9 {
        Some(SHIP_ENGINE_COLOR)
    } else {
        None
    }
}

/// Cockpit pixel at offset `(dx, dy)`: a small shaded disc at the center.
pub open spec fn ship_cockpit_at(dx: int, dy: int) -> Option<u32> {
    if -4 <= dy <= 4 && -5 <= dx <= 5 && dx * dx + dy * dy <= 12 {
        let p = sin_turn_spec(dx * 7301) * cos_turn_spec(dy * 7301);
        let v = (if p >= 0 {
            p
        } else {
            -p
        }) / 1000;
        Some(shade_color_spec(SHIP_COCKPIT_COLOR, 800 + 200 * v / 1000))
    } else {
        None
    }
}

/// The ship's pixel at offset `(dx, dy)`: the parts layered in draw
/// order, later parts covering earlier ones.
pub open spec fn ship_pixel_rel(dx: int, dy: int) -> Option<u32> {
    match ship_cockpit_at(dx, dy) {
        Some(c) => Some(c),
        None => match ship_engine_at(dx, dy) {
            Some(c) => Some(c),
            None => match ship_wing_at(dx, dy) {
                Some(c) => Some(c),
                None => ship_body_at(dx, dy),
            },
        },
    }
}

/// The ship's pixel at screen position `(x, y)` for an anchor at
/// `(cx, cy)` (whole pixels).
pub open spec fn ship_pixel(cx: int, cy: int, x: int, y: int) -> Option<u32> {
    ship_pixel_rel(x - cx, y - cy)
}

/// Computes one ship pixel, mirroring [`ship_pixel_rel`].
pub fn ship_pixel_color(dx: i64, dy: i64) -> (r: Option<u32>)
    requires
        -20 <= dx <= 20,
        -20 <= dy <= 20,
    ensures
        r == ship_pixel_rel(dx as int, dy as int),
{
    proof {
        crate::math::lemma_mul_bound(dx as int, dx as int, 20, 20);
        crate::math::lemma_mul_bound(dy as int, dy as int, 20, 20);
        crate::math::lemma_mul_bound(dy as int - 10, dy as int - 10, 30, 30);
    }
    if -4 <= dy && dy <= 4 && -5 <= dx && dx <= 5 && dx * dx + dy * dy <= 12 {
        let s: i64 = crate::math::sin_turn(dx * 7301);
        let c: i64 = crate::math::cos_turn(dy * 7301);
        proof {
            crate::math::lemma_mul_bound(s as int, c as int, 1000, 1000);
        }
        let p: i64 = s * c;
        let pa: i64 = if p >= 0 {
            p
        } else {
            -p
        };
        let v: i64 = pa / 1000;
        proof {
            vstd::arithmetic::div_mod::lemma_div_pos_is_pos(pa as int, 1000);
            vstd::arithmetic::div_mod::lemma_div_is_ordered(pa as int, 1_000_000, 1000);
            vstd::arithmetic::div_mod::lemma_div_pos_is_pos(200 * (v as int), 1000);
            vstd::arithmetic::div_mod::lemma_div_is_ordered(200 * (v as int), 200_000, 1000);
        }
        Some(crate::color::shade_color(SHIP_COCKPIT_COLOR, 800 + 200 * v / 1000))
    } else if 10 <= dy && dy <= 12 && -4 <= dx && dx <= 4 && dx * dx + (dy - 10) * (dy - 10)
        <= 9 {
        Some(SHIP_ENGINE_COLOR)
    } else if -6 <= dy && dy <= 6 && ((-16 <= dx && dx <= -8) || (8 <= dx && dx <= 16)) {
        Some(SHIP_WING_COLOR)
    } else if -12 <= dx && dx <= 12 && -12 <= dy && dy <= 12 && dx * dx + dy * dy <= 144 {
        let s: i64 = crate::math::sin_turn(dx * 5215);
        let c: i64 = crate::math::cos_turn(dy * 5215);
        proof {
            crate::math::lemma_mul_bound(s as int, c as int, 1000, 1000);
        }
        let p: i64 = s * c;
        let pa: i64 = if p >= 0 {
            p
        } else {
            -p
        };
        let v: i64 = pa / 1000;
        proof {
            vstd::arithmetic::div_mod::lemma_div_pos_is_pos(pa as int, 1000);
            vstd::arithmetic::div_mod::lemma_div_is_ordered(pa as int, 1_000_000, 1000);
            vstd::arithmetic::div_mod::lemma_div_pos_is_pos(300 * (v as int), 1000);
            vstd::arithmetic::div_mod::lemma_div_is_ordered(300 * (v as int), 300_000, 1000);
        }
        Some(crate::color::shade_color(SHIP_BODY_COLOR, 700 + 300 * v / 1000))
    } else {
        None
    }
}

impl Renderer {
    /// Draws the ship sprite anchored at whole-pixel position `(cx, cy)`:
    /// each pixel of the sprite takes its layered color, every other pixel
    /// keeps its previous value.
    pub fn draw_ship(&mut self, screen_pos: (i64, i64))
        requires
            old(self).wf(),
            -10_000_000 <= screen_pos.0 <= 10_000_000,
            -10_000_000 <= screen_pos.1 <= 10_000_000,
        ensures
            final(self).wf(),
            final(self).width == old(self).width,
            final(self).height == old(self).height,
            final(self).camera_x == old(self).camera_x,
            final(self).camera_z == old(self).camera_z,
            final(self).zoom == old(self).zoom,
            final(self).buffer@.len() == old(self).buffer@.len(),
            forall|px: int, py: int|
                0 <= px < old(self).width && 0 <= py < old(self).height
                    ==> #[trigger] final(self).buffer@[pix(old(self).width as int, px, py)] == (
                match ship_pixel(screen_pos.0 as int, screen_pos.1 as int, px, py) {
                    Some(c) => c,
                    None => old(self).buffer@[pix(old(self).width as int, px, py)],
                }),
    {
        let cx: i64 = screen_pos.0;
        let cy: i64 = screen_pos.1;
        let ghost w_i = old(self).width as int;
        let ghost h_i = old(self).height as int;
        let mut dy: i64 = -16;
        while dy <= 16
            invariant
                -16 <= dy <= 17,
                self.wf(),
                self.width == old(self).width,
                self.height == old(self).height,
                self.camera_x == old(self).camera_x,
                self.camera_z == old(self).camera_z,
                self.zoom == old(self).zoom,
                self.buffer@.len() == old(self).buffer@.len(),
                w_i == self.width as int,
                h_i == self.height as int,
                cx == screen_pos.0,
                cy == screen_pos.1,
                -10_000_000 <= cx <= 10_000_000,
                -10_000_000 <= cy <= 10_000_000,
                forall|qx: int, qy: int|
                    0 <= qx < w_i && 0 <= qy < h_i ==> #[trigger] self.buffer@[pix(w_i, qx, qy)]
                        == (if qy - cy < dy {
                        match ship_pixel_rel(qx - cx, qy - cy) {
                            Some(c) => c,
                            None => old(self).buffer@[pix(w_i, qx, qy)],
                        }
                    } else {
                        old(self).buffer@[pix(w_i, qx, qy)]
                    }),
            decreases 17 - dy,
        {
            let mut dx: i64 = -16;
            while dx <= 16
                invariant
                    -16 <= dx <= 17,
                    -16 <= dy <= 16,
                    self.wf(),
                    self.width == old(self).width,
                    self.height == old(self).height,
                    self.camera_x == old(self).camera_x,
                    self.camera_z == old(self).camera_z,
                    self.zoom == old(self).zoom,
                    self.buffer@.len() == old(self).buffer@.len(),
                    w_i == self.width as int,
                    h_i == self.height as int,
                    cx == screen_pos.0,
                    cy == screen_pos.1,
                    -10_000_000 <= cx <= 10_000_000,
                    -10_000_000 <= cy <= 10_000_000,
                    forall|qx: int, qy: int|
                        0 <= qx < w_i && 0 <= qy < h_i ==> #[trigger] self.buffer@[pix(
                            w_i,
                            qx,
                            qy,
                        )] == (if qy - cy < dy || (qy - cy == dy && qx - cx < dx) {
                            match ship_pixel_rel(qx - cx, qy - cy) {
                                Some(c) => c,
                                None => old(self).buffer@[pix(w_i, qx, qy)],
                            }
                        } else {
                            old(self).buffer@[pix(w_i, qx, qy)]
                        }),
                decreases 17 - dx,
            {
                let ghost buf_before = self.buffer@;
                match ship_pixel_color(dx, dy) {
                    Some(c) => {
                        self.put_pixel(cx + dx, cy + dy, c);
                        proof {
                            lemma_put_pixel_pointwise(
                                w_i,
                                h_i,
                                buf_before,
                                cx as int + dx as int,
                                cy as int + dy as int,
                                c,
                            );
                        }
                    },
                    None => {},
                }
                dx = dx + 1;
            }
            dy = dy + 1;
        }
    }
}

} // verus!
