//! Deterministic starfield background: a fixed hash of the pixel
//! coordinates picks a brightness tier, so star placement is identical
//! every frame by construction, with no time input anywhere.

use vstd::prelude::*;
use crate::renderer::Renderer;
use crate::renderer::pix;
use crate::renderer::lemma_put_pixel_pointwise;

verus! {

/// The per-pixel hash: fixed multipliers and xor mask over the
/// coordinates. For any on-screen coordinate the products stay far below
/// the 32-bit wraparound point.
pub open spec fn star_hash(x: int, y: int) -> u32 {
    (((x * 1973) as u32) ^ ((y * 9277) as u32)) ^ 0x12345u32
}

/// The brightness tier of pixel `(x, y)`: a bright white, mid gray, or
/// faint blue star, or `None` where the background shows through.
pub open spec fn star_color_at(x: int, y: int) -> Option<u32> {
    let h = star_hash(x, y);
    if h % 1500u32 == 0 {
        Some(0xFFFFFFu32)
    } else if h % 3000u32 == 0 {
        Some(0xCCCCCCu32)
    } else if h % 6000u32 == 0 {
        Some(0x9999FFu32)
    } else {
        None
    }
}

/// Starfield determinism: the tier is a function of the pixel coordinates
/// alone, so any two generator passes agree at every pixel.
pub proof fn lemma_starfield_deterministic(r1: Option<u32>, r2: Option<u32>, x: int, y: int)
    requires
        r1 == star_color_at(x, y),
        r2 == star_color_at(x, y),
    ensures
        r1 == r2,
{
}

/// Buffer-level determinism: any two buffers that satisfy the starfield
/// pass's contract over the same base buffer are identical — the pass has
/// exactly one possible outcome, with no hidden input.
pub proof fn lemma_star_pass_unique(w: int, h: int, base: Seq<u32>, b1: Seq<u32>, b2: Seq<u32>)
    requires
        w > 0,
        h > 0,
        base.len() == w * h,
        b1.len() == base.len(),
        b2.len() == base.len(),
        forall|px: int, py: int|
            0 <= px < w && 0 <= py < h ==> #[trigger] b1[pix(w, px, py)] == (match star_color_at(
                px,
                py,
            ) {
                Some(c) => c,
                None => base[pix(w, px, py)],
            }),
        forall|px: int, py: int|
            0 <= px < w && 0 <= py < h ==> #[trigger] b2[pix(w, px, py)] == (match star_color_at(
                px,
                py,
            ) {
                Some(c) => c,
                None => base[pix(w, px, py)],
            }),
    ensures
        b1 == b2,
{
    assert forall|i: int| 0 <= i < base.len() implies b1[i] == b2[i] by {
        vstd::arithmetic::div_mod::lemma_fundamental_div_mod(i, w);
        vstd::arithmetic::div_mod::lemma_mod_bound(i, w);
        vstd::arithmetic::div_mod::lemma_div_pos_is_pos(i, w);
        let px = i % w;
        let py = i / w;
        assert(py < h) by (nonlinear_arith)
            requires
                w > 0,
                h > 0,
                i < w * h,
                i == w * py + px,
                px >= 0,
        ;
        assert(py * w == w * py) by (nonlinear_arith);
        assert(pix(w, px, py) == i);
        assert(b1[pix(w, px, py)] == b2[pix(w, px, py)]);
    }
    assert(b1 =~= b2);
}

/// Computes the brightness tier of one pixel.
pub fn star_brightness(x: usize, y: usize) -> (r: Option<u32>)
    requires
        x < 4096,
        y < 4096,
    ensures
        r == star_color_at(x as int, y as int),
{
    let h: u32 = ((x as u32) * 1973) ^ ((y as u32) * 9277) ^ 0x12345;
    if h % 1500 == 0 {
        Some(0xFFFFFF)
    } else if h % 3000 == 0 {
        Some(0xCCCCCC)
    } else if h % 6000 == 0 {
        Some(0x9999FF)
    } else {
        None
    }
}

impl Renderer {
    /// Writes the starfield over the whole buffer: each pixel takes its
    /// brightness tier, and pixels without a star are left untouched.
    pub fn draw_stars(&mut self)
        requires
            old(self).wf(),
        ensures
            final(self).wf(),
            final(self).width == old(self).width,
            final(self).height == old(self).height,
            final(self).camera_x == old(self).camera_x,
            final(self).camera_z == old(self).camera_z,
            final(self).zoom == old(self).zoom,
            final(self).buffer@.len() == old(self).buffer@.len(),
            forall|px: int, py: int|
                0 <= px < old(self).width && 0 <= py < old(self).height
                    ==> #[trigger] final(self).buffer@[pix(old(self).width as int, px, py)] == (
                match star_color_at(px, py) {
                    Some(c) => c,
                    None => old(self).buffer@[pix(old(self).width as int, px, py)],
                }),
    {
        let w: usize = self.width;
        let h: usize = self.height;
        let ghost w_i = w as int;
        let mut y: usize = 0;
        while y < h
            invariant
                y <= h,
                self.wf(),
                self.width == old(self).width,
                self.height == old(self).height,
                self.camera_x == old(self).camera_x,
                self.camera_z == old(self).camera_z,
                self.zoom == old(self).zoom,
                self.buffer@.len() == old(self).buffer@.len(),
                w == self.width,
                h == self.height,
                w_i == w as int,
                forall|px: int, py: int|
                    0 <= px < w && 0 <= py < h ==> #[trigger] self.buffer@[pix(w_i, px, py)] == (
                    if py < y {
                        match star_color_at(px, py) {
                            Some(c) => c,
                            None => old(self).buffer@[pix(w_i, px, py)],
                        }
                    } else {
                        old(self).buffer@[pix(w_i, px, py)]
                    }),
            decreases h - y,
        {
            let mut x: usize = 0;
            while x < w
                invariant
                    x <= w,
                    y < h,
                    self.wf(),
                    self.width == old(self).width,
                    self.height == old(self).height,
                    self.camera_x == old(self).camera_x,
                    self.camera_z == old(self).camera_z,
                    self.zoom == old(self).zoom,
                    self.buffer@.len() == old(self).buffer@.len(),
                    w == self.width,
                    h == self.height,
                    w_i == w as int,
                    forall|px: int, py: int|
                        0 <= px < w && 0 <= py < h ==> #[trigger] self.buffer@[pix(w_i, px, py)]
                            == (if py < y || (py == y && px < x) {
                            match star_color_at(px, py) {
                                Some(c) => c,
                                None => old(self).buffer@[pix(w_i, px, py)],
                            }
                        } else {
                            old(self).buffer@[pix(w_i, px, py)]
                        }),
                decreases w - x,
            {
                let ghost buf_before = self.buffer@;
                match star_brightness(x, y) {
                    Some(c) => {
                        self.put_pixel(x as i64, y as i64, c);
                        proof {
                            lemma_put_pixel_pointwise(
                                w_i,
                                h as int,
                                buf_before,
                                x as int,
                                y as int,
                                c,
                            );
                        }
                    },
                    None => {},
                }
                x = x + 1;
            }
            y = y + 1;
        }
    }
}

} // verus!
