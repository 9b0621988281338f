//! The sphere rasterizer's per-pixel shading model.
//!
//! A body's disc is treated as the front hemisphere of a unit sphere seen
//! orthographically. Each covered pixel gets a stylized Lambertian-plus-
//! ambient intensity — the light direction points at the central body's
//! screen position, with a fixed synthetic out-of-plane component — times a
//! procedural surface pattern, and the body's base color is scaled by the
//! result. The central body itself is emissive: its raw color is written
//! unshaded.

use vstd::prelude::*;
use crate::math::tdiv;
use crate::math::clamp_spec;
use crate::math::sqrt_floor;
use crate::math::sin_turn_spec;
use crate::math::cos_turn_spec;
use crate::math::atan2_turn_spec;
use crate::math::RAD_TO_TURN;
use crate::math::lemma_sin_turn_periodic;
use crate::color::shade_color_spec;

verus! {

/// Ambient light floor, fixed-point (a quarter of full intensity).
pub const AMBIENT: i64 = 250;

/// Fixed out-of-plane light component, fixed-point.
pub const LIGHT_Z: i64 = 400;

/// World radius (fixed-point) at and above which a body gets the banded
/// "gas giant" pattern rather than the speckled one.
pub const BAND_THRESHOLD: i64 = 16_000;

/// Banded pattern sample in `[0, FP]`: a sine of six times the latitude
/// plus twice the longitude, shifted into the unit range.
pub open spec fn banded_value(lat: int, long_turn: int) -> int {
    (sin_turn_spec(tdiv(lat * 6 * (RAD_TO_TURN as int), 1000) + 2 * long_turn) + 1000) / 2
}

/// Banded pattern factor in `[600, FP]`.
pub open spec fn banded_pattern(lat: int, long_turn: int) -> int {
    600 + 400 * banded_value(lat, long_turn) / 1000
}

/// Speckled pattern sample in `[0, FP]`: the magnitude of a product of
/// waves over the surface normal.
pub open spec fn speckled_value(nx: int, nz: int, phase_turn: int) -> int {
    let s = sin_turn_spec(tdiv(nx * 8 * (RAD_TO_TURN as int), 1000) + phase_turn);
    let c = cos_turn_spec(tdiv(nz * 8 * (RAD_TO_TURN as int), 1000));
    let p = s * c;
    (if p >= 0 {
        p
    } else {
        -p
    }) / 1000
}

/// Speckled pattern factor in `[700, FP]`.
pub open spec fn speckled_pattern(nx: int, nz: int, phase_turn: int) -> int {
    700 + 300 * speckled_value(nx, nz, phase_turn) / 1000
}

/// The banded pattern repeats when the longitude advances half a turn,
/// because the longitude enters the sine doubled.
pub proof fn lemma_banded_longitude_period(lat: int, long_turn: int)
    ensures
        banded_pattern(lat, long_turn + 32768) == banded_pattern(lat, long_turn),
        banded_value(lat, long_turn + 32768) == banded_value(lat, long_turn),
{
    lemma_sin_turn_periodic(tdiv(lat * 6 * (RAD_TO_TURN as int), 1000) + 2 * long_turn);
}

/// Normalized screen-plane direction from the body's center toward the
/// light source, fixed-point, with a minimum-length guard against a body
/// sitting exactly on the light source.
pub open spec fn light_dir_x(cx: int, cy: int, sun_x: int, sun_y: int) -> int {
    let lx0 = sun_x - cx;
    let ly0 = sun_y - cy;
    let len0 = sqrt_floor(lx0 * lx0 + ly0 * ly0);
    let len = if len0 < 1 {
        1
    } else {
        len0
    };
    tdiv(1000 * lx0, len)
}

/// The y component of the normalized light direction.
pub open spec fn light_dir_y(cx: int, cy: int, sun_x: int, sun_y: int) -> int {
    let lx0 = sun_x - cx;
    let ly0 = sun_y - cy;
    let len0 = sqrt_floor(lx0 * lx0 + ly0 * ly0);
    let len = if len0 < 1 {
        1
    } else {
        len0
    };
    tdiv(1000 * ly0, len)
}

/// Whether the sphere rasterizer covers pixel `(x, y)` for a body at
/// screen center `(cx, cy)` with screen radius `r`: inside the disc, on
/// the front hemisphere.
pub open spec fn sphere_hit(cx: int, cy: int, r: int, x: int, y: int) -> bool {
    let dx = 1000 * x - cx;
    let dy = 1000 * y - cy;
    &&& r > 0
    &&& dx * dx + dy * dy <= r * r
    &&& {
        let nx = tdiv(1000 * dx, r);
        let ny = tdiv(1000 * dy, r);
        1_000_000 - nx * nx - ny * ny > 0
    }
}

/// The color the sphere rasterizer writes at pixel `(x, y)`, or `None`
/// where the pixel is left untouched. This is the whole shading model:
/// disc test, front-hemisphere normal, stylized light direction with the
/// fixed out-of-plane component, ambient-plus-Lambert intensity, the
/// banded or speckled surface pattern, and channel-wise color scaling —
/// except for the emissive central body, which keeps its stored color.
pub open spec fn sphere_color_at(
    is_sun: bool,
    radius_fp: int,
    base_color: u32,
    cx: int,
    cy: int,
    r: int,
    sun_x: int,
    sun_y: int,
    phase_turn: int,
    x: int,
    y: int,
) -> Option<u32> {
    let dx = 1000 * x - cx;
    let dy = 1000 * y - cy;
    if r <= 0 {
        None
    } else if dx * dx + dy * dy > r * r {
        None
    } else {
        let nx = tdiv(1000 * dx, r);
        let ny = tdiv(1000 * dy, r);
        let nzsq = 1_000_000 - nx * nx - ny * ny;
        if nzsq <= 0 {
            None
        } else if is_sun {
            Some(base_color)
        } else {
            let nz = sqrt_floor(nzsq);
            let lx = light_dir_x(cx, cy, sun_x, sun_y);
            let ly = light_dir_y(cx, cy, sun_x, sun_y);
            let dot0 = tdiv(nx * lx + ny * ly + nz * LIGHT_Z, 1000);
            let dot = if dot0 < 0 {
                0
            } else {
                dot0
            };
            let base = AMBIENT + (1000 - AMBIENT) * dot / 1000;
            let pattern = if radius_fp >= BAND_THRESHOLD {
                banded_pattern(ny, atan2_turn_spec(dy, dx) + phase_turn)
            } else {
                speckled_pattern(nx, nz, phase_turn)
            };
            let inten = clamp_spec(base * pattern / 1000, 0, 1000);
            Some(shade_color_spec(base_color, inten))
        }
    }
}

/// The rasterizer writes a pixel exactly on the lattice disc intersected
/// with the front hemisphere — the discrete disc-fill property.
pub proof fn lemma_sphere_written_set(
    is_sun: bool,
    radius_fp: int,
    base_color: u32,
    cx: int,
    cy: int,
    r: int,
    sun_x: int,
    sun_y: int,
    phase_turn: int,
    x: int,
    y: int,
)
    ensures
        sphere_color_at(is_sun, radius_fp, base_color, cx, cy, r, sun_x, sun_y, phase_turn, x, y)
            is Some <==> sphere_hit(cx, cy, r, x, y),
{
}

/// The discrete disc-fill sandwich: every pixel strictly inside the disc
/// is covered, and no pixel outside it is — so the number of covered
/// pixels lies between the lattice counts of the open and the closed
/// disc, the discrete analogue of an area of pi times r squared.
pub proof fn lemma_sphere_fill_bounds(cx: int, cy: int, r: int, x: int, y: int)
    requires
        r > 0,
    ensures
        (1000 * x - cx) * (1000 * x - cx) + (1000 * y - cy) * (1000 * y - cy) < r * r
            ==> sphere_hit(cx, cy, r, x, y),
        sphere_hit(cx, cy, r, x, y) ==> (1000 * x - cx) * (1000 * x - cx) + (1000 * y - cy) * (
        1000 * y - cy) <= r * r,
{
    let dx = 1000 * x - cx;
    let dy = 1000 * y - cy;
    if dx * dx + dy * dy < r * r {
        let adx = if dx >= 0 {
            dx
        } else {
            -dx
        };
        let ady = if dy >= 0 {
            dy
        } else {
            -dy
        };
        assert(adx * adx == dx * dx && ady * ady == dy * dy) by (nonlinear_arith)
            requires
                adx == (if dx >= 0 {
                    dx
                } else {
                    -dx
                }),
                ady == (if dy >= 0 {
                    dy
                } else {
                    -dy
                }),
        ;
        let qx = (1000 * adx) / r;
        let qy = (1000 * ady) / r;
        vstd::arithmetic::div_mod::lemma_div_pos_is_pos(1000 * adx, r);
        vstd::arithmetic::div_mod::lemma_div_pos_is_pos(1000 * ady, r);
        crate::math::lemma_floor_bracket(1000 * adx, r);
        crate::math::lemma_floor_bracket(1000 * ady, r);
        let t = tdiv(1000 * dx, r);
        let s = tdiv(1000 * dy, r);
        assert(t == qx || t == -qx);
        assert(s == qy || s == -qy);
        assert(t * t == qx * qx) by (nonlinear_arith)
            requires
                t == qx || t == -qx,
        ;
        assert(s * s == qy * qy) by (nonlinear_arith)
            requires
                s == qy || s == -qy,
        ;
        assert((qx * qx) * (r * r) <= (1000 * adx) * (1000 * adx)) by (nonlinear_arith)
            requires
                qx >= 0,
                r > 0,
                adx >= 0,
                r * qx <= 1000 * adx,
        ;
        assert((qy * qy) * (r * r) <= (1000 * ady) * (1000 * ady)) by (nonlinear_arith)
            requires
                qy >= 0,
                r > 0,
                ady >= 0,
                r * qy <= 1000 * ady,
        ;
        assert(qx * qx + qy * qy < 1_000_000) by (nonlinear_arith)
            requires
                r > 0,
                (qx * qx) * (r * r) <= (1000 * adx) * (1000 * adx),
                (qy * qy) * (r * r) <= (1000 * ady) * (1000 * ady),
                adx * adx + ady * ady < r * r,
                adx >= 0,
                ady >= 0,
        ;
    }
}

/// The central body is emissive: wherever it covers a pixel, the color
/// written is exactly its stored base color, whatever the camera pose,
/// zoom, light geometry or time.
pub proof fn lemma_sun_unshaded(
    radius_fp: int,
    base_color: u32,
    cx: int,
    cy: int,
    r: int,
    sun_x: int,
    sun_y: int,
    phase_turn: int,
    x: int,
    y: int,
)
    ensures
        sphere_hit(cx, cy, r, x, y) ==> sphere_color_at(
            true,
            radius_fp,
            base_color,
            cx,
            cy,
            r,
            sun_x,
            sun_y,
            phase_turn,
            x,
            y,
        ) == Some(base_color),
{
}

/// Shades one pixel of a body's disc, mirroring [`sphere_color_at`]
/// exactly. Callers keep the pixel within one unit of the disc's bounding
/// box, which bounds every intermediate product.
pub fn shade_sphere_point(
    is_sun: bool,
    radius_fp: i64,
    base_color: u32,
    cx: i64,
    cy: i64,
    r: i64,
    sun_x: i64,
    sun_y: i64,
    phase: i64,
    x: i64,
    y: i64,
) -> (res: Option<u32>)
    requires
        0 < r <= 10_000_000,
        -1_500_000_000 <= cx <= 1_500_000_000,
        -1_500_000_000 <= cy <= 1_500_000_000,
        -1_500_000_000 <= sun_x <= 1_500_000_000,
        -1_500_000_000 <= sun_y <= 1_500_000_000,
        -100_000_000_000_000 <= phase <= 100_000_000_000_000,
        -(r + 1000) <= 1000 * x - cx <= r + 1000,
        -(r + 1000) <= 1000 * y - cy <= r + 1000,
    ensures
        res == sphere_color_at(
            is_sun,
            radius_fp as int,
            base_color,
            cx as int,
            cy as int,
            r as int,
            sun_x as int,
            sun_y as int,
            phase as int,
            x as int,
            y as int,
        ),
{
    let dx: i64 = 1000 * x - cx;
    let dy: i64 = 1000 * y - cy;
    proof {
        crate::math::lemma_mul_bound(dx as int, dx as int, 10_001_000, 10_001_000);
        crate::math::lemma_mul_bound(dy as int, dy as int, 10_001_000, 10_001_000);
        crate::math::lemma_mul_bound(r as int, r as int, 10_000_000, 10_000_000);
        crate::math::lemma_square_nonneg(dx as int);
        crate::math::lemma_square_nonneg(dy as int);
    }
    let dist2: i64 = dx * dx + dy * dy;
    let r2: i64 = r * r;
    if dist2 > r2 {
        return None;
    }
    proof {
        crate::math::lemma_sq_le(dx as int, r as int);
        crate::math::lemma_sq_le(dy as int, r as int);
        crate::math::lemma_tdiv_bound(1000 * (dx as int), r as int, 1000 * (r as int));
        crate::math::lemma_tdiv_bound(1000 * (dy as int), r as int, 1000 * (r as int));
        vstd::arithmetic::div_mod::lemma_div_multiples_vanish(1000, r as int);
    }
    let nx: i64 = crate::math::div_trunc(1000 * dx, r);
    let ny: i64 = crate::math::div_trunc(1000 * dy, r);
    proof {
        crate::math::lemma_mul_bound(nx as int, nx as int, 1000, 1000);
        crate::math::lemma_mul_bound(ny as int, ny as int, 1000, 1000);
        crate::math::lemma_square_nonneg(nx as int);
        crate::math::lemma_square_nonneg(ny as int);
    }
    let nzsq: i64 = 1_000_000 - nx * nx - ny * ny;
    if nzsq <= 0 {
        return None;
    }
    if is_sun {
        return Some(base_color);
    }
    let nzu: u64 = crate::math::isqrt(nzsq as u64);
    proof {
        crate::math::lemma_sqrt_floor_monotonic(nzsq as int, 1_000_000);
        crate::math::lemma_sqrt_unique(1_000_000, 1000);
    }
    let nz: i64 = nzu as i64;
    let lx0: i64 = sun_x - cx;
    let ly0: i64 = sun_y - cy;
    let axu: u64 = (if lx0 >= 0 {
        lx0
    } else {
        -lx0
    }) as u64;
    let ayu: u64 = (if ly0 >= 0 {
        ly0
    } else {
        -ly0
    }) as u64;
    proof {
        crate::math::lemma_mul_bound(axu as int, axu as int, 3_000_000_000, 3_000_000_000);
        crate::math::lemma_mul_bound(ayu as int, ayu as int, 3_000_000_000, 3_000_000_000);
        crate::math::lemma_square_nonneg(axu as int);
        crate::math::lemma_square_nonneg(ayu as int);
        assert((axu as int) * (axu as int) + (ayu as int) * (ayu as int) == (lx0 as int) * (
        lx0 as int) + (ly0 as int) * (ly0 as int)) by (nonlinear_arith)
            requires
                axu as int == (if lx0 >= 0 {
                    lx0 as int
                } else {
                    -(lx0 as int)
                }),
                ayu as int == (if ly0 >= 0 {
                    ly0 as int
                } else {
                    -(ly0 as int)
                }),
        ;
    }
    let sq: u64 = axu * axu + ayu * ayu;
    let len0: u64 = crate::math::isqrt(sq);
    proof {
        if len0 >= 4_294_967_296 {
            assert(false) by (nonlinear_arith)
                requires
                    (len0 as int) * (len0 as int) <= sq as int,
                    sq <= 18_000_000_000_000_000_000u64,
                    len0 >= 4_294_967_296u64,
            ;
        }
    }
    let len: i64 = if len0 < 1 {
        1
    } else {
        len0 as i64
    };
    proof {
        crate::math::lemma_sqrt_sum_ge_abs(lx0 as int, ly0 as int);
        crate::math::lemma_sqrt_sum_ge_abs(ly0 as int, lx0 as int);
        assert((ly0 as int) * (ly0 as int) + (lx0 as int) * (lx0 as int) == (lx0 as int) * (
        lx0 as int) + (ly0 as int) * (ly0 as int)) by (nonlinear_arith);
        crate::math::lemma_tdiv_bound(1000 * (lx0 as int), len as int, 1000 * (len as int));
        crate::math::lemma_tdiv_bound(1000 * (ly0 as int), len as int, 1000 * (len as int));
        vstd::arithmetic::div_mod::lemma_div_multiples_vanish(1000, len as int);
    }
    let lx: i64 = crate::math::div_trunc(1000 * lx0, len);
    let ly: i64 = crate::math::div_trunc(1000 * ly0, len);
    proof {
        crate::math::lemma_mul_bound(nx as int, lx as int, 1000, 1000);
        crate::math::lemma_mul_bound(ny as int, ly as int, 1000, 1000);
        crate::math::lemma_tdiv_bound(
            (nx as int) * (lx as int) + (ny as int) * (ly as int) + (nz as int) * 400,
            1000,
            2_400_000,
        );
    }
    let dotsum: i64 = nx * lx + ny * ly + nz * LIGHT_Z;
    let dot0: i64 = crate::math::div_trunc(dotsum, 1000);
    let dot: i64 = if dot0 < 0 {
        0
    } else {
        dot0
    };
    proof {
        vstd::arithmetic::div_mod::lemma_div_pos_is_pos(750 * (dot as int), 1000);
        vstd::arithmetic::div_mod::lemma_div_is_ordered(750 * (dot as int), 1_800_000, 1000);
    }
    let base: i64 = AMBIENT + (1000 - AMBIENT) * dot / 1000;
    let pattern: i64 = if radius_fp >= BAND_THRESHOLD {
        let long: i64 = crate::math::atan2_turn(dy, dx) + phase;
        let latarg: i64 = crate::math::div_trunc(ny * 6 * RAD_TO_TURN, 1000);
        let s: i64 = crate::math::sin_turn(latarg + 2 * long);
        let v: i64 = (s + 1000) / 2;
        proof {
            vstd::arithmetic::div_mod::lemma_div_pos_is_pos(400 * (v as int), 1000);
            vstd::arithmetic::div_mod::lemma_div_is_ordered(400 * (v as int), 400_000, 1000);
        }
        600 + 400 * v / 1000
    } else {
        let s: i64 = crate::math::sin_turn(crate::math::div_trunc(nx * 8 * RAD_TO_TURN, 1000) + phase);
        let cz: i64 = crate::math::cos_turn(crate::math::div_trunc(nz * 8 * RAD_TO_TURN, 1000));
        proof {
            crate::math::lemma_mul_bound(s as int, cz as int, 1000, 1000);
        }
        let p: i64 = s * cz;
        let pa: i64 = if p >= 0 {
            p
        } else {
            -p
        };
        let v: i64 = pa / 1000;
        proof {
            vstd::arithmetic::div_mod::lemma_div_pos_is_pos(pa as int, 1000);
            vstd::arithmetic::div_mod::lemma_div_is_ordered(pa as int, 1_000_000, 1000);
            vstd::arithmetic::div_mod::lemma_div_pos_is_pos(300 * (v as int), 1000);
            vstd::arithmetic::div_mod::lemma_div_is_ordered(300 * (v as int), 300_000, 1000);
        }
        700 + 300 * v / 1000
    };
    proof {
        crate::math::lemma_mul_bound(base as int, pattern as int, 2050, 1000);
        vstd::arithmetic::mul::lemma_mul_nonnegative(base as int, pattern as int);
        vstd::arithmetic::div_mod::lemma_div_pos_is_pos((base as int) * (pattern as int), 1000);
    }
    let inten: i64 = (base * pattern) / 1000;
    let shaded: u32 = crate::color::shade_color(base_color, inten);
    Some(shaded)
}

/// Outside the disc's bounding box no pixel is covered.
pub proof fn lemma_sphere_outside_bbox(
    is_sun: bool,
    radius_fp: int,
    base_color: u32,
    cx: int,
    cy: int,
    r: int,
    sun_x: int,
    sun_y: int,
    phase_turn: int,
    x: int,
    y: int,
)
    requires
        1000 * x < cx - r || 1000 * x > cx + r || 1000 * y < cy - r || 1000 * y > cy + r,
    ensures
        sphere_color_at(is_sun, radius_fp, base_color, cx, cy, r, sun_x, sun_y, phase_turn, x, y)
            is None,
{
    if r > 0 {
        assert((1000 * x - cx) * (1000 * x - cx) + (1000 * y - cy) * (1000 * y - cy) > r
            * r) by (nonlinear_arith)
            requires
                r > 0,
                1000 * x < cx - r || 1000 * x > cx + r || 1000 * y < cy - r || 1000 * y > cy + r,
        ;
    }
}

impl crate::renderer::Renderer {
    /// Draws one body as a shaded disc: every pixel of the lattice disc on
    /// the front hemisphere takes its shaded color, every other pixel is
    /// left exactly as it was.
    pub fn draw_planet(
        &mut self,
        screen_pos: (i64, i64),
        planet: &crate::planet::Planet,
        sun_screen: (i64, i64),
        radius: i64,
        rotation_phase: i64,
    )
        requires
            old(self).wf(),
            planet.wf(),
            -1_500_000_000 <= screen_pos.0 <= 1_500_000_000,
            -1_500_000_000 <= screen_pos.1 <= 1_500_000_000,
            -1_500_000_000 <= sun_screen.0 <= 1_500_000_000,
            -1_500_000_000 <= sun_screen.1 <= 1_500_000_000,
            0 <= radius <= 10_000_000,
            -100_000_000_000_000 <= rotation_phase <= 100_000_000_000_000,
        ensures
            final(self).wf(),
            final(self).width == old(self).width,
            final(self).height == old(self).height,
            final(self).camera_x == old(self).camera_x,
            final(self).camera_z == old(self).camera_z,
            final(self).zoom == old(self).zoom,
            final(self).buffer@.len() == old(self).buffer@.len(),
            forall|px: int, py: int|
                0 <= px < old(self).width && 0 <= py < old(self).height
                    ==> #[trigger] final(self).buffer@[crate::renderer::pix(
                    old(self).width as int,
                    px,
                    py,
                )] == (match sphere_color_at(
                    planet.is_sun,
                    planet.radius as int,
                    planet.color,
                    screen_pos.0 as int,
                    screen_pos.1 as int,
                    radius as int,
                    sun_screen.0 as int,
                    sun_screen.1 as int,
                    rotation_phase as int,
                    px,
                    py,
                ) {
                    Some(c) => c,
                    None => old(self).buffer@[crate::renderer::pix(old(self).width as int, px, py)],
                }),
    {
        let cx: i64 = screen_pos.0;
        let cy: i64 = screen_pos.1;
        let ghost w_i = old(self).width as int;
        let ghost h_i = old(self).height as int;
        if radius <= 0 {
            return ;
        }
        proof {
            crate::math::lemma_floor_bracket(cx as int - radius as int, 1000);
            crate::math::lemma_floor_bracket(cy as int - radius as int, 1000);
            crate::math::lemma_floor_bracket(-(cx as int + radius as int), 1000);
            crate::math::lemma_floor_bracket(-(cy as int + radius as int), 1000);
        }
        let min_x: i64 = crate::math::div_floor(cx - radius, 1000);
        let max_x: i64 = crate::math::div_ceil_up(cx + radius, 1000);
        let min_y: i64 = crate::math::div_floor(cy - radius, 1000);
        let max_y: i64 = crate::math::div_ceil_up(cy + radius, 1000);
        proof {
            assert forall|px: int, py: int|
                0 <= px < w_i && 0 <= py < h_i && py < min_y implies sphere_color_at(
                planet.is_sun,
                planet.radius as int,
                planet.color,
                cx as int,
                cy as int,
                radius as int,
                sun_screen.0 as int,
                sun_screen.1 as int,
                rotation_phase as int,
                px,
                py,
            ) is None by {
                lemma_sphere_outside_bbox(
                    planet.is_sun,
                    planet.radius as int,
                    planet.color,
                    cx as int,
                    cy as int,
                    radius as int,
                    sun_screen.0 as int,
                    sun_screen.1 as int,
                    rotation_phase as int,
                    px,
                    py,
                );
            }
        }
        let mut y: i64 = min_y;
        while y <= max_y
            invariant
                min_y <= y <= max_y + 1,
                self.wf(),
                self.width == old(self).width,
                self.height == old(self).height,
                self.camera_x == old(self).camera_x,
                self.camera_z == old(self).camera_z,
                self.zoom == old(self).zoom,
                self.buffer@.len() == old(self).buffer@.len(),
                w_i == self.width as int,
                h_i == self.height as int,
                0 < radius <= 10_000_000,
                -1_500_000_000 <= cx <= 1_500_000_000,
                -1_500_000_000 <= cy <= 1_500_000_000,
                -1_500_000_000 <= sun_screen.0 <= 1_500_000_000,
                -1_500_000_000 <= sun_screen.1 <= 1_500_000_000,
                -100_000_000_000_000 <= rotation_phase <= 100_000_000_000_000,
                cx == screen_pos.0,
                cy == screen_pos.1,
                planet.wf(),
                min_x == (cx as int - radius as int) / 1000,
                max_x == -((-(cx as int + radius as int)) / 1000),
                min_y == (cy as int - radius as int) / 1000,
                max_y == -((-(cy as int + radius as int)) / 1000),
                forall|px: int, py: int|
                    0 <= px < w_i && 0 <= py < h_i ==> #[trigger] self.buffer@[crate::renderer::pix(
                        w_i,
                        px,
                        py,
                    )] == (if py < y {
                        match sphere_color_at(
                            planet.is_sun,
                            planet.radius as int,
                            planet.color,
                            cx as int,
                            cy as int,
                            radius as int,
                            sun_screen.0 as int,
                            sun_screen.1 as int,
                            rotation_phase as int,
                            px,
                            py,
                        ) {
                            Some(c) => c,
                            None => old(self).buffer@[crate::renderer::pix(w_i, px, py)],
                        }
                    } else {
                        old(self).buffer@[crate::renderer::pix(w_i, px, py)]
                    }),
            decreases max_y + 1 - y,
        {
            proof {
                crate::math::lemma_floor_bracket(cx as int - radius as int, 1000);
                crate::math::lemma_floor_bracket(-(cx as int + radius as int), 1000);
                crate::math::lemma_floor_bracket(cy as int - radius as int, 1000);
                crate::math::lemma_floor_bracket(-(cy as int + radius as int), 1000);
                assert forall|px: int|
                    0 <= px < w_i && px < min_x implies sphere_color_at(
                    planet.is_sun,
                    planet.radius as int,
                    planet.color,
                    cx as int,
                    cy as int,
                    radius as int,
                    sun_screen.0 as int,
                    sun_screen.1 as int,
                    rotation_phase as int,
                    px,
                    y as int,
                ) is None by {
                    lemma_sphere_outside_bbox(
                        planet.is_sun,
                        planet.radius as int,
                        planet.color,
                        cx as int,
                        cy as int,
                        radius as int,
                        sun_screen.0 as int,
                        sun_screen.1 as int,
                        rotation_phase as int,
                        px,
                        y as int,
                    );
                }
            }
            let mut x: i64 = min_x;
            while x <= max_x
                invariant
                    min_x <= x <= max_x + 1,
                    min_y <= y <= max_y,
                    self.wf(),
                    self.width == old(self).width,
                    self.height == old(self).height,
                    self.camera_x == old(self).camera_x,
                    self.camera_z == old(self).camera_z,
                    self.zoom == old(self).zoom,
                    self.buffer@.len() == old(self).buffer@.len(),
                    w_i == self.width as int,
                    h_i == self.height as int,
                    0 < radius <= 10_000_000,
                    -1_500_000_000 <= cx <= 1_500_000_000,
                    -1_500_000_000 <= cy <= 1_500_000_000,
                    -1_500_000_000 <= sun_screen.0 <= 1_500_000_000,
                    -1_500_000_000 <= sun_screen.1 <= 1_500_000_000,
                    -100_000_000_000_000 <= rotation_phase <= 100_000_000_000_000,
                    cx == screen_pos.0,
                    cy == screen_pos.1,
                    planet.wf(),
                    min_x == (cx as int - radius as int) / 1000,
                    max_x == -((-(cx as int + radius as int)) / 1000),
                    min_y == (cy as int - radius as int) / 1000,
                    max_y == -((-(cy as int + radius as int)) / 1000),
                    forall|px: int, py: int|
                        0 <= px < w_i && 0 <= py < h_i
                            ==> #[trigger] self.buffer@[crate::renderer::pix(w_i, px, py)] == (
                        if py < y || (py == y && px < x) {
                            match sphere_color_at(
                                planet.is_sun,
                                planet.radius as int,
                                planet.color,
                                cx as int,
                                cy as int,
                                radius as int,
                                sun_screen.0 as int,
                                sun_screen.1 as int,
                                rotation_phase as int,
                                px,
                                py,
                            ) {
                                Some(c) => c,
                                None => old(self).buffer@[crate::renderer::pix(w_i, px, py)],
                            }
                        } else {
                            old(self).buffer@[crate::renderer::pix(w_i, px, py)]
                        }),
                decreases max_x + 1 - x,
            {
                proof {
                    crate::math::lemma_floor_bracket(cx as int - radius as int, 1000);
                    crate::math::lemma_floor_bracket(-(cx as int + radius as int), 1000);
                }
                let ghost buf_before = self.buffer@;
                match shade_sphere_point(
                    planet.is_sun,
                    planet.radius,
                    planet.color,
                    cx,
                    cy,
                    radius,
                    sun_screen.0,
                    sun_screen.1,
                    rotation_phase,
                    x,
                    y,
                ) {
                    Some(c) => {
                        self.put_pixel(x, y, c);
                        proof {
                            crate::renderer::lemma_put_pixel_pointwise(
                                w_i,
                                h_i,
                                buf_before,
                                x as int,
                                y as int,
                                c,
                            );
                        }
                    },
                    None => {},
                }
                x = x + 1;
            }
            proof {
                crate::math::lemma_floor_bracket(-(cx as int + radius as int), 1000);
                assert forall|px: int|
                    0 <= px < w_i && px > max_x implies sphere_color_at(
                    planet.is_sun,
                    planet.radius as int,
                    planet.color,
                    cx as int,
                    cy as int,
                    radius as int,
                    sun_screen.0 as int,
                    sun_screen.1 as int,
                    rotation_phase as int,
                    px,
                    y as int,
                ) is None by {
                    lemma_sphere_outside_bbox(
                        planet.is_sun,
                        planet.radius as int,
                        planet.color,
                        cx as int,
                        cy as int,
                        radius as int,
                        sun_screen.0 as int,
                        sun_screen.1 as int,
                        rotation_phase as int,
                        px,
                        y as int,
                    );
                }
            }
            y = y + 1;
        }
        proof {
            crate::math::lemma_floor_bracket(-(cy as int + radius as int), 1000);
            assert forall|px: int, py: int|
                0 <= px < w_i && 0 <= py < h_i && py > max_y implies sphere_color_at(
                planet.is_sun,
                planet.radius as int,
                planet.color,
                cx as int,
                cy as int,
                radius as int,
                sun_screen.0 as int,
                sun_screen.1 as int,
                rotation_phase as int,
                px,
                py,
            ) is None by {
                lemma_sphere_outside_bbox(
                    planet.is_sun,
                    planet.radius as int,
                    planet.color,
                    cx as int,
                    cy as int,
                    radius as int,
                    sun_screen.0 as int,
                    sun_screen.1 as int,
                    rotation_phase as int,
                    px,
                    py,
                );
            }
        }
    }
}

} // verus!
