//! One frame, end to end: clear, starfield, orbit outlines, each body as a
//! shaded disc (plus its ring where flagged), then the ship overlay. The
//! whole frame is pinned pixel by pixel by [`frame_color_at`].

use vstd::prelude::*;
use crate::renderer::Renderer;
use crate::renderer::pix;
use crate::planet::Planet;
use crate::math::tdiv;
use crate::math::rdiv;
use crate::math::clamp_spec;
use crate::starfield::star_color_at;
use crate::sphere::sphere_color_at;
use crate::ring::ring_color_at;
use crate::ring::ring_inner_spec;
use crate::ring::ring_outer_spec;
use crate::orbit::orbit_hit;
use crate::ship::ship_pixel;

verus! {

/// The zoom actually used for a frame: the stored zoom clamped into its
/// working range.
pub open spec fn zoom_clamped(z: int) -> int {
    clamp_spec(z, 300, 3000)
}

/// The light source's (central body's) screen x, fixed-point: the world
/// origin projected through the camera.
pub open spec fn sun_screen_x_spec(w: int, cam_x: int, zoom: int) -> int {
    500 * w + tdiv((0 - cam_x) * zoom, 1000)
}

/// The light source's screen y, fixed-point.
pub open spec fn sun_screen_y_spec(h: int, cam_z: int, zoom: int) -> int {
    500 * h + tdiv((0 - cam_z) * zoom, 1000)
}

/// A body's projected screen x at `time`, fixed-point.
pub open spec fn planet_screen_x(p: Planet, time: int, w: int, cam_x: int, zoom: int) -> int {
    500 * w + tdiv((p.orbit_x_spec(time) - cam_x) * zoom, 1000)
}

/// A body's projected screen y at `time`, fixed-point.
pub open spec fn planet_screen_y(p: Planet, time: int, h: int, cam_z: int, zoom: int) -> int {
    500 * h + tdiv((p.orbit_z_spec(time) - cam_z) * zoom, 1000)
}

/// A body's on-screen radius: its world radius scaled by the zoom.
pub open spec fn planet_sr(p: Planet, zoom: int) -> int {
    tdiv(p.radius * zoom, 1000)
}

/// A body's orbit outline radius on screen.
pub open spec fn orbit_sr(p: Planet, zoom: int) -> int {
    tdiv(p.distance_from_sun * zoom, 1000)
}

/// What one body contributes at pixel `(x, y)`: its ring where flagged and
/// hit (the ring is drawn after the disc), else its shaded disc.
pub open spec fn planet_layer_at(
    p: Planet,
    cam_x: int,
    cam_z: int,
    zoom: int,
    time: int,
    w: int,
    h: int,
    x: int,
    y: int,
) -> Option<u32> {
    let cx = planet_screen_x(p, time, w, cam_x, zoom);
    let cy = planet_screen_y(p, time, h, cam_z, zoom);
    let sr = planet_sr(p, zoom);
    let ring = if p.has_ring {
        ring_color_at(cx, cy, ring_inner_spec(sr), ring_outer_spec(sr), crate::ring::RING_COLOR, x, y)
    } else {
        None
    };
    match ring {
        Some(c) => Some(c),
        None => sphere_color_at(
            p.is_sun,
            p.radius as int,
            p.color,
            cx,
            cy,
            sr,
            sun_screen_x_spec(w, cam_x, zoom),
            sun_screen_y_spec(h, cam_z, zoom),
            p.rotation_angle_spec(time),
            x,
            y,
        ),
    }
}

/// A body without the ring flag contributes exactly its shaded disc: no
/// ring is ever rendered for it.
pub proof fn lemma_ring_only_when_flagged(
    p: Planet,
    cam_x: int,
    cam_z: int,
    zoom: int,
    time: int,
    w: int,
    h: int,
    x: int,
    y: int,
)
    requires
        !p.has_ring,
    ensures
        planet_layer_at(p, cam_x, cam_z, zoom, time, w, h, x, y) == sphere_color_at(
            p.is_sun,
            p.radius as int,
            p.color,
            planet_screen_x(p, time, w, cam_x, zoom),
            planet_screen_y(p, time, h, cam_z, zoom),
            planet_sr(p, zoom),
            sun_screen_x_spec(w, cam_x, zoom),
            sun_screen_y_spec(h, cam_z, zoom),
            p.rotation_angle_spec(time),
            x,
            y,
        ),
{
}

/// The ring radii a frame uses for a flagged body are the fixed multiples
/// of the body's own on-screen radius, so ring and body scale with zoom
/// by exactly the same factor: all three derive from
/// `tdiv(radius * zoom, 1000)`.
pub proof fn lemma_ring_scales_like_the_body(p: Planet, zoom: int)
    ensures
        ring_inner_spec(planet_sr(p, zoom)) == planet_sr(p, zoom) * 16 / 10,
        ring_outer_spec(planet_sr(p, zoom)) == planet_sr(p, zoom) * 19 / 10,
        planet_sr(p, zoom) == tdiv(p.radius * zoom, 1000),
{
}

/// What the bodies drawn in input order leave at pixel `(x, y)`: the last
/// body covering the pixel wins (painter's algorithm, no depth test).
pub open spec fn planets_color_at(
    ps: Seq<Planet>,
    cam_x: int,
    cam_z: int,
    zoom: int,
    time: int,
    w: int,
    h: int,
    x: int,
    y: int,
) -> Option<u32>
    decreases ps.len(),
{
    if ps.len() == 0 {
        None
    } else {
        match planet_layer_at(ps.last(), cam_x, cam_z, zoom, time, w, h, x, y) {
            Some(c) => Some(c),
            None => planets_color_at(ps.drop_last(), cam_x, cam_z, zoom, time, w, h, x, y),
        }
    }
}

/// Whether any of the first `n` bodies' orbit outlines covers `(x, y)`.
/// The central body has no outline.
pub open spec fn orbits_hit_upto(
    ps: Seq<Planet>,
    n: int,
    cam_x: int,
    cam_z: int,
    zoom: int,
    w: int,
    h: int,
    x: int,
    y: int,
) -> bool {
    exists|j: int|
        0 <= j < n && !(#[trigger] ps[j]).is_sun && orbit_hit(
            sun_screen_x_spec(w, cam_x, zoom),
            sun_screen_y_spec(h, cam_z, zoom),
            orbit_sr(ps[j], zoom),
            x,
            y,
        )
}

/// The background under everything: a star tier or plain black.
pub open spec fn background_color_at(x: int, y: int) -> u32 {
    match star_color_at(x, y) {
        Some(c) => c,
        None => crate::renderer::BACKGROUND,
    }
}

/// The ship anchor's x pixel: the rounded viewport center.
pub open spec fn ship_anchor_x(w: int) -> int {
    rdiv(500 * w, 1000)
}

/// The ship anchor's y pixel: a fixed offset below the viewport center.
pub open spec fn ship_anchor_y(h: int) -> int {
    rdiv(500 * h + crate::ship::SHIP_OFFSET_Y * 1000, 1000)
}

/// The color of pixel `(x, y)` in a completed frame: ship overlay over
/// bodies (with rings) over orbit outlines over the starfield background.
pub open spec fn frame_color_at(
    ps: Seq<Planet>,
    cam_x: int,
    cam_z: int,
    zoom_raw: int,
    time: int,
    w: int,
    h: int,
    x: int,
    y: int,
) -> u32 {
    let zoom = zoom_clamped(zoom_raw);
    match ship_pixel(ship_anchor_x(w), ship_anchor_y(h), x, y) {
        Some(c) => c,
        None => match planets_color_at(ps, cam_x, cam_z, zoom, time, w, h, x, y) {
            Some(c) => c,
            None => if orbits_hit_upto(
                ps,
                ps.len() as int,
                cam_x,
                cam_z,
                zoom,
                w,
                h,
                x,
                y,
            ) {
                crate::orbit::ORBIT_COLOR
            } else {
                background_color_at(x, y)
            },
        },
    }
}

/// Every pixel the ship covers shows the same color in every frame,
/// whatever the camera pose, the zoom, the time, or the bodies: the
/// overlay is a pure constant of the buffer dimensions.
pub proof fn lemma_ship_pixels_frame_independent(
    ps1: Seq<Planet>,
    ps2: Seq<Planet>,
    cam_x1: int,
    cam_z1: int,
    zoom1: int,
    time1: int,
    cam_x2: int,
    cam_z2: int,
    zoom2: int,
    time2: int,
    w: int,
    h: int,
    x: int,
    y: int,
)
    requires
        ship_pixel(ship_anchor_x(w), ship_anchor_y(h), x, y) is Some,
    ensures
        frame_color_at(ps1, cam_x1, cam_z1, zoom1, time1, w, h, x, y) == frame_color_at(
            ps2,
            cam_x2,
            cam_z2,
            zoom2,
            time2,
            w,
            h,
            x,
            y,
        ),
{
}

impl Renderer {
    /// Renders one complete frame into the buffer from the body list, the
    /// stored camera pose and the elapsed time: background and starfield,
    /// orbit outlines around the projected light source, every body in
    /// input order as a shaded disc with its ring where flagged, and the
    /// ship overlay. Afterwards every pixel equals [`frame_color_at`].
    pub fn render_scene(&mut self, planets: &Vec<Planet>, time: i64)
        requires
            old(self).wf(),
            -100_000_000 <= old(self).camera_x <= 100_000_000,
            -100_000_000 <= old(self).camera_z <= 100_000_000,
            -1_000_000_000 <= time <= 1_000_000_000,
            forall|k: int| 0 <= k < planets@.len() ==> (#[trigger] planets@[k]).wf(),
        ensures
            final(self).wf(),
            final(self).width == old(self).width,
            final(self).height == old(self).height,
            final(self).camera_x == old(self).camera_x,
            final(self).camera_z == old(self).camera_z,
            final(self).zoom == old(self).zoom,
            final(self).buffer@.len() == old(self).buffer@.len(),
            forall|px: int, py: int|
                0 <= px < old(self).width && 0 <= py < old(self).height
                    ==> #[trigger] final(self).buffer@[pix(old(self).width as int, px, py)]
                    == frame_color_at(
                    planets@,
                    old(self).camera_x as int,
                    old(self).camera_z as int,
                    old(self).zoom as int,
                    time as int,
                    old(self).width as int,
                    old(self).height as int,
                    px,
                    py,
                ),
    {
        let ghost w_i = old(self).width as int;
        let ghost h_i = old(self).height as int;
        let ghost ps = planets@;
        let w: usize = self.width;
        let h: usize = self.height;
        let cam_x: i64 = self.camera_x;
        let cam_z: i64 = self.camera_z;
        let zoomc: i64 = crate::math::clamp_i64(self.zoom, 300, 3000);
        let ghost zoom_g = zoomc as int;
        self.clear();
        self.draw_stars();
        proof {
            assert forall|qx: int, qy: int|
                0 <= qx < w_i && 0 <= qy < h_i implies #[trigger] self.buffer@[pix(w_i, qx, qy)]
                == background_color_at(qx, qy) by {
                crate::renderer::lemma_pix_in_range(w_i, h_i, qx, qy);
            }
        }
        proof {
            crate::math::lemma_mul_bound(0 - cam_x as int, zoomc as int, 100_000_000, 3000);
            crate::math::lemma_mul_bound(0 - cam_z as int, zoomc as int, 100_000_000, 3000);
            crate::math::lemma_tdiv_bound(
                (0 - cam_x as int) * (zoomc as int),
                1000,
                300_000_000_000,
            );
            crate::math::lemma_tdiv_bound(
                (0 - cam_z as int) * (zoomc as int),
                1000,
                300_000_000_000,
            );
        }
        let ssx: i64 = 500 * (w as i64) + crate::math::div_trunc((0 - cam_x) * zoomc, 1000);
        let ssy: i64 = 500 * (h as i64) + crate::math::div_trunc((0 - cam_z) * zoomc, 1000);
        let mut k: usize = 0;
        while k < planets.len()
            invariant
                k <= ps.len(),
                ps == planets@,
                self.wf(),
                self.width == old(self).width,
                self.height == old(self).height,
                self.camera_x == old(self).camera_x,
                self.camera_z == old(self).camera_z,
                self.zoom == old(self).zoom,
                self.buffer@.len() == old(self).buffer@.len(),
                w_i == self.width as int,
                h_i == self.height as int,
                w == self.width,
                h == self.height,
                cam_x == old(self).camera_x,
                cam_z == old(self).camera_z,
                -100_000_000 <= cam_x <= 100_000_000,
                -100_000_000 <= cam_z <= 100_000_000,
                -1_000_000_000 <= time <= 1_000_000_000,
                zoom_g == zoomc as int,
                zoom_g == zoom_clamped(old(self).zoom as int),
                300 <= zoomc <= 3000,
                ssx as int == sun_screen_x_spec(w_i, cam_x as int, zoom_g),
                ssy as int == sun_screen_y_spec(h_i, cam_z as int, zoom_g),
                -1_500_000_000 <= ssx <= 1_500_000_000,
                -1_500_000_000 <= ssy <= 1_500_000_000,
                forall|j: int| 0 <= j < ps.len() ==> (#[trigger] ps[j]).wf(),
                forall|qx: int, qy: int|
                    0 <= qx < w_i && 0 <= qy < h_i ==> #[trigger] self.buffer@[pix(w_i, qx, qy)]
                        == (if orbits_hit_upto(
                        ps,
                        k as int,
                        cam_x as int,
                        cam_z as int,
                        zoom_g,
                        w_i,
                        h_i,
                        qx,
                        qy,
                    ) {
                        crate::orbit::ORBIT_COLOR
                    } else {
                        background_color_at(qx, qy)
                    }),
            decreases planets@.len() - k,
        {
            let p = &planets[k];
            proof {
                assert(ps[k as int].wf());
            }
            if !p.is_sun {
                proof {
                    crate::math::lemma_mul_bound(
                        p.distance_from_sun as int,
                        zoomc as int,
                        100_000_000,
                        3000,
                    );
                    vstd::arithmetic::mul::lemma_mul_nonnegative(
                        p.distance_from_sun as int,
                        zoomc as int,
                    );
                    crate::math::lemma_tdiv_bound(
                        (p.distance_from_sun as int) * (zoomc as int),
                        1000,
                        300_000_000_000,
                    );
                    vstd::arithmetic::div_mod::lemma_div_pos_is_pos(
                        (p.distance_from_sun as int) * (zoomc as int),
                        1000,
                    );
                }
                let orbit_r: i64 = crate::math::div_trunc(p.distance_from_sun * zoomc, 1000);
                let ghost buf_prev = self.buffer@;
                self.draw_orbit((ssx, ssy), orbit_r);
                proof {
                    assert forall|qx: int, qy: int|
                        0 <= qx < w_i && 0 <= qy < h_i implies #[trigger] self.buffer@[pix(
                        w_i,
                        qx,
                        qy,
                    )] == (if orbits_hit_upto(
                        ps,
                        k as int + 1,
                        cam_x as int,
                        cam_z as int,
                        zoom_g,
                        w_i,
                        h_i,
                        qx,
                        qy,
                    ) {
                        crate::orbit::ORBIT_COLOR
                    } else {
                        background_color_at(qx, qy)
                    }) by {
                        if orbit_hit(ssx as int, ssy as int, orbit_r as int, qx, qy) {
                            assert(!ps[k as int].is_sun && orbit_hit(
                                sun_screen_x_spec(w_i, cam_x as int, zoom_g),
                                sun_screen_y_spec(h_i, cam_z as int, zoom_g),
                                orbit_sr(ps[k as int], zoom_g),
                                qx,
                                qy,
                            ));
                            assert(orbits_hit_upto(
                                ps,
                                k as int + 1,
                                cam_x as int,
                                cam_z as int,
                                zoom_g,
                                w_i,
                                h_i,
                                qx,
                                qy,
                            ));
                        } else {
                            if orbits_hit_upto(
                                ps,
                                k as int + 1,
                                cam_x as int,
                                cam_z as int,
                                zoom_g,
                                w_i,
                                h_i,
                                qx,
                                qy,
                            ) {
                                let j = choose|j: int|
                                    0 <= j < k as int + 1 && !(#[trigger] ps[j]).is_sun
                                        && orbit_hit(
                                        sun_screen_x_spec(w_i, cam_x as int, zoom_g),
                                        sun_screen_y_spec(h_i, cam_z as int, zoom_g),
                                        orbit_sr(ps[j], zoom_g),
                                        qx,
                                        qy,
                                    );
                                assert(j < k as int);
                                assert(orbits_hit_upto(
                                    ps,
                                    k as int,
                                    cam_x as int,
                                    cam_z as int,
                                    zoom_g,
                                    w_i,
                                    h_i,
                                    qx,
                                    qy,
                                ));
                            } else {
                                if orbits_hit_upto(
                                    ps,
                                    k as int,
                                    cam_x as int,
                                    cam_z as int,
                                    zoom_g,
                                    w_i,
                                    h_i,
                                    qx,
                                    qy,
                                ) {
                                    let j = choose|j: int|
                                        0 <= j < k as int && !(#[trigger] ps[j]).is_sun
                                            && orbit_hit(
                                            sun_screen_x_spec(w_i, cam_x as int, zoom_g),
                                            sun_screen_y_spec(h_i, cam_z as int, zoom_g),
                                            orbit_sr(ps[j], zoom_g),
                                            qx,
                                            qy,
                                        );
                                    assert(orbits_hit_upto(
                                        ps,
                                        k as int + 1,
                                        cam_x as int,
                                        cam_z as int,
                                        zoom_g,
                                        w_i,
                                        h_i,
                                        qx,
                                        qy,
                                    ));
                                }
                            }
                        }
                    }
                }
            } else {
                proof {
                    assert forall|qx: int, qy: int|
                        0 <= qx < w_i && 0 <= qy < h_i implies orbits_hit_upto(
                        ps,
                        k as int + 1,
                        cam_x as int,
                        cam_z as int,
                        zoom_g,
                        w_i,
                        h_i,
                        qx,
                        qy,
                    ) == orbits_hit_upto(
                        ps,
                        k as int,
                        cam_x as int,
                        cam_z as int,
                        zoom_g,
                        w_i,
                        h_i,
                        qx,
                        qy,
                    ) by {
                        if orbits_hit_upto(
                            ps,
                            k as int + 1,
                            cam_x as int,
                            cam_z as int,
                            zoom_g,
                            w_i,
                            h_i,
                            qx,
                            qy,
                        ) {
                            let j = choose|j: int|
                                0 <= j < k as int + 1 && !(#[trigger] ps[j]).is_sun && orbit_hit(
                                    sun_screen_x_spec(w_i, cam_x as int, zoom_g),
                                    sun_screen_y_spec(h_i, cam_z as int, zoom_g),
                                    orbit_sr(ps[j], zoom_g),
                                    qx,
                                    qy,
                                );
                            assert(j < k as int);
                            assert(orbits_hit_upto(
                                ps,
                                k as int,
                                cam_x as int,
                                cam_z as int,
                                zoom_g,
                                w_i,
                                h_i,
                                qx,
                                qy,
                            ));
                        }
                    }
                }
            }
            k = k + 1;
        }
        let mut b: usize = 0;
        while b < planets.len()
            invariant
                b <= ps.len(),
                ps == planets@,
                self.wf(),
                self.width == old(self).width,
                self.height == old(self).height,
                self.camera_x == old(self).camera_x,
                self.camera_z == old(self).camera_z,
                self.zoom == old(self).zoom,
                self.buffer@.len() == old(self).buffer@.len(),
                w_i == self.width as int,
                h_i == self.height as int,
                w == self.width,
                h == self.height,
                cam_x == old(self).camera_x,
                cam_z == old(self).camera_z,
                -100_000_000 <= cam_x <= 100_000_000,
                -100_000_000 <= cam_z <= 100_000_000,
                -1_000_000_000 <= time <= 1_000_000_000,
                zoom_g == zoomc as int,
                zoom_g == zoom_clamped(old(self).zoom as int),
                300 <= zoomc <= 3000,
                ssx as int == sun_screen_x_spec(w_i, cam_x as int, zoom_g),
                ssy as int == sun_screen_y_spec(h_i, cam_z as int, zoom_g),
                -1_500_000_000 <= ssx <= 1_500_000_000,
                -1_500_000_000 <= ssy <= 1_500_000_000,
                forall|j: int| 0 <= j < ps.len() ==> (#[trigger] ps[j]).wf(),
                forall|qx: int, qy: int|
                    0 <= qx < w_i && 0 <= qy < h_i ==> #[trigger] self.buffer@[pix(w_i, qx, qy)]
                        == (match planets_color_at(
                        ps.take(b as int),
                        cam_x as int,
                        cam_z as int,
                        zoom_g,
                        time as int,
                        w_i,
                        h_i,
                        qx,
                        qy,
                    ) {
                        Some(c) => c,
                        None => if orbits_hit_upto(
                            ps,
                            ps.len() as int,
                            cam_x as int,
                            cam_z as int,
                            zoom_g,
                            w_i,
                            h_i,
                            qx,
                            qy,
                        ) {
                            crate::orbit::ORBIT_COLOR
                        } else {
                            background_color_at(qx, qy)
                        },
                    }),
            decreases planets@.len() - b,
        {
            let p = &planets[b];
            proof {
                assert(ps[b as int].wf());
            }
            let pos: (i64, i64) = p.orbit_position(time);
            let relx: i64 = pos.0 - cam_x;
            let relz: i64 = pos.1 - cam_z;
            proof {
                crate::math::lemma_mul_bound(relx as int, zoomc as int, 200_000_000, 3000);
                crate::math::lemma_mul_bound(relz as int, zoomc as int, 200_000_000, 3000);
                crate::math::lemma_tdiv_bound(
                    (relx as int) * (zoomc as int),
                    1000,
                    600_000_000_000,
                );
                crate::math::lemma_tdiv_bound(
                    (relz as int) * (zoomc as int),
                    1000,
                    600_000_000_000,
                );
                crate::math::lemma_mul_bound(p.radius as int, zoomc as int, 1_000_000, 3000);
                vstd::arithmetic::mul::lemma_mul_nonnegative(p.radius as int, zoomc as int);
                crate::math::lemma_tdiv_bound(
                    (p.radius as int) * (zoomc as int),
                    1000,
                    3_000_000_000,
                );
                vstd::arithmetic::div_mod::lemma_div_pos_is_pos(
                    (p.radius as int) * (zoomc as int),
                    1000,
                );
            }
            let sx: i64 = 500 * (w as i64) + crate::math::div_trunc(relx * zoomc, 1000);
            let sy: i64 = 500 * (h as i64) + crate::math::div_trunc(relz * zoomc, 1000);
            let sr: i64 = crate::math::div_trunc(p.radius * zoomc, 1000);
            let phase: i64 = p.rotation_angle(time);
            let ghost buf_prev = self.buffer@;
            self.draw_planet((sx, sy), p, (ssx, ssy), sr, phase);
            if p.has_ring {
                let inner: i64 = crate::ring::ring_inner(sr);
                let outer: i64 = crate::ring::ring_outer(sr);
                self.draw_ring((sx, sy), inner, outer, crate::ring::RING_COLOR);
            }
            proof {
                assert(ps.take(b as int + 1).last() == ps[b as int]);
                assert(ps.take(b as int + 1).drop_last() =~= ps.take(b as int));
                assert(sx as int == planet_screen_x(
                    ps[b as int],
                    time as int,
                    w_i,
                    cam_x as int,
                    zoom_g,
                ));
                assert(sy as int == planet_screen_y(
                    ps[b as int],
                    time as int,
                    h_i,
                    cam_z as int,
                    zoom_g,
                ));
                assert(sr as int == planet_sr(ps[b as int], zoom_g));
                assert forall|qx: int, qy: int|
                    0 <= qx < w_i && 0 <= qy < h_i implies #[trigger] self.buffer@[pix(
                    w_i,
                    qx,
                    qy,
                )] == (match planets_color_at(
                    ps.take(b as int + 1),
                    cam_x as int,
                    cam_z as int,
                    zoom_g,
                    time as int,
                    w_i,
                    h_i,
                    qx,
                    qy,
                ) {
                    Some(c) => c,
                    None => if orbits_hit_upto(
                        ps,
                        ps.len() as int,
                        cam_x as int,
                        cam_z as int,
                        zoom_g,
                        w_i,
                        h_i,
                        qx,
                        qy,
                    ) {
                        crate::orbit::ORBIT_COLOR
                    } else {
                        background_color_at(qx, qy)
                    },
                }) by {
                    assert(planets_color_at(
                        ps.take(b as int + 1),
                        cam_x as int,
                        cam_z as int,
                        zoom_g,
                        time as int,
                        w_i,
                        h_i,
                        qx,
                        qy,
                    ) == (match planet_layer_at(
                        ps[b as int],
                        cam_x as int,
                        cam_z as int,
                        zoom_g,
                        time as int,
                        w_i,
                        h_i,
                        qx,
                        qy,
                    ) {
                        Some(c) => Some(c),
                        None => planets_color_at(
                            ps.take(b as int),
                            cam_x as int,
                            cam_z as int,
                            zoom_g,
                            time as int,
                            w_i,
                            h_i,
                            qx,
                            qy,
                        ),
                    }));
                }
            }
            b = b + 1;
        }
        proof {
            assert(ps.take(ps.len() as int) =~= ps);
        }
        proof {
            vstd::arithmetic::div_mod::lemma_div_pos_is_pos(500 * w_i + 500, 1000);
            vstd::arithmetic::div_mod::lemma_div_is_ordered(500 * w_i + 500, 2_048_500, 1000);
            vstd::arithmetic::div_mod::lemma_div_pos_is_pos(500 * h_i + 140_000 + 500, 1000);
            vstd::arithmetic::div_mod::lemma_div_is_ordered(
                500 * h_i + 140_000 + 500,
                2_188_500,
                1000,
            );
        }
        let ship_x: i64 = crate::math::div_round(500 * (w as i64), 1000);
        let ship_y: i64 = crate::math::div_round(500 * (h as i64) + crate::ship::SHIP_OFFSET_Y * 1000, 1000);
        self.draw_ship((ship_x, ship_y));
    }
}

} // verus!
