//! End-to-end frame tests: whole scenes rendered through `render_scene`.

use solar_raster::planet::Planet;
use solar_raster::renderer::Renderer;
use solar_raster::sphere::shade_sphere_point;

fn pixel(r: &Renderer, x: usize, y: usize) -> u32 {
    r.pixels()[y * r.buffer_width() + x]
}

fn sun() -> Planet {
    Planet::new(30_000, 0, 0, 0, 0xFFCC33, true, false)
}

fn earth() -> Planet {
    Planet::new(11_000, 380_000, 30, 120, 0x3366FF, false, false)
}

#[test]
fn central_body_center_pixel_keeps_its_color() {
    let planets = vec![sun(), earth()];
    let mut r = Renderer::new();
    r.render_scene(&planets, 0);
    assert_eq!(pixel(&r, 400, 300), 0xFFCC33);

    // A moved camera and another zoom shift the projection but never shade
    // the light-emitting body.
    let mut r2 = Renderer::new();
    r2.camera_x = 10_000;
    r2.camera_z = -20_000;
    r2.zoom = 1500;
    r2.render_scene(&planets, 0);
    assert_eq!(pixel(&r2, 385, 330), 0xFFCC33);
}

#[test]
fn orbiting_body_lands_at_the_projected_center_with_the_expected_shade() {
    // At time zero the body sits at world (380, 0); with the camera at the
    // origin and unit zoom its center projects to (400 + 380, 300). There
    // the normal faces the viewer, the light arrives sideways, and only
    // the fixed out-of-plane light component remains: intensity
    // (250 + 750 * 400 / 1000) * 700 / 1000 = 385 of 1000 applied to
    // 0x3366FF gives 0x132762.
    let planets = vec![sun(), earth()];
    let mut r = Renderer::new();
    r.render_scene(&planets, 0);
    assert_eq!(earth().orbit_position(0), (380_000, 0));
    assert_eq!(pixel(&r, 780, 300), 0x132762);
}

#[test]
fn ring_appears_exactly_when_flagged() {
    let with_ring = vec![sun(), Planet::new(16_000, 820_000, 14, 180, 0xEEDD99, false, true)];
    let without = vec![sun(), Planet::new(16_000, 820_000, 14, 180, 0xEEDD99, false, false)];
    // Park the camera on the body so its ring is on screen.
    let mut a = Renderer::new();
    a.camera_x = 820_000;
    a.render_scene(&with_ring, 0);
    let mut b = Renderer::new();
    b.camera_x = 820_000;
    b.render_scene(&without, 0);
    // 28 px from the center: between inner (25.6 px) and outer (30.4 px).
    assert_eq!(pixel(&a, 428, 300), 0xC8B090);
    assert_ne!(pixel(&b, 428, 300), 0xC8B090);
    // 20 px out: inside the gap between disc (16 px) and inner radius.
    assert_ne!(pixel(&a, 420, 300), 0xC8B090);
}

#[test]
fn banded_pattern_repeats_after_half_a_turn_of_longitude() {
    // A rotation-phase shift of half a turn doubles into a full turn
    // inside the banded pattern, so every pixel color repeats exactly.
    for (x, y) in [(405i64, 305i64), (398, 310), (410, 296), (402, 300)] {
        for phase in [0i64, 5000, 12_345] {
            let a = shade_sphere_point(
                false, 20_000, 0xDDBB88, 400_000, 300_000, 20_000, 100_000, 150_000, phase, x, y,
            );
            let b = shade_sphere_point(
                false,
                20_000,
                0xDDBB88,
                400_000,
                300_000,
                20_000,
                100_000,
                150_000,
                phase + 32_768,
                x,
                y,
            );
            assert_eq!(a, b);
        }
    }
}

#[test]
fn speckled_bodies_use_the_other_pattern() {
    // Below the radius threshold the speckled pattern applies; a
    // quarter-turn phase shift moves the speckle: some pixel shows the
    // difference, so the two classifications really differ.
    let mut differs = false;
    for (x, y) in [(405i64, 305i64), (398, 310), (403, 297)] {
        let a = shade_sphere_point(
            false, 15_000, 0xDDBB88, 400_000, 300_000, 20_000, 100_000, 150_000, 0, x, y,
        );
        let b = shade_sphere_point(
            false, 15_000, 0xDDBB88, 400_000, 300_000, 20_000, 100_000, 150_000, 16_384, x, y,
        );
        if a != b {
            differs = true;
        }
    }
    assert!(differs);
}

#[test]
fn ship_pixels_are_identical_across_frames() {
    let planets = vec![sun(), earth()];
    let mut a = Renderer::new();
    a.render_scene(&planets, 0);
    let mut b = Renderer::new();
    b.camera_x = 55_000;
    b.camera_z = -40_000;
    b.zoom = 2400;
    b.render_scene(&planets, 800_000);
    // The ship anchors at (400, 440): compare its distinctive parts.
    assert_eq!(pixel(&a, 384, 440), pixel(&b, 384, 440));
    assert_eq!(pixel(&a, 400, 440), pixel(&b, 400, 440));
    assert_eq!(pixel(&a, 400, 450), pixel(&b, 400, 450));
    assert_eq!(pixel(&a, 400, 428), pixel(&b, 400, 428));
    assert_eq!(pixel(&a, 400, 440), 0x7A7ACC);
}

#[test]
fn frame_is_deterministic() {
    let planets = vec![
        sun(),
        Planet::new(6_000, 150_000, 50, 100, 0xAAAAAA, false, false),
        earth(),
        Planet::new(16_000, 820_000, 14, 180, 0xEEDD99, false, true),
    ];
    let mut a = Renderer::new();
    let mut b = Renderer::new();
    a.render_scene(&planets, 250_000);
    b.render_scene(&planets, 250_000);
    assert_eq!(a.pixels(), b.pixels());
}

#[test]
fn orbit_outline_circles_the_light_source() {
    let planets = vec![sun(), earth()];
    let mut r = Renderer::new();
    r.render_scene(&planets, 0);
    // The outline of radius 380 px around (400, 300): the leftmost sample
    // and the 45-degree sample land on screen, clear of both bodies.
    assert_eq!(pixel(&r, 20, 300), 0x444444);
    assert_eq!(pixel(&r, 668, 568), 0x444444);
}

#[test]
fn stored_zoom_is_clamped_before_use() {
    let planets = vec![sun(), earth()];
    let mut a = Renderer::new();
    a.zoom = 99_999;
    a.render_scene(&planets, 0);
    let mut b = Renderer::new();
    b.zoom = 3000;
    b.render_scene(&planets, 0);
    assert_eq!(a.pixels(), b.pixels());
    let mut c = Renderer::new();
    c.zoom = -50;
    c.render_scene(&planets, 0);
    let mut d = Renderer::new();
    d.zoom = 300;
    d.render_scene(&planets, 0);
    assert_eq!(c.pixels(), d.pixels());
}
