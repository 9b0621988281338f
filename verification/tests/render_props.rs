//! Tests for the individual rasterizer stages.

use solar_raster::camera::CameraInput;
use solar_raster::camera::CameraState;
use solar_raster::planet::Planet;
use solar_raster::renderer::Renderer;
use solar_raster::ring::ring_inner;
use solar_raster::ring::ring_outer;
use solar_raster::starfield::star_brightness;
use solar_raster::color::shade_color;

fn pixel(r: &Renderer, x: usize, y: usize) -> u32 {
    r.pixels()[y * r.buffer_width() + x]
}

#[test]
fn new_renderer_is_black_800_by_600() {
    let r = Renderer::new();
    assert_eq!(r.buffer_width(), 800);
    assert_eq!(r.buffer_height(), 600);
    assert_eq!(r.pixels().len(), 480000);
    assert!(r.pixels().iter().all(|&c| c == 0));
    assert_eq!(r.camera_x, 0);
    assert_eq!(r.camera_z, 0);
    assert_eq!(r.zoom, 1000);
}

#[test]
fn put_pixel_writes_in_bounds_only() {
    let mut r = Renderer::new();
    r.put_pixel(10, 20, 0xABCDEF);
    assert_eq!(pixel(&r, 10, 20), 0xABCDEF);
    r.put_pixel(-1, 0, 0x111111);
    r.put_pixel(0, -1, 0x111111);
    r.put_pixel(800, 0, 0x111111);
    r.put_pixel(0, 600, 0x111111);
    let mut non_zero = 0;
    for &c in r.pixels().iter() {
        if c != 0 {
            non_zero += 1;
        }
    }
    assert_eq!(non_zero, 1);
}

#[test]
fn clear_resets_every_pixel() {
    let mut r = Renderer::new();
    r.put_pixel(5, 5, 0xFFFFFF);
    r.clear();
    assert!(r.pixels().iter().all(|&c| c == 0));
}

#[test]
fn shade_color_scales_channels_and_clamps() {
    assert_eq!(shade_color(0xFFFFFF, 500), 0x7F7F7F);
    assert_eq!(shade_color(0xFFFFFF, 1000), 0xFFFFFF);
    assert_eq!(shade_color(0xFFFFFF, 2000), 0xFFFFFF);
    assert_eq!(shade_color(0xFFFFFF, 0), 0x000000);
    assert_eq!(shade_color(0xFFFFFF, -300), 0x000000);
    assert_eq!(shade_color(0x3366FF, 385), 0x132762);
}

#[test]
fn starfield_is_deterministic() {
    let mut a = Renderer::new();
    let mut b = Renderer::new();
    a.draw_stars();
    b.draw_stars();
    assert_eq!(a.pixels(), b.pixels());
    let mut stars = 0usize;
    for y in 0..600usize {
        for x in 0..800usize {
            let c = pixel(&a, x, y);
            match star_brightness(x, y) {
                Some(t) => {
                    stars += 1;
                    assert_eq!(c, t);
                },
                None => assert_eq!(c, 0),
            }
        }
    }
    assert!(stars > 0);
}

#[test]
fn star_tiers_follow_the_hash() {
    for y in (0..600usize).step_by(7) {
        for x in (0..800usize).step_by(11) {
            let h = (x as u32).wrapping_mul(1973) ^ (y as u32).wrapping_mul(9277) ^ 0x12345;
            let expected = if h % 1500 == 0 {
                Some(0xFFFFFF)
            } else if h % 3000 == 0 {
                Some(0xCCCCCC)
            } else if h % 6000 == 0 {
                Some(0x9999FF)
            } else {
                None
            };
            assert_eq!(star_brightness(x, y), expected);
        }
    }
}

#[test]
fn sphere_fill_covers_about_pi_r_squared() {
    let mut r = Renderer::new();
    let p = Planet::new(50_000, 0, 0, 0, 0xFFFFFF, false, false);
    r.draw_planet((400_000, 300_000), &p, (100_000, 100_000), 50_000, 0);
    let mut count = 0usize;
    for &c in r.pixels().iter() {
        if c != 0 {
            count += 1;
        }
    }
    let area = std::f64::consts::PI * 50.0 * 50.0;
    assert!((count as f64) > area - 300.0, "count {} too small", count);
    assert!((count as f64) < area + 300.0, "count {} too large", count);
}

#[test]
fn sun_disc_keeps_its_stored_color() {
    let mut r = Renderer::new();
    let sun = Planet::new(30_000, 0, 0, 0, 0xFFCC33, true, false);
    r.draw_planet((400_000, 300_000), &sun, (400_000, 300_000), 30_000, 0);
    assert_eq!(pixel(&r, 400, 300), 0xFFCC33);
    assert_eq!(pixel(&r, 410, 310), 0xFFCC33);
    assert_eq!(pixel(&r, 380, 290), 0xFFCC33);
}

#[test]
fn ring_radii_are_ordered_and_scale_with_the_screen_radius() {
    for sr in [3i64, 100, 11_000, 16_000, 48_000, 10_000_000] {
        let inner = ring_inner(sr);
        let outer = ring_outer(sr);
        assert!(0 < inner && inner < outer);
        assert_eq!(inner, sr * 16 / 10);
        assert_eq!(outer, sr * 19 / 10);
    }
}

#[test]
fn ring_draws_only_the_annulus() {
    let mut r = Renderer::new();
    r.draw_ring((400_000, 300_000), 25_600, 30_400, 0xC8B090);
    assert_eq!(pixel(&r, 428, 300), 0xC8B090);
    assert_eq!(pixel(&r, 400, 273), 0xC8B090);
    assert_eq!(pixel(&r, 400, 300), 0);
    assert_eq!(pixel(&r, 420, 300), 0);
    assert_eq!(pixel(&r, 440, 300), 0);
}

#[test]
fn orbit_outline_hits_the_cardinal_points() {
    let mut r = Renderer::new();
    r.draw_orbit((400_000, 300_000), 100_000);
    assert_eq!(pixel(&r, 500, 300), 0x444444);
    assert_eq!(pixel(&r, 300, 300), 0x444444);
    assert_eq!(pixel(&r, 400, 200), 0x444444);
    assert_eq!(pixel(&r, 400, 400), 0x444444);
    assert_eq!(pixel(&r, 400, 300), 0);
}

#[test]
fn ship_parts_have_their_colors() {
    let mut r = Renderer::new();
    r.draw_ship((400, 440));
    assert_eq!(pixel(&r, 384, 440), 0x444444);
    assert_eq!(pixel(&r, 416, 440), 0x444444);
    assert_eq!(pixel(&r, 400, 428), 0x7D7D7D);
    assert_eq!(pixel(&r, 400, 450), 0x66CCFF);
    assert_eq!(pixel(&r, 400, 440), 0x7A7ACC);
    assert_eq!(pixel(&r, 430, 440), 0);
}

#[test]
fn orbit_position_at_time_zero_is_on_the_x_axis() {
    let earth = Planet::new(11_000, 380_000, 30, 120, 0x3366FF, false, false);
    assert_eq!(earth.orbit_position(0), (380_000, 0));
    let sun = Planet::new(30_000, 0, 0, 0, 0xFFCC33, true, false);
    assert_eq!(sun.orbit_position(123_456), (0, 0));
}

#[test]
fn orbit_position_stays_on_the_circle() {
    let p = Planet::new(11_000, 380_000, 30, 120, 0x3366FF, false, false);
    for t in [0i64, 1000, 50_000, 777_777, 1_000_000_000] {
        let (x, z) = p.orbit_position(t);
        let d2 = (x as f64) * (x as f64) + (z as f64) * (z as f64);
        let d = d2.sqrt();
        assert!(d <= 380_000.0 + 800.0, "time {}: {}", t, d);
    }
}

#[test]
fn rotation_angle_is_linear_in_time() {
    let p = Planet::new(11_000, 380_000, 30, 120, 0x3366FF, false, false);
    assert_eq!(p.rotation_angle(0), 0);
    assert_eq!(p.rotation_angle(10_000), 12_516);
}

#[test]
fn zoom_is_clamped_after_any_input_sequence() {
    let mut cam = CameraState::start();
    let zoom_in = CameraInput {
        left: false,
        right: false,
        forward: false,
        back: false,
        zoom_in: true,
        zoom_out: false,
    };
    let zoom_out = CameraInput { zoom_in: false, zoom_out: true, ..zoom_in };
    for _ in 0..200 {
        cam = cam.step(&zoom_in);
        assert!(300 <= cam.zoom && cam.zoom <= 3000);
    }
    assert_eq!(cam.zoom, 3000);
    for _ in 0..300 {
        cam = cam.step(&zoom_out);
        assert!(300 <= cam.zoom && cam.zoom <= 3000);
    }
    assert_eq!(cam.zoom, 300);
}

#[test]
fn camera_velocity_accumulates_and_decays() {
    let mut cam = CameraState::start();
    let right = CameraInput {
        left: false,
        right: true,
        forward: false,
        back: false,
        zoom_in: false,
        zoom_out: false,
    };
    let idle = CameraInput { right: false, ..right };
    cam = cam.step(&right);
    assert_eq!(cam.vel_x, 450);
    assert_eq!(cam.x, 450);
    cam = cam.step(&idle);
    assert_eq!(cam.vel_x, 405);
    assert_eq!(cam.x, 855);
    for _ in 0..100_000 {
        cam = cam.step(&right);
        assert!(cam.vel_x <= 4500 && cam.x <= 100_000_000);
    }
}

#[test]
fn zero_screen_radius_draws_nothing() {
    let mut r = Renderer::new();
    let p = Planet::new(1, 0, 0, 0, 0xFFFFFF, false, false);
    r.draw_planet((400_000, 300_000), &p, (100_000, 100_000), 0, 0);
    assert!(r.pixels().iter().all(|&c| c == 0));
}

#[test]
fn body_on_the_light_source_still_renders() {
    // The body's center coincides with the light source: the normalization
    // guard takes over and the disc is still filled.
    let mut r = Renderer::new();
    let p = Planet::new(20_000, 0, 0, 0, 0xFFFFFF, false, false);
    r.draw_planet((400_000, 300_000), &p, (400_000, 300_000), 20_000, 0);
    assert_ne!(pixel(&r, 400, 300), 0);
}

#[test]
fn off_screen_parts_are_dropped_silently() {
    let mut r = Renderer::new();
    let p = Planet::new(30_000, 0, 0, 0, 0xFFFFFF, false, false);
    // Centered on the left edge: the right half lands on screen.
    r.draw_planet((0, 300_000), &p, (400_000, 300_000), 30_000, 0);
    assert_ne!(pixel(&r, 10, 300), 0);
    assert_eq!(pixel(&r, 40, 300), 0);
    // Fully off screen: nothing changes.
    let mut s = Renderer::new();
    s.draw_planet((-900_000, 300_000), &p, (400_000, 300_000), 30_000, 0);
    assert!(s.pixels().iter().all(|&c| c == 0));
}
