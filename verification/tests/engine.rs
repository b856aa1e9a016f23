use gravlens::camera::{Camera, ConfigError};
use gravlens::num::ONE;
use gravlens::photon::Photon;
use gravlens::sampler::{run_pass, tiles, trace_batch};
use gravlens::screen::Screen;
use gravlens::vec3::FVec3;
use gravlens::world::{Intersection, World};

fn v(x: i64, y: i64, z: i64) -> FVec3 {
    FVec3 { x, y, z }
}

/// A camera at the origin looking along -z with +y up; aspect 1, aperture
/// one unit, focal length one unit.
fn axial_camera() -> Camera {
    Camera::new(
        v(0, 0, 0),
        v(0, 0, -ONE),
        v(0, ONE, 0),
        ONE,
        ONE,
        ONE,
    )
    .expect("valid camera")
}

fn axial_world(mass: i64) -> World {
    // gravity source far behind the camera so near-sensor traces stay straight
    World::new(axial_camera(), v(0, 0, -100_000_000), mass).expect("valid world")
}

#[test]
fn schwarzschild_radius_exact_value() {
    // 2 G m / c^2 with m = 200 * 10^24 kg: 13340 * 200 / 9 micro-units
    assert_eq!(gravlens::gravity::schwarzschild_radius(200), 296_444);
    assert_eq!(gravlens::gravity::schwarzschild_radius(1), 1_482);
}

#[test]
fn schwarzschild_radius_strictly_increasing() {
    let mut prev = gravlens::gravity::schwarzschild_radius(1);
    for m in 2..50i64 {
        let r = gravlens::gravity::schwarzschild_radius(m);
        assert!(r > prev);
        prev = r;
    }
}

#[test]
fn camera_rejects_parallel_basis() {
    let r = Camera::new(v(0, 0, 0), v(0, 0, -ONE), v(0, 0, ONE), ONE, ONE, ONE);
    assert_eq!(r, Err(ConfigError::DegenerateBasis));
}

#[test]
fn camera_rejects_zero_forward() {
    let r = Camera::new(v(0, 0, 0), v(0, 0, 0), v(0, ONE, 0), ONE, ONE, ONE);
    assert_eq!(r, Err(ConfigError::DegenerateBasis));
}

#[test]
fn camera_rejects_bad_optics() {
    let r = Camera::new(v(0, 0, 0), v(0, 0, -ONE), v(0, ONE, 0), 0, ONE, ONE);
    assert_eq!(r, Err(ConfigError::BadOptics));
    let r = Camera::new(v(0, 0, 0), v(0, 0, -ONE), v(0, ONE, 0), ONE, 0, ONE);
    assert_eq!(r, Err(ConfigError::BadOptics));
    let r = Camera::new(v(0, 0, 0), v(0, 0, -ONE), v(0, ONE, 0), ONE, ONE, 0);
    assert_eq!(r, Err(ConfigError::BadOptics));
}

#[test]
fn world_rejects_bad_mass() {
    let r = World::new(axial_camera(), v(0, 0, 0), 0);
    assert_eq!(r, Err(ConfigError::BadMass));
    assert!(World::new(axial_camera(), v(0, 0, 0), 200).is_ok());
}

#[test]
fn axial_photon_hits_sensor_center() {
    let cam = axial_camera();
    // on the optical axis, 0.05 units in front, flying straight at the camera
    let p = Photon { pos: v(0, 0, -50_000), dir: v(0, 0, ONE), wavelength: 580_000 };
    assert_eq!(cam.collision(&p), Some((500_000, 500_000)));
}

#[test]
fn collision_rejects_each_guard() {
    let cam = axial_camera();
    // too far from the aperture plane
    let p = Photon { pos: v(0, 0, -1_000_000), dir: v(0, 0, ONE), wavelength: 580_000 };
    assert_eq!(cam.collision(&p), None);
    // outside the aperture disk
    let p = Photon { pos: v(2_000_000, 0, -50_000), dir: v(0, 0, ONE), wavelength: 580_000 };
    assert_eq!(cam.collision(&p), None);
    // flying away from the sensor
    let p = Photon { pos: v(0, 0, -50_000), dir: v(0, 0, -ONE), wavelength: 580_000 };
    assert_eq!(cam.collision(&p), None);
}

#[test]
fn off_axis_photon_projects_off_center() {
    let cam = axial_camera();
    let p = Photon { pos: v(100_000, 0, -50_000), dir: v(0, 0, ONE), wavelength: 580_000 };
    assert_eq!(cam.collision(&p), Some((520_000, 500_000)));
}

#[test]
fn photon_inside_horizon_is_captured_first_step() {
    // camera far to the side, gravity source at the origin with a 0.296-unit
    // horizon; the photon starts well inside it
    let cam = Camera::new(
        v(0, 1_500_000, 2_500_000),
        v(0, -1_500_000, -2_500_000),
        v(0, ONE, 0),
        ONE,
        20_000,
        ONE,
    )
    .expect("valid camera");
    let world = World::new(cam, v(0, 0, 0), 200).expect("valid world");
    let p = Photon { pos: v(100_000, 0, 0), dir: v(0, 0, ONE), wavelength: 580_000 };
    match world.raymarch(p) {
        Intersection::Miss { captured, photon } => {
            assert!(captured);
            // captured on the very first step: one 0.015-unit advance
            assert_eq!(photon.pos, v(100_000, 0, 15_000));
        }
        Intersection::Hit { .. } => panic!("photon inside the horizon must not hit"),
    }
}

#[test]
fn distant_outbound_photon_escapes() {
    let world = axial_world(1);
    let p = Photon { pos: v(300_000_000, 0, 0), dir: v(ONE, 0, 0), wavelength: 580_000 };
    match world.raymarch(p) {
        Intersection::Miss { captured, .. } => assert!(!captured),
        Intersection::Hit { .. } => panic!("outbound photon must miss"),
    }
}

#[test]
fn raymarch_keeps_direction_near_unit() {
    // a photon passing near the mass gets bent; its direction must stay
    // within 1e-4 of unit length
    let cam = Camera::new(
        v(0, 1_500_000, 2_500_000),
        v(0, -1_500_000, -2_500_000),
        v(0, ONE, 0),
        ONE,
        20_000,
        ONE,
    )
    .expect("valid camera");
    let world = World::new(cam, v(0, 0, 0), 200).expect("valid world");
    let p = Photon { pos: v(500_000, 0, -3_000_000), dir: v(0, 0, ONE), wavelength: 580_000 };
    let photon = match world.raymarch(p) {
        Intersection::Miss { photon, .. } => photon,
        Intersection::Hit { photon, .. } => photon,
    };
    let d = photon.dir;
    let n = d.x as i128 * d.x as i128 + d.y as i128 * d.y as i128 + d.z as i128 * d.z as i128;
    assert!(n >= 999_900i128 * 999_900);
    assert!(n <= 1_000_100i128 * 1_000_100);
}

#[test]
fn wavelength_to_rgb_exact_bands() {
    // 580 nm sits at the red/yellow boundary: full red, full green, no blue
    let p = Photon { pos: v(0, 0, 0), dir: v(0, 0, ONE), wavelength: 580_000 };
    let c = p.wavelength_to_rgb();
    assert_eq!((c.x, c.y, c.z), (ONE, ONE, 0));
    // out of the visible band: black
    let p = Photon { pos: v(0, 0, 0), dir: v(0, 0, ONE), wavelength: 100_000 };
    let c = p.wavelength_to_rgb();
    assert_eq!((c.x, c.y, c.z), (0, 0, 0));
    let p = Photon { pos: v(0, 0, 0), dir: v(0, 0, ONE), wavelength: 800_000 };
    let c = p.wavelength_to_rgb();
    assert_eq!((c.x, c.y, c.z), (0, 0, 0));
}

#[test]
fn wavelength_to_rgb_gamma_is_exact_fifth_root() {
    // 700 nm: pre-gamma red is 300000 + 700000*80000/135000 = 714814, and
    // the output must be the floored fifth root of pre^4 * ONE
    let p = Photon { pos: v(0, 0, 0), dir: v(0, 0, ONE), wavelength: 700_000 };
    let c = p.wavelength_to_rgb();
    let pre: u128 = 714_814;
    let n = pre * pre * pre * pre * 1_000_000u128;
    let r = c.x as u128;
    assert!(r * r * r * r * r <= n);
    assert!((r + 1) * (r + 1) * (r + 1) * (r + 1) * (r + 1) > n);
    assert_eq!((c.y, c.z), (0, 0));
}

#[test]
fn fresh_screen_is_black_with_baseline_count() {
    let s = Screen::new(4, 4);
    assert_eq!(s.pix.len(), 16);
    for px in &s.pix {
        assert_eq!((px.r, px.g, px.b, px.count), (0, 0, 0, 1));
    }
    assert_eq!(s.discarded, 0);
}

#[test]
fn first_blend_replaces_baseline_entirely() {
    // with the documented read-then-increment running mean, the first
    // sample lands with mix 1/1 and fully determines the pixel color
    let mut s = Screen::new(4, 4);
    let hit = Intersection::Hit {
        u: 500_000,
        v: 500_000,
        photon: Photon { pos: v(0, 0, 0), dir: v(0, 0, ONE), wavelength: 580_000 },
    };
    let blended = s.blend_rays(&vec![hit]);
    assert_eq!(blended, 1);
    let px = s.pix[2 * 4 + 2];
    assert_eq!((px.r, px.g, px.b, px.count), (ONE, ONE, 0, 2));
}

#[test]
fn identical_blends_converge_to_the_color() {
    let mut s = Screen::new(4, 4);
    let hit = Intersection::Hit {
        u: 500_000,
        v: 500_000,
        photon: Photon { pos: v(0, 0, 0), dir: v(0, 0, ONE), wavelength: 580_000 },
    };
    let rays = vec![hit; 7];
    assert_eq!(s.blend_rays(&rays), 7);
    let px = s.pix[2 * 4 + 2];
    assert_eq!((px.r, px.g, px.b, px.count), (ONE, ONE, 0, 8));
}

#[test]
fn blend_of_two_colors_is_their_running_mean() {
    let mut s = Screen::new(4, 4);
    let yellow = Intersection::Hit {
        u: 500_000,
        v: 500_000,
        photon: Photon { pos: v(0, 0, 0), dir: v(0, 0, ONE), wavelength: 580_000 },
    };
    let dark = Intersection::Hit {
        u: 500_000,
        v: 500_000,
        photon: Photon { pos: v(0, 0, 0), dir: v(0, 0, ONE), wavelength: 100_000 },
    };
    s.blend_rays(&vec![yellow, dark]);
    let px = s.pix[2 * 4 + 2];
    // first blend sets (ONE, ONE, 0); second mixes half of black in
    assert_eq!((px.r, px.g, px.b, px.count), (ONE / 2, ONE / 2, 0, 3));
}

#[test]
fn out_of_grid_hit_is_discarded_not_blended() {
    let mut s = Screen::new(4, 4);
    let stray = Intersection::Hit {
        u: -2_000_000,
        v: 500_000,
        photon: Photon { pos: v(0, 0, 0), dir: v(0, 0, ONE), wavelength: 580_000 },
    };
    assert_eq!(s.blend_rays(&vec![stray]), 0);
    assert_eq!(s.discarded, 1);
    for px in &s.pix {
        assert_eq!((px.r, px.g, px.b, px.count), (0, 0, 0, 1));
    }
}

#[test]
fn misses_are_dropped_by_the_accumulator() {
    let mut s = Screen::new(4, 4);
    let miss = Intersection::Miss {
        captured: false,
        photon: Photon { pos: v(0, 0, 0), dir: v(0, 0, ONE), wavelength: 580_000 },
    };
    assert_eq!(s.blend_rays(&vec![miss; 5]), 0);
    assert_eq!(s.discarded, 0);
    for px in &s.pix {
        assert_eq!((px.r, px.g, px.b, px.count), (0, 0, 0, 1));
    }
}

#[test]
fn tiling_covers_every_pixel_exactly_once() {
    let (w, h, t) = (16usize, 8usize, 4usize);
    let chunks = tiles(w, h, t);
    assert_eq!(chunks.len(), (w / t) * (h / t));
    let mut owned = vec![0u32; w * h];
    for c in &chunks {
        assert_eq!(c.size, t);
        for y in c.y0..c.y0 + c.size {
            for x in c.x0..c.x0 + c.size {
                assert!(x < w && y < h);
                owned[y * w + x] += 1;
            }
        }
    }
    for n in owned {
        assert_eq!(n, 1);
    }
}

#[test]
fn tiles_are_row_major_with_aligned_origins() {
    let chunks = tiles(8, 8, 4);
    assert_eq!(chunks.len(), 4);
    assert_eq!((chunks[0].x0, chunks[0].y0), (0, 0));
    assert_eq!((chunks[1].x0, chunks[1].y0), (4, 0));
    assert_eq!((chunks[2].x0, chunks[2].y0), (0, 4));
    assert_eq!((chunks[3].x0, chunks[3].y0), (4, 4));
}

#[test]
fn trace_batch_is_one_record_per_photon() {
    let world = axial_world(1);
    let hitting = Photon { pos: v(0, 0, -50_000), dir: v(0, 0, ONE), wavelength: 580_000 };
    let escaping = Photon { pos: v(300_000_000, 0, 0), dir: v(ONE, 0, 0), wavelength: 580_000 };
    let out = trace_batch(&world, &vec![hitting, escaping]);
    assert_eq!(out.len(), 2);
    assert!(matches!(out[0], Intersection::Hit { u: 500_000, v: 500_000, .. }));
    assert!(matches!(out[1], Intersection::Miss { captured: false, .. }));
}

#[test]
fn run_pass_blends_only_the_hits() {
    let world = axial_world(1);
    let mut screen = Screen::new(5, 5);
    let hitting = Photon { pos: v(0, 0, -50_000), dir: v(0, 0, ONE), wavelength: 580_000 };
    let escaping = Photon { pos: v(300_000_000, 0, 0), dir: v(ONE, 0, 0), wavelength: 580_000 };
    let hits = run_pass(&world, &mut screen, &vec![hitting, escaping]);
    assert_eq!(hits, 1);
    // center hit on a 5x5 grid rounds to pixel (2, 2)
    let px = screen.pix[2 * 5 + 2];
    assert_eq!((px.r, px.g, px.b, px.count), (ONE, ONE, 0, 2));
    assert_eq!(screen.discarded, 0);
}
