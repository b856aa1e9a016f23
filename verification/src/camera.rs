//! The camera: a finite-aperture sensor with a precomputed rotation into
//! camera-local space, and the pure collision predicate that decides whether
//! and where a photon crosses the sensor.

use vstd::prelude::*;
use vstd::arithmetic::div_mod::{
    lemma_div_is_ordered_by_denominator, lemma_fundamental_div_mod, lemma_mod_division_less_than_divisor,
};
use crate::num::{abs1, tdiv, tdiv64, lemma_tdiv_abs_le, lemma_div_le_bound, ONE};
use crate::photon::Photon;
use crate::vec3::{FVec3, lemma_dot_abs_le, lemma_abs_mul_le, COORD_LIMIT};

verus! {

/// Half-thickness of the aperture plane a step may land in: 0.08 units,
/// jointly tuned with the integration step length.
pub const EPSILON_PLANE: i64 = 80_000;

/// A photon must fly toward the sensor by at least this much of its
/// direction's z component: `1e-4`.
pub const EPSILON_DIR: i64 = 100;

/// Physical width of the virtual sensor: 5 units.
pub const SENSOR_WIDTH: i64 = 5_000_000;

/// Largest admissible aperture radius: 1000 units.
pub const APERTURE_MAX: i64 = 1_000_000_000;

/// Largest admissible focal length: 100 units.
pub const FOCAL_MAX: i64 = 100_000_000;

/// Admissible aspect ratio band: 0.1 to 10.
pub const ASPECT_MIN: i64 = 100_000;

pub const ASPECT_MAX: i64 = 10_000_000;

/// Why a scene configuration was rejected at construction time.
#[derive(Clone, Copy, Debug, PartialEq, Eq, Structural)]
pub enum ConfigError {
    /// Camera basis is degenerate: zero-length forward or up, or the two
    /// are (nearly) parallel.
    DegenerateBasis,
    /// Aspect ratio, aperture radius or focal length out of range.
    BadOptics,
    /// Gravity source mass out of range.
    BadMass,
}

/// Sensor and aperture geometry. `row_x`, `row_y`, `row_z` are the rows of
/// the rotation that maps world space into camera-local space; `row_z` is
/// the unit forward axis, so local `z` grows along the view direction.
#[derive(Clone, Copy, Debug, PartialEq, Eq, Structural)]
pub struct Camera {
    pub position: FVec3,
    pub forward: FVec3,
    pub up: FVec3,
    pub aspect_ratio: i64,
    pub aperture_radius: i64,
    pub focal_length: i64,
    pub row_x: FVec3,
    pub row_y: FVec3,
    pub row_z: FVec3,
}

impl Camera {
    /// Well-formedness: in-range optics, in-range position, near-unit
    /// rotation rows.
    pub open spec fn wf(self) -> bool {
        &&& self.position.bounded(COORD_LIMIT as int)
        &&& self.row_x.bounded(ONE as int)
        &&& self.row_y.bounded(ONE as int)
        &&& self.row_z.bounded(ONE as int)
        &&& 1 <= self.aperture_radius <= APERTURE_MAX
        &&& 1 <= self.focal_length <= FOCAL_MAX
        &&& ASPECT_MIN <= self.aspect_ratio <= ASPECT_MAX
    }

    /// Apply the rotation: each local coordinate is the fixed-point inner
    /// product of the matching row with `v`.
    pub open spec fn rot_spec(self, v: FVec3) -> FVec3 {
        FVec3 {
            x: tdiv(self.row_x.dot_spec(v), ONE as int) as i64,
            y: tdiv(self.row_y.dot_spec(v), ONE as int) as i64,
            z: tdiv(self.row_z.dot_spec(v), ONE as int) as i64,
        }
    }

    fn rotate(&self, v: FVec3, Ghost(bv): Ghost<int>, Ghost(b2): Ghost<int>) -> (r: FVec3)
        requires
            self.wf(),
            0 <= bv,
            0 <= b2,
            v.bounded(bv),
            bv <= 1_000_000_000,
            3 * ((ONE as int) * bv) <= (ONE as int) * b2,
        ensures
            r == self.rot_spec(v),
            r.bounded(b2),
    {
        proof {
            lemma_rot_bound(*self, v, bv, b2);
        }
        let rx: i64 = tdiv64(self.row_x.dot(v), ONE);
        let ry: i64 = tdiv64(self.row_y.dot(v), ONE);
        let rz: i64 = tdiv64(self.row_z.dot(v), ONE);
        FVec3 { x: rx, y: ry, z: rz }
    }

    /// The sensor height in micro-units: `SENSOR_WIDTH / aspect_ratio`.
    pub open spec fn sensor_height_spec(self) -> int {
        ((SENSOR_WIDTH as int) * (ONE as int)) / (self.aspect_ratio as int)
    }

    /// The photon's offset from the camera position.
    pub open spec fn cam_rel(self, p: Photon) -> FVec3 {
        FVec3 {
            x: (p.pos.x - self.position.x) as i64,
            y: (p.pos.y - self.position.y) as i64,
            z: (p.pos.z - self.position.z) as i64,
        }
    }

    /// Whether and where a photon crosses the aperture, exactly: `None` when
    /// the photon is farther than [`EPSILON_PLANE`] from the aperture plane,
    /// outside the aperture disk, not flying toward the sensor by at least
    /// [`EPSILON_DIR`], or projects outside the sensor; otherwise the
    /// normalized sensor coordinate, each component in `[0, ONE]`.
    pub open spec fn collision_spec(self, p: Photon) -> Option<(i64, i64)> {
        let m = self.rot_spec(self.cam_rel(p));
        if abs1(m.z as int) > EPSILON_PLANE {
            None
        } else if m.x * m.x + m.y * m.y > self.aperture_radius * self.aperture_radius {
            None
        } else {
            let md = self.rot_spec(p.dir);
            if md.z > -EPSILON_DIR {
                None
            } else {
                let px = m.x + tdiv(md.x * (2 * self.focal_length), -(md.z as int));
                let py = m.y + tdiv(md.y * (2 * self.focal_length), -(md.z as int));
                let sh = self.sensor_height_spec();
                if abs1(px) > SENSOR_WIDTH / 2 || abs1(py) > sh / 2 {
                    None
                } else {
                    Some(
                        (
                            (500_000 - tdiv(px, 5)) as i64,
                            (500_000 - tdiv(py * (ONE as int), sh)) as i64,
                        ),
                    )
                }
            }
        }
    }

    /// Decide the collision, exactly as [`Camera::collision_spec`] states.
    pub fn collision(&self, p: &Photon) -> (r: Option<(i64, i64)>)
        requires
            self.wf(),
            p.pos.bounded(COORD_LIMIT as int),
            p.dir.bounded(2_000_000),
        ensures
            r == self.collision_spec(*p),
            r matches Some(uv) ==> 0 <= uv.0 <= ONE && 0 <= uv.1 <= ONE,
    {
        let rel = p.pos.sub_v(self.position);
        let m = self.rotate(rel, Ghost(800_000_000), Ghost(2_400_000_000));
        if abs64(m.z) > EPSILON_PLANE {
            return None;
        }
        let mx: i128 = m.x as i128;
        let my: i128 = m.y as i128;
        let ap: i128 = self.aperture_radius as i128;
        proof {
            lemma_abs_mul_le(m.x as int, m.x as int, 2_400_000_000, 2_400_000_000);
            lemma_abs_mul_le(m.y as int, m.y as int, 2_400_000_000, 2_400_000_000);
            lemma_abs_mul_le(
                self.aperture_radius as int,
                self.aperture_radius as int,
                APERTURE_MAX as int,
                APERTURE_MAX as int,
            );
        }
        if mx * mx + my * my > ap * ap {
            return None;
        }
        proof {
            lemma_abs_of_disk(m.x as int, m.y as int, self.aperture_radius as int);
        }
        let md = self.rotate(p.dir, Ghost(2_000_000), Ghost(6_000_000));
        if md.z > -EPSILON_DIR {
            return None;
        }
        proof {
            lemma_abs_mul_le(
                md.x as int,
                2 * self.focal_length,
                6_000_000,
                2 * (FOCAL_MAX as int),
            );
            lemma_abs_mul_le(
                md.y as int,
                2 * self.focal_length,
                6_000_000,
                2 * (FOCAL_MAX as int),
            );
            lemma_tdiv_abs_le(
                md.x * (2 * self.focal_length),
                -(md.z as int),
                12_000_000_000_000,
            );
            lemma_tdiv_abs_le(
                md.y * (2 * self.focal_length),
                -(md.z as int),
                12_000_000_000_000,
            );
        }
        let px: i64 = m.x + tdiv64(md.x * (2 * self.focal_length), -md.z);
        let py: i64 = m.y + tdiv64(md.y * (2 * self.focal_length), -md.z);
        proof {
            lemma_div_le_bound(
                (SENSOR_WIDTH as int) * (ONE as int),
                (SENSOR_WIDTH as int) * (ONE as int),
                self.aspect_ratio as int,
            );
            lemma_div_is_ordered_by_denominator(
                (SENSOR_WIDTH as int) * (ONE as int),
                ASPECT_MIN as int,
                self.aspect_ratio as int,
            );
            lemma_div_is_ordered_by_denominator(
                (SENSOR_WIDTH as int) * (ONE as int),
                self.aspect_ratio as int,
                ASPECT_MAX as int,
            );
        }
        let sh: i64 = tdiv64(SENSOR_WIDTH * ONE, self.aspect_ratio);
        let sh2: i64 = tdiv64(sh, 2);
        if abs64(px) > SENSOR_WIDTH / 2 || abs64(py) > sh2 {
            return None;
        }
        proof {
            lemma_tdiv_abs_le(px as int, 5, 500_000);
            lemma_half_bound(py as int, sh as int);
            lemma_abs_mul_le(py as int, ONE as int, 25_000_000, ONE as int);
            lemma_tdiv_abs_le(py * (ONE as int), sh as int, 500_000);
        }
        let u: i64 = 500_000 - tdiv64(px, 5);
        let v: i64 = 500_000 - tdiv64(py * ONE, sh);
        Some((u, v))
    }
}

/// What [`Camera::new`] builds, exactly: optics are range-checked, the
/// forward and up vectors must be at least half a unit long, the basis is
/// orthonormalized by cross products, and a (nearly) parallel forward/up
/// pair is rejected.
pub open spec fn camera_build_spec(
    position: FVec3,
    forward: FVec3,
    up: FVec3,
    aspect_ratio: i64,
    aperture_radius: i64,
    focal_length: i64,
) -> Result<Camera, ConfigError> {
    if !(ASPECT_MIN <= aspect_ratio <= ASPECT_MAX) || !(1 <= aperture_radius <= APERTURE_MAX)
        || !(1 <= focal_length <= FOCAL_MAX) {
        Err(ConfigError::BadOptics)
    } else if forward.norm_sq_spec() < 250_000_000_000 || up.norm_sq_spec() < 250_000_000_000 {
        Err(ConfigError::DegenerateBasis)
    } else {
        let fz = forward.normalize_spec();
        let un = up.normalize_spec();
        let cr = un.cross_fp_spec(fz);
        if cr.norm_sq_spec() < 100_000_000 {
            Err(ConfigError::DegenerateBasis)
        } else {
            let rx = cr.normalize_spec();
            let uy = fz.cross_fp_spec(rx);
            if uy.norm_sq_spec() < 1 {
                Err(ConfigError::DegenerateBasis)
            } else {
                Ok(
                    (Camera {
                        position,
                        forward,
                        up,
                        aspect_ratio,
                        aperture_radius,
                        focal_length,
                        row_x: rx,
                        row_y: uy.normalize_spec(),
                        row_z: fz,
                    }),
                )
            }
        }
    }
}

impl Camera {
    /// Build and validate a camera, exactly as [`camera_build_spec`]
    /// states: `Ok` holds a well-formed camera whose rotation rows are the
    /// orthonormalized `(right, up, forward)` basis; every rejected
    /// configuration yields the error `camera_build_spec` names.
    pub fn new(
        position: FVec3,
        forward: FVec3,
        up: FVec3,
        aspect_ratio: i64,
        aperture_radius: i64,
        focal_length: i64,
    ) -> (r: Result<Camera, ConfigError>)
        requires
            position.bounded(COORD_LIMIT as int),
            forward.bounded(1_000_000_000),
            up.bounded(1_000_000_000),
        ensures
            r == camera_build_spec(
                position,
                forward,
                up,
                aspect_ratio,
                aperture_radius,
                focal_length,
            ),
            r matches Ok(c) ==> c.wf(),
    {
        if !(ASPECT_MIN <= aspect_ratio && aspect_ratio <= ASPECT_MAX)
            || !(1 <= aperture_radius && aperture_radius <= APERTURE_MAX)
            || !(1 <= focal_length && focal_length <= FOCAL_MAX) {
            return Err(ConfigError::BadOptics);
        }
        if forward.norm_sq() < 250_000_000_000 || up.norm_sq() < 250_000_000_000 {
            return Err(ConfigError::DegenerateBasis);
        }
        let fz = forward.normalize();
        let un = up.normalize();
        let cr = un.cross_fp(fz);
        if cr.norm_sq() < 100_000_000 {
            return Err(ConfigError::DegenerateBasis);
        }
        let rx = cr.normalize();
        let uy = fz.cross_fp(rx);
        if uy.norm_sq() < 1 {
            return Err(ConfigError::DegenerateBasis);
        }
        let ry = uy.normalize();
        Ok(
            Camera {
                position,
                forward,
                up,
                aspect_ratio,
                aperture_radius,
                focal_length,
                row_x: rx,
                row_y: ry,
                row_z: fz,
            },
        )
    }
}

/// A photon on the optical axis, within one plane tolerance of the
/// aperture, flying exactly against the forward axis, hits the dead center
/// of the sensor: its normalized sensor coordinate is `(1/2, 1/2)`.
pub proof fn lemma_axial_photon_hits_center(c: Camera, p: Photon)
    requires
        c.wf(),
        c.rot_spec(c.cam_rel(p)).x == 0,
        c.rot_spec(c.cam_rel(p)).y == 0,
        abs1(c.rot_spec(c.cam_rel(p)).z as int) <= EPSILON_PLANE as int,
        c.rot_spec(p.dir) == (FVec3 { x: 0, y: 0, z: -1_000_000i64 }),
    ensures
        c.collision_spec(p) == Some((500_000i64, 500_000i64)),
{
    let m = c.rot_spec(c.cam_rel(p));
    let ap = c.aperture_radius as int;
    crate::vec3::lemma_sq_nonneg(ap);
    let md = c.rot_spec(p.dir);
    assert(md.z == -ONE);
    vstd::arithmetic::div_mod::lemma_div_of0(ONE as int);
    vstd::arithmetic::div_mod::lemma_div_of0(5);
    let sh = c.sensor_height_spec();
    lemma_div_le_bound(
        (SENSOR_WIDTH as int) * (ONE as int),
        (SENSOR_WIDTH as int) * (ONE as int),
        c.aspect_ratio as int,
    );
    lemma_div_is_ordered_by_denominator(
        (SENSOR_WIDTH as int) * (ONE as int),
        c.aspect_ratio as int,
        ASPECT_MAX as int,
    );
    assert(sh >= 500_000);
    vstd::arithmetic::div_mod::lemma_div_pos_is_pos(sh, 2);
    vstd::arithmetic::div_mod::lemma_div_of0(sh);
}

/// Magnitude of an `i64` whose value is within `+/- 2^62`.
fn abs64(a: i64) -> (r: i64)
    requires
        abs1(a as int) <= 0x4000_0000_0000_0000,
    ensures
        r as int == abs1(a as int),
{
    if a < 0 {
        -a
    } else {
        a
    }
}

/// Rotation rows are near-unit, so rotating a bounded vector stays bounded.
pub proof fn lemma_rot_bound(c: Camera, v: FVec3, bv: int, b2: int)
    requires
        c.wf(),
        0 <= bv,
        0 <= b2,
        v.bounded(bv),
        3 * ((ONE as int) * bv) <= (ONE as int) * b2,
    ensures
        c.rot_spec(v).bounded(b2),
        abs1(c.row_x.dot_spec(v)) <= 3 * ((ONE as int) * bv),
        abs1(c.row_y.dot_spec(v)) <= 3 * ((ONE as int) * bv),
        abs1(c.row_z.dot_spec(v)) <= 3 * ((ONE as int) * bv),
{
    lemma_dot_abs_le(c.row_x, v, ONE as int, bv);
    lemma_dot_abs_le(c.row_y, v, ONE as int, bv);
    lemma_dot_abs_le(c.row_z, v, ONE as int, bv);
    lemma_tdiv_abs_le(c.row_x.dot_spec(v), ONE as int, b2);
    lemma_tdiv_abs_le(c.row_y.dot_spec(v), ONE as int, b2);
    lemma_tdiv_abs_le(c.row_z.dot_spec(v), ONE as int, b2);
}

/// Inside the aperture disk, each lateral coordinate is at most the radius.
proof fn lemma_abs_of_disk(x: int, y: int, ap: int)
    requires
        0 <= ap,
        x * x + y * y <= ap * ap,
    ensures
        abs1(x) <= ap,
        abs1(y) <= ap,
{
    assert(abs1(x) <= ap && abs1(y) <= ap) by (nonlinear_arith)
        requires
            0 <= ap,
            x * x + y * y <= ap * ap,
    ;
}

/// `|a| <= b / 2` (floored) gives `|a * ONE| <= b * 500_000`.
proof fn lemma_half_bound(a: int, b: int)
    requires
        1 <= b,
        abs1(a) <= b / 2,
    ensures
        abs1(a * (ONE as int)) <= b * 500_000,
{
    lemma_fundamental_div_mod(b, 2);
    lemma_mod_division_less_than_divisor(b, 2);
    assert(abs1(a * (ONE as int)) <= b * 500_000) by (nonlinear_arith)
        requires
            2 * (b / 2) <= b,
            0 <= b / 2,
            abs1(a) <= b / 2,
    ;
}

} // verus!
