//! The scene and the raymarcher: a fixed-budget integrator that advances a
//! photon step by step, deflects it toward the gravity source, and decides
//! between a sensor hit, an escape, and a horizon capture.

use vstd::prelude::*;
use crate::camera::{Camera, ConfigError};
use crate::gravity::{
    deflection, deflection_spec, schwarzschild_radius, schwarzschild_radius_spec, GravityField,
    MASS_MAX, MASS_MIN,
};
use crate::num::{tdiv, tdiv64, lemma_tdiv_abs_le, ONE};
use crate::photon::{lemma_band_comps, near_unit, Photon};
use crate::vec3::{lemma_abs_mul_le, FVec3, COORD_LIMIT};

verus! {

/// Iteration budget of one trace.
pub const ITERATIONS: usize = 600;

/// Integration step length: 0.015 units, in micro-units.
pub const TIME_SCALE: i64 = 15_000;

/// Bound on a starting position; the whole budget of steps then keeps the
/// photon within [`COORD_LIMIT`].
pub const START_LIMIT: i64 = 390_000_000;

/// The outcome of one trace: a sensor hit with its normalized coordinate, a
/// capture by the horizon, or an escape (by the early-exit distance test or
/// an exhausted budget).
#[derive(Clone, Copy, Debug, PartialEq, Eq, Structural)]
pub enum TraceEnd {
    Hit { u: i64, v: i64 },
    Captured,
    Escaped,
}

/// What one trace hands to the accumulator: either a hit carrying the
/// normalized sensor coordinate, or a miss, each with the final photon
/// state. `captured` tells a horizon capture from an escape.
#[derive(Clone, Copy, Debug, PartialEq, Eq, Structural)]
pub enum Intersection {
    Hit { u: i64, v: i64, photon: Photon },
    Miss { captured: bool, photon: Photon },
}

/// The immutable scene: camera plus gravity source.
#[derive(Clone, Copy, Debug, PartialEq, Eq, Structural)]
pub struct World {
    pub camera: Camera,
    pub gravity: GravityField,
}

/// One step of free flight: `pos += dir * TIME_SCALE / ONE`, i.e.
/// `dir * 3 / 200` per coordinate, truncated.
pub open spec fn advance_spec(p: Photon) -> Photon {
    Photon {
        pos: FVec3 {
            x: (p.pos.x + tdiv(p.dir.x * 3, 200)) as i64,
            y: (p.pos.y + tdiv(p.dir.y * 3, 200)) as i64,
            z: (p.pos.z + tdiv(p.dir.z * 3, 200)) as i64,
        },
        dir: p.dir,
        wavelength: p.wavelength,
    }
}

/// The gravitational bend of one step: add the deflection to the direction
/// and renormalize. The renormalized direction is adopted only when it lands
/// inside the near-unit band; otherwise the direction is kept, preserving
/// the normalization invariant. By
/// [`crate::photon::lemma_normalize_near_unit`] the band test can only fail
/// when the kick nearly cancels the direction (the renormalized vector of
/// any operand at least half a unit long is in the band).
pub open spec fn deflect_dir_spec(w: World, p: Photon) -> Photon {
    let k = deflection_spec(w.gravity, p.pos);
    let nd = FVec3 {
        x: (p.dir.x + k.x) as i64,
        y: (p.dir.y + k.y) as i64,
        z: (p.dir.z + k.z) as i64,
    };
    if 1 <= nd.norm_sq_spec() && near_unit(nd.normalize_spec()) {
        Photon { pos: p.pos, dir: nd.normalize_spec(), wavelength: p.wavelength }
    } else {
        p
    }
}

/// The early-exit test after `done + 1` steps: the photon is farther from
/// the camera than the remaining budget of steps can carry it.
pub open spec fn escaped_spec(w: World, p: Photon, done: int) -> bool {
    let reach = (ITERATIONS - done) * (TIME_SCALE as int);
    p.pos.dist_sq_spec(w.camera.position) > reach * reach
}

/// The capture test: the photon is within the Schwarzschild radius of the
/// gravity source.
pub open spec fn captured_spec(w: World, p: Photon) -> bool {
    let rs = schwarzschild_radius_spec(w.gravity.mass as int);
    p.pos.dist_sq_spec(w.gravity.position) < rs * rs
}

/// The raymarcher's state machine, one recursive unfolding per integration
/// step, `done` steps already taken: test the sensor, advance, test escape,
/// test capture, deflect, repeat until the budget is exhausted. Returns the
/// outcome and the final photon state.
pub open spec fn march_from(w: World, p: Photon, done: int) -> (TraceEnd, Photon)
    decreases ITERATIONS - done,
{
    if done < 0 || done >= ITERATIONS {
        (TraceEnd::Escaped, p)
    } else {
        match w.camera.collision_spec(p) {
            Some(uv) => ((TraceEnd::Hit { u: uv.0, v: uv.1 }), p),
            None => {
                let p1 = advance_spec(p);
                if escaped_spec(w, p1, done) {
                    (TraceEnd::Escaped, p1)
                } else if captured_spec(w, p1) {
                    (TraceEnd::Captured, p1)
                } else {
                    march_from(w, deflect_dir_spec(w, p1), done + 1)
                }
            },
        }
    }
}

/// A whole trace, folded into the record the accumulator consumes.
pub open spec fn march_result(w: World, p: Photon) -> Intersection {
    match march_from(w, p, 0) {
        (TraceEnd::Hit { u, v }, q) => Intersection::Hit { u, v, photon: q },
        (TraceEnd::Captured, q) => Intersection::Miss { captured: true, photon: q },
        (TraceEnd::Escaped, q) => Intersection::Miss { captured: false, photon: q },
    }
}

/// An admissible input photon: in-range start position and near-unit
/// direction.
pub open spec fn photon_ok(p: Photon) -> bool {
    p.pos.bounded(START_LIMIT as int) && near_unit(p.dir)
}

impl World {
    pub open spec fn wf(self) -> bool {
        self.camera.wf() && self.gravity.wf()
    }

    /// Assemble a scene. The camera comes already validated from
    /// [`Camera::new`]; the mass is range-checked here, eagerly, so that no
    /// trace ever runs against a degenerate configuration.
    pub fn new(camera: Camera, source_position: FVec3, source_mass: i64) -> (r: Result<
        World,
        ConfigError,
    >)
        requires
            camera.wf(),
            source_position.bounded(COORD_LIMIT as int),
        ensures
            r matches Ok(w) ==> w == (World {
                camera,
                gravity: GravityField { position: source_position, mass: source_mass },
            }) && w.wf(),
            r is Ok <==> MASS_MIN <= source_mass <= MASS_MAX,
            r is Err ==> r == Err::<World, ConfigError>(ConfigError::BadMass),
    {
        if source_mass < MASS_MIN || source_mass > MASS_MAX {
            Err(ConfigError::BadMass)
        } else {
            Ok(World { camera, gravity: GravityField { position: source_position, mass: source_mass } })
        }
    }

    /// Trace one photon through the scene, exactly as [`march_result`]
    /// states: the returned record is the state machine's outcome, and a
    /// hit's sensor coordinate lies in `[0, ONE]^2`. That the final
    /// direction is still near-unit is [`lemma_march_preserves_unit`].
    pub fn raymarch(&self, photon: Photon) -> (r: Intersection)
        requires
            self.wf(),
            photon_ok(photon),
        ensures
            r == march_result(*self, photon),
            r matches Intersection::Hit { u, v, .. } ==> 0 <= u <= ONE && 0 <= v <= ONE,
    {
        let rs: i64 = schwarzschild_radius(self.gravity.mass);
        let mut p = photon;
        let mut i: usize = 0;
        while i < ITERATIONS
            invariant
                self.wf(),
                i <= ITERATIONS,
                rs as int == schwarzschild_radius_spec(self.gravity.mass as int),
                1482 <= rs <= 1_482_222_222,
                near_unit(p.dir),
                p.pos.bounded(START_LIMIT as int + 15_002 * (i as int)),
                march_from(*self, photon, 0) == march_from(*self, p, i as int),
            decreases ITERATIONS - i,
        {
            proof {
                lemma_band_comps(p.dir);
            }
            if let Some(uv) = self.camera.collision(&p) {
                return Intersection::Hit { u: uv.0, v: uv.1, photon: p };
            }
            let ghost p_entry = p;
            proof {
                lemma_tdiv_abs_le(p.dir.x * 3, 200, 15_002);
                lemma_tdiv_abs_le(p.dir.y * 3, 200, 15_002);
                lemma_tdiv_abs_le(p.dir.z * 3, 200, 15_002);
            }
            let sx: i64 = tdiv64(p.dir.x * 3, 200);
            let sy: i64 = tdiv64(p.dir.y * 3, 200);
            let sz: i64 = tdiv64(p.dir.z * 3, 200);
            p = Photon {
                pos: FVec3 { x: p.pos.x + sx, y: p.pos.y + sy, z: p.pos.z + sz },
                dir: p.dir,
                wavelength: p.wavelength,
            };
            proof {
                assert(p == advance_spec(p_entry));
            }
            let remaining: i64 = (ITERATIONS - i) as i64;
            let reach: i64 = remaining * TIME_SCALE;
            proof {
                lemma_abs_mul_le(reach as int, reach as int, 9_000_000, 9_000_000);
            }
            let d2cam: i64 = p.pos.dist_sq(self.camera.position);
            if d2cam > reach * reach {
                proof {
                    assert(escaped_spec(*self, p, i as int));
                }
                return Intersection::Miss { captured: false, photon: p };
            }
            proof {
                lemma_abs_mul_le(rs as int, rs as int, 1_482_222_222, 1_482_222_222);
            }
            let d2src: i64 = p.pos.dist_sq(self.gravity.position);
            if d2src < rs * rs {
                return Intersection::Miss { captured: true, photon: p };
            }
            let ghost p_advanced = p;
            let k = deflection(&self.gravity, p.pos);
            let nd = FVec3 { x: p.dir.x + k.x, y: p.dir.y + k.y, z: p.dir.z + k.z };
            let ns: i64 = nd.norm_sq();
            if ns >= 1 {
                let cand = nd.normalize();
                let cns: i64 = cand.norm_sq();
                if 999_800_010_000 <= cns && cns <= 1_000_200_010_000 {
                    p = Photon { pos: p.pos, dir: cand, wavelength: p.wavelength };
                }
            }
            proof {
                assert(p == deflect_dir_spec(*self, p_advanced));
            }
            i = i + 1;
        }
        Intersection::Miss { captured: false, photon: p }
    }
}

/// Normalization invariant: whatever the trace does, every photon state it
/// passes through — in particular the final one — keeps a near-unit
/// direction, because a step either leaves the direction untouched or
/// renormalizes it into the band.
pub proof fn lemma_march_preserves_unit(w: World, p: Photon, done: int)
    requires
        near_unit(p.dir),
    ensures
        near_unit(march_from(w, p, done).1.dir),
    decreases ITERATIONS - done,
{
    if done < 0 || done >= ITERATIONS {
    } else {
        match w.camera.collision_spec(p) {
            Some(uv) => {},
            None => {
                let p1 = advance_spec(p);
                assert(p1.dir == p.dir);
                if escaped_spec(w, p1, done) {
                } else if captured_spec(w, p1) {
                } else {
                    let p2 = deflect_dir_spec(w, p1);
                    assert(near_unit(p2.dir));
                    lemma_march_preserves_unit(w, p2, done + 1);
                }
            },
        }
    }
}

/// Outcome soundness: a trace that ends in `Hit` ends on a photon the
/// camera's collision predicate accepts at that very coordinate, and one
/// that ends in `Captured` ends inside the Schwarzschild radius. So a
/// photon that never satisfies the collision predicate and never crosses
/// the horizon can only terminate as `Escaped`, within the iteration
/// budget.
pub proof fn lemma_march_outcomes(w: World, p: Photon, done: int)
    ensures
        march_from(w, p, done).0 matches TraceEnd::Hit { u, v } ==> w.camera.collision_spec(
            march_from(w, p, done).1,
        ) == Some((u, v)),
        march_from(w, p, done).0 is Captured ==> captured_spec(w, march_from(w, p, done).1),
    decreases ITERATIONS - done,
{
    if done < 0 || done >= ITERATIONS {
    } else {
        match w.camera.collision_spec(p) {
            Some(uv) => {},
            None => {
                let p1 = advance_spec(p);
                if escaped_spec(w, p1, done) {
                } else if captured_spec(w, p1) {
                } else {
                    lemma_march_outcomes(w, deflect_dir_spec(w, p1), done + 1);
                }
            },
        }
    }
}

/// Horizon capture within the first step: a photon that starts more than
/// one step's travel inside the Schwarzschild radius (and is not already on
/// the sensor, nor outside the early-exit reach of the camera) is captured
/// by the very first integration step.
pub proof fn lemma_capture_from_inside(w: World, p: Photon)
    requires
        w.wf(),
        photon_ok(p),
        w.camera.collision_spec(p) is None,
        !escaped_spec(w, advance_spec(p), 0),
        26_001 <= schwarzschild_radius_spec(w.gravity.mass as int),
        p.pos.dist_sq_spec(w.gravity.position) <= (schwarzschild_radius_spec(
            w.gravity.mass as int,
        ) - 26_001) * (schwarzschild_radius_spec(w.gravity.mass as int) - 26_001),
    ensures
        march_from(w, p, 0) == (TraceEnd::Captured, advance_spec(p)),
{
    let rs = schwarzschild_radius_spec(w.gravity.mass as int);
    let bh = w.gravity.position;
    lemma_band_comps(p.dir);
    let sx = tdiv(p.dir.x * 3, 200);
    let sy = tdiv(p.dir.y * 3, 200);
    let sz = tdiv(p.dir.z * 3, 200);
    lemma_tdiv_abs_le(p.dir.x * 3, 200, 15_002);
    lemma_tdiv_abs_le(p.dir.y * 3, 200, 15_002);
    lemma_tdiv_abs_le(p.dir.z * 3, 200, 15_002);
    lemma_abs_mul_le(sx, sx, 15_002, 15_002);
    lemma_abs_mul_le(sy, sy, 15_002, 15_002);
    lemma_abs_mul_le(sz, sz, 15_002, 15_002);
    let ax = p.pos.x - bh.x;
    let ay = p.pos.y - bh.y;
    let az = p.pos.z - bh.z;
    crate::vec3::lemma_triangle_sq(ax, ay, az, sx, sy, sz, rs - 26_001, 25_985);
    let p1 = advance_spec(p);
    assert(p1.pos.x as int == p.pos.x + sx);
    assert(p1.pos.y as int == p.pos.y + sy);
    assert(p1.pos.z as int == p.pos.z + sz);
    assert(p1.pos.dist_sq_spec(bh) <= (rs - 16) * (rs - 16));
    assert((rs - 16) * (rs - 16) < rs * rs) by (nonlinear_arith)
        requires
            26_001 <= rs,
    ;
    assert(captured_spec(w, p1));
}

} // verus!
