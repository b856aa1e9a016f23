//! The point gravity source: Schwarzschild radius and the per-step
//! gravitational deflection of a photon direction.

use vstd::prelude::*;
use vstd::arithmetic::div_mod::{lemma_div_is_ordered, lemma_hoist_over_denominator};
use crate::num::{abs1, sqrt_floor, isqrt, lemma_div_le_bound, ONE};
use crate::vec3::{FVec3, lemma_norm_sq_le, lemma_abs_mul_le, COORD_LIMIT};

verus! {

/// Smallest admissible mass, in units of `10^24` kg.
pub const MASS_MIN: i64 = 1;

/// Largest admissible mass, in units of `10^24` kg.
pub const MASS_MAX: i64 = 1_000_000;

/// Cap on one step's deflection per coordinate (20 world units): a guard
/// against degenerate orbits grazing the horizon, far above any kick a
/// physically scaled scene can produce.
pub const KICK_CAP: i64 = 20_000_000;

/// A fixed point mass. `mass` is in units of `10^24` kg, `position` in
/// micro-units.
#[derive(Clone, Copy, Debug, PartialEq, Eq, Structural)]
pub struct GravityField {
    pub position: FVec3,
    pub mass: i64,
}

impl GravityField {
    pub open spec fn wf(self) -> bool {
        self.position.bounded(COORD_LIMIT as int) && MASS_MIN <= self.mass <= MASS_MAX
    }
}

/// The Schwarzschild radius `2 G m / c^2` in micro-units, exactly:
/// with `G = 6.67e-11`, `c = 3e8` and masses in `10^24` kg,
/// `2 G (m * 10^24) / c^2 = m * 13340 / 9` micro-units, floored.
pub open spec fn schwarzschild_radius_spec(m: int) -> int {
    (13340 * m) / 9
}

/// Compute the Schwarzschild radius of a mass, exactly as
/// [`schwarzschild_radius_spec`] states it.
pub fn schwarzschild_radius(mass: i64) -> (r: i64)
    requires
        MASS_MIN <= mass <= MASS_MAX,
    ensures
        r as int == schwarzschild_radius_spec(mass as int),
        1482 <= r <= 1_482_222_222,
{
    proof {
        lemma_div_le_bound(13340 * mass, 13_340_000_000_000, 9);
        lemma_div_is_ordered(13340, 13340 * mass, 9);
    }
    (13340 * mass) / 9
}

/// The Schwarzschild radius is strictly increasing in the mass.
pub proof fn lemma_schwarzschild_strictly_increasing(m1: int, m2: int)
    requires
        m1 < m2,
    ensures
        schwarzschild_radius_spec(m1) < schwarzschild_radius_spec(m2),
{
    lemma_hoist_over_denominator(13340 * m1, 1482, 9nat);
    assert(13340 * m1 + 13340 <= 13340 * m2) by (nonlinear_arith)
        requires
            m1 + 1 <= m2,
    ;
    lemma_div_is_ordered(13340 * m1 + 1482 * 9, 13340 * m2, 9);
}

/// One coordinate of the per-step deflection. The numerator constant is
/// `G * 10^24 kg * dt * ONE^3 / c^2 = 33_350_000_000_000 / 3` exactly
/// (`dt = 0.015`), so the kick toward the mass along coordinate `c` of the
/// separation vector, with squared distance `d2` and distance `d` in
/// micro-units, is `c * m * 33_350_000_000_000 / (3 * d2 * d)`, truncated
/// and capped at [`KICK_CAP`].
pub open spec fn kick_comp(c: int, m: int, d2: int, d: int) -> int {
    let q = (abs1(c) * m * 33_350_000_000_000) / (3 * d2 * d);
    let qc = if q > KICK_CAP { KICK_CAP as int } else { q };
    if c < 0 {
        -qc
    } else {
        qc
    }
}

/// The deflection `acceleration / c^2 * dt` a photon at `pos` receives in
/// one integration step, componentwise along the unit vector toward the
/// mass. Zero when the photon sits on the mass itself (guarded; the
/// raymarcher never reaches that state because capture is tested first).
pub open spec fn deflection_spec(g: GravityField, pos: FVec3) -> FVec3 {
    let rx = g.position.x - pos.x;
    let ry = g.position.y - pos.y;
    let rz = g.position.z - pos.z;
    let d2 = rx * rx + ry * ry + rz * rz;
    let d = sqrt_floor(d2);
    if d < 1 {
        (FVec3 { x: 0, y: 0, z: 0 })
    } else {
        (FVec3 {
            x: kick_comp(rx, g.mass as int, d2, d) as i64,
            y: kick_comp(ry, g.mass as int, d2, d) as i64,
            z: kick_comp(rz, g.mass as int, d2, d) as i64,
        })
    }
}

fn kick_exec(c: i64, m: i64, d2: i64, d: u64) -> (k: i64)
    requires
        abs1(c as int) <= 800_000_000,
        MASS_MIN <= m <= MASS_MAX,
        1 <= d,
        d <= 1_400_000_000,
        (d as int) * (d as int) <= d2,
        d2 <= 2_000_000_000_000_000_000,
    ensures
        k as int == kick_comp(c as int, m as int, d2 as int, d as int),
        abs1(k as int) <= KICK_CAP as int,
{
    let a: u64 = if c < 0 {
        (-c) as u64
    } else {
        c as u64
    };
    proof {
        lemma_abs_mul_le(a as int, m as int, 800_000_000, 1_000_000);
        lemma_abs_mul_le(
            (a as int) * (m as int),
            33_350_000_000_000,
            800_000_000_000_000,
            33_350_000_000_000,
        );
        assert(3 <= 3 * (d2 as int) * (d as int) <= 8_400_000_000_000_000_000_000_000_000)
            by (nonlinear_arith)
            requires
                1 <= d,
                (d as int) <= 1_400_000_000,
                (d as int) * (d as int) <= d2,
                (d2 as int) <= 2_000_000_000_000_000_000,
        ;
    }
    let num: u128 = (a as u128) * (m as u128) * 33_350_000_000_000u128;
    let den: u128 = 3u128 * (d2 as u128) * (d as u128);
    let q: u128 = num / den;
    let qc: i64 = if q > 20_000_000u128 {
        20_000_000i64
    } else {
        q as i64
    };
    if c < 0 {
        -qc
    } else {
        qc
    }
}

/// Compute one step's deflection, exactly as [`deflection_spec`] states it.
pub fn deflection(g: &GravityField, pos: FVec3) -> (k: FVec3)
    requires
        g.wf(),
        pos.bounded(COORD_LIMIT as int),
    ensures
        k == deflection_spec(*g, pos),
        k.bounded(KICK_CAP as int),
{
    let rel = g.position.sub_v(pos);
    proof {
        lemma_norm_sq_le(rel, 800_000_000);
    }
    let d2: i64 = rel.norm_sq();
    let d: u64 = isqrt(d2 as u64);
    if d == 0 {
        FVec3 { x: 0, y: 0, z: 0 }
    } else {
        proof {
            assert((d as int) <= 1_400_000_000) by (nonlinear_arith)
                requires
                    0 <= d,
                    (d as int) * (d as int) <= d2,
                    (d2 as int) <= 1_920_000_000_000_000_000,
            ;
        }
        let kx: i64 = kick_exec(rel.x, g.mass, d2, d);
        let ky: i64 = kick_exec(rel.y, g.mass, d2, d);
        let kz: i64 = kick_exec(rel.z, g.mass, d2, d);
        FVec3 { x: kx, y: ky, z: kz }
    }
}

} // verus!
