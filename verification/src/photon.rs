//! The traced light sample: position, near-unit direction, wavelength, and
//! the piecewise-linear visible-spectrum color map with gamma correction.

use vstd::prelude::*;
use crate::num::{abs1, root5, root5_floor, tdiv, ONE};
use crate::vec3::FVec3;

verus! {

/// Lower edge of the unit band a direction norm must stay in: `1 - 1e-4`.
pub const NORM_LO: i64 = 999_900;

/// Upper edge of the unit band: `1 + 1e-4`.
pub const NORM_HI: i64 = 1_000_100;

/// A direction is near-unit when its norm is within `1e-4` of one world
/// unit, i.e. its squared norm lies between `NORM_LO^2` and `NORM_HI^2`.
pub open spec fn near_unit(v: FVec3) -> bool {
    NORM_LO * NORM_LO <= v.norm_sq_spec() <= NORM_HI * NORM_HI
}

/// A near-unit direction has every coordinate within the band's upper edge.
pub proof fn lemma_band_comps(v: FVec3)
    requires
        near_unit(v),
    ensures
        v.bounded(NORM_HI as int),
{
    assert(crate::num::abs1(v.x as int) <= 1_000_100 && crate::num::abs1(v.y as int) <= 1_000_100
        && crate::num::abs1(v.z as int) <= 1_000_100) by (nonlinear_arith)
        requires
            v.x * v.x + v.y * v.y + v.z * v.z <= 1_000_100 * 1_000_100,
    ;
}

/// The quantitative normalization guarantee: renormalizing any vector at
/// least half a unit long (and within the magnitude a deflected direction
/// can reach) lands inside the near-unit band, so the raymarcher's band
/// check never rejects a renormalized direction.
pub proof fn lemma_normalize_near_unit(v: FVec3)
    requires
        v.bounded(40_000_000),
        250_000_000_000 <= v.norm_sq_spec(),
    ensures
        near_unit(v.normalize_spec()),
{
    let n = v.norm_sq_spec();
    let s: int = ONE as int;
    crate::vec3::lemma_norm_sq_le(v, 40_000_000);
    crate::num::lemma_sqrt_floor_exists(n);
    let d = crate::num::sqrt_floor(n);
    assert(500_000 <= d) by (nonlinear_arith)
        requires
            0 <= d,
            250_000_000_000 <= n,
            n < (d + 1) * (d + 1),
    ;
    crate::vec3::lemma_comp_le_sqrt(v, n, d);
    let qx = lemma_normalize_comp(v.x as int, d);
    let qy = lemma_normalize_comp(v.y as int, d);
    let qz = lemma_normalize_comp(v.z as int, d);
    let w = v.normalize_spec();
    assert(w.x as int == tdiv(v.x * s, d) && abs1(tdiv(v.x * s, d)) == qx);
    assert(w.y as int == tdiv(v.y * s, d) && abs1(tdiv(v.y * s, d)) == qy);
    assert(w.z as int == tdiv(v.z * s, d) && abs1(tdiv(v.z * s, d)) == qz);
    let bw = w.norm_sq_spec();
    assert(bw == qx * qx + qy * qy + qz * qz) by (nonlinear_arith)
        requires
            bw == w.x * w.x + w.y * w.y + w.z * w.z,
            abs1(w.x as int) == qx,
            abs1(w.y as int) == qy,
            abs1(w.z as int) == qz,
    ;
    let ax = abs1(v.x as int);
    let ay = abs1(v.y as int);
    let az = abs1(v.z as int);
    assert(n == ax * ax + ay * ay + az * az) by (nonlinear_arith)
        requires
            n == v.x * v.x + v.y * v.y + v.z * v.z,
            ax == abs1(v.x as int),
            ay == abs1(v.y as int),
            az == abs1(v.z as int),
    ;
    // upper bound: bw * d^2 <= n * s^2 < ((d+1) s)^2 <= ((s+100) d)^2
    assert((qx * qx) * (d * d) <= (ax * ax) * (s * s)) by (nonlinear_arith)
        requires
            0 <= qx,
            0 <= ax,
            0 < d,
            qx * d <= ax * s,
    ;
    assert((qy * qy) * (d * d) <= (ay * ay) * (s * s)) by (nonlinear_arith)
        requires
            0 <= qy,
            0 <= ay,
            0 < d,
            qy * d <= ay * s,
    ;
    assert((qz * qz) * (d * d) <= (az * az) * (s * s)) by (nonlinear_arith)
        requires
            0 <= qz,
            0 <= az,
            0 < d,
            qz * d <= az * s,
    ;
    assert(bw * (d * d) <= n * (s * s)) by (nonlinear_arith)
        requires
            bw == qx * qx + qy * qy + qz * qz,
            n == ax * ax + ay * ay + az * az,
            (qx * qx) * (d * d) <= (ax * ax) * (s * s),
            (qy * qy) * (d * d) <= (ay * ay) * (s * s),
            (qz * qz) * (d * d) <= (az * az) * (s * s),
    ;
    assert(n * (s * s) < ((d + 1) * s) * ((d + 1) * s)) by (nonlinear_arith)
        requires
            n < (d + 1) * (d + 1),
            s == 1_000_000,
    ;
    assert(((d + 1) * s) * ((d + 1) * s) <= ((s + 100) * d) * ((s + 100) * d))
        by (nonlinear_arith)
        requires
            s == 1_000_000,
            500_000 <= d,
    ;
    assert(bw <= (s + 100) * (s + 100)) by (nonlinear_arith)
        requires
            0 < d,
            bw * (d * d) < ((s + 100) * d) * ((s + 100) * d),
    ;
    // lower bound: s^2 * d^2 <= n * s^2 < (bw + 2 (qx+qy+qz) + 3) d^2
    let t2 = d * d;
    lemma_step_sq_lt(ax, qx, s, d, t2);
    lemma_step_sq_lt(ay, qy, s, d, t2);
    lemma_step_sq_lt(az, qz, s, d, t2);
    assert(n * (s * s) == (ax * ax) * (s * s) + (ay * ay) * (s * s) + (az * az) * (s * s))
        by (nonlinear_arith)
        requires
            n == ax * ax + ay * ay + az * az,
    ;
    assert(((qx + 1) * (qx + 1)) * t2 + ((qy + 1) * (qy + 1)) * t2 + ((qz + 1) * (qz + 1)) * t2
        == (bw + 2 * (qx + qy + qz) + 3) * t2) by (nonlinear_arith)
        requires
            bw == qx * qx + qy * qy + qz * qz,
    ;
    assert(n * (s * s) < (bw + 2 * (qx + qy + qz) + 3) * t2);
    assert(0 < t2 && (s * s) * t2 <= n * (s * s)) by (nonlinear_arith)
        requires
            0 < d,
            t2 == d * d,
            d * d <= n,
            s == 1_000_000,
    ;
    assert(s * s < bw + 2 * (qx + qy + qz) + 3) by (nonlinear_arith)
        requires
            0 < t2,
            (s * s) * t2 < (bw + 2 * (qx + qy + qz) + 3) * t2,
    ;
    assert((s - 100) * (s - 100) <= bw) by (nonlinear_arith)
        requires
            s == 1_000_000,
            s * s < bw + 2 * (qx + qy + qz) + 3,
            0 <= qx <= s,
            0 <= qy <= s,
            0 <= qz <= s,
    ;
}

/// For `0 <= a s < (q + 1) d`: squaring gives `a^2 s^2 < (q+1)^2 d^2`.
proof fn lemma_step_sq_lt(a: int, q: int, s: int, d: int, t2: int)
    requires
        0 <= a,
        0 <= q,
        0 < d,
        0 < s,
        t2 == d * d,
        a * s < (q + 1) * d,
    ensures
        (a * a) * (s * s) < ((q + 1) * (q + 1)) * t2,
{
    assert((a * s) * (a * s) < ((q + 1) * d) * ((q + 1) * d)) by (nonlinear_arith)
        requires
            0 <= a * s,
            a * s < (q + 1) * d,
    ;
    assert((a * s) * (a * s) == (a * a) * (s * s)) by (nonlinear_arith);
    assert(((q + 1) * d) * ((q + 1) * d) == ((q + 1) * (q + 1)) * t2) by (nonlinear_arith)
        requires
            t2 == d * d,
    ;
}

/// One coordinate of a renormalization: for `|c| <= d`, the truncated
/// quotient `c * ONE / d` has magnitude `|c| * ONE / d`, at most `ONE`, and
/// that magnitude `q` satisfies `q d <= |c| ONE < (q + 1) d`.
proof fn lemma_normalize_comp(c: int, d: int) -> (q: int)
    requires
        1 <= d,
        abs1(c) <= d,
    ensures
        q == abs1(tdiv(c * (ONE as int), d)),
        0 <= q <= ONE,
        q * d <= abs1(c) * (ONE as int),
        abs1(c) * (ONE as int) < (q + 1) * d,
{
    let s: int = ONE as int;
    let a = abs1(c);
    assert(a * s == abs1(c * s)) by (nonlinear_arith)
        requires
            a == abs1(c),
            0 < s,
    ;
    vstd::arithmetic::div_mod::lemma_fundamental_div_mod(a * s, d);
    vstd::arithmetic::div_mod::lemma_mod_division_less_than_divisor(a * s, d);
    vstd::arithmetic::div_mod::lemma_div_pos_is_pos(a * s, d);
    let q = (a * s) / d;
    assert(q * d <= a * s && a * s < (q + 1) * d) by (nonlinear_arith)
        requires
            a * s == d * q + (a * s) % d,
            0 <= (a * s) % d < d,
    ;
    assert(q == abs1(tdiv(c * s, d))) by (nonlinear_arith)
        requires
            q == (a * s) / d,
            a == abs1(c),
            tdiv(c * s, d) == (if c * s >= 0 {
                (c * s) / d
            } else {
                -((-(c * s)) / d)
            }),
            a * s == abs1(c * s),
            0 <= q,
    ;
    crate::num::lemma_tdiv_abs_le(c * s, d, s);
    q
}

/// A traced light sample. `wavelength` is in milli-nanometers; the visible
/// band is `[380_000, 780_000]`.
#[derive(Clone, Copy, Debug, PartialEq, Eq, Structural)]
pub struct Photon {
    pub pos: FVec3,
    pub dir: FVec3,
    pub wavelength: i64,
}

/// Pre-gamma spectral intensities in micro-units, one piecewise-linear band
/// per visible color region; zero outside `[380, 780]` nm.
pub open spec fn spectral_rgb_pre(w: int) -> (int, int, int) {
    if 380_000 <= w && w < 440_000 {
        let att = 300_000 + (700_000 * (w - 380_000)) / 60_000;
        (((440_000 - w) * att) / 60_000, 0, att)
    } else if 440_000 <= w && w < 490_000 {
        (0, ((w - 440_000) * (ONE as int)) / 50_000, ONE as int)
    } else if 490_000 <= w && w < 510_000 {
        (0, ONE as int, ((510_000 - w) * (ONE as int)) / 20_000)
    } else if 510_000 <= w && w < 580_000 {
        (((w - 510_000) * (ONE as int)) / 70_000, ONE as int, 0)
    } else if 580_000 <= w && w < 645_000 {
        (ONE as int, ((645_000 - w) * (ONE as int)) / 65_000, 0)
    } else if 645_000 <= w && w <= 780_000 {
        let att = 300_000 + (700_000 * (780_000 - w)) / 135_000;
        (att, 0, 0)
    } else {
        (0, 0, 0)
    }
}

/// Gamma correction with exponent 4/5 in the micro scale: the value `v` with
/// `v^5 == c^4 * ONE` up to flooring. For `c` in `[0, ONE]` this is
/// `(c/ONE)^0.8 * ONE`, the standard `gamma = 0.8` table correction.
pub open spec fn gamma_fp(c: int) -> int {
    root5_floor(c * c * c * c * (ONE as int))
}

/// The exact color a wavelength contributes, gamma-corrected, each channel
/// in `[0, ONE]`.
pub open spec fn spectral_rgb(w: int) -> (int, int, int) {
    let (r, g, b) = spectral_rgb_pre(w);
    (gamma_fp(r), gamma_fp(g), gamma_fp(b))
}

/// Gamma-correct one channel.
fn gamma_exec(c: i64) -> (r: i64)
    requires
        0 <= c <= ONE,
    ensures
        r as int == gamma_fp(c as int),
        0 <= r <= ONE,
{
    let cu: u128 = c as u128;
    proof {
        let z = c as int;
        assert(z * z <= 1_000_000_000_000 && z * z >= 0) by (nonlinear_arith)
            requires
                0 <= z <= 1_000_000,
        ;
    }
    let c2: u128 = cu * cu;
    proof {
        let z2 = c2 as int;
        assert(z2 * z2 <= 1_000_000_000_000_000_000_000_000 && z2 * z2 >= 0)
            by (nonlinear_arith)
            requires
                0 <= z2 <= 1_000_000_000_000,
        ;
    }
    let c4: u128 = c2 * c2;
    let n: u128 = c4 * 1_000_000;
    proof {
        let z = c as int;
        assert((n as int) == z * z * z * z * 1_000_000 && n <= 1_000_000_000_000_000_000_000_000_000_000)
            by (nonlinear_arith)
            requires
                0 <= z <= 1_000_000,
                (c2 as int) == z * z,
                (c4 as int) == (c2 as int) * (c2 as int),
                (n as int) == (c4 as int) * 1_000_000,
        ;
    }
    let r5: u64 = root5(n);
    r5 as i64
}

impl Photon {
    /// Convert this photon's wavelength to a gamma-corrected RGB triple in
    /// micro-units. Wavelengths outside the visible band map to black.
    pub fn wavelength_to_rgb(&self) -> (c: FVec3)
        ensures
            c.x as int == spectral_rgb(self.wavelength as int).0,
            c.y as int == spectral_rgb(self.wavelength as int).1,
            c.z as int == spectral_rgb(self.wavelength as int).2,
            0 <= c.x <= ONE,
            0 <= c.y <= ONE,
            0 <= c.z <= ONE,
    {
        let w: i64 = self.wavelength;
        let mut r: i64 = 0;
        let mut g: i64 = 0;
        let mut b: i64 = 0;
        if 380_000 <= w && w < 440_000 {
            proof {
                crate::num::lemma_div_le_bound(700_000 * (w - 380_000), 41_999_300_000, 60_000);
            }
            let att: i64 = 300_000 + (700_000 * (w - 380_000)) / 60_000;
            proof {
                crate::vec3::lemma_abs_mul_le(440_000 - w, att as int, 60_000, 999_988);
                crate::num::lemma_div_le_bound((440_000 - w) * att, 59_999_280_000, 60_000);
            }
            r = ((440_000 - w) * att) / 60_000;
            b = att;
        } else if 440_000 <= w && w < 490_000 {
            proof {
                crate::num::lemma_div_le_bound((w - 440_000) * (ONE as int), 49_999_000_000, 50_000);
            }
            g = ((w - 440_000) * ONE) / 50_000;
            b = ONE;
        } else if 490_000 <= w && w < 510_000 {
            proof {
                crate::num::lemma_div_le_bound((510_000 - w) * (ONE as int), 20_000_000_000, 20_000);
            }
            g = ONE;
            b = ((510_000 - w) * ONE) / 20_000;
        } else if 510_000 <= w && w < 580_000 {
            proof {
                crate::num::lemma_div_le_bound((w - 510_000) * (ONE as int), 69_999_000_000, 70_000);
            }
            r = ((w - 510_000) * ONE) / 70_000;
            g = ONE;
        } else if 580_000 <= w && w < 645_000 {
            proof {
                crate::num::lemma_div_le_bound((645_000 - w) * (ONE as int), 65_000_000_000, 65_000);
            }
            r = ONE;
            g = ((645_000 - w) * ONE) / 65_000;
        } else if 645_000 <= w && w <= 780_000 {
            proof {
                crate::num::lemma_div_le_bound(700_000 * (780_000 - w), 94_500_000_000, 135_000);
            }
            let att: i64 = 300_000 + (700_000 * (780_000 - w)) / 135_000;
            r = att;
        }
        FVec3 { x: gamma_exec(r), y: gamma_exec(g), z: gamma_exec(b) }
    }
}

} // verus!
