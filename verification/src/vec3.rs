//! Three-component fixed-point vectors in the micro-unit scale, with exact
//! integer contracts for every operation.

use vstd::prelude::*;
use crate::num::{abs1, tdiv, tdiv64, sqrt_floor, is_sqrt_floor, isqrt, lemma_tdiv_abs_le, ONE};

verus! {

/// Bound on any coordinate handled by the geometry: 400 world units.
pub const COORD_LIMIT: i64 = 400_000_000;

/// A point or direction, each coordinate in micro-units.
#[derive(Clone, Copy, Debug, PartialEq, Eq, Structural)]
pub struct FVec3 {
    pub x: i64,
    pub y: i64,
    pub z: i64,
}

impl FVec3 {
    /// Every coordinate has magnitude at most `b`.
    pub open spec fn bounded(self, b: int) -> bool {
        abs1(self.x as int) <= b && abs1(self.y as int) <= b && abs1(self.z as int) <= b
    }

    /// Squared Euclidean norm, exactly.
    pub open spec fn norm_sq_spec(self) -> int {
        self.x * self.x + self.y * self.y + self.z * self.z
    }

    /// Exact squared distance between two vectors.
    pub open spec fn dist_sq_spec(self, o: FVec3) -> int {
        let dx = self.x - o.x;
        let dy = self.y - o.y;
        let dz = self.z - o.z;
        dx * dx + dy * dy + dz * dz
    }

    /// Exact inner product.
    pub open spec fn dot_spec(self, o: FVec3) -> int {
        self.x * o.x + self.y * o.y + self.z * o.z
    }

    pub fn add_v(self, o: FVec3) -> (r: FVec3)
        requires
            self.bounded(1_000_000_000),
            o.bounded(1_000_000_000),
        ensures
            r.x as int == self.x + o.x,
            r.y as int == self.y + o.y,
            r.z as int == self.z + o.z,
    {
        FVec3 { x: self.x + o.x, y: self.y + o.y, z: self.z + o.z }
    }

    pub fn sub_v(self, o: FVec3) -> (r: FVec3)
        requires
            self.bounded(1_000_000_000),
            o.bounded(1_000_000_000),
        ensures
            r.x as int == self.x - o.x,
            r.y as int == self.y - o.y,
            r.z as int == self.z - o.z,
    {
        FVec3 { x: self.x - o.x, y: self.y - o.y, z: self.z - o.z }
    }

    /// Inner product of a rotation row (near-unit) with a scene vector.
    pub fn dot(self, o: FVec3) -> (r: i64)
        requires
            self.bounded(2_200_000),
            o.bounded(1_000_000_000),
        ensures
            r as int == self.dot_spec(o),
    {
        proof {
            lemma_abs_mul_le(self.x as int, o.x as int, 2_200_000, 1_000_000_000);
            lemma_abs_mul_le(self.y as int, o.y as int, 2_200_000, 1_000_000_000);
            lemma_abs_mul_le(self.z as int, o.z as int, 2_200_000, 1_000_000_000);
        }
        self.x * o.x + self.y * o.y + self.z * o.z
    }

    /// Squared norm of a vector with coordinates up to 1500 units.
    pub fn norm_sq(self) -> (r: i64)
        requires
            self.bounded(1_500_000_000),
        ensures
            r as int == self.norm_sq_spec(),
            0 <= r,
    {
        proof {
            lemma_abs_mul_le(self.x as int, self.x as int, 1_500_000_000, 1_500_000_000);
            lemma_abs_mul_le(self.y as int, self.y as int, 1_500_000_000, 1_500_000_000);
            lemma_abs_mul_le(self.z as int, self.z as int, 1_500_000_000, 1_500_000_000);
            lemma_sq_nonneg(self.x as int);
            lemma_sq_nonneg(self.y as int);
            lemma_sq_nonneg(self.z as int);
        }
        self.x * self.x + self.y * self.y + self.z * self.z
    }

    /// Squared distance between two in-range points.
    pub fn dist_sq(self, o: FVec3) -> (r: i64)
        requires
            self.bounded(COORD_LIMIT as int),
            o.bounded(COORD_LIMIT as int),
        ensures
            r as int == self.dist_sq_spec(o),
            0 <= r,
    {
        let d = self.sub_v(o);
        d.norm_sq()
    }

    /// The scaled cross product `(self x o) / ONE`, used to build an
    /// orthonormal camera basis from two near-unit vectors.
    pub open spec fn cross_fp_spec(self, o: FVec3) -> FVec3 {
        FVec3 {
            x: tdiv(self.y * o.z - self.z * o.y, ONE as int) as i64,
            y: tdiv(self.z * o.x - self.x * o.z, ONE as int) as i64,
            z: tdiv(self.x * o.y - self.y * o.x, ONE as int) as i64,
        }
    }

    pub fn cross_fp(self, o: FVec3) -> (r: FVec3)
        requires
            self.bounded(2_200_000),
            o.bounded(2_200_000),
        ensures
            r == self.cross_fp_spec(o),
            r.bounded(9_680_000),
    {
        proof {
            lemma_abs_mul_le(self.x as int, o.y as int, 2_200_000, 2_200_000);
            lemma_abs_mul_le(self.x as int, o.z as int, 2_200_000, 2_200_000);
            lemma_abs_mul_le(self.y as int, o.x as int, 2_200_000, 2_200_000);
            lemma_abs_mul_le(self.y as int, o.z as int, 2_200_000, 2_200_000);
            lemma_abs_mul_le(self.z as int, o.x as int, 2_200_000, 2_200_000);
            lemma_abs_mul_le(self.z as int, o.y as int, 2_200_000, 2_200_000);
        }
        let cx: i64 = tdiv64(self.y * o.z - self.z * o.y, ONE);
        let cy: i64 = tdiv64(self.z * o.x - self.x * o.z, ONE);
        let cz: i64 = tdiv64(self.x * o.y - self.y * o.x, ONE);
        proof {
            lemma_tdiv_abs_le(self.y * o.z - self.z * o.y, ONE as int, 9_680_000);
            lemma_tdiv_abs_le(self.z * o.x - self.x * o.z, ONE as int, 9_680_000);
            lemma_tdiv_abs_le(self.x * o.y - self.y * o.x, ONE as int, 9_680_000);
        }
        FVec3 { x: cx, y: cy, z: cz }
    }

    /// What renormalizing to unit length returns, exactly: each coordinate
    /// is the truncated quotient of `v_i * ONE` by the integer square root
    /// of the squared norm.
    pub open spec fn normalize_spec(self) -> FVec3 {
        let d = sqrt_floor(self.norm_sq_spec());
        FVec3 {
            x: tdiv(self.x * ONE, d) as i64,
            y: tdiv(self.y * ONE, d) as i64,
            z: tdiv(self.z * ONE, d) as i64,
        }
    }

    /// Renormalize a nonzero vector to (approximately) unit length.
    pub fn normalize(self) -> (r: FVec3)
        requires
            self.bounded(1_000_000_000),
            1 <= self.norm_sq_spec(),
        ensures
            r == self.normalize_spec(),
            r.bounded(ONE as int),
    {
        let n: i64 = self.norm_sq();
        let d: i64 = isqrt(n as u64) as i64;
        proof {
            lemma_comp_le_sqrt(self, n as int, d as int);
            assert(1 <= d) by (nonlinear_arith)
                requires
                    0 <= d,
                    1 <= n,
                    (n as int) < ((d as int) + 1) * ((d as int) + 1),
            ;
            lemma_abs_mul_le(self.x as int, ONE as int, 1_000_000_000, ONE as int);
            lemma_abs_mul_le(self.y as int, ONE as int, 1_000_000_000, ONE as int);
            lemma_abs_mul_le(self.z as int, ONE as int, 1_000_000_000, ONE as int);
            lemma_scale_abs(self.x as int, d as int, ONE as int);
            lemma_scale_abs(self.y as int, d as int, ONE as int);
            lemma_scale_abs(self.z as int, d as int, ONE as int);
        }
        let rx: i64 = tdiv64(self.x * ONE, d);
        let ry: i64 = tdiv64(self.y * ONE, d);
        let rz: i64 = tdiv64(self.z * ONE, d);
        proof {
            lemma_tdiv_abs_le(self.x * ONE, d as int, ONE as int);
            lemma_tdiv_abs_le(self.y * ONE, d as int, ONE as int);
            lemma_tdiv_abs_le(self.z * ONE, d as int, ONE as int);
        }
        FVec3 { x: rx, y: ry, z: rz }
    }
}

/// Triangle inequality on squared norms: bounds on two vectors' norms bound
/// the norm of their sum.
pub proof fn lemma_triangle_sq(ax: int, ay: int, az: int, bx: int, by: int, bz: int, ca: int, cb: int)
    requires
        0 <= ca,
        0 <= cb,
        ax * ax + ay * ay + az * az <= ca * ca,
        bx * bx + by * by + bz * bz <= cb * cb,
    ensures
        (ax + bx) * (ax + bx) + (ay + by) * (ay + by) + (az + bz) * (az + bz) <= (ca + cb) * (ca
            + cb),
{
    let a2 = ax * ax + ay * ay + az * az;
    let b2 = bx * bx + by * by + bz * bz;
    let d = ax * bx + ay * by + az * bz;
    let m = ca * cb;
    lemma_amgm(ax, bx, ca, cb);
    lemma_amgm(ay, by, ca, cb);
    lemma_amgm(az, bz, ca, cb);
    assert((cb * cb) * a2 == (cb * cb) * (ax * ax) + (cb * cb) * (ay * ay) + (cb * cb) * (az
        * az)) by (nonlinear_arith)
        requires
            a2 == ax * ax + ay * ay + az * az,
    ;
    assert((ca * ca) * b2 == (ca * ca) * (bx * bx) + (ca * ca) * (by * by) + (ca * ca) * (bz
        * bz)) by (nonlinear_arith)
        requires
            b2 == bx * bx + by * by + bz * bz,
    ;
    assert(2 * (m * d) == 2 * (m * (ax * bx)) + 2 * (m * (ay * by)) + 2 * (m * (az * bz)))
        by (nonlinear_arith)
        requires
            d == ax * bx + ay * by + az * bz,
            m == ca * cb,
    ;
    assert((cb * cb) * a2 <= (cb * cb) * (ca * ca)) by (nonlinear_arith)
        requires
            a2 <= ca * ca,
            0 <= cb,
    ;
    assert((ca * ca) * b2 <= (ca * ca) * (cb * cb)) by (nonlinear_arith)
        requires
            b2 <= cb * cb,
            0 <= ca,
    ;
    assert((cb * cb) * (ca * ca) == m * m && (ca * ca) * (cb * cb) == m * m) by (nonlinear_arith)
        requires
            m == ca * cb,
    ;
    assert(2 * (m * d) <= 2 * (m * m));
    assert(2 * (m * (-d)) <= 2 * (m * m)) by {
        lemma_amgm(ax, -bx, ca, cb);
        lemma_amgm(ay, -by, ca, cb);
        lemma_amgm(az, -bz, ca, cb);
        assert(2 * (m * (-d)) == 2 * (m * (ax * (-bx))) + 2 * (m * (ay * (-by))) + 2 * (m * (az
            * (-bz)))) by (nonlinear_arith)
            requires
                d == ax * bx + ay * by + az * bz,
                m == ca * cb,
        ;
        assert((ax * (-bx)) * (ax * (-bx)) == (ax * bx) * (ax * bx)) by (nonlinear_arith);
        assert((cb * cb) * ((-bx) * (-bx)) == (cb * cb) * (bx * bx)) by (nonlinear_arith);
        assert((cb * cb) * ((-by) * (-by)) == (cb * cb) * (by * by)) by (nonlinear_arith);
        assert((cb * cb) * ((-bz) * (-bz)) == (cb * cb) * (bz * bz)) by (nonlinear_arith);
        assert((ca * ca) * ((-bx) * (-bx)) == (ca * ca) * (bx * bx)) by (nonlinear_arith);
        assert((ca * ca) * ((-by) * (-by)) == (ca * ca) * (by * by)) by (nonlinear_arith);
        assert((ca * ca) * ((-bz) * (-bz)) == (ca * ca) * (bz * bz)) by (nonlinear_arith);
    };
    assert(abs1(m * d) <= m * m) by (nonlinear_arith)
        requires
            2 * (m * d) <= 2 * (m * m),
            2 * (m * (-d)) <= 2 * (m * m),
    ;
    if m > 0 {
        assert(abs1(d) <= m) by (nonlinear_arith)
            requires
                0 < m,
                abs1(m * d) <= m * m,
        ;
    } else {
        assert(m == 0) by (nonlinear_arith)
            requires
                0 <= ca,
                0 <= cb,
                m <= 0,
                m == ca * cb,
        ;
        assert(abs1(d) <= 0) by (nonlinear_arith)
            requires
                0 <= ca,
                0 <= cb,
                ca * cb == 0,
                ax * ax + ay * ay + az * az <= ca * ca,
                bx * bx + by * by + bz * bz <= cb * cb,
                d == ax * bx + ay * by + az * bz,
        ;
    }
    assert((ax + bx) * (ax + bx) + (ay + by) * (ay + by) + (az + bz) * (az + bz) == a2 + 2 * d
        + b2) by (nonlinear_arith)
        requires
            a2 == ax * ax + ay * ay + az * az,
            b2 == bx * bx + by * by + bz * bz,
            d == ax * bx + ay * by + az * bz,
    ;
    assert(a2 + 2 * d + b2 <= (ca + cb) * (ca + cb)) by (nonlinear_arith)
        requires
            a2 <= ca * ca,
            b2 <= cb * cb,
            abs1(d) <= ca * cb,
    ;
}

/// Scaled arithmetic-geometric mean step: `2 ca cb a b <= cb^2 a^2 + ca^2 b^2`.
proof fn lemma_amgm(a: int, b: int, ca: int, cb: int)
    ensures
        2 * ((ca * cb) * (a * b)) <= (cb * cb) * (a * a) + (ca * ca) * (b * b),
{
    let u = cb * a;
    let v = ca * b;
    let s = u - v;
    lemma_sq_nonneg(s);
    assert(s * s == u * u - 2 * (u * v) + v * v) by (nonlinear_arith)
        requires
            s == u - v,
    ;
    assert(u * u == (cb * cb) * (a * a)) by (nonlinear_arith)
        requires
            u == cb * a,
    ;
    assert(v * v == (ca * ca) * (b * b)) by (nonlinear_arith)
        requires
            v == ca * b,
    ;
    assert(u * v == (ca * cb) * (a * b)) by (nonlinear_arith)
        requires
            u == cb * a,
            v == ca * b,
    ;
}

/// `x * x >= 0`.
pub proof fn lemma_sq_nonneg(x: int)
    ensures
        0 <= x * x,
{
    assert(0 <= x * x) by (nonlinear_arith);
}

/// Magnitudes multiply: `|a| <= ba` and `|b| <= bb` give `|a * b| <= ba * bb`.
pub proof fn lemma_abs_mul_le(a: int, b: int, ba: int, bb: int)
    requires
        abs1(a) <= ba,
        abs1(b) <= bb,
    ensures
        abs1(a * b) <= ba * bb,
{
    assert(abs1(a * b) <= ba * bb) by (nonlinear_arith)
        requires
            abs1(a) <= ba,
            abs1(b) <= bb,
    ;
}

/// Coordinate bounds on both factors bound the inner product.
pub proof fn lemma_dot_abs_le(a: FVec3, b: FVec3, ba: int, bb: int)
    requires
        0 <= ba,
        0 <= bb,
        a.bounded(ba),
        b.bounded(bb),
    ensures
        abs1(a.dot_spec(b)) <= 3 * (ba * bb),
{
    lemma_abs_mul_le(a.x as int, b.x as int, ba, bb);
    lemma_abs_mul_le(a.y as int, b.y as int, ba, bb);
    lemma_abs_mul_le(a.z as int, b.z as int, ba, bb);
}

/// A coordinate bound gives a bound on the squared norm.
pub proof fn lemma_norm_sq_le(v: FVec3, b: int)
    requires
        0 <= b,
        v.bounded(b),
    ensures
        0 <= v.norm_sq_spec() <= 3 * b * b,
{
    assert(0 <= v.norm_sq_spec() <= 3 * b * b) by (nonlinear_arith)
        requires
            0 <= b,
            abs1(v.x as int) <= b,
            abs1(v.y as int) <= b,
            abs1(v.z as int) <= b,
            v.norm_sq_spec() == v.x * v.x + v.y * v.y + v.z * v.z,
    ;
}

/// Every coordinate of a vector is at most the integer square root of its
/// squared norm.
pub proof fn lemma_comp_le_sqrt(v: FVec3, n: int, d: int)
    requires
        n == v.norm_sq_spec(),
        is_sqrt_floor(n, d),
    ensures
        abs1(v.x as int) <= d,
        abs1(v.y as int) <= d,
        abs1(v.z as int) <= d,
{
    let x = v.x as int;
    let y = v.y as int;
    let z = v.z as int;
    assert(x * x <= n && y * y <= n && z * z <= n) by (nonlinear_arith)
        requires
            n == x * x + y * y + z * z,
    ;
    lemma_abs_le_of_sq_lt(x, d);
    lemma_abs_le_of_sq_lt(y, d);
    lemma_abs_le_of_sq_lt(z, d);
}

/// If `c * c < (d + 1)^2` with `d >= 0` then `|c| <= d`.
proof fn lemma_abs_le_of_sq_lt(c: int, d: int)
    requires
        0 <= d,
        c * c < (d + 1) * (d + 1),
    ensures
        abs1(c) <= d,
{
    assert(abs1(c) <= d) by (nonlinear_arith)
        requires
            0 <= d,
            c * c < (d + 1) * (d + 1),
    ;
}

/// If `|c| <= d` then `|c * s| <= d * s` for `s >= 0`.
proof fn lemma_scale_abs(c: int, d: int, s: int)
    requires
        abs1(c) <= d,
        0 <= s,
    ensures
        abs1(c * s) <= d * s,
{
    assert(abs1(c * s) <= d * s) by (nonlinear_arith)
        requires
            abs1(c) <= d,
            0 <= s,
    ;
}

} // verus!
