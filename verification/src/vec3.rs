//! Three-component vectors over fixed-point scalars.
//!
//! Every executable operation has a specification mirror (`spec_add`,
//! `spec_scale`, `spec_unit`, ...) stating its result exactly, truncation
//! included, so contracts further up can speak about whole computations.

use vstd::prelude::*;
use crate::fx::{SCALE, tdiv, spec_isqrt, isqrt, lemma_isqrt_bounds, lemma_mul_abs_bound,
    lemma_tdiv_bound};

verus! {

#[derive(Clone, Copy, Debug, PartialEq, Eq, Structural)]
pub struct Vec3 {
    pub x: i64,
    pub y: i64,
    pub z: i64,
}

/// The raw (unscaled) dot product: `SCALE * SCALE` times the mathematical
/// dot product of the values the vectors stand for.
pub open spec fn dot_raw(a: Vec3, b: Vec3) -> int {
    a.x * b.x + a.y * b.y + a.z * b.z
}

/// The raw squared norm.
pub open spec fn norm2_raw(v: Vec3) -> int {
    dot_raw(v, v)
}

/// All components within `[-m, m]`.
pub open spec fn in_box(v: Vec3, m: int) -> bool {
    &&& -m <= v.x <= m
    &&& -m <= v.y <= m
    &&& -m <= v.z <= m
}

pub open spec fn spec_add(a: Vec3, b: Vec3) -> Vec3 {
    Vec3 { x: (a.x + b.x) as i64, y: (a.y + b.y) as i64, z: (a.z + b.z) as i64 }
}

pub open spec fn spec_sub(a: Vec3, b: Vec3) -> Vec3 {
    Vec3 { x: (a.x - b.x) as i64, y: (a.y - b.y) as i64, z: (a.z - b.z) as i64 }
}

pub open spec fn spec_neg(a: Vec3) -> Vec3 {
    Vec3 { x: (-a.x) as i64, y: (-a.y) as i64, z: (-a.z) as i64 }
}

/// Scaling by the fixed-point scalar `k`: each component becomes
/// `c * k / SCALE`, truncated.
pub open spec fn spec_scale(a: Vec3, k: i64) -> Vec3 {
    Vec3 {
        x: tdiv(a.x * k, SCALE as int) as i64,
        y: tdiv(a.y * k, SCALE as int) as i64,
        z: tdiv(a.z * k, SCALE as int) as i64,
    }
}

/// Dividing by the fixed-point scalar `k`: each component becomes
/// `c * SCALE / k`, truncated.
pub open spec fn spec_div(a: Vec3, k: i64) -> Vec3 {
    Vec3 {
        x: tdiv(a.x * (SCALE as int), k as int) as i64,
        y: tdiv(a.y * (SCALE as int), k as int) as i64,
        z: tdiv(a.z * (SCALE as int), k as int) as i64,
    }
}

/// The normalized vector: components scaled by `SCALE` over the integer
/// square root of the raw squared norm.
pub open spec fn spec_unit(v: Vec3) -> Vec3 {
    let len = spec_isqrt(norm2_raw(v) as nat) as int;
    Vec3 {
        x: tdiv(v.x * (SCALE as int), len) as i64,
        y: tdiv(v.y * (SCALE as int), len) as i64,
        z: tdiv(v.z * (SCALE as int), len) as i64,
    }
}

/// Mirror reflection of `d` about the (unit) normal `n`:
/// `d - 2 (d . n) n`, with the two fixed-point rescalings truncated.
pub open spec fn spec_bounce(d: Vec3, n: Vec3) -> Vec3 {
    let dn = dot_raw(d, n);
    Vec3 {
        x: (d.x - tdiv(2 * dn * n.x, (SCALE as int) * (SCALE as int))) as i64,
        y: (d.y - tdiv(2 * dn * n.y, (SCALE as int) * (SCALE as int))) as i64,
        z: (d.z - tdiv(2 * dn * n.z, (SCALE as int) * (SCALE as int))) as i64,
    }
}

/// The cross product, unscaled (so carrying a factor `SCALE * SCALE`).
pub open spec fn cross_raw_x(a: Vec3, b: Vec3) -> int {
    a.y * b.z - a.z * b.y
}

pub open spec fn cross_raw_y(a: Vec3, b: Vec3) -> int {
    a.z * b.x - a.x * b.z
}

pub open spec fn cross_raw_z(a: Vec3, b: Vec3) -> int {
    a.x * b.y - a.y * b.x
}

impl Vec3 {
    pub fn new(x: i64, y: i64, z: i64) -> (r: Vec3)
        ensures
            r == (Vec3 { x, y, z }),
    {
        Vec3 { x, y, z }
    }

    pub fn add(&self, other: &Vec3) -> (r: Vec3)
        requires
            i64::MIN <= self.x + other.x <= i64::MAX,
            i64::MIN <= self.y + other.y <= i64::MAX,
            i64::MIN <= self.z + other.z <= i64::MAX,
        ensures
            r == spec_add(*self, *other),
    {
        Vec3 { x: self.x + other.x, y: self.y + other.y, z: self.z + other.z }
    }

    pub fn sub(&self, other: &Vec3) -> (r: Vec3)
        requires
            i64::MIN <= self.x - other.x <= i64::MAX,
            i64::MIN <= self.y - other.y <= i64::MAX,
            i64::MIN <= self.z - other.z <= i64::MAX,
        ensures
            r == spec_sub(*self, *other),
    {
        Vec3 { x: self.x - other.x, y: self.y - other.y, z: self.z - other.z }
    }

    pub fn neg(&self) -> (r: Vec3)
        requires
            self.x != i64::MIN,
            self.y != i64::MIN,
            self.z != i64::MIN,
        ensures
            r == spec_neg(*self),
    {
        Vec3 { x: -self.x, y: -self.y, z: -self.z }
    }

    /// Componentwise multiplication by the fixed-point scalar `val`.
    pub fn mult(&self, val: i64) -> (r: Vec3)
        requires
            -(i64::MAX as int) <= tdiv(self.x * val, SCALE as int) <= i64::MAX as int,
            -(i64::MAX as int) <= tdiv(self.y * val, SCALE as int) <= i64::MAX as int,
            -(i64::MAX as int) <= tdiv(self.z * val, SCALE as int) <= i64::MAX as int,
        ensures
            r == spec_scale(*self, val),
    {
        Vec3 {
            x: scale_component(self.x, val),
            y: scale_component(self.y, val),
            z: scale_component(self.z, val),
        }
    }

    /// Componentwise division by the fixed-point scalar `val`.
    pub fn div(&self, val: i64) -> (r: Vec3)
        requires
            val != 0,
            -(i64::MAX as int) <= tdiv(self.x * (SCALE as int), val as int) <= i64::MAX as int,
            -(i64::MAX as int) <= tdiv(self.y * (SCALE as int), val as int) <= i64::MAX as int,
            -(i64::MAX as int) <= tdiv(self.z * (SCALE as int), val as int) <= i64::MAX as int,
        ensures
            r == spec_div(*self, val),
    {
        Vec3 {
            x: div_component(self.x, val),
            y: div_component(self.y, val),
            z: div_component(self.z, val),
        }
    }

    /// The fixed-point dot product, `dot_raw` scaled back down by `SCALE`.
    pub fn dot(&self, other: &Vec3) -> (r: i64)
        requires
            in_box(*self, 0x100_0000_0000),
            in_box(*other, 0x100_0000_0000),
        ensures
            r as int == tdiv(dot_raw(*self, *other), SCALE as int),
    {
        proof {
            lemma_mul_abs_bound(self.x as int, 0x100_0000_0000, other.x as int, 0x100_0000_0000);
            lemma_mul_abs_bound(self.y as int, 0x100_0000_0000, other.y as int, 0x100_0000_0000);
            lemma_mul_abs_bound(self.z as int, 0x100_0000_0000, other.z as int, 0x100_0000_0000);
            assert(0x100_0000_0000int * 0x100_0000_0000 == 1208925819614629174706176int);
            lemma_tdiv_bound(dot_raw(*self, *other), SCALE as int,
                3 * 1208925819614629174706176int);
        }
        let n = (self.x as i128) * (other.x as i128) + (self.y as i128) * (other.y as i128)
            + (self.z as i128) * (other.z as i128);
        let q = n / (SCALE as i128);
        proof {
            crate::fx::lemma_tdiv_quotient_bound(n as int, SCALE as int,
                3 * 1208925819614629174706176int);
        }
        q as i64
    }

    /// The fixed-point length: the integer square root of the raw squared
    /// norm (which carries the factor `SCALE * SCALE`, so the root is again
    /// a fixed-point scalar).
    pub fn len(&self) -> (r: i64)
        requires
            in_box(*self, 0x2000_0000_0000_0000),
        ensures
            r as int == spec_isqrt(norm2_raw(*self) as nat),
            0 <= r,
    {
        let n2 = norm2_i128(self);
        let root = isqrt(n2 as u128);
        proof {
            assert(root < 0x4000_0000_0000_0000u64) by (nonlinear_arith)
                requires
                    (root as int) * (root as int) <= n2 as int,
                    n2 as int <= 3 * (0x2000_0000_0000_0000int * 0x2000_0000_0000_0000),
                    root >= 0,
            ;
        }
        root as i64
    }

    /// The unit vector along `self`.
    pub fn unit(&self) -> (r: Vec3)
        requires
            in_box(*self, 0x2000_0000_0000_0000),
            norm2_raw(*self) >= 1,
        ensures
            r == spec_unit(*self),
            in_box(r, SCALE as int),
            norm2_raw(r) >= 1,
    {
        let len = self.len();
        proof {
            lemma_unit_fits(*self);
        }
        let rx = ((self.x as i128) * (SCALE as i128) / (len as i128)) as i64;
        let ry = ((self.y as i128) * (SCALE as i128) / (len as i128)) as i64;
        let rz = ((self.z as i128) * (SCALE as i128) / (len as i128)) as i64;
        let r = Vec3 { x: rx, y: ry, z: rz };
        proof {
            lemma_unit_nonzero(*self, r);
        }
        r
    }

    /// Mirror reflection about a unit normal, `d - 2 (d . n) n`.
    pub fn bounce_with_normal(&self, other: &Vec3) -> (r: Vec3)
        requires
            in_box(*self, 0x100_0000_0000),
            in_box(*other, 2097152),
        ensures
            r == spec_bounce(*self, *other),
            in_box(r, 28587302322176),
    {
        proof {
            lemma_mul_abs_bound(self.x as int, 0x100_0000_0000, other.x as int, 2097152);
            lemma_mul_abs_bound(self.y as int, 0x100_0000_0000, other.y as int, 2097152);
            lemma_mul_abs_bound(self.z as int, 0x100_0000_0000, other.z as int, 2097152);
            assert(0x100_0000_0000int * 2097152 == 2305843009213693952int);
        }
        let dn = (self.x as i128) * (other.x as i128) + (self.y as i128) * (other.y as i128)
            + (self.z as i128) * (other.z as i128);
        let s2: i128 = 1099511627776;
        proof {
            assert((SCALE as int) * (SCALE as int) == 1099511627776int) by (nonlinear_arith)
                requires
                    SCALE == 1048576,
            ;
        }
        let rx = bounce_component(self.x, dn, other.x, s2);
        let ry = bounce_component(self.y, dn, other.y, s2);
        let rz = bounce_component(self.z, dn, other.z, s2);
        Vec3 { x: rx, y: ry, z: rz }
    }

    /// The cross product; the result carries a factor `SCALE * SCALE`,
    /// which callers rescale as needed.
    pub fn cross(&self, other: &Vec3) -> (r: Vec3)
        requires
            in_box(*self, 0x4000_0000),
            in_box(*other, 0x4000_0000),
        ensures
            r.x as int == cross_raw_x(*self, *other),
            r.y as int == cross_raw_y(*self, *other),
            r.z as int == cross_raw_z(*self, *other),
    {
        proof {
            lemma_mul_abs_bound(self.y as int, 0x4000_0000, other.z as int, 0x4000_0000);
            lemma_mul_abs_bound(self.z as int, 0x4000_0000, other.y as int, 0x4000_0000);
            lemma_mul_abs_bound(self.z as int, 0x4000_0000, other.x as int, 0x4000_0000);
            lemma_mul_abs_bound(self.x as int, 0x4000_0000, other.z as int, 0x4000_0000);
            lemma_mul_abs_bound(self.x as int, 0x4000_0000, other.y as int, 0x4000_0000);
            lemma_mul_abs_bound(self.y as int, 0x4000_0000, other.x as int, 0x4000_0000);
        }
        Vec3 {
            x: self.y * other.z - self.z * other.y,
            y: self.z * other.x - self.x * other.z,
            z: self.x * other.y - self.y * other.x,
        }
    }
}

/// A direction kept near unit length: built only by normalizing a nonzero
/// vector, so its components stay within `SCALE` and it is never the zero
/// vector.
#[derive(Clone, Copy, Debug, PartialEq, Eq, Structural)]
pub struct UnitVec3 {
    inner: Vec3,
}

impl UnitVec3 {
    /// The vector this unit direction holds.
    pub closed spec fn as_vec3(self) -> Vec3 {
        self.inner
    }

    /// What normalization guarantees: components within `SCALE` and a
    /// nonzero vector.
    pub open spec fn wf(self) -> bool {
        &&& in_box(self.as_vec3(), SCALE as int)
        &&& norm2_raw(self.as_vec3()) >= 1
    }

    pub fn to_vec3(self) -> (r: Vec3)
        ensures
            r == self.as_vec3(),
    {
        self.inner
    }
}

impl Vec3 {
    /// Normalizes `self` into a unit direction.
    pub fn norm(&self) -> (u: UnitVec3)
        requires
            in_box(*self, 0x2000_0000_0000_0000),
            norm2_raw(*self) >= 1,
        ensures
            u.as_vec3() == spec_unit(*self),
            u.wf(),
    {
        UnitVec3 { inner: self.unit() }
    }

    /// Whether every component lies within `[-m, m]`.
    pub fn within(&self, m: i64) -> (r: bool)
        requires
            m >= 0,
        ensures
            r == in_box(*self, m as int),
    {
        -m <= self.x && self.x <= m && -m <= self.y && self.y <= m && -m <= self.z && self.z <= m
    }

    /// Mirror reflection of `self` about a unit normal.
    pub fn reflect(&self, normal: UnitVec3) -> (r: Vec3)
        requires
            in_box(*self, 0x100_0000_0000),
            normal.wf(),
        ensures
            r == spec_bounce(*self, normal.as_vec3()),
            in_box(r, 28587302322176),
    {
        self.bounce_with_normal(&normal.to_vec3())
    }
}

/// Exact mirror reflection with denominators cleared: the reflection of
/// `d` about `n`, multiplied through by `n . n` so that no division (and
/// so no rounding) occurs.
pub open spec fn reflect_exact_x(d: Vec3, n: Vec3) -> int {
    d.x * norm2_raw(n) - 2 * dot_raw(d, n) * n.x
}

pub open spec fn reflect_exact_y(d: Vec3, n: Vec3) -> int {
    d.y * norm2_raw(n) - 2 * dot_raw(d, n) * n.y
}

pub open spec fn reflect_exact_z(d: Vec3, n: Vec3) -> int {
    d.z * norm2_raw(n) - 2 * dot_raw(d, n) * n.z
}

/// Reflection preserves length: for every incoming vector `d` and every
/// normal `n`, the exact reflection of `d` about `n` (scaled through by
/// `n . n` to stay in integers) has squared norm exactly
/// `(d . d) (n . n)^2` -- for a unit normal, exactly the squared norm of
/// `d` again.
pub proof fn lemma_reflect_preserves_norm(d: Vec3, n: Vec3)
    ensures
        reflect_exact_x(d, n) * reflect_exact_x(d, n) + reflect_exact_y(d, n) * reflect_exact_y(
            d,
            n,
        ) + reflect_exact_z(d, n) * reflect_exact_z(d, n) == norm2_raw(d) * (norm2_raw(n)
            * norm2_raw(n)),
{
    let dx = d.x as int;
    let dy = d.y as int;
    let dz = d.z as int;
    let nx = n.x as int;
    let ny = n.y as int;
    let nz = n.z as int;
    let big_d = dot_raw(d, n);
    let big_n = norm2_raw(n);
    let rx = reflect_exact_x(d, n);
    let ry = reflect_exact_y(d, n);
    let rz = reflect_exact_z(d, n);
    lemma_reflect_component(dx, nx, big_d, big_n, rx);
    lemma_reflect_component(dy, ny, big_d, big_n, ry);
    lemma_reflect_component(dz, nz, big_d, big_n, rz);
    assert((dx * dx) * (big_n * big_n) + (dy * dy) * (big_n * big_n) + (dz * dz) * (big_n * big_n)
        == (dx * dx + dy * dy + dz * dz) * (big_n * big_n)) by (nonlinear_arith);
    assert((dx * nx) * (big_d * big_n) + (dy * ny) * (big_d * big_n) + (dz * nz) * (big_d * big_n)
        == (dx * nx + dy * ny + dz * nz) * (big_d * big_n)) by (nonlinear_arith);
    assert((nx * nx) * (big_d * big_d) + (ny * ny) * (big_d * big_d) + (nz * nz) * (big_d * big_d)
        == (nx * nx + ny * ny + nz * nz) * (big_d * big_d)) by (nonlinear_arith);
    assert(big_d * (big_d * big_n) == big_n * (big_d * big_d)) by (nonlinear_arith);
    assert((dx * nx + dy * ny + dz * nz) * (big_d * big_n) == big_d * (big_d * big_n));
    assert((nx * nx + ny * ny + nz * nz) * (big_d * big_d) == big_n * (big_d * big_d));
}

/// The raw dot product at full width, for the intersection routines.
pub fn dot_wide(a: &Vec3, b: &Vec3) -> (r: i128)
    requires
        in_box(*a, 0x4000_0000_0000_0000),
        in_box(*b, 0x4000_0000_0000_0000),
    ensures
        r as int == dot_raw(*a, *b),
{
    proof {
        lemma_mul_abs_bound(a.x as int, 0x4000_0000_0000_0000, b.x as int, 0x4000_0000_0000_0000);
        lemma_mul_abs_bound(a.y as int, 0x4000_0000_0000_0000, b.y as int, 0x4000_0000_0000_0000);
        lemma_mul_abs_bound(a.z as int, 0x4000_0000_0000_0000, b.z as int, 0x4000_0000_0000_0000);
    }
    (a.x as i128) * (b.x as i128) + (a.y as i128) * (b.y as i128) + (a.z as i128) * (b.z as i128)
}

/// One squared component of the exact reflection, expanded.
proof fn lemma_reflect_component(dc: int, nc: int, big_d: int, big_n: int, rc: int)
    requires
        rc == dc * big_n - 2 * big_d * nc,
    ensures
        rc * rc == (dc * dc) * (big_n * big_n) - 4 * ((dc * nc) * (big_d * big_n)) + 4 * ((nc * nc)
            * (big_d * big_d)),
{
    let a = dc * big_n;
    let b = 2 * big_d * nc;
    assert(rc * rc == a * a - 2 * (a * b) + b * b) by (nonlinear_arith)
        requires
            rc == a - b,
    ;
    assert(a * a == (dc * dc) * (big_n * big_n)) by (nonlinear_arith)
        requires
            a == dc * big_n,
    ;
    assert(a * b == 2 * ((dc * nc) * (big_d * big_n))) by (nonlinear_arith)
        requires
            a == dc * big_n,
            b == 2 * big_d * nc,
    ;
    assert(b * b == 4 * ((nc * nc) * (big_d * big_d))) by (nonlinear_arith)
        requires
            b == 2 * big_d * nc,
    ;
}

/// One component of `mult`.
fn scale_component(c: i64, val: i64) -> (r: i64)
    requires
        -(i64::MAX as int) <= tdiv(c * val, SCALE as int) <= i64::MAX as int,
    ensures
        r as int == tdiv(c * val, SCALE as int),
{
    proof {
        lemma_mul_abs_bound(c as int, 0x8000_0000_0000_0000, val as int, 0x8000_0000_0000_0000);
    }
    ((c as i128) * (val as i128) / (SCALE as i128)) as i64
}

/// One component of `div`.
fn div_component(c: i64, val: i64) -> (r: i64)
    requires
        val != 0,
        -(i64::MAX as int) <= tdiv(c * (SCALE as int), val as int) <= i64::MAX as int,
    ensures
        r as int == tdiv(c * (SCALE as int), val as int),
{
    proof {
        lemma_mul_abs_bound(c as int, 0x8000_0000_0000_0000, SCALE as int, SCALE as int);
    }
    crate::fx::tdiv_i128((c as i128) * (SCALE as i128), val as i128) as i64
}

/// One component of `bounce_with_normal`.
fn bounce_component(d: i64, dn: i128, n: i64, s2: i128) -> (r: i64)
    requires
        s2 == (SCALE as int) * (SCALE as int),
        -0x100_0000_0000 <= d <= 0x100_0000_0000,
        -2097152 <= n <= 2097152,
        -(3 * 2305843009213693952int) <= dn as int <= 3 * 2305843009213693952int,
    ensures
        r as int == d - tdiv(2 * (dn as int) * (n as int), (SCALE as int) * (SCALE as int)),
        -28587302322176 <= r as int <= 28587302322176,
{
    proof {
        lemma_muldiv_bound(2 * (dn as int), 2 * (3 * 2305843009213693952int), n as int, 2097152,
            (SCALE as int) * (SCALE as int), 26388279066624);
        assert((2 * (3 * 2305843009213693952int)) * 2097152
            == 26388279066624int * ((SCALE as int) * (SCALE as int)));
        lemma_mul_abs_bound(2 * (dn as int), 2 * (3 * 2305843009213693952int), n as int, 2097152);
    }
    let q = 2 * dn * (n as i128) / s2;
    (d as i128 - q) as i64
}

/// `|a| <= ma` and `|b| <= mb` with `ma * mb <= q * d` give
/// `|a * b / d| <= q` for truncating division by positive `d`.
pub proof fn lemma_muldiv_bound(a: int, ma: int, b: int, mb: int, d: int, q: int)
    requires
        -ma <= a <= ma,
        -mb <= b <= mb,
        0 <= ma,
        0 <= mb,
        d >= 1,
        ma * mb <= q * d,
    ensures
        -q <= tdiv(a * b, d) <= q,
{
    lemma_mul_abs_bound(a, ma, b, mb);
    if a * b >= 0 {
        assert((a * b) / d <= q && 0 <= (a * b) / d) by (nonlinear_arith)
            requires
                0 <= a * b,
                a * b <= ma * mb,
                ma * mb <= q * d,
                d >= 1,
        ;
    } else {
        assert((-(a * b)) / d <= q && 0 <= (-(a * b)) / d) by (nonlinear_arith)
            requires
                0 <= -(a * b),
                -(a * b) <= ma * mb,
                ma * mb <= q * d,
                d >= 1,
        ;
    }
}

/// The raw squared norm as an `i128`.
fn norm2_i128(v: &Vec3) -> (r: i128)
    requires
        in_box(*v, 0x2000_0000_0000_0000),
    ensures
        r as int == norm2_raw(*v),
        0 <= r as int <= 3 * (0x2000_0000_0000_0000int * 0x2000_0000_0000_0000),
{
    proof {
        lemma_mul_abs_bound(v.x as int, 0x2000_0000_0000_0000, v.x as int, 0x2000_0000_0000_0000);
        lemma_mul_abs_bound(v.y as int, 0x2000_0000_0000_0000, v.y as int, 0x2000_0000_0000_0000);
        lemma_mul_abs_bound(v.z as int, 0x2000_0000_0000_0000, v.z as int, 0x2000_0000_0000_0000);
        lemma_square_nonneg(v.x as int);
        lemma_square_nonneg(v.y as int);
        lemma_square_nonneg(v.z as int);
    }
    (v.x as i128) * (v.x as i128) + (v.y as i128) * (v.y as i128) + (v.z as i128) * (v.z as i128)
}

pub proof fn lemma_square_nonneg(a: int)
    ensures
        0 <= a * a,
{
    assert(0 <= a * a) by (nonlinear_arith);
}

/// The dot product of two vectors bounded by `ma` and `mb` is bounded by
/// `3 (ma * mb)`.
pub proof fn lemma_dot_raw_bound(a: Vec3, ma: int, b: Vec3, mb: int)
    requires
        0 <= ma,
        0 <= mb,
        in_box(a, ma),
        in_box(b, mb),
    ensures
        -(3 * (ma * mb)) <= dot_raw(a, b) <= 3 * (ma * mb),
{
    lemma_mul_abs_bound(a.x as int, ma, b.x as int, mb);
    lemma_mul_abs_bound(a.y as int, ma, b.y as int, mb);
    lemma_mul_abs_bound(a.z as int, ma, b.z as int, mb);
}

/// Each component of `unit`'s result stays within `SCALE`, because no
/// component exceeds the integer square root of the squared norm.
proof fn lemma_unit_fits(v: Vec3)
    requires
        in_box(v, 0x2000_0000_0000_0000),
        norm2_raw(v) >= 1,
    ensures
        ({
            let len = spec_isqrt(norm2_raw(v) as nat) as int;
            &&& len >= 1
            &&& -(SCALE as int) <= tdiv(v.x * (SCALE as int), len) <= SCALE as int
            &&& -(SCALE as int) <= tdiv(v.y * (SCALE as int), len) <= SCALE as int
            &&& -(SCALE as int) <= tdiv(v.z * (SCALE as int), len) <= SCALE as int
        }),
{
    let n2 = norm2_raw(v);
    lemma_isqrt_bounds(n2 as nat);
    let len = spec_isqrt(n2 as nat) as int;
    assert(len >= 1) by (nonlinear_arith)
        requires
            len >= 0,
            n2 >= 1,
            n2 < (len + 1) * (len + 1),
    ;
    lemma_square_nonneg(v.x as int);
    lemma_square_nonneg(v.y as int);
    lemma_square_nonneg(v.z as int);
    lemma_component_le_root(v.x as int, n2, len);
    lemma_component_le_root(v.y as int, n2, len);
    lemma_component_le_root(v.z as int, n2, len);
    lemma_scaled_quotient(v.x as int, len);
    lemma_scaled_quotient(v.y as int, len);
    lemma_scaled_quotient(v.z as int, len);
}

/// A component whose square is at most `n2 < (len+1)^2` is at most `len`
/// in magnitude.
proof fn lemma_component_le_root(c: int, n2: int, len: int)
    requires
        c * c <= n2,
        n2 < (len + 1) * (len + 1),
        0 <= len,
    ensures
        -len <= c <= len,
{
    assert(-len <= c <= len) by (nonlinear_arith)
        requires
            c * c <= n2,
            n2 < (len + 1) * (len + 1),
            0 <= len,
    ;
}

/// `|c| <= len` gives `|c * SCALE / len| <= SCALE`.
proof fn lemma_scaled_quotient(c: int, len: int)
    requires
        -len <= c <= len,
        len >= 1,
    ensures
        -(SCALE as int) <= tdiv(c * (SCALE as int), len) <= SCALE as int,
{
    lemma_muldiv_bound(c, len, SCALE as int, SCALE as int, len, SCALE as int);
    assert(len * (SCALE as int) <= (SCALE as int) * len);
}

/// The normalized vector is nonzero: its largest component keeps magnitude
/// at least one.
proof fn lemma_unit_nonzero(v: Vec3, r: Vec3)
    requires
        in_box(v, 0x2000_0000_0000_0000),
        norm2_raw(v) >= 1,
        r == spec_unit(v),
    ensures
        norm2_raw(r) >= 1,
{
    lemma_unit_fits(v);
    let n2 = norm2_raw(v);
    lemma_isqrt_bounds(n2 as nat);
    let len = spec_isqrt(n2 as nat) as int;
    let cx = v.x as int;
    let cy = v.y as int;
    let cz = v.z as int;
    assert(cx * cx + cy * cy + cz * cz == n2);
    assert(3 * (cx * cx) >= n2 || 3 * (cy * cy) >= n2 || 3 * (cz * cz) >= n2) by (nonlinear_arith)
        requires
            cx * cx + cy * cy + cz * cz == n2,
    ;
    lemma_square_nonneg(r.x as int);
    lemma_square_nonneg(r.y as int);
    lemma_square_nonneg(r.z as int);
    if 3 * (cx * cx) >= n2 {
        lemma_big_component(cx, n2, len);
        assert(r.x as int == tdiv(cx * (SCALE as int), len));
        assert(r.x as int * (r.x as int) >= 1) by (nonlinear_arith)
            requires
                r.x as int <= -1 || r.x as int >= 1,
        ;
    } else if 3 * (cy * cy) >= n2 {
        lemma_big_component(cy, n2, len);
        assert(r.y as int == tdiv(cy * (SCALE as int), len));
        assert(r.y as int * (r.y as int) >= 1) by (nonlinear_arith)
            requires
                r.y as int <= -1 || r.y as int >= 1,
        ;
    } else {
        lemma_big_component(cz, n2, len);
        assert(r.z as int == tdiv(cz * (SCALE as int), len));
        assert(r.z as int * (r.z as int) >= 1) by (nonlinear_arith)
            requires
                r.z as int <= -1 || r.z as int >= 1,
        ;
    }
}

/// A component with `3 c^2 >= n2 >= len^2 >= 1` scales to magnitude at
/// least one: `|c * SCALE / len| >= 1`.
proof fn lemma_big_component(c: int, n2: int, len: int)
    requires
        3 * (c * c) >= n2,
        len * len <= n2,
        len >= 1,
        n2 >= 1,
    ensures
        tdiv(c * (SCALE as int), len) <= -1 || tdiv(c * (SCALE as int), len) >= 1,
{
    assert(2 * c >= len || 2 * (-c) >= len) by (nonlinear_arith)
        requires
            3 * (c * c) >= n2,
            len * len <= n2,
            len >= 1,
    ;
    if c >= 0 {
        assert(c * (SCALE as int) >= len) by (nonlinear_arith)
            requires
                2 * c >= len,
                len >= 1,
                c >= 0,
        ;
        assert(c * (SCALE as int) / len >= 1) by (nonlinear_arith)
            requires
                c * (SCALE as int) >= len,
                len >= 1,
        ;
    } else {
        assert((-c) * (SCALE as int) >= len) by (nonlinear_arith)
            requires
                2 * (-c) >= len,
                len >= 1,
                -c >= 0,
        ;
        assert((-(c * (SCALE as int))) / len >= 1) by (nonlinear_arith)
            requires
                -(c * (SCALE as int)) >= len,
                len >= 1,
        ;
    }
}

} // verus!
