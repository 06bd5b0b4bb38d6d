//! Spheres, intersected by solving the ray-sphere quadratic.
//!
//! With `oc = origin - center` the hits are the roots of
//! `a t^2 + 2 h t + c = 0` where `a = dir . dir`, `h = dir . oc` and
//! `c = oc . oc - r^2`; in exact integer arithmetic there is no
//! catastrophic cancellation, so the roots are taken directly as
//! `(-h +/- sqrt(h^2 - a c)) / a`.  The smaller root wins if it clears the
//! epsilon threshold, else the larger, else there is no hit.

use vstd::prelude::*;
use crate::fx::{SCALE, T_MAX, COORD_MAX, POS_MAX, DIR_MAX, tdiv, spec_isqrt, isqrt,
    lemma_mul_abs_bound, lemma_isqrt_bounds};
use crate::vec3::{Vec3, spec_sub, spec_unit, dot_raw, norm2_raw, in_box, dot_wide,
    lemma_dot_raw_bound, lemma_square_nonneg};
use crate::ray::{Ray, spec_eval};
use crate::shape::{ShapeCollisionInformation, collision_wf};

verus! {

#[derive(Clone, Copy, Debug, PartialEq, Eq, Structural)]
pub struct Sphere {
    pub center: Vec3,
    pub radius: i64,
}

/// `origin - center`.
pub open spec fn sph_oc(s: Sphere, r: Ray) -> Vec3 {
    spec_sub(r.pos, s.center)
}

/// The quadratic's leading coefficient, `dir . dir`.
pub open spec fn sph_a(r: Ray) -> int {
    norm2_raw(r.dir)
}

/// Half the quadratic's middle coefficient, `dir . oc`.
pub open spec fn sph_h(s: Sphere, r: Ray) -> int {
    dot_raw(r.dir, sph_oc(s, r))
}

/// The quadratic's constant coefficient, `oc . oc - radius^2`.
pub open spec fn sph_c(s: Sphere, r: Ray) -> int {
    norm2_raw(sph_oc(s, r)) - s.radius * s.radius
}

/// The (quarter) discriminant `h^2 - a c`.
pub open spec fn sph_disc(s: Sphere, r: Ray) -> int {
    sph_h(s, r) * sph_h(s, r) - sph_a(r) * sph_c(s, r)
}

/// The smaller root, as a fixed-point ray parameter.
pub open spec fn sph_t_lo(s: Sphere, r: Ray) -> int {
    tdiv((-sph_h(s, r) - spec_isqrt(sph_disc(s, r) as nat)) * (SCALE as int), sph_a(r))
}

/// The larger root, as a fixed-point ray parameter.
pub open spec fn sph_t_hi(s: Sphere, r: Ray) -> int {
    tdiv((-sph_h(s, r) + spec_isqrt(sph_disc(s, r) as nat)) * (SCALE as int), sph_a(r))
}

/// Which ray parameter (if any) the intersection reports: the smaller
/// root if it lies in `(eps, T_MAX]`, else the larger, else none; a
/// degenerate ray or a negative discriminant is a miss.
pub open spec fn spec_sphere_hit_t(s: Sphere, r: Ray, eps: i64) -> Option<int> {
    if sph_a(r) == 0 {
        None
    } else if sph_disc(s, r) < 0 {
        None
    } else if eps < sph_t_lo(s, r) <= T_MAX {
        Some(sph_t_lo(s, r))
    } else if eps < sph_t_hi(s, r) <= T_MAX {
        Some(sph_t_hi(s, r))
    } else {
        None
    }
}

/// The reported normal: the hit point less the center, normalized; if
/// rounding collapses that difference to zero, an arbitrary fixed unit
/// vector stands in.
pub open spec fn spec_sphere_normal(s: Sphere, r: Ray, t: i64) -> Vec3 {
    let pc = spec_sub(spec_eval(r, t), s.center);
    if norm2_raw(pc) >= 1 {
        spec_unit(pc)
    } else {
        Vec3 { x: 0, y: 0, z: SCALE }
    }
}

/// The specification mirror of `Sphere::intersect`.
pub open spec fn spec_sphere_intersect(s: Sphere, r: Ray, eps: i64) -> Option<
    ShapeCollisionInformation,
> {
    match spec_sphere_hit_t(s, r, eps) {
        None => None,
        Some(t) => Some(
            ShapeCollisionInformation {
                distance: t as i64,
                normal: spec_sphere_normal(s, r, t as i64),
                intersection_point: spec_eval(r, t as i64),
            },
        ),
    }
}

/// A ray aimed away from a sphere never hits it: if the origin lies
/// strictly outside (`oc . oc > radius^2`) and the direction does not
/// point toward the center (`dir . oc >= 0`), the intersection is a miss,
/// whatever the origin and the epsilon.
pub proof fn lemma_sphere_aimed_away(s: Sphere, r: Ray, eps: i64)
    requires
        0 <= eps,
        sph_h(s, r) >= 0,
        sph_c(s, r) > 0,
    ensures
        spec_sphere_hit_t(s, r, eps) is None,
        spec_sphere_intersect(s, r, eps) is None,
{
    let a = sph_a(r);
    let h = sph_h(s, r);
    let c = sph_c(s, r);
    let disc = sph_disc(s, r);
    lemma_square_nonneg(r.dir.x as int);
    lemma_square_nonneg(r.dir.y as int);
    lemma_square_nonneg(r.dir.z as int);
    assert(a >= 0);
    if a != 0 && disc >= 0 {
        let s0 = spec_isqrt(disc as nat) as int;
        lemma_isqrt_bounds(disc as nat);
        assert(a * c >= 1) by (nonlinear_arith)
            requires
                a >= 1,
                c >= 1,
        ;
        assert(s0 * s0 <= disc);
        assert(disc < h * h);
        assert(s0 < h) by (nonlinear_arith)
            requires
                s0 * s0 < h * h,
                s0 >= 0,
                h >= 0,
        ;
        assert((-h + s0) * (SCALE as int) <= 0) by (nonlinear_arith)
            requires
                -h + s0 <= 0,
                SCALE >= 1,
        ;
        assert((-h - s0) * (SCALE as int) <= 0) by (nonlinear_arith)
            requires
                -h - s0 <= 0,
                SCALE >= 1,
        ;
        crate::fx::lemma_tdiv_nonpos((-h + s0) * (SCALE as int), a);
        crate::fx::lemma_tdiv_nonpos((-h - s0) * (SCALE as int), a);
    }
}

/// Cancellation: equal products with a common positive factor have equal
/// other factors.
proof fn lemma_cancel_common(a: int, b: int, l: int)
    requires
        a * l == b * l,
        l >= 1,
    ensures
        a == b,
{
    assert(a == b) by (nonlinear_arith)
        requires
            a * l == b * l,
            l >= 1,
    ;
}

/// From `u * l == p` and `v * l == q` conclude `(u * v) * (l * l) == p * q`.
proof fn lemma_mul_pairs(u: int, v: int, l: int, p: int, q: int)
    requires
        u * l == p,
        v * l == q,
    ensures
        (u * v) * (l * l) == p * q,
{
    assert((u * v) * (l * l) == (u * l) * (v * l)) by (nonlinear_arith);
}

/// A ray whose origin lies outside a sphere, aimed exactly at its center
/// with an exactly representable unit direction, hits at parameter
/// `len - radius` where `len` is the distance from origin to center, and
/// the reported normal is the unit vector from the center back toward the
/// origin (the negated direction), exactly parallel to
/// `hit_point - center`.
pub proof fn lemma_sphere_direct_hit(s: Sphere, r: Ray, eps: i64, len: i64)
    requires
        s.wf(),
        in_box(r.pos, POS_MAX as int),
        in_box(r.dir, DIR_MAX as int),
        0 <= eps,
        len >= 1,
        // len is exactly the distance from origin to center
        len * len == norm2_raw(sph_oc(s, r)),
        // the direction points exactly at the center, with unit length
        r.dir.x * len == -(sph_oc(s, r).x * (SCALE as int)),
        r.dir.y * len == -(sph_oc(s, r).y * (SCALE as int)),
        r.dir.z * len == -(sph_oc(s, r).z * (SCALE as int)),
        // the origin lies outside the sphere, beyond the epsilon shell
        eps + s.radius < len,
        len - s.radius <= T_MAX,
        // the normal is exactly representable
        (s.radius * sph_oc(s, r).x) % (len as int) == 0,
        (s.radius * sph_oc(s, r).y) % (len as int) == 0,
        (s.radius * sph_oc(s, r).z) % (len as int) == 0,
    ensures
        spec_sphere_hit_t(s, r, eps) == Some(len - s.radius),
        spec_sphere_intersect(s, r, eps) is Some,
        spec_sphere_intersect(s, r, eps)->Some_0.distance == len - s.radius,
        spec_sphere_intersect(s, r, eps)->Some_0.normal == crate::vec3::spec_neg(r.dir),
{
    let oc = sph_oc(s, r);
    let a = sph_a(r);
    let h = sph_h(s, r);
    let c = sph_c(s, r);
    let disc = sph_disc(s, r);
    let big_s = SCALE as int;
    let l = len as int;
    let r0 = s.radius as int;
    let dx = r.dir.x as int;
    let dy = r.dir.y as int;
    let dz = r.dir.z as int;
    let ox = oc.x as int;
    let oy = oc.y as int;
    let oz = oc.z as int;
    // a == SCALE^2
    lemma_mul_pairs(dx, dx, l, -(ox * big_s), -(ox * big_s));
    lemma_mul_pairs(dy, dy, l, -(oy * big_s), -(oy * big_s));
    lemma_mul_pairs(dz, dz, l, -(oz * big_s), -(oz * big_s));
    assert((-(ox * big_s)) * (-(ox * big_s)) == (big_s * big_s) * (ox * ox)) by (nonlinear_arith);
    assert((-(oy * big_s)) * (-(oy * big_s)) == (big_s * big_s) * (oy * oy)) by (nonlinear_arith);
    assert((-(oz * big_s)) * (-(oz * big_s)) == (big_s * big_s) * (oz * oz)) by (nonlinear_arith);
    assert((dx * dx) * (l * l) + (dy * dy) * (l * l) + (dz * dz) * (l * l) == a * (l * l))
        by (nonlinear_arith)
        requires
            a == dx * dx + dy * dy + dz * dz,
    ;
    assert((big_s * big_s) * (ox * ox) + (big_s * big_s) * (oy * oy) + (big_s * big_s) * (oz * oz)
        == (big_s * big_s) * (l * l)) by (nonlinear_arith)
        requires
            ox * ox + oy * oy + oz * oz == l * l,
    ;
    assert(a * (l * l) == (big_s * big_s) * (l * l));
    assert(l * l >= 1) by (nonlinear_arith)
        requires
            l >= 1,
    ;
    lemma_cancel_common(a, big_s * big_s, l * l);
    assert(a == big_s * big_s);
    // h == -SCALE * len
    assert(h == -(big_s * l)) by {
        assert((dx * ox) * l == -(big_s * (ox * ox))) by (nonlinear_arith)
            requires
                dx * l == -(ox * big_s),
        ;
        assert((dy * oy) * l == -(big_s * (oy * oy))) by (nonlinear_arith)
            requires
                dy * l == -(oy * big_s),
        ;
        assert((dz * oz) * l == -(big_s * (oz * oz))) by (nonlinear_arith)
            requires
                dz * l == -(oz * big_s),
        ;
        assert(h * l == -(big_s * (l * l))) by (nonlinear_arith)
            requires
                h == dx * ox + dy * oy + dz * oz,
                (dx * ox) * l == -(big_s * (ox * ox)),
                (dy * oy) * l == -(big_s * (oy * oy)),
                (dz * oz) * l == -(big_s * (oz * oz)),
                ox * ox + oy * oy + oz * oz == l * l,
        ;
        assert((-(big_s * l)) * l == -(big_s * (l * l))) by (nonlinear_arith);
        lemma_cancel_common(h, -(big_s * l), l);
    };
    // c == len^2 - radius^2
    assert(c == l * l - r0 * r0);
    // disc == (SCALE * radius)^2
    assert(disc == (big_s * r0) * (big_s * r0)) by (nonlinear_arith)
        requires
            disc == h * h - a * c,
            h == -(big_s * l),
            a == big_s * big_s,
            c == l * l - r0 * r0,
    ;
    let sr = big_s * r0;
    assert(sr >= 1) by (nonlinear_arith)
        requires
            sr == big_s * r0,
            big_s >= 1,
            r0 >= 1,
    ;
    assert(disc >= 0) by (nonlinear_arith)
        requires
            disc == sr * sr,
    ;
    assert((sr + 1) * (sr + 1) > sr * sr) by (nonlinear_arith)
        requires
            sr >= 0,
    ;
    crate::fx::lemma_isqrt_unique(disc as nat, sr as nat);
    assert(spec_isqrt(disc as nat) as int == sr);
    // the smaller root is exactly len - radius
    let t = l - r0;
    assert((-h - sr) * big_s == t * a) by (nonlinear_arith)
        requires
            h == -(big_s * l),
            sr == big_s * r0,
            a == big_s * big_s,
            t == l - r0,
    ;
    assert(a >= 1) by (nonlinear_arith)
        requires
            a == big_s * big_s,
            big_s >= 1,
    ;
    crate::fx::lemma_tdiv_exact(t, a);
    assert(sph_t_lo(s, r) == t);
    assert(eps < t <= T_MAX);
    assert(spec_sphere_hit_t(s, r, eps) == Some(t));
    // the hit point is center + radius * oc / len, exactly
    let kx = (r0 * ox) / l;
    let ky = (r0 * oy) / l;
    let kz = (r0 * oz) / l;
    vstd::arithmetic::div_mod::lemma_fundamental_div_mod(r0 * ox, l);
    vstd::arithmetic::div_mod::lemma_fundamental_div_mod(r0 * oy, l);
    vstd::arithmetic::div_mod::lemma_fundamental_div_mod(r0 * oz, l);
    assert(l * kx == r0 * ox);
    assert(l * ky == r0 * oy);
    assert(l * kz == r0 * oz);
    lemma_direct_hit_point(s, r, eps, len, kx, ky, kz);
}

/// The hit-point and normal part of the direct-aim law, continued: with
/// `k = radius * oc / len` exact, the evaluated hit point is
/// `center + k` and its normalization is the negated direction.
#[verifier::spinoff_prover]
proof fn lemma_direct_hit_point(s: Sphere, r: Ray, eps: i64, len: i64, kx: int, ky: int, kz: int)
    requires
        s.wf(),
        in_box(r.pos, POS_MAX as int),
        in_box(r.dir, DIR_MAX as int),
        0 <= eps,
        len >= 1,
        len * len == norm2_raw(sph_oc(s, r)),
        r.dir.x * len == -(sph_oc(s, r).x * (SCALE as int)),
        r.dir.y * len == -(sph_oc(s, r).y * (SCALE as int)),
        r.dir.z * len == -(sph_oc(s, r).z * (SCALE as int)),
        eps + s.radius < len,
        len - s.radius <= T_MAX,
        len * kx == s.radius * sph_oc(s, r).x,
        len * ky == s.radius * sph_oc(s, r).y,
        len * kz == s.radius * sph_oc(s, r).z,
        spec_sphere_hit_t(s, r, eps) == Some(len - s.radius),
    ensures
        spec_sphere_intersect(s, r, eps) is Some,
        spec_sphere_intersect(s, r, eps)->Some_0.distance == len - s.radius,
        spec_sphere_intersect(s, r, eps)->Some_0.normal == crate::vec3::spec_neg(r.dir),
{
    let oc = sph_oc(s, r);
    let big_s = SCALE as int;
    let l = len as int;
    let r0 = s.radius as int;
    let t = l - r0;
    let ti = (len - s.radius) as i64;
    assert(ti as int == t);
    lemma_component_step(r.dir.x as int, oc.x as int, kx, l, r0, big_s, t);
    lemma_component_step(r.dir.y as int, oc.y as int, ky, l, r0, big_s, t);
    lemma_component_step(r.dir.z as int, oc.z as int, kz, l, r0, big_s, t);
    // so tdiv(d_i * t, SCALE) == k_i - oc_i, and |k_i| <= |oc_i|
    let p = spec_eval(r, ti);
    assert(oc.x as int == r.pos.x - s.center.x);
    assert(oc.y as int == r.pos.y - s.center.y);
    assert(oc.z as int == r.pos.z - s.center.z);
    assert(p.x as int == s.center.x + kx);
    assert(p.y as int == s.center.y + ky);
    assert(p.z as int == s.center.z + kz);
    let pc = crate::vec3::spec_sub(p, s.center);
    assert(pc.x as int == kx);
    assert(pc.y as int == ky);
    assert(pc.z as int == kz);
    // |pc|^2 == radius^2
    assert((kx * kx) * (l * l) == (r0 * r0) * (oc.x as int * (oc.x as int))) by (nonlinear_arith)
        requires
            l * kx == r0 * (oc.x as int),
    ;
    assert((ky * ky) * (l * l) == (r0 * r0) * (oc.y as int * (oc.y as int))) by (nonlinear_arith)
        requires
            l * ky == r0 * (oc.y as int),
    ;
    assert((kz * kz) * (l * l) == (r0 * r0) * (oc.z as int * (oc.z as int))) by (nonlinear_arith)
        requires
            l * kz == r0 * (oc.z as int),
    ;
    assert(norm2_raw(pc) * (l * l) == (r0 * r0) * (l * l)) by (nonlinear_arith)
        requires
            norm2_raw(pc) == kx * kx + ky * ky + kz * kz,
            (kx * kx) * (l * l) == (r0 * r0) * ((oc.x as int) * (oc.x as int)),
            (ky * ky) * (l * l) == (r0 * r0) * ((oc.y as int) * (oc.y as int)),
            (kz * kz) * (l * l) == (r0 * r0) * ((oc.z as int) * (oc.z as int)),
            (oc.x as int) * (oc.x as int) + (oc.y as int) * (oc.y as int) + (oc.z as int) * (
            oc.z as int) == l * l,
    ;
    assert(l * l >= 1) by (nonlinear_arith)
        requires
            l >= 1,
    ;
    lemma_cancel_common(norm2_raw(pc), r0 * r0, l * l);
    assert(r0 * r0 >= 1) by (nonlinear_arith)
        requires
            r0 >= 1,
    ;
    assert(norm2_raw(pc) >= 1);
    // normalization: isqrt(radius^2) == radius, components back to -dir
    assert((r0 + 1) * (r0 + 1) > r0 * r0) by (nonlinear_arith)
        requires
            r0 >= 0,
    ;
    crate::fx::lemma_isqrt_unique(norm2_raw(pc) as nat, r0 as nat);
    lemma_normal_component(r.dir.x as int, oc.x as int, kx, l, r0, big_s);
    lemma_normal_component(r.dir.y as int, oc.y as int, ky, l, r0, big_s);
    lemma_normal_component(r.dir.z as int, oc.z as int, kz, l, r0, big_s);
    let normal = spec_sphere_normal(s, r, ti);
    assert(normal == crate::vec3::spec_unit(pc));
    assert(normal.x as int == crate::fx::tdiv(kx * big_s, r0));
    assert(normal.x as int == -(r.dir.x as int));
    assert(normal.y as int == -(r.dir.y as int));
    assert(normal.z as int == -(r.dir.z as int));
    assert(normal == crate::vec3::spec_neg(r.dir));
}

/// One component of the direct-aim hit point: `tdiv(d * t, SCALE)` is
/// exactly `k - o`, and `|k| <= |o|`.
proof fn lemma_component_step(d: int, o: int, k: int, l: int, r0: int, big_s: int, t: int)
    requires
        big_s == SCALE as int,
        l >= 1,
        1 <= r0 <= l,
        t == l - r0,
        d * l == -(o * big_s),
        l * k == r0 * o,
    ensures
        crate::fx::tdiv(d * t, big_s) == k - o,
        -o <= k <= o || o <= k <= -o,
{
    assert((d * t) * l == ((k - o) * big_s) * l) by (nonlinear_arith)
        requires
            d * l == -(o * big_s),
            l * k == r0 * o,
            t == l - r0,
    ;
    lemma_cancel_common(d * t, (k - o) * big_s, l);
    crate::fx::lemma_tdiv_exact(k - o, big_s);
    assert(-o <= k <= o || o <= k <= -o) by (nonlinear_arith)
        requires
            l * k == r0 * o,
            1 <= r0 <= l,
    ;
}

/// One component of the direct-aim normal: `tdiv(k * SCALE, r0)` is
/// exactly `-d`.
proof fn lemma_normal_component(d: int, o: int, k: int, l: int, r0: int, big_s: int)
    requires
        big_s == SCALE as int,
        l >= 1,
        r0 >= 1,
        d * l == -(o * big_s),
        l * k == r0 * o,
    ensures
        crate::fx::tdiv(k * big_s, r0) == -d,
{
    assert((k * big_s) * l == ((-d) * r0) * l) by (nonlinear_arith)
        requires
            d * l == -(o * big_s),
            l * k == r0 * o,
    ;
    lemma_cancel_common(k * big_s, (-d) * r0, l);
    crate::fx::lemma_tdiv_exact(-d, r0);
}

impl Sphere {
    pub open spec fn wf(self) -> bool {
        &&& in_box(self.center, COORD_MAX as int)
        &&& 0 < self.radius <= COORD_MAX
    }

    pub fn intersect(&self, ray: &Ray, epsilon: i64) -> (res: Option<ShapeCollisionInformation>)
        requires
            self.wf(),
            in_box(ray.pos, POS_MAX as int),
            in_box(ray.dir, DIR_MAX as int),
            0 <= epsilon,
        ensures
            res == spec_sphere_intersect(*self, *ray, epsilon),
            res is Some ==> collision_wf(res->Some_0, epsilon),
    {
        let oc = ray.pos.sub(&self.center);
        let a = dot_wide(&ray.dir, &ray.dir);
        proof {
            lemma_dot_raw_bound(ray.dir, DIR_MAX as int, ray.dir, DIR_MAX as int);
            lemma_square_nonneg(ray.dir.x as int);
            lemma_square_nonneg(ray.dir.y as int);
            lemma_square_nonneg(ray.dir.z as int);
            assert(3 * ((DIR_MAX as int) * (DIR_MAX as int)) == 3377699720527872int);
            lemma_dot_raw_bound(oc, 73014444032, oc, 73014444032);
            assert(3 * (73014444032int * 73014444032) == 15993327111906181251072int);
            lemma_dot_raw_bound(ray.dir, DIR_MAX as int, oc, 73014444032);
            assert(3 * ((DIR_MAX as int) * 73014444032) == 7349874591868649472int);
            lemma_mul_abs_bound(self.radius as int, COORD_MAX as int, self.radius as int,
                COORD_MAX as int);
            lemma_square_nonneg(self.radius as int);
        }
        if a == 0 {
            return None;
        }
        let h = dot_wide(&ray.dir, &oc);
        let occ = dot_wide(&oc, &oc);
        let rr = (self.radius as i128) * (self.radius as i128);
        let cc = occ - rr;
        proof {
            assert(-16011773855979890802688 <= cc as int <= 16011773855979890802688);
            lemma_mul_abs_bound(h as int, 7349874591868649472, h as int, 7349874591868649472);
            lemma_mul_abs_bound(a as int, 3377699720527872, cc as int, 16011773855979890802688);
            assert(7349874591868649472int * 7349874591868649472
                == 54020656516196346647231283809205878784int);
            assert(3377699720527872int * 16011773855979890802688
                == 54082964078498764578773649765156519936int);
        }
        let disc = h * h - a * cc;
        if disc < 0 {
            return None;
        }
        let s = isqrt(disc as u128);
        proof {
            assert(disc as u128 as nat == disc as int);
            assert((s as int) * (s as int) <= disc as int);
            assert(s as int <= 10397289098351315499int) by (nonlinear_arith)
                requires
                    (s as int) * (s as int) <= disc as int,
                    disc as int <= 108103620594695111226004933574362398720int,
                    0 <= s as int,
            ;
        }
        let num_lo = (-h - (s as i128)) * (SCALE as i128);
        let num_hi = (-h + (s as i128)) * (SCALE as i128);
        proof {
            lemma_mul_abs_bound(-(h as int) - (s as int), 17747163690220000000000,
                SCALE as int, SCALE as int);
        }
        let t_lo = num_lo / a;
        let t_hi = num_hi / a;
        proof {
            assert(t_lo as int == sph_t_lo(*self, *ray));
            assert(t_hi as int == sph_t_hi(*self, *ray));
        }
        if (epsilon as i128) < t_lo && t_lo <= T_MAX as i128 {
            let t = t_lo as i64;
            Some(self.finish_hit(ray, t))
        } else if (epsilon as i128) < t_hi && t_hi <= T_MAX as i128 {
            let t = t_hi as i64;
            Some(self.finish_hit(ray, t))
        } else {
            None
        }
    }

    /// Builds the collision record once the ray parameter is chosen.
    fn finish_hit(&self, ray: &Ray, t: i64) -> (res: ShapeCollisionInformation)
        requires
            self.wf(),
            in_box(ray.pos, POS_MAX as int),
            in_box(ray.dir, DIR_MAX as int),
            0 < t <= T_MAX,
        ensures
            res.distance == t,
            res.normal == spec_sphere_normal(*self, *ray, t),
            res.intersection_point == spec_eval(*ray, t),
            in_box(res.normal, SCALE as int),
            in_box(res.intersection_point, 70373039144960),
    {
        let p = ray.eval(t);
        let pc = p.sub(&self.center);
        let n2 = dot_wide(&pc, &pc);
        proof {
            lemma_square_nonneg(pc.x as int);
            lemma_square_nonneg(pc.y as int);
            lemma_square_nonneg(pc.z as int);
        }
        let normal = if n2 >= 1 {
            pc.unit()
        } else {
            Vec3 { x: 0, y: 0, z: SCALE }
        };
        ShapeCollisionInformation { distance: t, normal, intersection_point: p }
    }
}

} // verus!
