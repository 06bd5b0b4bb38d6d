//! Fixed-point scalars.
//!
//! A scalar is an `i64` holding `value * SCALE`; all geometry below is exact
//! integer arithmetic over this representation.  Division follows the
//! machine's truncating semantics, written `tdiv` in specifications, and
//! square roots are integer square roots, pinned down by `spec_isqrt`.

use vstd::prelude::*;

verus! {

/// One world unit: every fixed-point scalar holds `value * SCALE`.
pub const SCALE: i64 = 1048576;

/// Largest hit distance a shape reports; farther intersections are treated
/// as misses, the fixed-point analogue of discarding non-finite distances.
pub const T_MAX: i64 = 1099511627776;

/// Bound on the coordinates of points handed to the intersection routines.
pub const COORD_MAX: i64 = 4294967296;

/// Bound on the components of ray directions handed to the intersection
/// routines (directions are kept near unit length, well inside this).
pub const DIR_MAX: i64 = 33554432;

/// Bound on the components of ray origins handed to the intersection
/// routines; bounce rays start only from points inside this box.
pub const POS_MAX: i64 = 68719476736;

/// Bound on the components of ray origins handed to the scene: leaves
/// room for an object's placement offset before reaching `POS_MAX`.
pub const ORIGIN_MAX: i64 = 64424509440;

/// Truncating division (the machine's `/` on signed integers): rounds the
/// exact quotient toward zero.  Stated over division by the magnitude of
/// the divisor, with the signs moved out.
pub open spec fn tdiv(a: int, b: int) -> int {
    if a >= 0 {
        if b >= 0 {
            a / b
        } else {
            -(a / (-b))
        }
    } else {
        if b >= 0 {
            -((-a) / b)
        } else {
            (-a) / (-b)
        }
    }
}

/// The integer square root: the largest `r` with `r * r <= n`.
pub open spec fn spec_isqrt(n: nat) -> nat
    decreases n,
{
    if n == 0 {
        0
    } else {
        let r = spec_isqrt((n - 1) as nat);
        if (r + 1) * (r + 1) <= n {
            r + 1
        } else {
            r
        }
    }
}

proof fn lemma_isqrt_step_upper(n: int, s: int)
    requires
        n - 1 < s * s,
        s * s <= n,
        s >= 0,
    ensures
        n < (s + 1) * (s + 1),
{
    assert(n < (s + 1) * (s + 1)) by (nonlinear_arith)
        requires
            n - 1 < s * s,
            s * s <= n,
            s >= 0,
    ;
}

pub proof fn lemma_isqrt_bounds(n: nat)
    ensures
        spec_isqrt(n) * spec_isqrt(n) <= n,
        n < (spec_isqrt(n) + 1) * (spec_isqrt(n) + 1),
    decreases n,
{
    if n == 0 {
        assert(spec_isqrt(n) == 0);
        assert((spec_isqrt(n) + 1) * (spec_isqrt(n) + 1) == 1) by (nonlinear_arith)
            requires
                spec_isqrt(n) == 0,
        ;
    } else {
        lemma_isqrt_bounds((n - 1) as nat);
        let r = spec_isqrt((n - 1) as nat);
        assert(r * r <= n - 1);
        assert(n - 1 < (r + 1) * (r + 1));
        if (r + 1) * (r + 1) <= n {
            assert(spec_isqrt(n) == r + 1);
            let s = (r + 1) as int;
            lemma_isqrt_step_upper(n as int, s);
            assert(n < (spec_isqrt(n) + 1) * (spec_isqrt(n) + 1)) by (nonlinear_arith)
                requires
                    spec_isqrt(n) as int == s,
                    (n as int) < (s + 1) * (s + 1),
            ;
        } else {
            assert(spec_isqrt(n) == r);
            assert(n < (spec_isqrt(n) + 1) * (spec_isqrt(n) + 1));
        }
    }
}

pub proof fn lemma_isqrt_unique(n: nat, r: nat)
    requires
        r * r <= n,
        n < (r + 1) * (r + 1),
    ensures
        r == spec_isqrt(n),
{
    lemma_isqrt_bounds(n);
    let s = spec_isqrt(n);
    if r < s {
        assert((r + 1) * (r + 1) <= s * s) by (nonlinear_arith)
            requires
                r + 1 <= s,
        ;
    }
    if s < r {
        assert((s + 1) * (s + 1) <= r * r) by (nonlinear_arith)
            requires
                s + 1 <= r,
        ;
    }
}

/// Fixed-point multiplication of two scalars: `a * b / SCALE`, truncated.
pub fn fmul(a: i64, b: i64) -> (r: i64)
    requires
        -(i64::MAX as int) <= tdiv(a * b, SCALE as int) <= i64::MAX as int,
    ensures
        r as int == tdiv(a * b, SCALE as int),
{
    proof {
        lemma_mul_abs_bound(a as int, 0x8000_0000_0000_0000, b as int, 0x8000_0000_0000_0000);
    }
    ((a as i128) * (b as i128) / (SCALE as i128)) as i64
}

/// Truncating division on `i128`, carried out on magnitudes so that the
/// machine division is only ever applied to nonnegative operands.
pub fn tdiv_i128(a: i128, b: i128) -> (q: i128)
    requires
        b != 0,
        a != i128::MIN,
        b != i128::MIN,
    ensures
        q as int == tdiv(a as int, b as int),
{
    let ua: i128 = if a < 0 {
        -a
    } else {
        a
    };
    let ub: i128 = if b < 0 {
        -b
    } else {
        b
    };
    proof {
        assert(0 <= (ua as int) / (ub as int) <= ua as int) by (nonlinear_arith)
            requires
                ua >= 0,
                ub >= 1,
        ;
    }
    let uq = ua / ub;
    if (a < 0) != (b < 0) {
        -uq
    } else {
        uq
    }
}

/// Truncating division of a nonpositive value by a positive one is
/// nonpositive.
pub proof fn lemma_tdiv_nonpos(a: int, b: int)
    requires
        a <= 0,
        b >= 1,
    ensures
        tdiv(a, b) <= 0,
{
    lemma_tdiv_bound(a, b, -a);
}

/// Exact division: `(k * m) / m == k` under truncation as well.
pub proof fn lemma_tdiv_exact(k: int, m: int)
    requires
        m >= 1,
    ensures
        tdiv(k * m, m) == k,
{
    vstd::arithmetic::div_mod::lemma_div_multiples_vanish(k, m);
    assert(m * k == k * m) by (nonlinear_arith);
    if k >= 0 {
        assert(k * m >= 0) by (nonlinear_arith)
            requires
                k >= 0,
                m >= 1,
        ;
    } else {
        assert(k * m < 0) by (nonlinear_arith)
            requires
                k < 0,
                m >= 1,
        ;
        assert(-(k * m) == m * (-k)) by (nonlinear_arith);
        vstd::arithmetic::div_mod::lemma_div_multiples_vanish(-k, m);
    }
}

/// `|a * b| <= bound_a * bound_b` whenever the factors are bounded.
pub proof fn lemma_mul_abs_bound(a: int, bound_a: int, b: int, bound_b: int)
    requires
        -bound_a <= a <= bound_a,
        -bound_b <= b <= bound_b,
    ensures
        -(bound_a * bound_b) <= a * b <= bound_a * bound_b,
{
    assert(-(bound_a * bound_b) <= a * b <= bound_a * bound_b) by (nonlinear_arith)
        requires
            -bound_a <= a <= bound_a,
            -bound_b <= b <= bound_b,
    ;
}

/// Truncating division never grows the magnitude of the dividend when the
/// divisor is at least one.
pub proof fn lemma_tdiv_bound(a: int, b: int, m: int)
    requires
        b >= 1,
        -m <= a <= m,
    ensures
        -m <= tdiv(a, b) <= m,
        a >= 0 ==> 0 <= tdiv(a, b),
        a <= 0 ==> tdiv(a, b) <= 0,
{
    if a >= 0 {
        assert(0 <= a / b <= a) by (nonlinear_arith)
            requires
                b >= 1,
                a >= 0,
        ;
    } else {
        assert(0 <= (-a) / b <= -a) by (nonlinear_arith)
            requires
                b >= 1,
                -a >= 0,
        ;
    }
}

/// Scaling down by a positive divisor keeps quotients within a quotient of
/// the bounds: `|a| <= m` gives `|tdiv(a, b)| <= tdiv(m, b)`... stated as a
/// multiple: `|tdiv(a, b)| * b <= m + b`.
pub proof fn lemma_tdiv_quotient_bound(a: int, b: int, m: int)
    requires
        b >= 1,
        -m <= a <= m,
        0 <= m,
    ensures
        -(m / b) - 1 <= tdiv(a, b) <= m / b,
{
    if a >= 0 {
        assert(a / b <= m / b && 0 <= a / b) by (nonlinear_arith)
            requires
                b >= 1,
                0 <= a <= m,
        ;
    } else {
        assert((-a) / b <= m / b && 0 <= (-a) / b) by (nonlinear_arith)
            requires
                b >= 1,
                0 <= -a <= m,
        ;
    }
}

/// The integer square root of a `u128`, by bisection.
pub fn isqrt(n: u128) -> (r: u64)
    ensures
        r as nat == spec_isqrt(n as nat),
        (r as int) * (r as int) <= n as int,
        (n as int) < (r as int + 1) * (r as int + 1),
{
    let mut lo: u128 = 0;
    let mut hi: u128 = 0x1_0000_0000_0000_0000;
    assert((n as int) < (hi as int) * (hi as int)) by (nonlinear_arith)
        requires
            hi == 0x1_0000_0000_0000_0000u128,
            n <= u128::MAX,
    ;
    while hi - lo > 1
        invariant
            lo < hi,
            hi <= 0x1_0000_0000_0000_0000u128,
            (lo as int) * (lo as int) <= n as int,
            (n as int) < (hi as int) * (hi as int),
        decreases hi - lo,
    {
        let mid = lo + (hi - lo) / 2;
        assert(lo < mid < hi);
        assert((mid as int) * (mid as int) <= (u128::MAX) as int) by (nonlinear_arith)
            requires
                mid < 0x1_0000_0000_0000_0000u128,
        ;
        if mid * mid <= n {
            lo = mid;
        } else {
            hi = mid;
        }
    }
    assert(hi == lo + 1);
    proof {
        lemma_isqrt_unique(n as nat, lo as nat);
    }
    lo as u64
}

} // verus!
