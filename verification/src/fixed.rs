use vstd::prelude::*;
use vstd::arithmetic::div_mod::lemma_fundamental_div_mod_converse;

verus! {

/// One whole unit of a dimensionless factor, in basis points.
pub const SCALE: i64 = 10_000;

/// Absolute value of a mathematical integer.
pub open spec fn abs(x: int) -> int {
    if x < 0 {
        -x
    } else {
        x
    }
}

/// The larger of two mathematical integers.
pub open spec fn max2(a: int, b: int) -> int {
    if a >= b {
        a
    } else {
        b
    }
}

/// The smaller of two mathematical integers.
pub open spec fn min2(a: int, b: int) -> int {
    if a <= b {
        a
    } else {
        b
    }
}

/// The integer square root: the largest `r` with `r * r <= v`.
pub open spec fn is_sqrt(v: int, r: int) -> bool {
    0 <= r && r * r <= v < (r + 1) * (r + 1)
}

/// The integer square root of `v`, for `v >= 0`.
pub open spec fn sqrt_floor(v: int) -> int {
    choose|r: int| is_sqrt(v, r)
}

/// A square root in the sense of [`is_sqrt`] is unique.
pub proof fn lemma_sqrt_unique(v: int, r1: int, r2: int)
    requires
        is_sqrt(v, r1),
        is_sqrt(v, r2),
    ensures
        r1 == r2,
{
    if r1 < r2 {
        assert((r1 + 1) * (r1 + 1) <= r2 * r2) by (nonlinear_arith)
            requires
                0 <= r1,
                r1 + 1 <= r2,
        ;
    } else if r2 < r1 {
        assert((r2 + 1) * (r2 + 1) <= r1 * r1) by (nonlinear_arith)
            requires
                0 <= r2,
                r2 + 1 <= r1,
        ;
    }
}

/// Quotient rounded towards negative infinity, for a positive divisor.
pub fn floor_div(a: i128, b: i128) -> (q: i128)
    requires
        b > 0,
    ensures
        q == a / b,
{
    if a >= 0 {
        a / b
    } else {
        let m: i128 = -(a + 1);
        let t: i128 = m / b;
        let r: i128 = m % b;
        proof {
            assert(m == t * b + r) by (nonlinear_arith)
                requires
                    m >= 0,
                    b > 0,
                    t == m / b,
                    r == m % b,
            ;
            assert(a == (-t - 1) * b + (b - r - 1)) by (nonlinear_arith)
                requires
                    m == t * b + r,
                    m == -(a + 1),
            ;
            lemma_fundamental_div_mod_converse(a as int, b as int, -t - 1, b - r - 1);
        }
        -t - 1
    }
}

/// Integer square root by bisection.
pub fn isqrt(v: u128) -> (r: u64)
    ensures
        is_sqrt(v as int, r as int),
        r == sqrt_floor(v as int),
{
    let mut lo: u128 = 0;
    let mut hi: u128 = 0x1_0000_0000_0000_0000;
    assert(0x1_0000_0000_0000_0000int * 0x1_0000_0000_0000_0000int
        == 0x1_0000_0000_0000_0000_0000_0000_0000_0000int) by (nonlinear_arith);
    while hi - lo > 1
        invariant
            lo < hi <= 0x1_0000_0000_0000_0000,
            lo * lo <= v < hi * hi,
        decreases hi - lo,
    {
        let mid: u128 = lo + (hi - lo) / 2;
        assert(mid * mid < 0x1_0000_0000_0000_0000_0000_0000_0000_0000int) by (nonlinear_arith)
            requires
                0 <= mid < 0x1_0000_0000_0000_0000,
        ;
        if mid * mid <= v {
            lo = mid;
        } else {
            hi = mid;
        }
    }
    assert(hi == lo + 1);
    proof {
        assert(is_sqrt(v as int, lo as int));
        lemma_sqrt_unique(v as int, lo as int, sqrt_floor(v as int));
    }
    lo as u64
}

/// A quotient by a positive divisor brackets the dividend.
pub proof fn lemma_div_brackets(a: int, d: int)
    requires
        d > 0,
    ensures
        d * (a / d) <= a < d * (a / d) + d,
{
    let q = a / d;
    let r = a % d;
    assert(a == d * q + r && 0 <= r < d) by (nonlinear_arith)
        requires
            d > 0,
            q == a / d,
            r == a % d,
    ;
}

/// The share of `part` in `whole`, in basis points, rounded down.
pub open spec fn share(part: int, whole: int) -> int {
    (SCALE * part) / whole
}

/// A share of a part between nothing and the whole lies between nothing and
/// one, and is one only for the whole.
pub proof fn lemma_share_range(part: int, whole: int)
    requires
        0 <= part <= whole,
        whole > 0,
    ensures
        0 <= share(part, whole) <= SCALE,
        share(part, whole) == SCALE <==> part == whole,
{
    let a = SCALE * part;
    lemma_div_brackets(a, whole);
    let q = a / whole;
    assert(0 <= a <= SCALE * whole) by (nonlinear_arith)
        requires
            0 <= part <= whole,
            a == SCALE * part,
    ;
    if q > SCALE {
        assert(whole * q >= whole * SCALE + whole) by (nonlinear_arith)
            requires
                whole > 0,
                q >= SCALE + 1,
        ;
    }
    if q < 0 {
        assert(whole * q + whole <= 0) by (nonlinear_arith)
            requires
                whole > 0,
                q <= -1,
        ;
    }
    if part < whole {
        assert(a <= SCALE * whole - SCALE) by (nonlinear_arith)
            requires
                part + 1 <= whole,
                a == SCALE * part,
        ;
        if q == SCALE {
            assert(whole * q == SCALE * whole) by (nonlinear_arith)
                requires
                    q == SCALE,
            ;
        }
    } else {
        assert(a == whole * SCALE) by (nonlinear_arith)
            requires
                part == whole,
                a == SCALE * part,
        ;
        if q < SCALE {
            assert(whole * q + whole <= whole * SCALE) by (nonlinear_arith)
                requires
                    whole > 0,
                    q + 1 <= SCALE,
            ;
        }
    }
}

/// The share of `part` in `whole`, in basis points. A part larger than the
/// whole has a share larger than one, and must be small enough for that share
/// to fit.
pub fn share_of(part: i64, whole: i64) -> (r: i64)
    requires
        0 <= part,
        part <= 0x1_0000_0000_0000 || part <= whole,
        whole > 0,
    ensures
        r == share(part as int, whole as int),
        0 <= r <= SCALE * part,
        part <= whole ==> r <= SCALE && (r == SCALE <==> part == whole),
{
    proof {
        if part <= whole {
            lemma_share_range(part as int, whole as int);
        }
        let a = SCALE * part;
        assert(0 <= a <= 10_000 * 0x7fff_ffff_ffff_ffff) by (nonlinear_arith)
            requires
                0 <= part <= 0x7fff_ffff_ffff_ffff,
                a == SCALE * part,
        ;
        if part <= 0x1_0000_0000_0000 {
            assert(a <= 10_000 * 0x1_0000_0000_0000) by (nonlinear_arith)
                requires
                    0 <= part <= 0x1_0000_0000_0000,
                    a == SCALE * part,
            ;
        }
        assert(whole * 0 <= a <= whole * a) by (nonlinear_arith)
            requires
                whole >= 1,
                a >= 0,
        ;
        lemma_quotient_bounds(a, whole as int, 0, a);
    }
    floor_div((SCALE as i128) * (part as i128), whole as i128) as i64
}

/// A quotient of a value between `den * lo` and `den * hi` lies between `lo`
/// and `hi`.
pub proof fn lemma_quotient_bounds(v: int, den: int, lo: int, hi: int)
    requires
        den > 0,
        den * lo <= v <= den * hi,
    ensures
        lo <= v / den <= hi,
{
    lemma_div_brackets(v, den);
    let q = v / den;
    if q < lo {
        assert(den * q + den <= den * lo) by (nonlinear_arith)
            requires
                den > 0,
                q + 1 <= lo,
        ;
    }
    if q > hi {
        assert(den * q >= den * hi + den) by (nonlinear_arith)
            requires
                den > 0,
                q >= hi + 1,
        ;
    }
}

/// The share of a part of either sign in a positive whole, in basis points.
pub fn share_signed(part: i64, whole: i64) -> (r: i64)
    requires
        -0x1_0000_0000_0000 <= part <= 0x1_0000_0000_0000,
        whole > 0,
    ensures
        r == share(part as int, whole as int),
{
    proof {
        let a = SCALE * part;
        assert(-10_000 * 0x1_0000_0000_0000 <= a <= 10_000 * 0x1_0000_0000_0000)
            by (nonlinear_arith)
            requires
                -0x1_0000_0000_0000 <= part <= 0x1_0000_0000_0000,
                a == SCALE * part,
        ;
        if a >= 0 {
            assert(whole * 0 <= a <= whole * a) by (nonlinear_arith)
                requires
                    whole >= 1,
                    a >= 0,
            ;
            lemma_quotient_bounds(a, whole as int, 0, a);
        } else {
            assert(whole * a <= a <= whole * 0) by (nonlinear_arith)
                requires
                    whole >= 1,
                    a < 0,
            ;
            lemma_quotient_bounds(a, whole as int, a, 0);
        }
    }
    floor_div((SCALE as i128) * (part as i128), whole as i128) as i64
}

} // verus!
