//! Fixed-point arithmetic on integers: clamping, scaling, square roots and
//! rounded-up quotients, each exact and free of overflow.

use vstd::prelude::*;

verus! {

/// Sub-units per world unit. Coordinates, speeds and scalar factors are
/// fixed-point numbers: the integer `n` stands for `n / UNIT`.
pub const UNIT: i64 = 1_000_000;

/// `x` brought into `[lo, hi]`.
pub open spec fn clamp(x: int, lo: int, hi: int) -> int {
    if x < lo {
        lo
    } else if x > hi {
        hi
    } else {
        x
    }
}

/// `x` brought into the range of `i64`.
pub open spec fn saturate(x: int) -> int {
    clamp(x, i64::MIN as int, i64::MAX as int)
}

/// The absolute value of `x`.
pub open spec fn magnitude(x: int) -> int {
    if x >= 0 {
        x
    } else {
        -x
    }
}

/// The quotient `a / b` rounded toward zero, for a positive `b`.
pub open spec fn div_toward_zero(a: int, b: int) -> int {
    if a >= 0 {
        a / b
    } else {
        -((-a) / b)
    }
}

/// The fixed-point product of `v` and `factor`, rounded toward zero.
pub open spec fn scaled(v: int, factor: int) -> int {
    div_toward_zero(v * factor, UNIT as int)
}

/// The quotient `a / b` rounded up, for `a >= 0` and a positive `b`.
pub open spec fn div_rounded_up(a: int, b: int) -> int {
    (a + b - 1) / b
}

/// `s` is the integer square root of `n`: the greatest `s` with `s * s <= n`.
pub open spec fn is_floor_sqrt(n: int, s: int) -> bool {
    0 <= s && s * s <= n < (s + 1) * (s + 1)
}

/// The integer square root of a non-negative `n`.
pub open spec fn floor_sqrt(n: int) -> int {
    choose|s: int| is_floor_sqrt(n, s)
}

/// Every non-negative number has an integer square root.
pub proof fn lemma_floor_sqrt_exists(n: int)
    requires
        0 <= n,
    ensures
        is_floor_sqrt(n, floor_sqrt(n)),
    decreases n,
{
    if n == 0 {
        assert(is_floor_sqrt(0, 0));
    } else {
        lemma_floor_sqrt_exists(n - 1);
        let s = floor_sqrt(n - 1);
        assert(is_floor_sqrt(n - 1, s));
        if n < (s + 1) * (s + 1) {
            assert(is_floor_sqrt(n, s));
        } else {
            assert(n == (s + 1) * (s + 1));
            assert((s + 2) * (s + 2) > (s + 1) * (s + 1)) by (nonlinear_arith)
                requires
                    s >= 0,
            ;
            assert(is_floor_sqrt(n, s + 1));
        }
    }
}

/// A number has at most one integer square root, so whichever is found is
/// `floor_sqrt`.
pub proof fn lemma_floor_sqrt_unique(n: int, s: int)
    requires
        is_floor_sqrt(n, s),
    ensures
        floor_sqrt(n) == s,
{
    let t = floor_sqrt(n);
    assert(is_floor_sqrt(n, t));
    assert(s == t) by (nonlinear_arith)
        requires
            0 <= s,
            0 <= t,
            s * s <= n < (s + 1) * (s + 1),
            t * t <= n < (t + 1) * (t + 1),
    ;
}

/// The rounded-up quotient is the least multiple count that reaches `a`.
pub proof fn lemma_div_rounded_up(a: int, b: int)
    requires
        0 <= a,
        0 < b,
    ensures
        div_rounded_up(a, b) * b >= a,
        (div_rounded_up(a, b) - 1) * b < a,
        div_rounded_up(a, b) >= 0,
{
    let q = (a + b - 1) / b;
    let r = (a + b - 1) % b;
    assert(q * b + r == a + b - 1 && 0 <= r < b) by (nonlinear_arith)
        requires
            q == (a + b - 1) / b,
            r == (a + b - 1) % b,
            0 < b,
    ;
    assert((q - 1) * b == q * b - b) by (nonlinear_arith);
    assert(q >= 0) by (nonlinear_arith)
        requires
            q * b + r == a + b - 1,
            0 <= r < b,
            0 <= a,
            0 < b,
    ;
}

/// `x` brought into the range of `i64`.
pub(crate) fn saturate_to_i64(x: i128) -> (r: i64)
    ensures
        r == saturate(x as int),
{
    if x < i64::MIN as i128 {
        i64::MIN
    } else if x > i64::MAX as i128 {
        i64::MAX
    } else {
        x as i64
    }
}

/// The absolute value of `v`, which always fits in `u128`.
pub(crate) fn magnitude_of(v: i64) -> (m: u128)
    ensures
        m == magnitude(v as int),
{
    if v >= 0 {
        v as u128
    } else {
        (-(v as i128)) as u128
    }
}

/// One component of a vector multiplied by a fixed-point factor.
pub(crate) fn scale_component(v: i64, factor: i64) -> (r: i64)
    ensures
        r == saturate(scaled(v as int, factor as int)),
{
    assert(-0x4000_0000_0000_0000_0000_0000_0000_0000 <= (v as int) * (factor as int)
        <= 0x4000_0000_0000_0000_0000_0000_0000_0000) by (nonlinear_arith)
        requires
            -0x8000_0000_0000_0000 <= v < 0x8000_0000_0000_0000,
            -0x8000_0000_0000_0000 <= factor < 0x8000_0000_0000_0000,
    ;
    let wide: i128 = (v as i128) * (factor as i128);
    saturate_to_i64(wide / (UNIT as i128))
}

/// The integer square root, by bisection.
pub(crate) fn floor_sqrt_of(n: u128) -> (s: u128)
    requires
        n < 0x4000_0000_0000_0000_0000_0000_0000_0000,
    ensures
        s == floor_sqrt(n as int),
        is_floor_sqrt(n as int, s as int),
        s < 0x8000_0000_0000_0000,
{
    let mut lo: u128 = 0;
    let mut hi: u128 = 0x8000_0000_0000_0000;
    assert(0x8000_0000_0000_0000int * 0x8000_0000_0000_0000int
        == 0x4000_0000_0000_0000_0000_0000_0000_0000int) by (nonlinear_arith);
    while hi - lo > 1
        invariant
            lo < hi <= 0x8000_0000_0000_0000,
            lo * lo <= n < hi * hi,
        decreases hi - lo,
    {
        let mid = lo + (hi - lo) / 2;
        assert(mid * mid < 0x4000_0000_0000_0000_0000_0000_0000_0000) by (nonlinear_arith)
            requires
                mid < 0x8000_0000_0000_0000,
        ;
        if mid * mid <= n {
            lo = mid;
        } else {
            hi = mid;
        }
    }
    proof {
        assert(hi == lo + 1);
        lemma_floor_sqrt_unique(n as int, lo as int);
    }
    lo
}

/// The quotient rounded up.
pub(crate) fn div_rounded_up_of(a: u128, b: u128) -> (q: u128)
    requires
        0 < b,
        a + b <= u128::MAX,
    ensures
        q == div_rounded_up(a as int, b as int),
{
    (a + b - 1) / b
}

} // verus!
