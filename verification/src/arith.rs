//! Division as the machine performs it, and whole square roots.

use vstd::prelude::*;

verus! {

/// The magnitude of `a`.
pub open spec fn magnitude(a: int) -> int {
    if a >= 0 {
        a
    } else {
        -a
    }
}

/// The quotient of `a` by `b`, rounded towards zero. `b` is not zero.
pub open spec fn div_trunc(a: int, b: int) -> int {
    if (a >= 0) == (b > 0) {
        magnitude(a) / magnitude(b)
    } else {
        -(magnitude(a) / magnitude(b))
    }
}

/// The quotient of `a` by `b`, rounded towards zero.
pub fn divide(a: i128, b: i128) -> (q: i128)
    requires
        b != 0,
        a > i128::MIN,
        b > i128::MIN,
    ensures
        q == div_trunc(a as int, b as int),
        magnitude(q as int) <= magnitude(a as int),
{
    let ma: i128 = if a >= 0 {
        a
    } else {
        -a
    };
    let mb: i128 = if b >= 0 {
        b
    } else {
        -b
    };
    let mq: i128 = ma / mb;
    assert(0 <= mq <= ma) by (nonlinear_arith)
        requires
            mq == ma / mb,
            0 <= ma,
            1 <= mb,
    ;
    if (a >= 0) == (b > 0) {
        mq
    } else {
        -mq
    }
}

/// Whether `r` is the whole part of the square root of `x`.
pub open spec fn is_sqrt(x: int, r: int) -> bool {
    r >= 0 && r * r <= x < (r + 1) * (r + 1)
}

/// The whole part of the square root of `x`, which is not negative.
pub open spec fn sqrt_floor(x: int) -> int {
    choose|r: int| is_sqrt(x, r)
}

/// A number has one whole square root only.
pub proof fn lemma_sqrt_unique(x: int, r: int)
    requires
        is_sqrt(x, r),
    ensures
        sqrt_floor(x) == r,
{
    let s = sqrt_floor(x);
    assert(is_sqrt(x, s));
    assert(s == r) by (nonlinear_arith)
        requires
            r >= 0,
            s >= 0,
            r * r <= x < (r + 1) * (r + 1),
            s * s <= x < (s + 1) * (s + 1),
    ;
}

/// The whole part of the square root of `x`.
pub fn integer_sqrt(x: i64) -> (r: i64)
    requires
        x >= 0,
    ensures
        r == sqrt_floor(x as int),
        is_sqrt(x as int, r as int),
        0 <= r <= 3_037_000_499,
{
    let mut low: i128 = 0;
    let mut high: i128 = 3_037_000_500;
    assert(3_037_000_500i128 * 3_037_000_500i128 == 9_223_372_037_000_250_000) by (nonlinear_arith);
    while high - low > 1
        invariant
            0 <= low < high <= 3_037_000_500,
            low * low <= x < high * high,
        decreases high - low,
    {
        let mid: i128 = low + (high - low) / 2;
        assert(0 <= mid * mid <= 3_037_000_500 * 3_037_000_500) by (nonlinear_arith)
            requires
                0 <= mid <= 3_037_000_500,
        ;
        if mid * mid <= x as i128 {
            low = mid;
        } else {
            high = mid;
        }
    }
    proof {
        assert(high == low + 1);
        lemma_sqrt_unique(x as int, low as int);
    }
    low as i64
}

} // verus!
