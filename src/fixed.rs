//! Fixed-point numbers: an `i64` `v` stands for the real number `v / FIX_ONE`.

use vstd::prelude::*;

verus! {

/// The fixed-point scale: the integer `FIX_ONE` stands for `1.0`.
pub const FIX_ONE: i64 = 65536;

/// The fractional part of a fixed-point value, in `0 .. FIX_ONE`.
pub open spec fn frac_spec(u: int) -> int {
    u % (FIX_ONE as int)
}

/// The integer part (floor) of a fixed-point value.
pub open spec fn floor_spec(u: int) -> int {
    u / (FIX_ONE as int)
}

/// Wraps a fixed-point coordinate into `[0, 1)`: the fractional part, also
/// for negative values.
pub fn frac(u: i64) -> (r: i64)
    ensures
        r == frac_spec(u as int),
        0 <= r < FIX_ONE,
{
    proof {
        lemma_truncated_div(u as int, 65536);
    }
    let m = u % FIX_ONE;
    if m < 0 {
        m + FIX_ONE
    } else {
        m
    }
}

/// Rounds a fixed-point value down to a whole number.
pub fn floor_fix(u: i64) -> (r: i64)
    ensures
        r == floor_spec(u as int),
        r * FIX_ONE <= u < r * FIX_ONE + FIX_ONE,
{
    proof {
        lemma_truncated_div(u as int, 65536);
    }
    let q = u / FIX_ONE;
    let m = u % FIX_ONE;
    if m < 0 {
        q - 1
    } else {
        q
    }
}

/// `r` is the integer square root of `n`.
pub open spec fn is_sqrt_floor(n: int, r: int) -> bool {
    0 <= r && r * r <= n < (r + 1) * (r + 1)
}

/// The integer square root (rounded down) of a non-negative number.
pub open spec fn sqrt_floor(n: int) -> int {
    choose|r: int| is_sqrt_floor(n, r)
}

proof fn lemma_sqrt_unique(n: int, a: int, b: int)
    requires
        is_sqrt_floor(n, a),
        is_sqrt_floor(n, b),
    ensures
        a == b,
{
    if a < b {
        assert((a + 1) * (a + 1) <= b * b) by (nonlinear_arith)
            requires
                0 <= a,
                a + 1 <= b,
        ;
    } else if b < a {
        assert((b + 1) * (b + 1) <= a * a) by (nonlinear_arith)
            requires
                0 <= b,
                b + 1 <= a,
        ;
    }
}

/// Integer square root by bisection, for `n < 2^62`.
pub fn isqrt(n: u64) -> (r: u64)
    requires
        n < 0x4000_0000_0000_0000,
    ensures
        is_sqrt_floor(n as int, r as int),
        r == sqrt_floor(n as int),
        r <= 0x8000_0000,
{
    let mut lo: u64 = 0;
    let mut hi: u64 = 0x8000_0000;
    while hi - lo > 1
        invariant
            lo < hi <= 0x8000_0000,
            lo * lo <= n,
            n < hi * hi,
        decreases hi - lo,
    {
        let mid = lo + (hi - lo) / 2;
        proof {
            assert(mid * mid <= 0x8000_0000u64 * 0x8000_0000u64) by (nonlinear_arith)
                requires
                    mid <= 0x8000_0000u64,
            ;
        }
        if mid * mid <= n {
            lo = mid;
        } else {
            hi = mid;
        }
    }
    proof {
        assert(hi == lo + 1);
        assert(is_sqrt_floor(n as int, lo as int));
        lemma_sqrt_unique(n as int, lo as int, sqrt_floor(n as int));
    }
    lo
}

/// Relates Rust's truncating `/` and `%` by a positive `d` to floor
/// division.
pub proof fn lemma_truncated_div(u: int, d: int)
    requires
        d > 0,
    ensures
        ({
            let tq = if u >= 0 { u / d } else { -((-u) / d) };
            let tr = if u >= 0 { u % d } else { -((-u) % d) };
            &&& tr < 0 ==> tr + d == u % d && tq - 1 == u / d
            &&& tr >= 0 ==> tr == u % d && tq == u / d
        }),
{
    if u < 0 {
        let qq = (-u) / d;
        let rr = (-u) % d;
        vstd::arithmetic::div_mod::lemma_fundamental_div_mod(-u, d);
        if rr > 0 {
            assert(u == (-qq - 1) * d + (d - rr)) by (nonlinear_arith)
                requires
                    -u == d * qq + rr,
            ;
            vstd::arithmetic::div_mod::lemma_fundamental_div_mod_converse(u, d, -qq - 1, d - rr);
        } else {
            assert(u == (-qq) * d) by (nonlinear_arith)
                requires
                    -u == d * qq + rr,
                    rr == 0,
            ;
            vstd::arithmetic::div_mod::lemma_fundamental_div_mod_converse(u, d, -qq, 0);
        }
    }
}

/// `a / d` rounded down, for a positive `d`.
pub fn floor_div(a: i64, d: i64) -> (q: i64)
    requires
        d > 0,
        a > i64::MIN,
    ensures
        q == a as int / d as int,
{
    proof {
        lemma_truncated_div(a as int, d as int);
    }
    let q = a / d;
    let r = a % d;
    if r < 0 {
        q - 1
    } else {
        q
    }
}

} // verus!
