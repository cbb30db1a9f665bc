//! Fixed-point scalar arithmetic.
//!
//! Coordinates and colour intensities are carried as `i64` raw values scaled
//! by `SCALE`: the raw value `r` stands for the real number `r / SCALE`.
//! Division follows Rust's truncating convention (`tdiv`), so every operation
//! has an exact integer meaning that contracts can state.

use vstd::prelude::*;

verus! {

/// Raw values are scaled by this factor: `raw == value * SCALE`.
pub const SCALE: i64 = 65536;

/// Truncating (round-toward-zero) integer division, the meaning of Rust's
/// `/` on signed integers.  Spec-level `/` is Euclidean, so the negative
/// cases are spelled out.
pub open spec fn tdiv(x: int, d: int) -> int {
    if x == 0 {
        0
    } else if x > 0 && d > 0 {
        x / d
    } else if x < 0 && d < 0 {
        (x * -1) / (d * -1)
    } else if x < 0 {
        ((x * -1) / d) * -1
    } else {
        (x / (d * -1)) * -1
    }
}

/// The raw value of the fixed-point product of two raw values.
pub open spec fn fx_mul_spec(a: int, b: int) -> int {
    tdiv(a * b, SCALE as int)
}

/// The raw value of the fixed-point quotient of two raw values.
pub open spec fn fx_div_spec(a: int, b: int) -> int {
    tdiv(a * SCALE, b)
}

proof fn lemma_div_pos_le(x: int, d: int)
    requires
        x >= 0,
        d >= 1,
    ensures
        0 <= x / d <= x,
{
    assert(0 <= x / d <= x) by (nonlinear_arith)
        requires
            x >= 0,
            d >= 1,
    ;
}

/// The absolute value of an unbounded integer.
pub open spec fn abs_int(x: int) -> int {
    if x >= 0 {
        x
    } else {
        -x
    }
}

/// Magnitude of a truncating quotient never exceeds the dividend's magnitude.
pub proof fn lemma_tdiv_bound(x: int, d: int)
    requires
        d != 0,
    ensures
        -abs_int(x) <= tdiv(x, d) <= abs_int(x),
{
    if x > 0 && d > 0 {
        lemma_div_pos_le(x, d);
    } else if x < 0 && d < 0 {
        lemma_div_pos_le(x * -1, d * -1);
    } else if x < 0 {
        lemma_div_pos_le(x * -1, d);
    } else if x > 0 {
        lemma_div_pos_le(x, d * -1);
    }
}

/// Division of `n` by a positive `d`, rounded to the nearest integer
/// (halves round up).  `(2n + d) / (2d)` under floor division.
pub open spec fn rdivn(n: int, d: int) -> int {
    (2 * n + d) / (2 * d)
}

/// Bounds on two factors bound their product.
pub proof fn lemma_mul_bounds(a: int, b: int, la: int, lb: int)
    requires
        -la <= a <= la,
        -lb <= b <= lb,
        0 <= la,
        0 <= lb,
    ensures
        -(la * lb) <= a * b <= la * lb,
{
    assert(-(la * lb) <= a * b <= la * lb) by (nonlinear_arith)
        requires
            -la <= a <= la,
            -lb <= b <= lb,
            0 <= la,
            0 <= lb,
    ;
}

/// A bound on the dividend, in units of the divisor, bounds the quotient.
pub proof fn lemma_tdiv_range(n: int, d: int, m: int)
    requires
        d != 0,
        0 <= m,
        -(m * abs_int(d)) <= n <= m * abs_int(d),
    ensures
        -m <= tdiv(n, d) <= m,
{
    let a = abs_int(n);
    let b = abs_int(d);
    assert(0 <= a / b <= m) by (nonlinear_arith)
        requires
            0 <= a <= m * b,
            1 <= b,
    ;
    if n == 0 {
    } else if n > 0 && d > 0 {
        assert(tdiv(n, d) == a / b);
    } else if n < 0 && d < 0 {
        assert(tdiv(n, d) == a / b);
    } else if n < 0 {
        assert(tdiv(n, d) == (a / b) * -1);
    } else {
        assert(tdiv(n, d) == (a / b) * -1);
    }
}

/// Rounding division keeps a value between the bounds that the dividend
/// keeps, in units of the divisor.
pub proof fn lemma_rdivn_between(n: int, d: int, lo: int, hi: int)
    requires
        d >= 1,
        lo * d <= n <= hi * d,
    ensures
        lo <= rdivn(n, d) <= hi,
{
    assert(lo <= (2 * n + d) / (2 * d) <= hi) by (nonlinear_arith)
        requires
            d >= 1,
            lo * d <= n <= hi * d,
    ;
}

/// Truncating division on `i128`, exactly `tdiv`.
pub fn div_i128(a: i128, b: i128) -> (r: i128)
    requires
        b != 0,
        !(a == i128::MIN && b == -1),
    ensures
        r == tdiv(a as int, b as int),
{
    proof {
        lemma_tdiv_bound(a as int, b as int);
        let x = a as int;
        let d = b as int;
        if x == i128::MIN as int && d < 0 {
            assert(tdiv(x, d) == (x * -1) / (d * -1));
            assert(2 * ((x * -1) / (d * -1)) <= x * -1) by (nonlinear_arith)
                requires
                    x < 0,
                    d <= -2,
            ;
        }
    }
    match a.checked_div(b) {
        Some(r) => r,
        None => 0,
    }
}

/// Round-to-nearest division on `i64`, exactly `rdivn`.
pub fn div_round_i64(n: i64, d: i64) -> (r: i64)
    requires
        1 <= d <= 0x1000_0000_0000_0000,
        -0x1000_0000_0000_0000 <= n <= 0x1000_0000_0000_0000,
    ensures
        r == rdivn(n as int, d as int),
{
    let num: i64 = 2 * n + d;
    let den: i64 = 2 * d;
    proof {
        let nn = num as int;
        let dd = den as int;
        assert(-0x4000_0000_0000_0001int <= nn / dd <= 0x4000_0000_0000_0001int)
            by (nonlinear_arith)
            requires
                dd >= 2,
                -0x3000_0000_0000_0000int <= nn <= 0x3000_0000_0000_0000int,
        ;
    }
    match num.checked_div_euclid(den) {
        Some(r) => r,
        None => 0,
    }
}

/// Truncating division on `i64`, exactly `tdiv`.
pub fn div_i64(a: i64, b: i64) -> (r: i64)
    requires
        b != 0,
        !(a == i64::MIN && b == -1),
    ensures
        r == tdiv(a as int, b as int),
{
    proof {
        lemma_tdiv_bound(a as int, b as int);
        let x = a as int;
        let d = b as int;
        if x == i64::MIN as int && d < 0 {
            // d <= -2 here, so the quotient magnitude halves and fits.
            assert(tdiv(x, d) == (x * -1) / (d * -1));
            assert(2 * ((x * -1) / (d * -1)) <= x * -1) by (nonlinear_arith)
                requires
                    x < 0,
                    d <= -2,
            ;
        }
    }
    match a.checked_div(b) {
        Some(r) => r,
        None => 0,
    }
}

/// The floor of the square root of a non-negative integer.
pub open spec fn sqrt_floor(n: int) -> int {
    choose|r: int| r >= 0 && #[trigger] (r * r) <= n && n < (r + 1) * (r + 1)
}

/// Any `r` with `r*r <= n < (r+1)*(r+1)` is `sqrt_floor(n)`.
pub proof fn lemma_sqrt_floor(n: int, r: int)
    requires
        r >= 0,
        r * r <= n,
        n < (r + 1) * (r + 1),
    ensures
        sqrt_floor(n) == r,
{
    let s = sqrt_floor(n);
    assert(exists|q: int| q >= 0 && #[trigger] (q * q) <= n && n < (q + 1) * (q + 1)) by {
        assert(r >= 0 && #[trigger] (r * r) <= n && n < (r + 1) * (r + 1));
    }
    assert(s >= 0 && s * s <= n && n < (s + 1) * (s + 1));
    assert(s == r) by (nonlinear_arith)
        requires
            r >= 0,
            r * r <= n,
            n < (r + 1) * (r + 1),
            s >= 0,
            s * s <= n,
            n < (s + 1) * (s + 1),
    ;
}

/// Binary search for the integer square root.
pub fn isqrt_u128(n: u128) -> (r: u64)
    requires
        n <= 0xffff_ffff_ffff_ffff * 0xffff_ffff_ffff_ffff,
    ensures
        r as int == sqrt_floor(n as int),
        r * r <= n,
        n < (r + 1) * (r + 1),
{
    let mut lo: u128 = 0;
    let mut hi: u128 = 0xffff_ffff_ffff_ffff;
    while lo < hi
        invariant
            lo <= hi <= 0xffff_ffff_ffff_ffff,
            lo * lo <= n,
            n < (hi + 1) * (hi + 1),
        decreases hi - lo,
    {
        let mid: u128 = lo + (hi - lo + 1) / 2;
        proof {
            assert(lo < mid <= hi);
            assert(mid * mid <= 0xffff_ffff_ffff_ffff * 0xffff_ffff_ffff_ffff)
                by (nonlinear_arith)
                requires
                    mid <= 0xffff_ffff_ffff_ffffu128,
            ;
        }
        if mid * mid <= n {
            lo = mid;
        } else {
            hi = mid - 1;
        }
    }
    proof {
        lemma_sqrt_floor(n as int, lo as int);
    }
    lo as u64
}

} // verus!
