//! Screen points and fixed-point 3D/4D points.
//!
//! `Point2` is an integer screen point.  `Point3` and `Point4` carry
//! fixed-point coordinates (raw `i64` values scaled by `SCALE`); every
//! operation's result is pinned by an exact integer formula.

use vstd::prelude::*;

use crate::fixed::{
    abs_int, div_i128, lemma_mul_bounds, lemma_tdiv_range, sqrt_floor, tdiv, isqrt_u128, SCALE,
};

verus! {

/// Operand magnitude accepted by the fixed-point vector operations;
/// keeps every intermediate product inside `i128` and every result
/// inside `i64`.
pub const FX_OP_LIM: i64 = 0x40_0000_0000;

/// An integer point on the screen grid.
#[derive(Debug, PartialEq, Eq, Structural, Copy, Clone)]
pub struct Point2 {
    pub x: i32,
    pub y: i32,
}

impl Point2 {
    /// The point as a pair of unbounded integers.
    pub open spec fn sv(self) -> (int, int) {
        (self.x as int, self.y as int)
    }

    pub fn new(x: i32, y: i32) -> (r: Self)
        ensures
            r.x == x,
            r.y == y,
    {
        Point2 { x, y }
    }

    /// Swaps the two coordinates in place.
    pub fn transpose(&mut self)
        ensures
            final(self).x == old(self).y,
            final(self).y == old(self).x,
    {
        let t = self.x;
        self.x = self.y;
        self.y = t;
    }

    pub fn add(self, other: Self) -> (r: Self)
        requires
            i32::MIN <= self.x + other.x <= i32::MAX,
            i32::MIN <= self.y + other.y <= i32::MAX,
        ensures
            r.x == self.x + other.x,
            r.y == self.y + other.y,
    {
        Point2 { x: self.x + other.x, y: self.y + other.y }
    }

    pub fn sub(self, other: Self) -> (r: Self)
        requires
            i32::MIN <= self.x - other.x <= i32::MAX,
            i32::MIN <= self.y - other.y <= i32::MAX,
        ensures
            r.x == self.x - other.x,
            r.y == self.y - other.y,
    {
        Point2 { x: self.x - other.x, y: self.y - other.y }
    }

    pub fn mul(self, scalar: i32) -> (r: Self)
        requires
            i32::MIN <= self.x * scalar <= i32::MAX,
            i32::MIN <= self.y * scalar <= i32::MAX,
        ensures
            r.x == self.x * scalar,
            r.y == self.y * scalar,
    {
        Point2 { x: self.x * scalar, y: self.y * scalar }
    }
}

/// A fixed-point 3D point or vector.
#[derive(Debug, PartialEq, Eq, Structural, Copy, Clone)]
pub struct Point3 {
    pub x: i64,
    pub y: i64,
    pub z: i64,
}

/// All three raw coordinates lie within `lim`.
pub open spec fn p3_bounded(p: Point3, lim: int) -> bool {
    &&& -lim <= p.x <= lim
    &&& -lim <= p.y <= lim
    &&& -lim <= p.z <= lim
}

/// The fixed-point squared length: `(x*x + y*y + z*z) / SCALE`, truncated.
pub open spec fn length_squared_spec(p: Point3) -> int {
    tdiv(p.x * p.x + p.y * p.y + p.z * p.z, SCALE as int)
}

/// The fixed-point dot product: `(ax*bx + ay*by + az*bz) / SCALE`, truncated.
pub open spec fn dot_spec(a: Point3, b: Point3) -> int {
    tdiv(a.x * b.x + a.y * b.y + a.z * b.z, SCALE as int)
}

/// The raw length: the integer square root of the raw coordinate squares.
pub open spec fn length_spec(p: Point3) -> int {
    sqrt_floor(p.x * p.x + p.y * p.y + p.z * p.z)
}

/// One component of the normalised vector: `c * SCALE / length`, truncated.
pub open spec fn norm_comp_spec(c: int, len: int) -> int {
    tdiv(c * SCALE, len)
}

impl Point3 {
    /// The point as a triple of unbounded integers.
    pub open spec fn sv(self) -> (int, int, int) {
        (self.x as int, self.y as int, self.z as int)
    }

    pub fn new(x: i64, y: i64, z: i64) -> (r: Self)
        ensures
            r.x == x,
            r.y == y,
            r.z == z,
    {
        Point3 { x, y, z }
    }

    pub fn length_squared(&self) -> (r: i64)
        requires
            p3_bounded(*self, FX_OP_LIM as int),
        ensures
            r == length_squared_spec(*self),
            0 <= r,
    {
        proof {
            lemma_p3_square_bounds(*self);
        }
        let s: i128 = (self.x as i128) * (self.x as i128) + (self.y as i128) * (self.y as i128)
            + (self.z as i128) * (self.z as i128);
        let q = div_i128(s, SCALE as i128);
        proof {
            let lim = FX_OP_LIM as int;
            assert(0 <= s <= 3 * (lim * lim)) by (nonlinear_arith)
                requires
                    p3_bounded(*self, lim),
                    s == self.x * self.x + self.y * self.y + self.z * self.z,
            ;
            assert(3 * (lim * lim) == 0x3000_0000_0000_0000_0000int);
            lemma_tdiv_range(s as int, SCALE as int, 0x3000_0000_0000_0001int);
            assert(tdiv(s as int, SCALE as int) >= 0);
        }
        q as i64
    }

    pub fn dot(&self, other: &Self) -> (r: i64)
        requires
            p3_bounded(*self, FX_OP_LIM as int),
            p3_bounded(*other, FX_OP_LIM as int),
        ensures
            r == dot_spec(*self, *other),
    {
        proof {
            let lim = FX_OP_LIM as int;
            lemma_mul_bounds(self.x as int, other.x as int, lim, lim);
            lemma_mul_bounds(self.y as int, other.y as int, lim, lim);
            lemma_mul_bounds(self.z as int, other.z as int, lim, lim);
        }
        let s: i128 = (self.x as i128) * (other.x as i128) + (self.y as i128) * (other.y as i128)
            + (self.z as i128) * (other.z as i128);
        let q = div_i128(s, SCALE as i128);
        proof {
            let lim = FX_OP_LIM as int;
            assert(-3 * (lim * lim) <= s <= 3 * (lim * lim)) by (nonlinear_arith)
                requires
                    p3_bounded(*self, lim),
                    p3_bounded(*other, lim),
                    s == self.x * other.x + self.y * other.y + self.z * other.z,
            ;
            assert(3 * (lim * lim) == 0x3000_0000_0000_0000_0000int);
            lemma_tdiv_range(s as int, SCALE as int, 0x3000_0000_0000_0001int);
        }
        q as i64
    }

    /// One raw component of the fixed-point cross product.
    pub open spec fn cross_comp(a: int, b: int, c: int, d: int) -> int {
        tdiv(a * b - c * d, SCALE as int)
    }

    pub fn cross(&self, other: &Self) -> (r: Self)
        requires
            p3_bounded(*self, FX_OP_LIM as int),
            p3_bounded(*other, FX_OP_LIM as int),
        ensures
            r.x == Self::cross_comp(self.y as int, other.z as int, self.z as int, other.y as int),
            r.y == Self::cross_comp(self.z as int, other.x as int, self.x as int, other.z as int),
            r.z == Self::cross_comp(self.x as int, other.y as int, self.y as int, other.x as int),
    {
        let x = Self::cross_pair(self.y, other.z, self.z, other.y);
        let y = Self::cross_pair(self.z, other.x, self.x, other.z);
        let z = Self::cross_pair(self.x, other.y, self.y, other.x);
        Point3 { x, y, z }
    }

    fn cross_pair(a: i64, b: i64, c: i64, d: i64) -> (r: i64)
        requires
            -FX_OP_LIM <= a <= FX_OP_LIM,
            -FX_OP_LIM <= b <= FX_OP_LIM,
            -FX_OP_LIM <= c <= FX_OP_LIM,
            -FX_OP_LIM <= d <= FX_OP_LIM,
        ensures
            r == Self::cross_comp(a as int, b as int, c as int, d as int),
    {
        proof {
            let lim = FX_OP_LIM as int;
            lemma_mul_bounds(a as int, b as int, lim, lim);
            lemma_mul_bounds(c as int, d as int, lim, lim);
        }
        let s: i128 = (a as i128) * (b as i128) - (c as i128) * (d as i128);
        let q = div_i128(s, SCALE as i128);
        proof {
            let lim = FX_OP_LIM as int;
            assert(-2 * (lim * lim) <= s <= 2 * (lim * lim)) by (nonlinear_arith)
                requires
                    -lim <= a <= lim,
                    -lim <= b <= lim,
                    -lim <= c <= lim,
                    -lim <= d <= lim,
                    s == a * b - c * d,
            ;
            assert(2 * (lim * lim) == 0x2000_0000_0000_0000_0000int);
            lemma_tdiv_range(s as int, SCALE as int, 0x2000_0000_0000_0001int);
        }
        q as i64
    }

    /// Lifts the point to homogeneous coordinates with `w = 1`.
    pub fn to_homog(self) -> (r: Point4)
        ensures
            r.x == self.x,
            r.y == self.y,
            r.z == self.z,
            r.w == SCALE,
    {
        Point4 { x: self.x, y: self.y, z: self.z, w: SCALE }
    }

    /// The raw fixed-point length.
    pub fn length(&self) -> (r: i64)
        requires
            p3_bounded(*self, FX_OP_LIM as int),
        ensures
            r == length_spec(*self),
            0 <= r,
            r * r <= self.x * self.x + self.y * self.y + self.z * self.z,
            self.x * self.x + self.y * self.y + self.z * self.z < (r + 1) * (r + 1),
            abs_int(self.x as int) <= r,
            abs_int(self.y as int) <= r,
            abs_int(self.z as int) <= r,
    {
        proof {
            lemma_p3_square_bounds(*self);
        }
        let sq: i128 = (self.x as i128) * (self.x as i128) + (self.y as i128) * (self.y as i128)
            + (self.z as i128) * (self.z as i128);
        let r = isqrt_u128(sq as u128);
        proof {
            let s = sq as int;
            let rr = r as int;
            let lim = FX_OP_LIM as int;
            assert(rr <= 2 * lim) by (nonlinear_arith)
                requires
                    rr >= 0,
                    rr * rr <= s,
                    s <= 3 * (lim * lim),
                    lim >= 1,
            ;
            assert(abs_int(self.x as int) <= rr && abs_int(self.y as int) <= rr && abs_int(
                self.z as int,
            ) <= rr) by (nonlinear_arith)
                requires
                    rr >= 0,
                    s < (rr + 1) * (rr + 1),
                    s == self.x * self.x + self.y * self.y + self.z * self.z,
            ;
        }
        r as i64
    }

    /// Scales the vector to (fixed-point) unit length.
    pub fn normalise(&self) -> (r: Self)
        requires
            p3_bounded(*self, FX_OP_LIM as int),
            !(self.x == 0 && self.y == 0 && self.z == 0),
        ensures
            r.x == norm_comp_spec(self.x as int, length_spec(*self)),
            r.y == norm_comp_spec(self.y as int, length_spec(*self)),
            r.z == norm_comp_spec(self.z as int, length_spec(*self)),
            p3_bounded(r, SCALE as int),
    {
        let len = self.length();
        proof {
            let s = self.x * self.x + self.y * self.y + self.z * self.z;
            assert(s > 0) by (nonlinear_arith)
                requires
                    !(self.x == 0 && self.y == 0 && self.z == 0),
                    s == self.x * self.x + self.y * self.y + self.z * self.z,
            ;
            assert((len as int + 1) * (len as int + 1) > 0);
            if len == 0 {
                assert(s < (0 + 1) * (0 + 1));
                assert(false);
            }
        }
        let x = Self::norm_comp(self.x, len);
        let y = Self::norm_comp(self.y, len);
        let z = Self::norm_comp(self.z, len);
        Point3 { x, y, z }
    }

    fn norm_comp(c: i64, len: i64) -> (r: i64)
        requires
            1 <= len,
            -FX_OP_LIM <= c <= FX_OP_LIM,
            abs_int(c as int) <= len as int,
        ensures
            r == norm_comp_spec(c as int, len as int),
            -SCALE <= r <= SCALE,
    {
        proof {
            lemma_mul_bounds(c as int, SCALE as int, FX_OP_LIM as int, SCALE as int);
        }
        let s: i128 = (c as i128) * (SCALE as i128);
        let q = div_i128(s, len as i128);
        proof {
            assert(-(SCALE as int * abs_int(len as int)) <= s as int <= SCALE as int * abs_int(
                len as int,
            )) by (nonlinear_arith)
                requires
                    abs_int(c as int) <= len as int,
                    1 <= len as int,
                    s as int == c as int * SCALE as int,
                    SCALE as int > 0,
            ;
            lemma_tdiv_range(s as int, len as int, SCALE as int);
        }
        q as i64
    }

    pub fn sub(self, other: Self) -> (r: Self)
        requires
            i64::MIN <= self.x - other.x <= i64::MAX,
            i64::MIN <= self.y - other.y <= i64::MAX,
            i64::MIN <= self.z - other.z <= i64::MAX,
        ensures
            r.x == self.x - other.x,
            r.y == self.y - other.y,
            r.z == self.z - other.z,
    {
        Point3 { x: self.x - other.x, y: self.y - other.y, z: self.z - other.z }
    }
}

proof fn lemma_p3_square_bounds(p: Point3)
    requires
        p3_bounded(p, FX_OP_LIM as int),
    ensures
        0 <= p.x * p.x <= FX_OP_LIM as int * FX_OP_LIM as int,
        0 <= p.y * p.y <= FX_OP_LIM as int * FX_OP_LIM as int,
        0 <= p.z * p.z <= FX_OP_LIM as int * FX_OP_LIM as int,
{
    let lim = FX_OP_LIM as int;
    assert(0 <= p.x * p.x <= lim * lim && 0 <= p.y * p.y <= lim * lim && 0 <= p.z * p.z <= lim
        * lim) by (nonlinear_arith)
        requires
            p3_bounded(p, lim),
    ;
}

/// A fixed-point homogeneous 4D point.
#[derive(Debug, PartialEq, Eq, Structural, Copy, Clone)]
pub struct Point4 {
    pub x: i64,
    pub y: i64,
    pub z: i64,
    pub w: i64,
}

/// One component of the homogeneous divide: `c * SCALE / w`, truncated.
pub open spec fn affine_comp_spec(c: int, w: int) -> int {
    tdiv(c * SCALE, w)
}

impl Point4 {
    /// Divides by `w` to recover the affine point.
    pub fn to_affine(self) -> (r: Point3)
        requires
            self.w != 0,
            -FX_OP_LIM <= self.x <= FX_OP_LIM,
            -FX_OP_LIM <= self.y <= FX_OP_LIM,
            -FX_OP_LIM <= self.z <= FX_OP_LIM,
        ensures
            r.x == affine_comp_spec(self.x as int, self.w as int),
            r.y == affine_comp_spec(self.y as int, self.w as int),
            r.z == affine_comp_spec(self.z as int, self.w as int),
    {
        let x = Self::affine_comp(self.x, self.w);
        let y = Self::affine_comp(self.y, self.w);
        let z = Self::affine_comp(self.z, self.w);
        Point3 { x, y, z }
    }

    fn affine_comp(c: i64, w: i64) -> (r: i64)
        requires
            w != 0,
            -FX_OP_LIM <= c <= FX_OP_LIM,
        ensures
            r == affine_comp_spec(c as int, w as int),
    {
        proof {
            lemma_mul_bounds(c as int, SCALE as int, FX_OP_LIM as int, SCALE as int);
        }
        let s: i128 = (c as i128) * (SCALE as i128);
        let q = div_i128(s, w as i128);
        proof {
            let m = FX_OP_LIM as int * SCALE as int;
            assert(m * abs_int(w as int) >= m) by (nonlinear_arith)
                requires
                    abs_int(w as int) >= 1,
                    m > 0,
            ;
            lemma_tdiv_range(s as int, w as int, m);
        }
        q as i64
    }
}

} // verus!
