//! Row-major 4x4 fixed-point matrices.

use vstd::prelude::*;

use crate::fixed::{lemma_mul_bounds, lemma_tdiv_range, tdiv, SCALE};
use crate::point::{Point4, FX_OP_LIM};

verus! {

/// A 4x4 matrix of raw fixed-point coefficients, row-major.
#[derive(Debug, PartialEq, Copy, Clone)]
pub struct Matrix44 {
    pub m: [[i64; 4]; 4],
}

/// One entry of the fixed-point matrix product.
pub open spec fn mul_entry_spec(a: Matrix44, b: Matrix44, i: int, j: int) -> int {
    tdiv(
        a.at(i, 0) * b.at(0, j) + a.at(i, 1) * b.at(1, j) + a.at(i, 2) * b.at(2, j) + a.at(i, 3)
            * b.at(3, j),
        SCALE as int,
    )
}

/// One coordinate of a matrix applied to a homogeneous point.
pub open spec fn mul_point_spec(a: Matrix44, p: Point4, i: int) -> int {
    tdiv(
        p.x * a.at(i, 0) + p.y * a.at(i, 1) + p.z * a.at(i, 2) + p.w * a.at(i, 3),
        SCALE as int,
    )
}

/// Every entry of the matrix lies within `lim`.
pub open spec fn m44_bounded(a: Matrix44, lim: int) -> bool {
    forall|i: int, j: int| 0 <= i < 4 && 0 <= j < 4 ==> -lim <= #[trigger] a.at(i, j) <= lim
}

/// All four raw coordinates of a homogeneous point lie within `lim`.
pub open spec fn p4_bounded(p: Point4, lim: int) -> bool {
    &&& -lim <= p.x <= lim
    &&& -lim <= p.y <= lim
    &&& -lim <= p.z <= lim
    &&& -lim <= p.w <= lim
}

impl Matrix44 {
    /// The entry in row `i`, column `j`, as an unbounded integer.
    pub open spec fn at(self, i: int, j: int) -> int {
        self.m[i][j] as int
    }

    /// The fixed-point identity matrix.
    pub fn identity() -> (r: Self)
        ensures
            forall|i: int, j: int|
                0 <= i < 4 && 0 <= j < 4 ==> #[trigger] r.at(i, j) == if i == j {
                    SCALE as int
                } else {
                    0
                },
    {
        let s = SCALE;
        Matrix44 {
            m: [
                [s, 0, 0, 0],
                [0, s, 0, 0],
                [0, 0, s, 0],
                [0, 0, 0, s],
            ],
        }
    }

    /// Fixed-point matrix product: standard row-by-column summation.
    pub fn mul(self, other: Matrix44) -> (r: Matrix44)
        requires
            m44_bounded(self, FX_OP_LIM as int),
            m44_bounded(other, FX_OP_LIM as int),
        ensures
            forall|i: int, j: int|
                0 <= i < 4 && 0 <= j < 4 ==> #[trigger] r.at(i, j) == mul_entry_spec(
                    self,
                    other,
                    i,
                    j,
                ),
    {
        proof {
            lemma_m44_bounded_entries(self, FX_OP_LIM as int);
            lemma_m44_bounded_entries(other, FX_OP_LIM as int);
        }
        let e00 = dot4(self.m[0][0], self.m[0][1], self.m[0][2], self.m[0][3], other.m[0][0], other.m[1][0], other.m[2][0], other.m[3][0]);
        let e01 = dot4(self.m[0][0], self.m[0][1], self.m[0][2], self.m[0][3], other.m[0][1], other.m[1][1], other.m[2][1], other.m[3][1]);
        let e02 = dot4(self.m[0][0], self.m[0][1], self.m[0][2], self.m[0][3], other.m[0][2], other.m[1][2], other.m[2][2], other.m[3][2]);
        let e03 = dot4(self.m[0][0], self.m[0][1], self.m[0][2], self.m[0][3], other.m[0][3], other.m[1][3], other.m[2][3], other.m[3][3]);
        let e10 = dot4(self.m[1][0], self.m[1][1], self.m[1][2], self.m[1][3], other.m[0][0], other.m[1][0], other.m[2][0], other.m[3][0]);
        let e11 = dot4(self.m[1][0], self.m[1][1], self.m[1][2], self.m[1][3], other.m[0][1], other.m[1][1], other.m[2][1], other.m[3][1]);
        let e12 = dot4(self.m[1][0], self.m[1][1], self.m[1][2], self.m[1][3], other.m[0][2], other.m[1][2], other.m[2][2], other.m[3][2]);
        let e13 = dot4(self.m[1][0], self.m[1][1], self.m[1][2], self.m[1][3], other.m[0][3], other.m[1][3], other.m[2][3], other.m[3][3]);
        let e20 = dot4(self.m[2][0], self.m[2][1], self.m[2][2], self.m[2][3], other.m[0][0], other.m[1][0], other.m[2][0], other.m[3][0]);
        let e21 = dot4(self.m[2][0], self.m[2][1], self.m[2][2], self.m[2][3], other.m[0][1], other.m[1][1], other.m[2][1], other.m[3][1]);
        let e22 = dot4(self.m[2][0], self.m[2][1], self.m[2][2], self.m[2][3], other.m[0][2], other.m[1][2], other.m[2][2], other.m[3][2]);
        let e23 = dot4(self.m[2][0], self.m[2][1], self.m[2][2], self.m[2][3], other.m[0][3], other.m[1][3], other.m[2][3], other.m[3][3]);
        let e30 = dot4(self.m[3][0], self.m[3][1], self.m[3][2], self.m[3][3], other.m[0][0], other.m[1][0], other.m[2][0], other.m[3][0]);
        let e31 = dot4(self.m[3][0], self.m[3][1], self.m[3][2], self.m[3][3], other.m[0][1], other.m[1][1], other.m[2][1], other.m[3][1]);
        let e32 = dot4(self.m[3][0], self.m[3][1], self.m[3][2], self.m[3][3], other.m[0][2], other.m[1][2], other.m[2][2], other.m[3][2]);
        let e33 = dot4(self.m[3][0], self.m[3][1], self.m[3][2], self.m[3][3], other.m[0][3], other.m[1][3], other.m[2][3], other.m[3][3]);
        let rows: [[i64; 4]; 4] = [
            [e00, e01, e02, e03],
            [e10, e11, e12, e13],
            [e20, e21, e22, e23],
            [e30, e31, e32, e33],
        ];
        Matrix44 { m: rows }
    }

    /// Applies the matrix to a homogeneous point (point as a column vector).
    pub fn mul_point(&self, p: Point4) -> (r: Point4)
        requires
            m44_bounded(*self, FX_OP_LIM as int),
            p4_bounded(p, FX_OP_LIM as int),
        ensures
            r.x == mul_point_spec(*self, p, 0),
            r.y == mul_point_spec(*self, p, 1),
            r.z == mul_point_spec(*self, p, 2),
            r.w == mul_point_spec(*self, p, 3),
    {
        proof {
            lemma_m44_bounded_entries(*self, FX_OP_LIM as int);
        }
        let x = dot4(p.x, p.y, p.z, p.w, self.m[0][0], self.m[0][1], self.m[0][2], self.m[0][3]);
        let y = dot4(p.x, p.y, p.z, p.w, self.m[1][0], self.m[1][1], self.m[1][2], self.m[1][3]);
        let z = dot4(p.x, p.y, p.z, p.w, self.m[2][0], self.m[2][1], self.m[2][2], self.m[2][3]);
        let w = dot4(p.x, p.y, p.z, p.w, self.m[3][0], self.m[3][1], self.m[3][2], self.m[3][3]);
        Point4 { x, y, z, w }
    }
}

/// The fixed-point sum of four products, `(a0*b0 + .. + a3*b3) / SCALE`.
pub open spec fn dot4_spec(
    a0: int,
    a1: int,
    a2: int,
    a3: int,
    b0: int,
    b1: int,
    b2: int,
    b3: int,
) -> int {
    tdiv(a0 * b0 + a1 * b1 + a2 * b2 + a3 * b3, SCALE as int)
}

fn dot4(a0: i64, a1: i64, a2: i64, a3: i64, b0: i64, b1: i64, b2: i64, b3: i64) -> (r: i64)
    requires
        -FX_OP_LIM <= a0 <= FX_OP_LIM,
        -FX_OP_LIM <= a1 <= FX_OP_LIM,
        -FX_OP_LIM <= a2 <= FX_OP_LIM,
        -FX_OP_LIM <= a3 <= FX_OP_LIM,
        -FX_OP_LIM <= b0 <= FX_OP_LIM,
        -FX_OP_LIM <= b1 <= FX_OP_LIM,
        -FX_OP_LIM <= b2 <= FX_OP_LIM,
        -FX_OP_LIM <= b3 <= FX_OP_LIM,
    ensures
        r == dot4_spec(
            a0 as int,
            a1 as int,
            a2 as int,
            a3 as int,
            b0 as int,
            b1 as int,
            b2 as int,
            b3 as int,
        ),
{
    proof {
        let lim = FX_OP_LIM as int;
        lemma_mul_bounds(a0 as int, b0 as int, lim, lim);
        lemma_mul_bounds(a1 as int, b1 as int, lim, lim);
        lemma_mul_bounds(a2 as int, b2 as int, lim, lim);
        lemma_mul_bounds(a3 as int, b3 as int, lim, lim);
    }
    let s: i128 = (a0 as i128) * (b0 as i128) + (a1 as i128) * (b1 as i128) + (a2 as i128) * (
    b2 as i128) + (a3 as i128) * (b3 as i128);
    let q = crate::fixed::div_i128(s, SCALE as i128);
    proof {
        let lim = FX_OP_LIM as int;
        assert(4 * (lim * lim) == 0x4000_0000_0000_0000_0000int);
        lemma_tdiv_range(s as int, SCALE as int, 0x4000_0000_0000_0001int);
    }
    q as i64
}

/// Applying a matrix with entries within `ba` to a point with coordinates
/// within `bp` gives coordinates that fit any `m` with `4*ba*bp <= m * SCALE`.
pub proof fn lemma_mul_point_bounded(a: Matrix44, p: Point4, r: Point4, ba: int, bp: int, m: int)
    requires
        0 <= ba,
        0 <= bp,
        0 <= m,
        4 * ba * bp <= m * SCALE,
        m44_bounded(a, ba),
        p4_bounded(p, bp),
        r.x == mul_point_spec(a, p, 0),
        r.y == mul_point_spec(a, p, 1),
        r.z == mul_point_spec(a, p, 2),
        r.w == mul_point_spec(a, p, 3),
    ensures
        p4_bounded(r, m),
{
    assert(4 * ba * bp == 4 * (ba * bp) && 4 * (ba * bp) == 4 * (bp * ba)) by (nonlinear_arith);
    assert forall|i: int| 0 <= i < 4 implies -m <= #[trigger] mul_point_spec(a, p, i) <= m by {
        lemma_mul_bounds(p.x as int, a.at(i, 0), bp, ba);
        lemma_mul_bounds(p.y as int, a.at(i, 1), bp, ba);
        lemma_mul_bounds(p.z as int, a.at(i, 2), bp, ba);
        lemma_mul_bounds(p.w as int, a.at(i, 3), bp, ba);
        let s = p.x * a.at(i, 0) + p.y * a.at(i, 1) + p.z * a.at(i, 2) + p.w * a.at(i, 3);
        assert(ba * bp == bp * ba) by (nonlinear_arith);
        assert(-(m * SCALE) <= s <= m * SCALE);
        lemma_tdiv_range(s, SCALE as int, m);
    }
    assert(mul_point_spec(a, p, 0) == r.x);
}

/// Spells the entry bound out for each of the sixteen coefficients.
pub proof fn lemma_m44_bounded_entries(a: Matrix44, lim: int)
    requires
        m44_bounded(a, lim),
    ensures
        -lim <= a.m[0][0] <= lim,
        -lim <= a.m[0][1] <= lim,
        -lim <= a.m[0][2] <= lim,
        -lim <= a.m[0][3] <= lim,
        -lim <= a.m[1][0] <= lim,
        -lim <= a.m[1][1] <= lim,
        -lim <= a.m[1][2] <= lim,
        -lim <= a.m[1][3] <= lim,
        -lim <= a.m[2][0] <= lim,
        -lim <= a.m[2][1] <= lim,
        -lim <= a.m[2][2] <= lim,
        -lim <= a.m[2][3] <= lim,
        -lim <= a.m[3][0] <= lim,
        -lim <= a.m[3][1] <= lim,
        -lim <= a.m[3][2] <= lim,
        -lim <= a.m[3][3] <= lim,
{
    assert(a.at(0, 0) == a.m[0][0] as int);
    assert(a.at(0, 1) == a.m[0][1] as int);
    assert(a.at(0, 2) == a.m[0][2] as int);
    assert(a.at(0, 3) == a.m[0][3] as int);
    assert(a.at(1, 0) == a.m[1][0] as int);
    assert(a.at(1, 1) == a.m[1][1] as int);
    assert(a.at(1, 2) == a.m[1][2] as int);
    assert(a.at(1, 3) == a.m[1][3] as int);
    assert(a.at(2, 0) == a.m[2][0] as int);
    assert(a.at(2, 1) == a.m[2][1] as int);
    assert(a.at(2, 2) == a.m[2][2] as int);
    assert(a.at(2, 3) == a.m[2][3] as int);
    assert(a.at(3, 0) == a.m[3][0] as int);
    assert(a.at(3, 1) == a.m[3][1] as int);
    assert(a.at(3, 2) == a.m[3][2] as int);
    assert(a.at(3, 3) == a.m[3][3] as int);
}

} // verus!
