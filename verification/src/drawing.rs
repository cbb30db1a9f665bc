//! The rasterizer: line drawing and barycentric triangle filling.

use vstd::prelude::*;

use crate::drawing_target::{Colour, DrawingTarget};
use crate::fixed::{abs_int, div_i128, div_round_i64, lemma_mul_bounds, lemma_rdivn_between, lemma_tdiv_range, rdivn, tdiv, SCALE};
use crate::point::{p3_bounded, Point2, Point3};
use crate::zbuffer::{zbuf_cols, zbuf_get, zbuf_grid, zbuf_rows, zbuf_set};

verus! {

/// Largest screen coordinate magnitude the rasterizer accepts; keeps the
/// interpolation arithmetic inside `i64`.
pub const COORD_LIM: i32 = 0x100_0000;

/// Whether the segment is steeper than 45 degrees, so that the stepping
/// axis must be transposed.
pub open spec fn line_steep(p0: (int, int), p1: (int, int)) -> bool {
    abs_int(p0.0 - p1.0) < abs_int(p0.1 - p1.1)
}

/// The two endpoints, transposed if steep, ordered by first coordinate.
pub open spec fn line_oriented(p0: (int, int), p1: (int, int)) -> ((int, int), (int, int)) {
    let a0 = if line_steep(p0, p1) {
        (p0.1, p0.0)
    } else {
        p0
    };
    let a1 = if line_steep(p0, p1) {
        (p1.1, p1.0)
    } else {
        p1
    };
    if a0.0 > a1.0 {
        (a1, a0)
    } else {
        (a0, a1)
    }
}

/// The interpolated second coordinate at step `x`, rounded to nearest;
/// a single point when the endpoints share their first coordinate.
pub open spec fn line_y(a0: (int, int), a1: (int, int), x: int) -> int {
    if a1.0 == a0.0 {
        a0.1
    } else {
        rdivn(a0.1 * (a1.0 - x) + a1.1 * (x - a0.0), a1.0 - a0.0)
    }
}

/// The screen pixel the line writes at step `x` of the oriented walk.
pub open spec fn line_pixel(p0: (int, int), p1: (int, int), x: int) -> (int, int) {
    let a = line_oriented(p0, p1);
    let y = line_y(a.0, a.1, x);
    if line_steep(p0, p1) {
        (y, x)
    } else {
        (x, y)
    }
}

/// Whether the line from `p0` to `p1` writes the pixel `q`, looking only at
/// steps below `xlim`.
pub open spec fn line_covers_upto(p0: (int, int), p1: (int, int), xlim: int, q: (int, int)) -> bool {
    exists|x: int|
        line_oriented(p0, p1).0.0 <= x < xlim && #[trigger] line_pixel(p0, p1, x) == q
}

/// Whether the line from `p0` to `p1` writes the pixel `q`.
pub open spec fn line_covers(p0: (int, int), p1: (int, int), q: (int, int)) -> bool {
    line_covers_upto(p0, p1, line_oriented(p0, p1).1.0 + 1, q)
}

/// Draws the discrete segment between two screen points: steps along the
/// dominant axis, interpolating the other coordinate; pixels outside the
/// target are silently skipped.  Swapping the endpoints writes the same
/// pixel set.
pub fn draw_line<T: DrawingTarget>(target: &mut T, colour: Colour, p0: Point2, p1: Point2)
    requires
        old(target).inv(),
        -COORD_LIM <= p0.x <= COORD_LIM,
        -COORD_LIM <= p0.y <= COORD_LIM,
        -COORD_LIM <= p1.x <= COORD_LIM,
        -COORD_LIM <= p1.y <= COORD_LIM,
    ensures
        final(target).inv(),
        final(target).width_spec() == old(target).width_spec(),
        final(target).height_spec() == old(target).height_spec(),
        forall|a: int, b: int|
            0 <= a < old(target).width_spec() && 0 <= b < old(target).height_spec()
                ==> #[trigger] final(target).pixels()[(a, b)] == if line_covers(
                p0.sv(),
                p1.sv(),
                (a, b),
            ) {
                colour
            } else {
                old(target).pixels()[(a, b)]
            },
{
    let ghost gp0 = p0.sv();
    let ghost gp1 = p1.sv();
    let dxa: i32 = if p0.x >= p1.x {
        p0.x - p1.x
    } else {
        p1.x - p0.x
    };
    let dya: i32 = if p0.y >= p1.y {
        p0.y - p1.y
    } else {
        p1.y - p0.y
    };
    let steep = dxa < dya;
    let mut a0 = p0;
    let mut a1 = p1;
    if steep {
        a0.transpose();
        a1.transpose();
    }
    if a0.x > a1.x {
        let t = a0;
        a0 = a1;
        a1 = t;
    }
    proof {
        assert(steep == line_steep(gp0, gp1));
        assert((a0.sv(), a1.sv()) == line_oriented(gp0, gp1));
    }
    let ghost ga0 = a0.sv();
    let ghost ga1 = a1.sv();
    let width = target.width();
    let height = target.height();
    let mut x = a0.x;
    while x <= a1.x
        invariant
            target.inv(),
            target.width_spec() == old(target).width_spec(),
            target.height_spec() == old(target).height_spec(),
            width as int == target.width_spec(),
            height as int == target.height_spec(),
            steep == line_steep(gp0, gp1),
            (ga0, ga1) == line_oriented(gp0, gp1),
            ga0 == a0.sv(),
            ga1 == a1.sv(),
            gp0 == p0.sv(),
            gp1 == p1.sv(),
            a0.x <= x,
            x <= a1.x + 1,
            a0.x <= a1.x,
            -COORD_LIM <= a0.x <= COORD_LIM,
            -COORD_LIM <= a0.y <= COORD_LIM,
            -COORD_LIM <= a1.x <= COORD_LIM,
            -COORD_LIM <= a1.y <= COORD_LIM,
            forall|a: int, b: int|
                0 <= a < old(target).width_spec() && 0 <= b < old(target).height_spec()
                    ==> #[trigger] target.pixels()[(a, b)] == if line_covers_upto(
                    gp0,
                    gp1,
                    x as int,
                    (a, b),
                ) {
                    colour
                } else {
                    old(target).pixels()[(a, b)]
                },
        decreases a1.x + 1 - x,
    {
        let y: i32 = if a1.x == a0.x {
            a0.y
        } else {
            proof {
                crate::fixed::lemma_mul_bounds(
                    a0.y as int,
                    a1.x - x,
                    COORD_LIM as int,
                    2 * COORD_LIM as int + 1,
                );
                crate::fixed::lemma_mul_bounds(
                    a1.y as int,
                    x - a0.x,
                    COORD_LIM as int,
                    2 * COORD_LIM as int + 1,
                );
            }
            let n: i64 = (a0.y as i64) * ((a1.x - x) as i64) + (a1.y as i64) * ((x - a0.x) as i64);
            let d: i64 = (a1.x - a0.x) as i64;
            proof {
                let lo: int = if a0.y <= a1.y {
                    a0.y as int
                } else {
                    a1.y as int
                };
                let hi: int = if a0.y <= a1.y {
                    a1.y as int
                } else {
                    a0.y as int
                };
                assert(lo * d <= n <= hi * d) by (nonlinear_arith)
                    requires
                        n == a0.y * (a1.x - x) + a1.y * (x - a0.x),
                        d == a1.x - a0.x,
                        a0.x <= x <= a1.x,
                        d >= 1,
                        lo <= a0.y <= hi,
                        lo <= a1.y <= hi,
                ;
                lemma_rdivn_between(n as int, d as int, lo, hi);
            }
            let y64 = div_round_i64(n, d);
            y64 as i32
        };
        proof {
            assert(y as int == line_y(ga0, ga1, x as int));
        }
        let (tx, ty): (i32, i32) = if steep {
            (y, x)
        } else {
            (x, y)
        };
        proof {
            assert((tx as int, ty as int) == line_pixel(gp0, gp1, x as int));
        }
        if tx >= 0 && ty >= 0 && (tx as u32) < width && (ty as u32) < height {
            target.set_pixel(tx as u32, ty as u32, colour);
        }
        proof {
            assert forall|a: int, b: int|
                0 <= a < old(target).width_spec() && 0 <= b < old(target).height_spec()
                    implies #[trigger] target.pixels()[(a, b)] == if line_covers_upto(
                gp0,
                gp1,
                x as int + 1,
                (a, b),
            ) {
                colour
            } else {
                old(target).pixels()[(a, b)]
            } by {
                if (a, b) == (tx as int, ty as int) {
                    assert(line_pixel(gp0, gp1, x as int) == (a, b));
                    assert(line_covers_upto(gp0, gp1, x as int + 1, (a, b)));
                } else {
                    if line_covers_upto(gp0, gp1, x as int + 1, (a, b)) {
                        let w = choose|w: int|
                            line_oriented(gp0, gp1).0.0 <= w < x as int + 1 && #[trigger]
                            line_pixel(gp0, gp1, w) == (a, b);
                        assert(w < x as int);
                        assert(line_covers_upto(gp0, gp1, x as int, (a, b)));
                    }
                    if line_covers_upto(gp0, gp1, x as int, (a, b)) {
                        let w = choose|w: int|
                            line_oriented(gp0, gp1).0.0 <= w < x as int && #[trigger] line_pixel(
                                gp0,
                                gp1,
                                w,
                            ) == (a, b);
                        assert(line_covers_upto(gp0, gp1, x as int + 1, (a, b)));
                    }
                }
            }
        }
        x = x + 1;
    }
    proof {
        assert(x as int == ga1.0 + 1);
    }
}

/// Swapping the endpoints leaves the set of written pixels unchanged: the
/// same steepness test and the same oriented walk serve both orders.
pub proof fn lemma_line_symmetric(p0: (int, int), p1: (int, int), q: (int, int))
    ensures
        line_covers(p0, p1, q) == line_covers(p1, p0, q),
{
    assert(line_steep(p0, p1) == line_steep(p1, p0));
    assert(line_oriented(p0, p1) == line_oriented(p1, p0));
    assert forall|x: int| #[trigger] line_pixel(p0, p1, x) == line_pixel(p1, p0, x) by {}
    if line_covers(p0, p1, q) {
        let w = choose|w: int|
            line_oriented(p0, p1).0.0 <= w < line_oriented(p0, p1).1.0 + 1 && #[trigger]
            line_pixel(p0, p1, w) == q;
        assert(line_pixel(p1, p0, w) == q);
        assert(line_covers(p1, p0, q));
    }
    if line_covers(p1, p0, q) {
        let w = choose|w: int|
            line_oriented(p1, p0).0.0 <= w < line_oriented(p1, p0).1.0 + 1 && #[trigger]
            line_pixel(p1, p0, w) == q;
        assert(line_pixel(p0, p1, w) == q);
        assert(line_covers(p0, p1, q));
    }
}

/// Largest raw triangle coordinate the rasterizer accepts.
pub const TRI_COORD_LIM: i64 = 0x7fff_0000_0000;

/// Largest target dimension the rasterizer accepts.
pub const DIM_LIM: u32 = 0x1_0000;

/// Barycentric coordinates below this raw threshold count as "near the
/// opposite edge" for edge highlighting (0.3 in fixed point, truncated).
pub const EDGE_THRESHOLD: i64 = 19660;

/// The screen cell of a raw fixed-point coordinate (truncation toward zero).
pub open spec fn cell(c: int) -> int {
    tdiv(c, SCALE as int)
}

pub open spec fn imin(a: int, b: int) -> int {
    if a <= b {
        a
    } else {
        b
    }
}

pub open spec fn imax(a: int, b: int) -> int {
    if a >= b {
        a
    } else {
        b
    }
}

/// Twice the signed screen-space area of the triangle (the cross product's
/// z-component), in raw squared fixed-point units.
pub open spec fn tri_uz(t0: (int, int, int), t1: (int, int, int), t2: (int, int, int)) -> int {
    (t2.0 - t0.0) * (t1.1 - t0.1) - (t1.0 - t0.0) * (t2.1 - t0.1)
}

/// A triangle with less than one unit of doubled area is degenerate.
pub open spec fn tri_degenerate(t0: (int, int, int), t1: (int, int, int), t2: (int, int, int)) -> bool {
    abs_int(tri_uz(t0, t1, t2)) < (SCALE as int) * (SCALE as int)
}

/// The barycentric coordinates `(alpha, beta, gamma)` of the query point
/// `(qx, qy)` (raw fixed-point), scaled by `SCALE`; a degenerate triangle
/// rejects every point with `(-1, 1, 1)`.
pub open spec fn bary(
    t0: (int, int, int),
    t1: (int, int, int),
    t2: (int, int, int),
    qx: int,
    qy: int,
) -> (int, int, int) {
    if tri_degenerate(t0, t1, t2) {
        (-(SCALE as int), SCALE as int, SCALE as int)
    } else {
        let u0 = (t1.0 - t0.0) * (t0.1 - qy) - (t0.0 - qx) * (t1.1 - t0.1);
        let u1 = (t0.0 - qx) * (t2.1 - t0.1) - (t2.0 - t0.0) * (t0.1 - qy);
        let uz = tri_uz(t0, t1, t2);
        let gamma = tdiv(u0 * SCALE, uz);
        let beta = tdiv(u1 * SCALE, uz);
        (SCALE - beta - gamma, beta, gamma)
    }
}

/// Whether all three barycentric coordinates accept the query point.
pub open spec fn bary_accepts(
    t0: (int, int, int),
    t1: (int, int, int),
    t2: (int, int, int),
    qx: int,
    qy: int,
) -> bool {
    let b = bary(t0, t1, t2, qx, qy);
    b.0 >= 0 && b.1 >= 0 && b.2 >= 0
}

/// The clamped bounding box `(xlo, xhi, ylo, yhi)`; candidate pixels are
/// `xlo <= x < xhi`, `ylo <= y < yhi`.
pub open spec fn tri_bbox(
    t0: (int, int, int),
    t1: (int, int, int),
    t2: (int, int, int),
    w: int,
    h: int,
) -> (int, int, int, int) {
    (
        imax(0, imin(w - 1, imin(cell(t0.0), imin(cell(t1.0), cell(t2.0))))),
        imin(w - 1, imax(0, imax(cell(t0.0) + 1, imax(cell(t1.0) + 1, cell(t2.0) + 1)))),
        imax(0, imin(h - 1, imin(cell(t0.1), imin(cell(t1.1), cell(t2.1))))),
        imin(h - 1, imax(0, imax(cell(t0.1) + 1, imax(cell(t1.1) + 1, cell(t2.1) + 1)))),
    )
}

/// Whether the filled triangle covers the pixel `(x, y)` on a `w` by `h`
/// target: inside the clamped bounding box and accepted by all three
/// barycentric coordinates.
pub open spec fn tri_covers(
    t0: (int, int, int),
    t1: (int, int, int),
    t2: (int, int, int),
    w: int,
    h: int,
    x: int,
    y: int,
) -> bool {
    let bb = tri_bbox(t0, t1, t2, w, h);
    bb.0 <= x < bb.1 && bb.2 <= y < bb.3 && bary_accepts(t0, t1, t2, x * SCALE, y * SCALE)
}

/// The interpolated raw depth of the triangle at pixel `(x, y)`.
pub open spec fn tri_depth(
    t0: (int, int, int),
    t1: (int, int, int),
    t2: (int, int, int),
    x: int,
    y: int,
) -> int {
    let b = bary(t0, t1, t2, x * SCALE, y * SCALE);
    tdiv(t0.2 * b.0 + t1.2 * b.1 + t2.2 * b.2, SCALE as int)
}

/// The colour a covered pixel receives: the line colour near an edge whose
/// two corners carry texture-vertex flags, the fill colour elsewhere.
pub open spec fn tri_pixel_colour(
    colour: Colour,
    line_colour: Colour,
    vt0: Option<usize>,
    vt1: Option<usize>,
    vt2: Option<usize>,
    b: (int, int, int),
) -> Colour {
    let line_x = vt1 is Some && vt2 is Some;
    let line_y = vt0 is Some && vt2 is Some;
    let line_z = vt0 is Some && vt1 is Some;
    if (line_x && b.0 < EDGE_THRESHOLD) || (line_y && b.1 < EDGE_THRESHOLD) || (line_z && b.2
        < EDGE_THRESHOLD) {
        line_colour
    } else {
        colour
    }
}

/// Whether the triangle writes pixel `(x, y)`, given the depth grid the
/// call started from: covered, and strictly nearer than the stored depth.
pub open spec fn tri_writes(
    t0: (int, int, int),
    t1: (int, int, int),
    t2: (int, int, int),
    w: int,
    h: int,
    zold: Map<(int, int), i64>,
    x: int,
    y: int,
) -> bool {
    tri_covers(t0, t1, t2, w, h, x, y) && tri_depth(t0, t1, t2, x, y) < zold[(x, y)]
}

/// Computes the barycentric coordinates of `(qx, qy)`, raw fixed-point,
/// and whether they accept the point; on acceptance all three lie in
/// `[0, SCALE]`.
pub fn barycentric_coordinates(
    p0: Point3,
    p1: Point3,
    p2: Point3,
    qx: i64,
    qy: i64,
) -> (r: (bool, i64, i64, i64))
    requires
        p3_bounded(p0, TRI_COORD_LIM as int),
        p3_bounded(p1, TRI_COORD_LIM as int),
        p3_bounded(p2, TRI_COORD_LIM as int),
        -0x1_0000_0000_0000 <= qx <= 0x1_0000_0000_0000,
        -0x1_0000_0000_0000 <= qy <= 0x1_0000_0000_0000,
    ensures
        r.0 == bary_accepts(p0.sv(), p1.sv(), p2.sv(), qx as int, qy as int),
        r.0 ==> {
            let b = bary(p0.sv(), p1.sv(), p2.sv(), qx as int, qy as int);
            &&& r.1 == b.0
            &&& r.2 == b.1
            &&& r.3 == b.2
            &&& 0 <= b.0 <= SCALE
            &&& 0 <= b.1 <= SCALE
            &&& 0 <= b.2 <= SCALE
            &&& b.0 + b.1 + b.2 == SCALE
        },
{
    let a1: i64 = p2.x - p0.x;
    let a2: i64 = p1.x - p0.x;
    let a3: i64 = p0.x - qx;
    let b1: i64 = p2.y - p0.y;
    let b2: i64 = p1.y - p0.y;
    let b3: i64 = p0.y - qy;
    proof {
        let dl: int = 0x2_0000_0000_0000;
        lemma_mul_bounds(a2 as int, b3 as int, dl, dl);
        lemma_mul_bounds(a3 as int, b2 as int, dl, dl);
        lemma_mul_bounds(a3 as int, b1 as int, dl, dl);
        lemma_mul_bounds(a1 as int, b3 as int, dl, dl);
        lemma_mul_bounds(a1 as int, b2 as int, dl, dl);
        lemma_mul_bounds(a2 as int, b1 as int, dl, dl);
    }
    let u0: i128 = (a2 as i128) * (b3 as i128) - (a3 as i128) * (b2 as i128);
    let u1: i128 = (a3 as i128) * (b1 as i128) - (a1 as i128) * (b3 as i128);
    let uz: i128 = (a1 as i128) * (b2 as i128) - (a2 as i128) * (b1 as i128);
    let sc2: i128 = 0x1_0000_0000;
    proof {
        assert(sc2 == (SCALE as int) * (SCALE as int));
    }
    if -sc2 < uz && uz < sc2 {
        (false, 0, 0, 0)
    } else {
        proof {
            let ul: int = 0x8_0000_0000_0000_0000_0000_0000;
            lemma_mul_bounds(u0 as int, SCALE as int, ul, SCALE as int);
            lemma_mul_bounds(u1 as int, SCALE as int, ul, SCALE as int);
        }
        let gamma: i128 = div_i128(u0 * (SCALE as i128), uz);
        let beta: i128 = div_i128(u1 * (SCALE as i128), uz);
        let alpha: i128 = (SCALE as i128) - beta - gamma;
        proof {
            let ul: int = 0x8_0000_0000_0000_0000_0000_0000;
            lemma_tdiv_range(u0 as int * SCALE as int, uz as int, ul);
            lemma_tdiv_range(u1 as int * SCALE as int, uz as int, ul);
        }
        if alpha < 0 || beta < 0 || gamma < 0 {
            (false, 0, 0, 0)
        } else {
            (true, alpha as i64, beta as i64, gamma as i64)
        }
    }
}

/// Fills the triangle with the given screen-space corners: every candidate
/// pixel of the clamped bounding box whose barycentric coordinates are all
/// non-negative and whose interpolated depth is strictly nearer than the
/// stored one is painted and its depth recorded; every other pixel, and the
/// whole target outside the box, is untouched.
pub fn draw_triangle<T: DrawingTarget>(
    target: &mut T,
    z_buffer: &mut array2d::Array2D<i64>,
    colour: Colour,
    line_colour: Colour,
    p0: Point3,
    p1: Point3,
    p2: Point3,
    vt0: Option<usize>,
    vt1: Option<usize>,
    vt2: Option<usize>,
)
    requires
        old(target).inv(),
        p3_bounded(p0, TRI_COORD_LIM as int),
        p3_bounded(p1, TRI_COORD_LIM as int),
        p3_bounded(p2, TRI_COORD_LIM as int),
        old(target).width_spec() <= DIM_LIM,
        old(target).height_spec() <= DIM_LIM,
        zbuf_rows(*old(z_buffer)) == old(target).width_spec(),
        zbuf_cols(*old(z_buffer)) == old(target).height_spec(),
    ensures
        final(target).inv(),
        final(target).width_spec() == old(target).width_spec(),
        final(target).height_spec() == old(target).height_spec(),
        zbuf_rows(*final(z_buffer)) == zbuf_rows(*old(z_buffer)),
        zbuf_cols(*final(z_buffer)) == zbuf_cols(*old(z_buffer)),
        forall|x: int, y: int|
            0 <= x < old(target).width_spec() && 0 <= y < old(target).height_spec()
                ==> #[trigger] final(target).pixels()[(x, y)] == if tri_writes(
                p0.sv(),
                p1.sv(),
                p2.sv(),
                old(target).width_spec(),
                old(target).height_spec(),
                zbuf_grid(*old(z_buffer)),
                x,
                y,
            ) {
                tri_pixel_colour(
                    colour,
                    line_colour,
                    vt0,
                    vt1,
                    vt2,
                    bary(p0.sv(), p1.sv(), p2.sv(), x * SCALE, y * SCALE),
                )
            } else {
                old(target).pixels()[(x, y)]
            },
        forall|x: int, y: int|
            0 <= x < old(target).width_spec() && 0 <= y < old(target).height_spec()
                ==> #[trigger] zbuf_grid(*final(z_buffer))[(x, y)] == if tri_writes(
                p0.sv(),
                p1.sv(),
                p2.sv(),
                old(target).width_spec(),
                old(target).height_spec(),
                zbuf_grid(*old(z_buffer)),
                x,
                y,
            ) {
                tri_depth(p0.sv(), p1.sv(), p2.sv(), x, y) as i64
            } else {
                zbuf_grid(*old(z_buffer))[(x, y)]
            },
{
    let ghost t0 = p0.sv();
    let ghost t1 = p1.sv();
    let ghost t2 = p2.sv();
    let ghost gw = old(target).width_spec();
    let ghost gh = old(target).height_spec();
    let ghost zold = zbuf_grid(*old(z_buffer));
    let width = target.width();
    let height = target.height();
    let w32: i32 = width as i32;
    let h32: i32 = height as i32;
    let c0x = cell_i32(p0.x);
    let c1x = cell_i32(p1.x);
    let c2x = cell_i32(p2.x);
    let c0y = cell_i32(p0.y);
    let c1y = cell_i32(p1.y);
    let c2y = cell_i32(p2.y);
    let xlo: i32 = max_i32(0, min_i32(w32 - 1, min_i32(c0x, min_i32(c1x, c2x))));
    let xhi: i32 = min_i32(w32 - 1, max_i32(0, max_i32(c0x + 1, max_i32(c1x + 1, c2x + 1))));
    let ylo: i32 = max_i32(0, min_i32(h32 - 1, min_i32(c0y, min_i32(c1y, c2y))));
    let yhi: i32 = min_i32(h32 - 1, max_i32(0, max_i32(c0y + 1, max_i32(c1y + 1, c2y + 1))));
    proof {
        assert((xlo as int, xhi as int, ylo as int, yhi as int) == tri_bbox(t0, t1, t2, gw, gh));
    }
    let mut x = xlo;
    while x < xhi
        invariant
            target.inv(),
            target.width_spec() == gw,
            target.height_spec() == gh,
            zbuf_rows(*z_buffer) == gw,
            zbuf_cols(*z_buffer) == gh,
            gw == old(target).width_spec(),
            gh == old(target).height_spec(),
            zold == zbuf_grid(*old(z_buffer)),
            t0 == p0.sv(),
            t1 == p1.sv(),
            t2 == p2.sv(),
            p3_bounded(p0, TRI_COORD_LIM as int),
            p3_bounded(p1, TRI_COORD_LIM as int),
            p3_bounded(p2, TRI_COORD_LIM as int),
            0 <= gw <= DIM_LIM,
            0 <= gh <= DIM_LIM,
            (xlo as int, xhi as int, ylo as int, yhi as int) == tri_bbox(t0, t1, t2, gw, gh),
            xlo <= x,
            x <= xhi || x == xlo,
            0 <= xlo,
            xhi < w32,
            0 <= ylo,
            yhi < h32,
            w32 == gw,
            h32 == gh,
            forall|a: int, b: int|
                0 <= a < gw && 0 <= b < gh ==> #[trigger] target.pixels()[(a, b)] == if tri_writes(
                    t0,
                    t1,
                    t2,
                    gw,
                    gh,
                    zold,
                    a,
                    b,
                ) && (a < x as int) {
                    tri_pixel_colour(colour, line_colour, vt0, vt1, vt2, bary(t0, t1, t2, a * SCALE, b * SCALE))
                } else {
                    old(target).pixels()[(a, b)]
                },
            forall|a: int, b: int|
                0 <= a < gw && 0 <= b < gh ==> #[trigger] zbuf_grid(*z_buffer)[(a, b)]
                    == if tri_writes(t0, t1, t2, gw, gh, zold, a, b) && (a < x as int) {
                    tri_depth(t0, t1, t2, a, b) as i64
                } else {
                    zold[(a, b)]
                },
        decreases xhi - x,
    {
        let mut y = ylo;
        while y < yhi
            invariant
                target.inv(),
                target.width_spec() == gw,
                target.height_spec() == gh,
                zbuf_rows(*z_buffer) == gw,
                zbuf_cols(*z_buffer) == gh,
                gw == old(target).width_spec(),
                gh == old(target).height_spec(),
                zold == zbuf_grid(*old(z_buffer)),
                t0 == p0.sv(),
                t1 == p1.sv(),
                t2 == p2.sv(),
                p3_bounded(p0, TRI_COORD_LIM as int),
                p3_bounded(p1, TRI_COORD_LIM as int),
                p3_bounded(p2, TRI_COORD_LIM as int),
                0 <= gw <= DIM_LIM,
                0 <= gh <= DIM_LIM,
                (xlo as int, xhi as int, ylo as int, yhi as int) == tri_bbox(t0, t1, t2, gw, gh),
                xlo <= x < xhi,
                ylo <= y,
                y <= yhi || y == ylo,
                0 <= xlo,
                xhi < w32,
                0 <= ylo,
                yhi < h32,
                w32 == gw,
                h32 == gh,
                forall|a: int, b: int|
                    0 <= a < gw && 0 <= b < gh ==> #[trigger] target.pixels()[(a, b)]
                        == if tri_writes(t0, t1, t2, gw, gh, zold, a, b) && (a < x as int || (a
                        == x as int && b < y as int)) {
                        tri_pixel_colour(colour, line_colour, vt0, vt1, vt2, bary(t0, t1, t2, a * SCALE, b * SCALE))
                    } else {
                        old(target).pixels()[(a, b)]
                    },
                forall|a: int, b: int|
                    0 <= a < gw && 0 <= b < gh ==> #[trigger] zbuf_grid(*z_buffer)[(a, b)]
                        == if tri_writes(t0, t1, t2, gw, gh, zold, a, b) && (a < x as int || (a
                        == x as int && b < y as int)) {
                        tri_depth(t0, t1, t2, a, b) as i64
                    } else {
                        zold[(a, b)]
                    },
            decreases yhi - y,
        {
            let (acc, al, be, ga) = barycentric_coordinates(
                p0,
                p1,
                p2,
                (x as i64) * (SCALE as i64),
                (y as i64) * (SCALE as i64),
            );
            if acc {
                let line_x = vt1.is_some() && vt2.is_some();
                let line_y = vt0.is_some() && vt2.is_some();
                let line_z = vt0.is_some() && vt1.is_some();
                let chosen: Colour = if (line_x && al < EDGE_THRESHOLD) || (line_y && be
                    < EDGE_THRESHOLD) || (line_z && ga < EDGE_THRESHOLD) {
                    line_colour
                } else {
                    colour
                };
                proof {
                    lemma_mul_bounds(p0.z as int, al as int, TRI_COORD_LIM as int, SCALE as int);
                    lemma_mul_bounds(p1.z as int, be as int, TRI_COORD_LIM as int, SCALE as int);
                    lemma_mul_bounds(p2.z as int, ga as int, TRI_COORD_LIM as int, SCALE as int);
                }
                let zs: i128 = (p0.z as i128) * (al as i128) + (p1.z as i128) * (be as i128) + (
                p2.z as i128) * (ga as i128);
                proof {
                    assert(-(TRI_COORD_LIM as int * SCALE as int) <= zs as int <= TRI_COORD_LIM as int
                        * SCALE as int) by (nonlinear_arith)
                        requires
                            zs as int == p0.z * al + p1.z * be + p2.z * ga,
                            0 <= al,
                            0 <= be,
                            0 <= ga,
                            al + be + ga == SCALE as int,
                            -TRI_COORD_LIM <= p0.z <= TRI_COORD_LIM,
                            -TRI_COORD_LIM <= p1.z <= TRI_COORD_LIM,
                            -TRI_COORD_LIM <= p2.z <= TRI_COORD_LIM,
                    ;
                    lemma_tdiv_range(zs as int, SCALE as int, TRI_COORD_LIM as int);
                }
                let z128 = div_i128(zs, SCALE as i128);
                let z: i64 = z128 as i64;
                proof {
                    assert(z as int == tri_depth(t0, t1, t2, x as int, y as int));
                }
                let zcur = zbuf_get(z_buffer, x as usize, y as usize);
                if z < zcur {
                    zbuf_set(z_buffer, x as usize, y as usize, z);
                    target.set_pixel(x as u32, y as u32, chosen);
                }
            }
            proof {
                assert forall|a: int, b: int|
                    0 <= a < gw && 0 <= b < gh implies #[trigger] target.pixels()[(a, b)]
                        == if tri_writes(t0, t1, t2, gw, gh, zold, a, b) && (a < x as int || (a
                        == x as int && b < y as int + 1)) {
                        tri_pixel_colour(colour, line_colour, vt0, vt1, vt2, bary(t0, t1, t2, a * SCALE, b * SCALE))
                    } else {
                        old(target).pixels()[(a, b)]
                    } by {}
                assert forall|a: int, b: int|
                    0 <= a < gw && 0 <= b < gh implies #[trigger] zbuf_grid(*z_buffer)[(a, b)]
                        == if tri_writes(t0, t1, t2, gw, gh, zold, a, b) && (a < x as int || (a
                        == x as int && b < y as int + 1)) {
                        tri_depth(t0, t1, t2, a, b) as i64
                    } else {
                        zold[(a, b)]
                    } by {}
            }
            y = y + 1;
        }
        x = x + 1;
    }
}

pub(crate) fn cell_i32(c: i64) -> (r: i32)
    requires
        -TRI_COORD_LIM <= c <= TRI_COORD_LIM,
    ensures
        r as int == cell(c as int),
{
    proof {
        lemma_tdiv_range(c as int, SCALE as int, 0x7fff_0000int);
    }
    crate::fixed::div_i64(c, SCALE) as i32
}

fn min_i32(a: i32, b: i32) -> (r: i32)
    ensures
        r as int == imin(a as int, b as int),
{
    if a <= b {
        a
    } else {
        b
    }
}

fn max_i32(a: i32, b: i32) -> (r: i32)
    ensures
        r as int == imax(a as int, b as int),
{
    if a >= b {
        a
    } else {
        b
    }
}

/// At a non-degenerate triangle's own corners the barycentric coordinates
/// are exactly `(1, 0, 0)`, `(0, 1, 0)` and `(0, 0, 1)` (scaled by `SCALE`).
pub proof fn lemma_bary_at_vertices(t0: (int, int, int), t1: (int, int, int), t2: (int, int, int))
    requires
        !tri_degenerate(t0, t1, t2),
    ensures
        bary(t0, t1, t2, t0.0, t0.1) == (SCALE as int, 0int, 0int),
        bary(t0, t1, t2, t1.0, t1.1) == (0int, SCALE as int, 0int),
        bary(t0, t1, t2, t2.0, t2.1) == (0int, 0int, SCALE as int),
{
    let a1 = t2.0 - t0.0;
    let a2 = t1.0 - t0.0;
    let b1 = t2.1 - t0.1;
    let b2 = t1.1 - t0.1;
    let uz = tri_uz(t0, t1, t2);
    assert(uz != 0);
    assert(tdiv(uz * SCALE, uz) == SCALE as int) by (nonlinear_arith)
        requires
            uz != 0,
    ;
    // At t0 the point offsets vanish, so both numerators are zero.
    assert(bary(t0, t1, t2, t0.0, t0.1) == (SCALE as int, 0int, 0int));
    // At t1 the offset equals the edge to t1, so gamma's numerator cancels
    // and beta's numerator equals the doubled area itself.
    assert(a2 * (t0.1 - t1.1) - (t0.0 - t1.0) * b2 == 0) by (nonlinear_arith)
        requires
            a2 == t1.0 - t0.0,
            b2 == t1.1 - t0.1,
    ;
    assert((t0.0 - t1.0) * b1 - a1 * (t0.1 - t1.1) == uz) by (nonlinear_arith)
        requires
            a1 == t2.0 - t0.0,
            a2 == t1.0 - t0.0,
            b1 == t2.1 - t0.1,
            b2 == t1.1 - t0.1,
            uz == a1 * b2 - a2 * b1,
    ;
    assert(bary(t0, t1, t2, t1.0, t1.1) == (0int, SCALE as int, 0int));
    // At t2 the roles swap: gamma's numerator is the doubled area.
    assert(a2 * (t0.1 - t2.1) - (t0.0 - t2.0) * b2 == uz) by (nonlinear_arith)
        requires
            a1 == t2.0 - t0.0,
            a2 == t1.0 - t0.0,
            b1 == t2.1 - t0.1,
            b2 == t1.1 - t0.1,
            uz == a1 * b2 - a2 * b1,
    ;
    assert((t0.0 - t2.0) * b1 - a1 * (t0.1 - t2.1) == 0) by (nonlinear_arith)
        requires
            a1 == t2.0 - t0.0,
            b1 == t2.1 - t0.1,
    ;
    assert(bary(t0, t1, t2, t2.0, t2.1) == (0int, 0int, SCALE as int));
}

/// Every pixel the triangle writes is accepted by all three barycentric
/// coordinates and lies inside the clamped bounding box.
pub proof fn lemma_tri_writes_inside(
    t0: (int, int, int),
    t1: (int, int, int),
    t2: (int, int, int),
    w: int,
    h: int,
    zold: Map<(int, int), i64>,
    x: int,
    y: int,
)
    requires
        tri_writes(t0, t1, t2, w, h, zold, x, y),
    ensures
        bary_accepts(t0, t1, t2, x * SCALE, y * SCALE),
        tri_bbox(t0, t1, t2, w, h).0 <= x < tri_bbox(t0, t1, t2, w, h).1,
        tri_bbox(t0, t1, t2, w, h).2 <= y < tri_bbox(t0, t1, t2, w, h).3,
{
}

/// A triangle whose corners are collinear on screen (zero doubled area)
/// writes no pixel at all.
pub proof fn lemma_degenerate_no_writes(
    t0: (int, int, int),
    t1: (int, int, int),
    t2: (int, int, int),
    w: int,
    h: int,
    zold: Map<(int, int), i64>,
)
    requires
        tri_uz(t0, t1, t2) == 0,
    ensures
        forall|x: int, y: int| !tri_writes(t0, t1, t2, w, h, zold, x, y),
{
    assert forall|x: int, y: int| !tri_writes(t0, t1, t2, w, h, zold, x, y) by {
        assert(tri_degenerate(t0, t1, t2));
        assert(!bary_accepts(t0, t1, t2, x * SCALE, y * SCALE));
    }
}

/// The colour-and-depth state of one pixel after one triangle's depth-tested
/// write: the triangle takes the pixel exactly when it covers it and is
/// strictly nearer than the stored depth.
pub open spec fn tri_pixel_step(
    t0: (int, int, int),
    t1: (int, int, int),
    t2: (int, int, int),
    colour: Colour,
    line_colour: Colour,
    vt0: Option<usize>,
    vt1: Option<usize>,
    vt2: Option<usize>,
    w: int,
    h: int,
    x: int,
    y: int,
    s: (Colour, int),
) -> (Colour, int) {
    if tri_covers(t0, t1, t2, w, h, x, y) && tri_depth(t0, t1, t2, x, y) < s.1 {
        (
            tri_pixel_colour(colour, line_colour, vt0, vt1, vt2, bary(t0, t1, t2, x * SCALE, y * SCALE)),
            tri_depth(t0, t1, t2, x, y),
        )
    } else {
        s
    }
}

/// Two triangles drawn to the same pixel in either order leave the same
/// colour and depth, provided their interpolated depths differ wherever
/// both cover the pixel: the nearer one wins regardless of draw order.
pub proof fn lemma_draw_order_independent(
    a0: (int, int, int),
    a1: (int, int, int),
    a2: (int, int, int),
    ca: Colour,
    la: Colour,
    vta0: Option<usize>,
    vta1: Option<usize>,
    vta2: Option<usize>,
    b0: (int, int, int),
    b1: (int, int, int),
    b2: (int, int, int),
    cb: Colour,
    lb: Colour,
    vtb0: Option<usize>,
    vtb1: Option<usize>,
    vtb2: Option<usize>,
    w: int,
    h: int,
    x: int,
    y: int,
    s: (Colour, int),
)
    requires
        tri_covers(a0, a1, a2, w, h, x, y) && tri_covers(b0, b1, b2, w, h, x, y) ==> tri_depth(
            a0,
            a1,
            a2,
            x,
            y,
        ) != tri_depth(b0, b1, b2, x, y),
    ensures
        tri_pixel_step(
            b0,
            b1,
            b2,
            cb,
            lb,
            vtb0,
            vtb1,
            vtb2,
            w,
            h,
            x,
            y,
            tri_pixel_step(a0, a1, a2, ca, la, vta0, vta1, vta2, w, h, x, y, s),
        ) == tri_pixel_step(
            a0,
            a1,
            a2,
            ca,
            la,
            vta0,
            vta1,
            vta2,
            w,
            h,
            x,
            y,
            tri_pixel_step(b0, b1, b2, cb, lb, vtb0, vtb1, vtb2, w, h, x, y, s),
        ),
{
}

} // verus!
