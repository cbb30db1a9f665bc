//! The scene renderer: per-face transform, flat shading and mode dispatch.
//!
//! Every step — rotation, look-at view, perspective projection, viewport
//! scaling, homogeneous divide, shading and rasterization — has a spec-level
//! mirror, and `render_scene`'s contract states the whole frame as a fold of
//! per-face steps over those mirrors.

use vstd::prelude::*;

use crate::drawing::{
    cell, line_covers, tri_depth, tri_pixel_colour, tri_writes, bary, draw_line, draw_triangle,
    DIM_LIM,
};
use crate::drawing_target::{lemma_scale_channel_range, scale_channel, Colour, DrawingTarget};
use crate::fixed::{lemma_tdiv_range, sqrt_floor, tdiv, SCALE};
use crate::matrix::{lemma_mul_point_bounded, m44_bounded, p4_bounded, Matrix44};
use crate::model::{Face, Model, Vertex};
use crate::point::{p3_bounded, Point2, Point3, Point4, FX_OP_LIM};
use crate::zbuffer::{zbuf_cols, zbuf_grid, zbuf_new, zbuf_rows};

verus! {

/// A 4x4 matrix as a spec-level tuple of rows.
pub type M4 = ((int, int, int, int), (int, int, int, int), (int, int, int, int), (int, int, int, int));

/// The fixed-point product of a matrix row with a homogeneous point.
pub open spec fn rc4(r: (int, int, int, int), p: (int, int, int, int)) -> int {
    tdiv(p.0 * r.0 + p.1 * r.1 + p.2 * r.2 + p.3 * r.3, SCALE as int)
}

/// A spec matrix applied to a homogeneous point.
pub open spec fn mul4_point(a: M4, p: (int, int, int, int)) -> (int, int, int, int) {
    (rc4(a.0, p), rc4(a.1, p), rc4(a.2, p), rc4(a.3, p))
}

/// The rows of an executable matrix.
pub open spec fn m44_tup(m: Matrix44) -> M4 {
    (
        (m.at(0, 0), m.at(0, 1), m.at(0, 2), m.at(0, 3)),
        (m.at(1, 0), m.at(1, 1), m.at(1, 2), m.at(1, 3)),
        (m.at(2, 0), m.at(2, 1), m.at(2, 2), m.at(2, 3)),
        (m.at(3, 0), m.at(3, 1), m.at(3, 2), m.at(3, 3)),
    )
}

pub open spec fn sub3(a: (int, int, int), b: (int, int, int)) -> (int, int, int) {
    (a.0 - b.0, a.1 - b.1, a.2 - b.2)
}

/// The fixed-point cross product of two spec vectors.
pub open spec fn cross3_spec(a: (int, int, int), b: (int, int, int)) -> (int, int, int) {
    (
        tdiv(a.1 * b.2 - a.2 * b.1, SCALE as int),
        tdiv(a.2 * b.0 - a.0 * b.2, SCALE as int),
        tdiv(a.0 * b.1 - a.1 * b.0, SCALE as int),
    )
}

/// The fixed-point dot product of two spec vectors.
pub open spec fn dot3_spec(a: (int, int, int), b: (int, int, int)) -> int {
    tdiv(a.0 * b.0 + a.1 * b.1 + a.2 * b.2, SCALE as int)
}

/// The vector scaled to fixed-point unit length; the zero vector maps to
/// itself.
pub open spec fn norm3_spec(v: (int, int, int)) -> (int, int, int) {
    if v.0 == 0 && v.1 == 0 && v.2 == 0 {
        (0, 0, 0)
    } else {
        let len = sqrt_floor(v.0 * v.0 + v.1 * v.1 + v.2 * v.2);
        (tdiv(v.0 * SCALE, len), tdiv(v.1 * SCALE, len), tdiv(v.2 * SCALE, len))
    }
}

/// The homogeneous divide, guarded: `None` when `w` is zero or a divided
/// coordinate leaves the rasterizer's accepted range.
pub open spec fn try_affine_spec(p: (int, int, int, int)) -> Option<(int, int, int)> {
    if p.3 == 0 {
        None
    } else {
        let x = tdiv(p.0 * SCALE, p.3);
        let y = tdiv(p.1 * SCALE, p.3);
        let z = tdiv(p.2 * SCALE, p.3);
        if -(FX_OP_LIM as int) <= x <= FX_OP_LIM as int && -(FX_OP_LIM as int) <= y
            <= FX_OP_LIM as int && -(FX_OP_LIM as int) <= z <= FX_OP_LIM as int {
            Some((x, y, z))
        } else {
            None
        }
    }
}

/// A colour with each channel scaled by the fixed-point intensity `t`.
pub open spec fn colour_scale_spec(c: Colour, t: int) -> Colour {
    Colour {
        r: scale_channel(c.r as int, t) as u8,
        g: scale_channel(c.g as int, t) as u8,
        b: scale_channel(c.b as int, t) as u8,
    }
}

/// The screen cell of a screen-space point's first two coordinates.
pub open spec fn cell2(s: (int, int, int)) -> (int, int) {
    (cell(s.0), cell(s.1))
}

/// Whether one of the triangle's three edges, drawn as lines between the
/// truncated screen cells of its corners, writes the pixel `q`.
pub open spec fn wire_covers(
    s0: (int, int, int),
    s1: (int, int, int),
    s2: (int, int, int),
    q: (int, int),
) -> bool {
    line_covers(cell2(s0), cell2(s1), q) || line_covers(cell2(s1), cell2(s2), q) || line_covers(
        cell2(s2),
        cell2(s0),
        q,
    )
}

/// The render mode chosen once per render call and applied to every face.
#[derive(Debug, PartialEq, Eq, Structural, Clone, Copy)]
pub enum RenderMode {
    Wireframe,
    Solid,
}

/// The scene-wide data a frame is a function of.
pub struct SceneParams {
    pub mode: RenderMode,
    pub colour: Colour,
    pub reverse_colour: Colour,
    pub rot: M4,
    pub view: M4,
    pub proj: M4,
    pub scale: M4,
    pub light: (int, int, int),
    pub w: int,
    pub h: int,
}

/// The colour and depth maps of a frame in flight.
pub type ScState = (Map<(int, int), Colour>, Map<(int, int), i64>);

/// A world-space point carried to screen space: viewed, projected, scaled,
/// then divided by `w` under the guard.
pub open spec fn screen_of(p: SceneParams, world: (int, int, int)) -> Option<(int, int, int)> {
    try_affine_spec(
        mul4_point(
            p.scale,
            mul4_point(p.proj, mul4_point(p.view, (world.0, world.1, world.2, SCALE as int))),
        ),
    )
}

/// One face drawn in the chosen mode: wireframe edges without depth, or a
/// depth-tested barycentric fill.
pub open spec fn mode_step(
    p: SceneParams,
    col: Colour,
    s0: (int, int, int),
    s1: (int, int, int),
    s2: (int, int, int),
    st: ScState,
) -> ScState {
    match p.mode {
        RenderMode::Wireframe => (
            Map::new(
                |k: (int, int)| 0 <= k.0 < p.w && 0 <= k.1 < p.h,
                |k: (int, int)|
                    if wire_covers(s0, s1, s2, k) {
                        col
                    } else {
                        st.0[k]
                    },
            ),
            st.1,
        ),
        RenderMode::Solid => (
            Map::new(
                |k: (int, int)| 0 <= k.0 < p.w && 0 <= k.1 < p.h,
                |k: (int, int)|
                    if tri_writes(s0, s1, s2, p.w, p.h, st.1, k.0, k.1) {
                        col
                    } else {
                        st.0[k]
                    },
            ),
            Map::new(
                |k: (int, int)| 0 <= k.0 < p.w && 0 <= k.1 < p.h,
                |k: (int, int)|
                    if tri_writes(s0, s1, s2, p.w, p.h, st.1, k.0, k.1) {
                        tri_depth(s0, s1, s2, k.0, k.1) as i64
                    } else {
                        st.1[k]
                    },
            ),
        ),
    }
}

/// What one face contributes to the frame, given its three model-space
/// corner positions: rotate to world space, shade by the face normal
/// against the light, skip degenerate, edge-on or unprojectable faces, and
/// draw in the chosen mode.
pub open spec fn face_points_step(
    p: SceneParams,
    a0: (int, int, int),
    a1: (int, int, int),
    a2: (int, int, int),
    st: ScState,
) -> ScState {
    let w0 = mul4_point(p.rot, (a0.0, a0.1, a0.2, SCALE as int));
    let w1 = mul4_point(p.rot, (a1.0, a1.1, a1.2, SCALE as int));
    let w2 = mul4_point(p.rot, (a2.0, a2.1, a2.2, SCALE as int));
    let world0 = (w0.0, w0.1, w0.2);
    let world1 = (w1.0, w1.1, w1.2);
    let world2 = (w2.0, w2.1, w2.2);
    let n_raw = cross3_spec(sub3(world2, world0), sub3(world1, world0));
    if n_raw.0 == 0 && n_raw.1 == 0 && n_raw.2 == 0 {
        st
    } else {
        let intensity = dot3_spec(norm3_spec(n_raw), p.light);
        if intensity == 0 {
            st
        } else {
            let col = if intensity > 0 {
                colour_scale_spec(p.colour, intensity)
            } else {
                colour_scale_spec(p.reverse_colour, -intensity)
            };
            match (screen_of(p, world0), screen_of(p, world1), screen_of(p, world2)) {
                (Some(s0), Some(s1), Some(s2)) => mode_step(p, col, s0, s1, s2, st),
                _ => st,
            }
        }
    }
}

/// What one face of the mesh contributes to the frame.
pub open spec fn face_step(p: SceneParams, verts: Seq<Vertex>, st: ScState, face: Face) -> ScState {
    let v0 = verts[face.i0 as int];
    let v1 = verts[face.i1 as int];
    let v2 = verts[face.i2 as int];
    face_points_step(
        p,
        (v0.x as int, v0.y as int, v0.z as int),
        (v1.x as int, v1.y as int, v1.z as int),
        (v2.x as int, v2.y as int, v2.z as int),
        st,
    )
}

/// The frame after the first `n` faces.
pub open spec fn scene_fold(
    p: SceneParams,
    verts: Seq<Vertex>,
    faces: Seq<Face>,
    init: ScState,
    n: int,
) -> ScState
    decreases n,
{
    if n <= 0 {
        init
    } else {
        face_step(p, verts, scene_fold(p, verts, faces, init, n - 1), faces[n - 1])
    }
}

/// The look-at view matrix from camera position, target point and up
/// vector: the normalised target direction, a right axis from the up
/// vector, the completing up axis, and the eye translations.
pub open spec fn view_spec(eye: (int, int, int), target: (int, int, int), up: (int, int, int)) -> M4 {
    let z = norm3_spec(sub3(target, eye));
    let x = norm3_spec(cross3_spec(up, z));
    let y = cross3_spec(z, x);
    (
        (x.0, x.1, x.2, -dot3_spec(x, eye)),
        (y.0, y.1, y.2, -dot3_spec(y, eye)),
        (z.0, z.1, z.2, -dot3_spec(z, eye)),
        (0, 0, 0, SCALE as int),
    )
}

/// The perspective projection matrix from the near and far distances and
/// the near plane's half extents.
pub open spec fn proj_spec(near: int, far: int, nw: int, nh: int) -> M4 {
    (
        (tdiv(near * SCALE, nw), 0, 0, 0),
        (0, tdiv(near * SCALE, nh), 0, 0),
        (0, 0, tdiv(far * SCALE, far - near), -tdiv(far * near, far - near)),
        (0, 0, SCALE as int, 0),
    )
}

/// The viewport scaling matrix for a raw fixed-point width and height.
pub open spec fn scale_spec(w: int, h: int) -> M4 {
    (
        (w, 0, 0, tdiv(w, 2)),
        (0, h, 0, tdiv(h, 2)),
        (0, 0, SCALE as int, 0),
        (0, 0, 0, SCALE as int),
    )
}

/// The rotation about the vertical axis with the given fixed-point cosine
/// and sine.
pub open spec fn rot_y_spec(c: int, s: int) -> M4 {
    ((c, 0, s, 0), (0, SCALE as int, 0, 0), (-s, 0, c, 0), (0, 0, 0, SCALE as int))
}

/// The camera position every frame is rendered from.
pub open spec fn camera_spec() -> (int, int, int) {
    (2 * SCALE as int, SCALE as int, 5 * SCALE as int)
}

/// The headlamp light direction: the normalised camera direction.
pub open spec fn light_spec() -> (int, int, int) {
    norm3_spec(camera_spec())
}

/// Normalises a vector, mapping the zero vector to itself.
fn normalise3(v: Point3) -> (r: Point3)
    requires
        p3_bounded(v, FX_OP_LIM as int),
    ensures
        (r.x as int, r.y as int, r.z as int) == norm3_spec((v.x as int, v.y as int, v.z as int)),
        p3_bounded(r, SCALE as int),
{
    if v.x == 0 && v.y == 0 && v.z == 0 {
        Point3::new(0, 0, 0)
    } else {
        v.normalise()
    }
}

/// The look-at view matrix, built with fixed-point vector algebra.
pub fn look_at_lh(eye: Point3, target: Point3, up: Point3) -> (r: Matrix44)
    requires
        p3_bounded(eye, 0x8_0000),
        p3_bounded(target, 0x8_0000),
        p3_bounded(up, 0x8_0000),
    ensures
        m44_tup(r) == view_spec(
            (eye.x as int, eye.y as int, eye.z as int),
            (target.x as int, target.y as int, target.z as int),
            (up.x as int, up.y as int, up.z as int),
        ),
        m44_bounded(r, 0x40_0000),
{
    let zaxis = normalise3(target.sub(eye));
    proof {
        lemma_cross_bound(up, zaxis, 0x8_0000, SCALE as int, 0x10_0000);
    }
    let xaxis = normalise3(up.cross(&zaxis));
    proof {
        lemma_cross_bound(zaxis, xaxis, SCALE as int, SCALE as int, 0x2_0000);
    }
    let yaxis = zaxis.cross(&xaxis);
    proof {
        lemma_dot_bound(xaxis, eye, 0x2_0000, 0x8_0000, 0x40_0000);
        lemma_dot_bound(yaxis, eye, 0x2_0000, 0x8_0000, 0x40_0000);
        lemma_dot_bound(zaxis, eye, 0x2_0000, 0x8_0000, 0x40_0000);
    }
    let tx = -xaxis.dot(&eye);
    let ty = -yaxis.dot(&eye);
    let tz = -zaxis.dot(&eye);
    let r = Matrix44 {
        m: [
            [xaxis.x, xaxis.y, xaxis.z, tx],
            [yaxis.x, yaxis.y, yaxis.z, ty],
            [zaxis.x, zaxis.y, zaxis.z, tz],
            [0, 0, 0, SCALE],
        ],
    };
    r
}

/// Bounds on two vectors bound their fixed-point dot product.
proof fn lemma_dot_bound(a: Point3, b: Point3, la: int, lb: int, m: int)
    requires
        p3_bounded(a, la),
        p3_bounded(b, lb),
        0 <= la,
        0 <= lb,
        3 * (la * lb) <= m * SCALE,
        0 <= m,
    ensures
        -m <= crate::point::dot_spec(a, b) <= m,
{
    crate::fixed::lemma_mul_bounds(a.x as int, b.x as int, la, lb);
    crate::fixed::lemma_mul_bounds(a.y as int, b.y as int, la, lb);
    crate::fixed::lemma_mul_bounds(a.z as int, b.z as int, la, lb);
    lemma_tdiv_range(a.x * b.x + a.y * b.y + a.z * b.z, SCALE as int, m);
}

/// Bounds on two vectors bound their fixed-point cross product.
proof fn lemma_cross_bound(a: Point3, b: Point3, la: int, lb: int, m: int)
    requires
        p3_bounded(a, la),
        p3_bounded(b, lb),
        0 <= la,
        0 <= lb,
        2 * (la * lb) <= m * SCALE,
        0 <= m,
    ensures
        -m <= Point3::cross_comp(a.y as int, b.z as int, a.z as int, b.y as int) <= m,
        -m <= Point3::cross_comp(a.z as int, b.x as int, a.x as int, b.z as int) <= m,
        -m <= Point3::cross_comp(a.x as int, b.y as int, a.y as int, b.x as int) <= m,
{
    crate::fixed::lemma_mul_bounds(a.x as int, b.y as int, la, lb);
    crate::fixed::lemma_mul_bounds(a.y as int, b.x as int, la, lb);
    crate::fixed::lemma_mul_bounds(a.y as int, b.z as int, la, lb);
    crate::fixed::lemma_mul_bounds(a.z as int, b.y as int, la, lb);
    crate::fixed::lemma_mul_bounds(a.z as int, b.x as int, la, lb);
    crate::fixed::lemma_mul_bounds(a.x as int, b.z as int, la, lb);
    lemma_tdiv_range(a.y * b.z - a.z * b.y, SCALE as int, m);
    lemma_tdiv_range(a.z * b.x - a.x * b.z, SCALE as int, m);
    lemma_tdiv_range(a.x * b.y - a.y * b.x, SCALE as int, m);
}

/// The perspective projection matrix; all parameters are raw fixed-point.
pub fn projection_matrix(near: i64, far: i64, near_width: i64, near_height: i64) -> (r: Matrix44)
    requires
        0 < near < far,
        far <= 0x100_0000,
        0 < near_width <= 0x100_0000,
        0 < near_height <= 0x100_0000,
    ensures
        m44_tup(r) == proj_spec(near as int, far as int, near_width as int, near_height as int),
{
    proof {
        crate::fixed::lemma_mul_bounds(near as int, SCALE as int, 0x100_0000, SCALE as int);
        crate::fixed::lemma_mul_bounds(far as int, SCALE as int, 0x100_0000, SCALE as int);
        crate::fixed::lemma_mul_bounds(far as int, near as int, 0x100_0000, 0x100_0000);
        lemma_tdiv_range(near as int * SCALE as int, near_width as int, 0x100_0000 * SCALE as int);
        lemma_tdiv_range(near as int * SCALE as int, near_height as int, 0x100_0000 * SCALE as int);
        lemma_tdiv_range(far as int * SCALE as int, (far - near) as int, 0x100_0000 * SCALE as int);
        lemma_tdiv_range(far as int * near as int, (far - near) as int, 0x1_0000_0000_0000int);
    }
    let m00 = crate::fixed::div_i64(near * SCALE, near_width);
    let m11 = crate::fixed::div_i64(near * SCALE, near_height);
    let m22 = crate::fixed::div_i64(far * SCALE, far - near);
    let m23 = -crate::fixed::div_i64(far * near, far - near);
    Matrix44 {
        m: [
            [m00, 0, 0, 0],
            [0, m11, 0, 0],
            [0, 0, m22, m23],
            [0, 0, SCALE, 0],
        ],
    }
}

/// The viewport scaling matrix; width and height are raw fixed-point.
pub fn scaling_matrix(width: i64, height: i64) -> (r: Matrix44)
    requires
        0 <= width <= 0x8000_0000,
        0 <= height <= 0x8000_0000,
    ensures
        m44_tup(r) == scale_spec(width as int, height as int),
        m44_bounded(r, 0x8000_0000),
{
    proof {
        lemma_tdiv_range(width as int, 2, 0x8000_0000);
        lemma_tdiv_range(height as int, 2, 0x8000_0000);
    }
    let hw = crate::fixed::div_i64(width, 2);
    let hh = crate::fixed::div_i64(height, 2);
    Matrix44 {
        m: [
            [width, 0, 0, hw],
            [0, height, 0, hh],
            [0, 0, SCALE, 0],
            [0, 0, 0, SCALE],
        ],
    }
}

/// The rotation about the vertical axis with the given fixed-point cosine
/// and sine.
pub fn rotation_y(c: i64, s: i64) -> (r: Matrix44)
    requires
        -SCALE <= c <= SCALE,
        -SCALE <= s <= SCALE,
    ensures
        m44_tup(r) == rot_y_spec(c as int, s as int),
        m44_bounded(r, SCALE as int),
{
    Matrix44 {
        m: [
            [c, 0, s, 0],
            [0, SCALE, 0, 0],
            [-s, 0, c, 0],
            [0, 0, 0, SCALE],
        ],
    }
}

/// The guarded homogeneous divide, exactly `try_affine_spec`.
pub fn try_to_affine(p: Point4) -> (r: Option<Point3>)
    requires
        p4_bounded(p, 0x80_0000_0000_0000),
    ensures
        match r {
            Some(q) => try_affine_spec((p.x as int, p.y as int, p.z as int, p.w as int)) == Some(
                (q.x as int, q.y as int, q.z as int),
            ) && p3_bounded(q, FX_OP_LIM as int),
            None => try_affine_spec((p.x as int, p.y as int, p.z as int, p.w as int)) is None,
        },
{
    if p.w == 0 {
        return None;
    }
    proof {
        crate::fixed::lemma_mul_bounds(p.x as int, SCALE as int, 0x80_0000_0000_0000, SCALE as int);
        crate::fixed::lemma_mul_bounds(p.y as int, SCALE as int, 0x80_0000_0000_0000, SCALE as int);
        crate::fixed::lemma_mul_bounds(p.z as int, SCALE as int, 0x80_0000_0000_0000, SCALE as int);
    }
    let x = crate::fixed::div_i128((p.x as i128) * (SCALE as i128), p.w as i128);
    let y = crate::fixed::div_i128((p.y as i128) * (SCALE as i128), p.w as i128);
    let z = crate::fixed::div_i128((p.z as i128) * (SCALE as i128), p.w as i128);
    let lim: i128 = FX_OP_LIM as i128;
    if -lim <= x && x <= lim && -lim <= y && y <= lim && -lim <= z && z <= lim {
        Some(Point3::new(x as i64, y as i64, z as i64))
    } else {
        None
    }
}

impl RenderMode {
    /// Draws one shaded face in this mode: wireframe edges as depth-free
    /// lines between the truncated corner cells, or a depth-tested fill.
    pub fn draw_triangle<T: DrawingTarget>(
        &self,
        target: &mut T,
        z_buffer: &mut array2d::Array2D<i64>,
        colour: Colour,
        p0: Point3,
        p1: Point3,
        p2: Point3,
    )
        requires
            old(target).inv(),
            p3_bounded(p0, FX_OP_LIM as int),
            p3_bounded(p1, FX_OP_LIM as int),
            p3_bounded(p2, FX_OP_LIM as int),
            old(target).width_spec() <= DIM_LIM,
            old(target).height_spec() <= DIM_LIM,
            zbuf_rows(*old(z_buffer)) == old(target).width_spec(),
            zbuf_cols(*old(z_buffer)) == old(target).height_spec(),
        ensures
            final(target).inv(),
            final(target).width_spec() == old(target).width_spec(),
            final(target).height_spec() == old(target).height_spec(),
            zbuf_rows(*final(z_buffer)) == zbuf_rows(*old(z_buffer)),
            zbuf_cols(*final(z_buffer)) == zbuf_cols(*old(z_buffer)),
            *self is Wireframe ==> zbuf_grid(*final(z_buffer)) == zbuf_grid(*old(z_buffer)),
            *self is Wireframe ==> forall|x: int, y: int|
                0 <= x < old(target).width_spec() && 0 <= y < old(target).height_spec()
                    ==> #[trigger] final(target).pixels()[(x, y)] == if wire_covers(
                    (p0.x as int, p0.y as int, p0.z as int),
                    (p1.x as int, p1.y as int, p1.z as int),
                    (p2.x as int, p2.y as int, p2.z as int),
                    (x, y),
                ) {
                    colour
                } else {
                    old(target).pixels()[(x, y)]
                },
            *self is Solid ==> forall|x: int, y: int|
                0 <= x < old(target).width_spec() && 0 <= y < old(target).height_spec()
                    ==> #[trigger] final(target).pixels()[(x, y)] == if tri_writes(
                    (p0.x as int, p0.y as int, p0.z as int),
                    (p1.x as int, p1.y as int, p1.z as int),
                    (p2.x as int, p2.y as int, p2.z as int),
                    old(target).width_spec(),
                    old(target).height_spec(),
                    zbuf_grid(*old(z_buffer)),
                    x,
                    y,
                ) {
                    colour
                } else {
                    old(target).pixels()[(x, y)]
                },
            *self is Solid ==> forall|x: int, y: int|
                0 <= x < old(target).width_spec() && 0 <= y < old(target).height_spec()
                    ==> #[trigger] zbuf_grid(*final(z_buffer))[(x, y)] == if tri_writes(
                    (p0.x as int, p0.y as int, p0.z as int),
                    (p1.x as int, p1.y as int, p1.z as int),
                    (p2.x as int, p2.y as int, p2.z as int),
                    old(target).width_spec(),
                    old(target).height_spec(),
                    zbuf_grid(*old(z_buffer)),
                    x,
                    y,
                ) {
                    tri_depth(
                        (p0.x as int, p0.y as int, p0.z as int),
                        (p1.x as int, p1.y as int, p1.z as int),
                        (p2.x as int, p2.y as int, p2.z as int),
                        x,
                        y,
                    ) as i64
                } else {
                    zbuf_grid(*old(z_buffer))[(x, y)]
                },
    {
        match self {
            RenderMode::Wireframe => {
                proof {
                    lemma_tdiv_range(p0.x as int, SCALE as int, 0x40_0000);
                    lemma_tdiv_range(p0.y as int, SCALE as int, 0x40_0000);
                    lemma_tdiv_range(p1.x as int, SCALE as int, 0x40_0000);
                    lemma_tdiv_range(p1.y as int, SCALE as int, 0x40_0000);
                    lemma_tdiv_range(p2.x as int, SCALE as int, 0x40_0000);
                    lemma_tdiv_range(p2.y as int, SCALE as int, 0x40_0000);
                }
                let a0 = Point2::new(crate::drawing::cell_i32(p0.x), crate::drawing::cell_i32(p0.y));
                let a1 = Point2::new(crate::drawing::cell_i32(p1.x), crate::drawing::cell_i32(p1.y));
                let a2 = Point2::new(crate::drawing::cell_i32(p2.x), crate::drawing::cell_i32(p2.y));
                draw_line(target, colour, a0, a1);
                draw_line(target, colour, a1, a2);
                draw_line(target, colour, a2, a0);
            },
            RenderMode::Solid => {
                draw_triangle(target, z_buffer, colour, colour, p0, p1, p2, None, None, None);
                proof {
                    assert forall|b: (int, int, int)| #[trigger] tri_pixel_colour(
                        colour,
                        colour,
                        None,
                        None,
                        None,
                        b,
                    ) == colour by {}
                }
            },
        }
    }
}

/// Transforms, shades and draws one face; the target and depth grid move
/// from the abstract state `st` to `face_points_step` of it.
#[verifier::loop_isolation(false)]
#[verifier::rlimit(100)]
fn render_face<T: DrawingTarget>(
    target: &mut T,
    z_buffer: &mut array2d::Array2D<i64>,
    rotation_matrix: Matrix44,
    model_view: Matrix44,
    projection: Matrix44,
    scaling: Matrix44,
    light: Point3,
    colour: Colour,
    reverse_colour: Colour,
    render_mode: RenderMode,
    v0: Point3,
    v1: Point3,
    v2: Point3,
    Ghost(params): Ghost<SceneParams>,
    Ghost(st): Ghost<ScState>,
)
    requires
        old(target).inv(),
        old(target).width_spec() == params.w,
        old(target).height_spec() == params.h,
        0 <= params.w <= 0x8000,
        0 <= params.h <= 0x8000,
        zbuf_rows(*old(z_buffer)) == params.w,
        zbuf_cols(*old(z_buffer)) == params.h,
        params.mode == render_mode,
        params.colour == colour,
        params.reverse_colour == reverse_colour,
        params.rot == m44_tup(rotation_matrix),
        params.view == m44_tup(model_view),
        params.proj == m44_tup(projection),
        params.scale == m44_tup(scaling),
        params.light == (light.x as int, light.y as int, light.z as int),
        p3_bounded(light, SCALE as int),
        m44_bounded(rotation_matrix, SCALE as int),
        m44_bounded(model_view, 0x40_0000),
        m44_bounded(projection, 0x4_0000),
        m44_bounded(scaling, 0x8000_0000),
        p3_bounded(v0, 0x40_0000),
        p3_bounded(v1, 0x40_0000),
        p3_bounded(v2, 0x40_0000),
        forall|x: int, y: int|
            0 <= x < params.w && 0 <= y < params.h ==> #[trigger] old(target).pixels()[(x, y)]
                == st.0[(x, y)],
        forall|x: int, y: int|
            0 <= x < params.w && 0 <= y < params.h ==> #[trigger] zbuf_grid(*old(z_buffer))[
                (x, y)] == st.1[(x, y)],
    ensures
        final(target).inv(),
        final(target).width_spec() == params.w,
        final(target).height_spec() == params.h,
        zbuf_rows(*final(z_buffer)) == params.w,
        zbuf_cols(*final(z_buffer)) == params.h,
        forall|x: int, y: int|
            0 <= x < params.w && 0 <= y < params.h ==> #[trigger] final(target).pixels()[(x, y)]
                == face_points_step(
                params,
                (v0.x as int, v0.y as int, v0.z as int),
                (v1.x as int, v1.y as int, v1.z as int),
                (v2.x as int, v2.y as int, v2.z as int),
                st,
            ).0[(x, y)],
        forall|x: int, y: int|
            0 <= x < params.w && 0 <= y < params.h ==> #[trigger] zbuf_grid(*final(z_buffer))[
                (x, y)] == face_points_step(
                params,
                (v0.x as int, v0.y as int, v0.z as int),
                (v1.x as int, v1.y as int, v1.z as int),
                (v2.x as int, v2.y as int, v2.z as int),
                st,
            ).1[(x, y)],
{
    let h0 = v0.to_homog();
    let h1 = v1.to_homog();
    let h2 = v2.to_homog();
    let w0_4 = rotation_matrix.mul_point(h0);
    let w1_4 = rotation_matrix.mul_point(h1);
    let w2_4 = rotation_matrix.mul_point(h2);
    proof {
        lemma_mul_point_bounded(rotation_matrix, h0, w0_4, SCALE as int, 0x40_0000, 0x100_0000);
        lemma_mul_point_bounded(rotation_matrix, h1, w1_4, SCALE as int, 0x40_0000, 0x100_0000);
        lemma_mul_point_bounded(rotation_matrix, h2, w2_4, SCALE as int, 0x40_0000, 0x100_0000);
    }
    let world0 = Point3::new(w0_4.x, w0_4.y, w0_4.z);
    let world1 = Point3::new(w1_4.x, w1_4.y, w1_4.z);
    let world2 = Point3::new(w2_4.x, w2_4.y, w2_4.z);
    let e1 = world2.sub(world0);
    let e2 = world1.sub(world0);
    proof {
        lemma_cross_bound(e1, e2, 0x200_0000, 0x200_0000, 0x8_0000_0000);
    }
    let n_raw = e1.cross(&e2);
    proof {
        let gw0 = mul4_point(params.rot, (v0.x as int, v0.y as int, v0.z as int, SCALE as int));
        let gw1 = mul4_point(params.rot, (v1.x as int, v1.y as int, v1.z as int, SCALE as int));
        let gw2 = mul4_point(params.rot, (v2.x as int, v2.y as int, v2.z as int, SCALE as int));
        assert(world0.x == gw0.0 && world0.y == gw0.1 && world0.z == gw0.2);
        assert(world1.x == gw1.0 && world1.y == gw1.1 && world1.z == gw1.2);
        assert(world2.x == gw2.0 && world2.y == gw2.1 && world2.z == gw2.2);
        let gn = cross3_spec(
            sub3((gw2.0, gw2.1, gw2.2), (gw0.0, gw0.1, gw0.2)),
            sub3((gw1.0, gw1.1, gw1.2), (gw0.0, gw0.1, gw0.2)),
        );
        assert(n_raw.x == gn.0 && n_raw.y == gn.1 && n_raw.z == gn.2);
    }
    if n_raw.x == 0 && n_raw.y == 0 && n_raw.z == 0 {
        return;
    }
    let normal = n_raw.normalise();
    proof {
        lemma_dot_bound(normal, light, SCALE as int, SCALE as int, 3 * SCALE as int);
        assert((normal.x as int, normal.y as int, normal.z as int) == norm3_spec(
            (n_raw.x as int, n_raw.y as int, n_raw.z as int),
        ));
    }
    let intensity = normal.dot(&light);
    if intensity == 0 {
        return;
    }
    let colour_out = if intensity > 0 {
        colour.scale(intensity)
    } else {
        reverse_colour.scale(-intensity)
    };
    let ghost gcol = if intensity > 0 {
        colour_scale_spec(colour, intensity as int)
    } else {
        colour_scale_spec(reverse_colour, -(intensity as int))
    };
    proof {
        if intensity > 0 {
            lemma_scale_channel_range(colour.r as int, intensity as int);
            lemma_scale_channel_range(colour.g as int, intensity as int);
            lemma_scale_channel_range(colour.b as int, intensity as int);
        } else {
            lemma_scale_channel_range(reverse_colour.r as int, -(intensity as int));
            lemma_scale_channel_range(reverse_colour.g as int, -(intensity as int));
            lemma_scale_channel_range(reverse_colour.b as int, -(intensity as int));
        }
        assert(colour_out == gcol);
    }
    let hw0 = world0.to_homog();
    let hw1 = world1.to_homog();
    let hw2 = world2.to_homog();
    let q0 = model_view.mul_point(hw0);
    let q1 = model_view.mul_point(hw1);
    let q2 = model_view.mul_point(hw2);
    proof {
        lemma_mul_point_bounded(model_view, hw0, q0, 0x40_0000, 0x100_0000, 0x1_0000_0000);
        lemma_mul_point_bounded(model_view, hw1, q1, 0x40_0000, 0x100_0000, 0x1_0000_0000);
        lemma_mul_point_bounded(model_view, hw2, q2, 0x40_0000, 0x100_0000, 0x1_0000_0000);
    }
    let r0 = projection.mul_point(q0);
    let r1 = projection.mul_point(q1);
    let r2 = projection.mul_point(q2);
    proof {
        lemma_mul_point_bounded(projection, q0, r0, 0x4_0000, 0x1_0000_0000, 0x10_0000_0000);
        lemma_mul_point_bounded(projection, q1, r1, 0x4_0000, 0x1_0000_0000, 0x10_0000_0000);
        lemma_mul_point_bounded(projection, q2, r2, 0x4_0000, 0x1_0000_0000, 0x10_0000_0000);
    }
    let s0_4 = scaling.mul_point(r0);
    let s1_4 = scaling.mul_point(r1);
    let s2_4 = scaling.mul_point(r2);
    proof {
        lemma_mul_point_bounded(scaling, r0, s0_4, 0x8000_0000, 0x10_0000_0000, 0x20_0000_0000_0000);
        lemma_mul_point_bounded(scaling, r1, s1_4, 0x8000_0000, 0x10_0000_0000, 0x20_0000_0000_0000);
        lemma_mul_point_bounded(scaling, r2, s2_4, 0x8000_0000, 0x10_0000_0000, 0x20_0000_0000_0000);
    }
    let s0_opt = try_to_affine(s0_4);
    let s1_opt = try_to_affine(s1_4);
    let s2_opt = try_to_affine(s2_4);
    match (s0_opt, s1_opt, s2_opt) {
        (Some(s0), Some(s1), Some(s2)) => {
            render_mode.draw_triangle(target, z_buffer, colour_out, s0, s1, s2);
            proof {
                assert(face_points_step(
                    params,
                    (v0.x as int, v0.y as int, v0.z as int),
                    (v1.x as int, v1.y as int, v1.z as int),
                    (v2.x as int, v2.y as int, v2.z as int),
                    st,
                ) == mode_step(
                    params,
                    gcol,
                    (s0.x as int, s0.y as int, s0.z as int),
                    (s1.x as int, s1.y as int, s1.z as int),
                    (s2.x as int, s2.y as int, s2.z as int),
                    st,
                ));
            }
        },
        _ => {},
    }
}

/// The scene-wide spec parameters of one render call.
pub open spec fn scene_params(
    mode: RenderMode,
    colour: Colour,
    reverse_colour: Colour,
    rot_cos: int,
    rot_sin: int,
    w: int,
    h: int,
) -> SceneParams {
    SceneParams {
        mode,
        colour,
        reverse_colour,
        rot: rot_y_spec(rot_cos, rot_sin),
        view: view_spec(camera_spec(), (0, 0, 0), (0, SCALE as int, 0)),
        proj: proj_spec(2 * SCALE as int, 8 * SCALE as int, SCALE as int / 2, SCALE as int / 2),
        scale: scale_spec(w * SCALE, h * SCALE),
        light: light_spec(),
        w,
        h,
    }
}

/// Renders every face of the mesh to the target in the chosen mode, with a
/// fresh depth grid: the resulting picture is exactly the fold of the
/// per-face steps, in face order, over the spec mirrors of the pipeline.
#[verifier::loop_isolation(false)]
#[verifier::rlimit(100)]
pub fn render_scene<T: DrawingTarget>(
    target: &mut T,
    colour: Colour,
    reverse_colour: Colour,
    model: &Model,
    render_mode: RenderMode,
    rot_cos: i64,
    rot_sin: i64,
)
    requires
        old(target).inv(),
        old(target).width_spec() <= 0x8000,
        old(target).height_spec() <= 0x8000,
        -SCALE <= rot_cos <= SCALE,
        -SCALE <= rot_sin <= SCALE,
        model.wf(),
        model.coords_bounded(0x40_0000),
    ensures
        final(target).inv(),
        final(target).width_spec() == old(target).width_spec(),
        final(target).height_spec() == old(target).height_spec(),
        forall|x: int, y: int|
            0 <= x < old(target).width_spec() && 0 <= y < old(target).height_spec()
                ==> #[trigger] final(target).pixels()[(x, y)] == scene_fold(
                scene_params(
                    render_mode,
                    colour,
                    reverse_colour,
                    rot_cos as int,
                    rot_sin as int,
                    old(target).width_spec(),
                    old(target).height_spec(),
                ),
                model.vertices_view(),
                model.faces_view(),
                (
                    Map::new(
                        |k: (int, int)|
                            0 <= k.0 < old(target).width_spec() && 0 <= k.1 < old(
                                target,
                            ).height_spec(),
                        |k: (int, int)| old(target).pixels()[k],
                    ),
                    Map::new(
                        |k: (int, int)|
                            0 <= k.0 < old(target).width_spec() && 0 <= k.1 < old(
                                target,
                            ).height_spec(),
                        |k: (int, int)| i64::MAX,
                    ),
                ),
                model.faces_view().len() as int,
            ).0[(x, y)],
{
    let width = target.width();
    let height = target.height();
    proof {
        assert((width as int) * (height as int) <= 0x4000_0000) by (nonlinear_arith)
            requires
                0 <= width as int <= 0x8000,
                0 <= height as int <= 0x8000,
        ;
    }
    let mut z_buffer = zbuf_new(i64::MAX, width as usize, height as usize);
    let rotation_matrix = rotation_y(rot_cos, rot_sin);
    let camera = Point3::new(2 * SCALE, SCALE, 5 * SCALE);
    let centre = Point3::new(0, 0, 0);
    let up = Point3::new(0, SCALE, 0);
    let light = camera.normalise();
    let model_view = look_at_lh(camera, centre, up);
    let projection = projection_matrix(2 * SCALE, 8 * SCALE, SCALE / 2, SCALE / 2);
    let scaling = scaling_matrix((width as i64) * SCALE, (height as i64) * SCALE);
    let ghost gw = old(target).width_spec();
    let ghost gh = old(target).height_spec();
    let ghost params = scene_params(
        render_mode,
        colour,
        reverse_colour,
        rot_cos as int,
        rot_sin as int,
        gw,
        gh,
    );
    let ghost gverts = model.vertices_view();
    let ghost gfaces = model.faces_view();
    let ghost ginit: ScState = (
        Map::new(
            |k: (int, int)| 0 <= k.0 < gw && 0 <= k.1 < gh,
            |k: (int, int)| old(target).pixels()[k],
        ),
        Map::new(|k: (int, int)| 0 <= k.0 < gw && 0 <= k.1 < gh, |k: (int, int)| i64::MAX),
    );
    proof {
        assert(params.rot == m44_tup(rotation_matrix));
        assert(params.view == m44_tup(model_view));
        assert(params.proj == m44_tup(projection));
        assert(params.scale == m44_tup(scaling));
        assert(params.light == (light.x as int, light.y as int, light.z as int));
        assert(m44_bounded(projection, 0x4_0000)) by {
            assert(m44_tup(projection) == proj_spec(
                2 * SCALE as int,
                8 * SCALE as int,
                SCALE as int / 2,
                SCALE as int / 2,
            ));
            assert(tdiv(2 * SCALE as int * SCALE, SCALE as int / 2) == 262144);
            assert(tdiv(8 * SCALE as int * SCALE, 8 * SCALE as int - 2 * SCALE) == 87381);
            assert(tdiv(8 * SCALE as int * (2 * SCALE), 8 * SCALE as int - 2 * SCALE) == 174762);
        }
    }
    let faces = model.faces();
    let nf = faces.len();
    let mut i: usize = 0;
    while i < nf
        invariant
            target.inv(),
            target.width_spec() == gw,
            target.height_spec() == gh,
            zbuf_rows(z_buffer) == gw,
            zbuf_cols(z_buffer) == gh,
            i <= nf,
            forall|x: int, y: int|
                0 <= x < gw && 0 <= y < gh ==> #[trigger] target.pixels()[(x, y)] == scene_fold(
                    params,
                    gverts,
                    gfaces,
                    ginit,
                    i as int,
                ).0[(x, y)],
            forall|x: int, y: int|
                0 <= x < gw && 0 <= y < gh ==> #[trigger] zbuf_grid(z_buffer)[(x, y)]
                    == scene_fold(params, gverts, gfaces, ginit, i as int).1[(x, y)],
        decreases nf - i,
    {
        let ghost st = scene_fold(params, gverts, gfaces, ginit, i as int);
        let face = faces[i];
        proof {
            assert(gfaces[i as int] == face);
            assert(face.i0 < gverts.len() && face.i1 < gverts.len() && face.i2 < gverts.len());
        }
        let v0 = model.vertex(face.i0).as_point3();
        let v1 = model.vertex(face.i1).as_point3();
        let v2 = model.vertex(face.i2).as_point3();
        render_face(
            target,
            &mut z_buffer,
            rotation_matrix,
            model_view,
            projection,
            scaling,
            light,
            colour,
            reverse_colour,
            render_mode,
            v0,
            v1,
            v2,
            Ghost(params),
            Ghost(st),
        );
        proof {
            assert(scene_fold(params, gverts, gfaces, ginit, i as int + 1) == face_step(
                params,
                gverts,
                st,
                face,
            ));
        }
        i = i + 1;
    }
    proof {
        assert(i as int == gfaces.len());
    }
}

} // verus!
