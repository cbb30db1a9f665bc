use renderer::drawing::{barycentric_coordinates, draw_line, draw_triangle};
use renderer::drawing_target::{Colour, DrawingTarget, PixelBuffer};
use renderer::point::{Point2, Point3};
use renderer::zbuffer::zbuf_new;

const SC: i64 = 65536;

fn white() -> Colour {
    Colour::new(255, 255, 255)
}

fn painted(buf: &PixelBuffer, w: u32, h: u32, colour: Colour) -> Vec<(u32, u32)> {
    let mut out = Vec::new();
    for x in 0..w {
        for y in 0..h {
            if buf.get_pixel(x, y) == colour {
                out.push((x, y));
            }
        }
    }
    out
}

#[test]
fn shallow_line_steps_along_x() {
    let mut buf = PixelBuffer::new(8, 8);
    draw_line(&mut buf, white(), Point2::new(0, 0), Point2::new(5, 2));
    assert_eq!(
        painted(&buf, 8, 8, white()),
        vec![(0, 0), (1, 0), (2, 1), (3, 1), (4, 2), (5, 2)]
    );
}

#[test]
fn steep_line_steps_along_y() {
    let mut buf = PixelBuffer::new(8, 8);
    draw_line(&mut buf, white(), Point2::new(1, 1), Point2::new(2, 7));
    assert_eq!(
        painted(&buf, 8, 8, white()),
        vec![(1, 1), (1, 2), (1, 3), (2, 4), (2, 5), (2, 6), (2, 7)]
    );
}

#[test]
fn line_is_symmetric_in_its_endpoints() {
    let cases = [
        ((0, 0), (5, 2)),
        ((1, 1), (2, 7)),
        ((7, 0), (0, 7)),
        ((3, 3), (3, 3)),
        ((0, 4), (7, 4)),
        ((-3, -2), (6, 9)),
    ];
    for ((x0, y0), (x1, y1)) in cases {
        let mut fwd = PixelBuffer::new(8, 8);
        let mut rev = PixelBuffer::new(8, 8);
        draw_line(&mut fwd, white(), Point2::new(x0, y0), Point2::new(x1, y1));
        draw_line(&mut rev, white(), Point2::new(x1, y1), Point2::new(x0, y0));
        assert_eq!(
            painted(&fwd, 8, 8, white()),
            painted(&rev, 8, 8, white()),
            "endpoints ({},{}) ({},{})",
            x0,
            y0,
            x1,
            y1
        );
    }
}

#[test]
fn out_of_range_pixels_are_skipped() {
    let mut buf = PixelBuffer::new(4, 4);
    draw_line(&mut buf, white(), Point2::new(-2, -2), Point2::new(2, 2));
    assert_eq!(painted(&buf, 4, 4, white()), vec![(0, 0), (1, 1), (2, 2)]);
}

#[test]
fn barycentric_coordinates_at_vertices() {
    let t0 = Point3::new(SC, SC, 0);
    let t1 = Point3::new(6 * SC, SC, 0);
    let t2 = Point3::new(SC, 6 * SC, 0);
    assert_eq!(barycentric_coordinates(t0, t1, t2, SC, SC), (true, SC, 0, 0));
    assert_eq!(barycentric_coordinates(t0, t1, t2, 6 * SC, SC), (true, 0, SC, 0));
    assert_eq!(barycentric_coordinates(t0, t1, t2, SC, 6 * SC), (true, 0, 0, SC));
}

#[test]
fn barycentric_coordinates_inside_and_outside() {
    let t0 = Point3::new(SC, SC, 0);
    let t1 = Point3::new(6 * SC, SC, 0);
    let t2 = Point3::new(SC, 6 * SC, 0);
    assert_eq!(
        barycentric_coordinates(t0, t1, t2, 2 * SC, 2 * SC),
        (true, 39322, 13107, 13107)
    );
    let (acc, _, _, _) = barycentric_coordinates(t0, t1, t2, 7 * SC, 7 * SC);
    assert!(!acc);
}

#[test]
fn degenerate_triangle_rejects_every_point() {
    let t0 = Point3::new(0, 0, 0);
    let t1 = Point3::new(2 * SC, 2 * SC, 0);
    let t2 = Point3::new(4 * SC, 4 * SC, 0);
    let (acc, _, _, _) = barycentric_coordinates(t0, t1, t2, 2 * SC, 2 * SC);
    assert!(!acc);
}

#[test]
fn triangle_fill_matches_expected_mask() {
    let mut buf = PixelBuffer::new(8, 8);
    let mut zb = zbuf_new(i64::MAX, 8, 8);
    let c = white();
    draw_triangle(
        &mut buf,
        &mut zb,
        c,
        c,
        Point3::new(SC, SC, 0),
        Point3::new(6 * SC, SC, 0),
        Point3::new(SC, 6 * SC, 0),
        None,
        None,
        None,
    );
    assert_eq!(
        painted(&buf, 8, 8, c),
        vec![
            (1, 1),
            (1, 2),
            (1, 3),
            (1, 4),
            (1, 5),
            (1, 6),
            (2, 1),
            (2, 2),
            (2, 3),
            (2, 4),
            (2, 5),
            (3, 1),
            (3, 2),
            (3, 3),
            (3, 4),
            (4, 1),
            (4, 2),
            (4, 3),
            (5, 1),
            (5, 2),
            (6, 1),
        ]
    );
}

#[test]
fn collinear_triangle_writes_nothing() {
    let mut buf = PixelBuffer::new(8, 8);
    let mut zb = zbuf_new(i64::MAX, 8, 8);
    let c = white();
    draw_triangle(
        &mut buf,
        &mut zb,
        c,
        c,
        Point3::new(0, 0, 0),
        Point3::new(2 * SC, 2 * SC, 0),
        Point3::new(4 * SC, 4 * SC, 0),
        None,
        None,
        None,
    );
    assert_eq!(painted(&buf, 8, 8, c), vec![]);
}

#[test]
fn nearer_depth_wins_in_either_order() {
    let col_a = Colour::new(200, 0, 0);
    let col_b = Colour::new(0, 200, 0);
    let a = [
        Point3::new(0, 0, 2 * SC),
        Point3::new(7 * SC, 0, 2 * SC),
        Point3::new(0, 7 * SC, 2 * SC),
    ];
    let b = [
        Point3::new(SC, SC, SC),
        Point3::new(6 * SC, SC, SC),
        Point3::new(SC, 6 * SC, SC),
    ];
    let mut first = PixelBuffer::new(8, 8);
    let mut zb1 = zbuf_new(i64::MAX, 8, 8);
    draw_triangle(&mut first, &mut zb1, col_a, col_a, a[0], a[1], a[2], None, None, None);
    draw_triangle(&mut first, &mut zb1, col_b, col_b, b[0], b[1], b[2], None, None, None);
    let mut second = PixelBuffer::new(8, 8);
    let mut zb2 = zbuf_new(i64::MAX, 8, 8);
    draw_triangle(&mut second, &mut zb2, col_b, col_b, b[0], b[1], b[2], None, None, None);
    draw_triangle(&mut second, &mut zb2, col_a, col_a, a[0], a[1], a[2], None, None, None);
    for x in 0..8 {
        for y in 0..8 {
            assert_eq!(first.get_pixel(x, y), second.get_pixel(x, y), "at ({},{})", x, y);
        }
    }
    // The overlapped interior shows the nearer triangle.
    assert_eq!(first.get_pixel(2, 2), col_b);
    assert_eq!(first.get_pixel(0, 0), col_a);
}

#[test]
fn edge_flags_paint_the_seam_with_the_line_colour() {
    let fill = Colour::new(10, 10, 10);
    let line = Colour::new(250, 250, 250);
    let mut buf = PixelBuffer::new(8, 8);
    let mut zb = zbuf_new(i64::MAX, 8, 8);
    draw_triangle(
        &mut buf,
        &mut zb,
        fill,
        line,
        Point3::new(SC, SC, 0),
        Point3::new(6 * SC, SC, 0),
        Point3::new(SC, 6 * SC, 0),
        None,
        Some(0),
        Some(0),
    );
    assert_eq!(
        painted(&buf, 8, 8, line),
        vec![
            (1, 5),
            (1, 6),
            (2, 4),
            (2, 5),
            (3, 3),
            (3, 4),
            (4, 2),
            (4, 3),
            (5, 1),
            (5, 2),
            (6, 1),
        ]
    );
    assert_eq!(
        painted(&buf, 8, 8, fill),
        vec![
            (1, 1),
            (1, 2),
            (1, 3),
            (1, 4),
            (2, 1),
            (2, 2),
            (2, 3),
            (3, 1),
            (3, 2),
            (4, 1),
        ]
    );
}
