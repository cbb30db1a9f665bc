use renderer::drawing_target::{Colour, PixelBuffer};
use renderer::fixed::SCALE;
use renderer::model::Model;
use renderer::render::{render_scene, RenderMode};

/// The painted pixels of a buffer, with the one colour they all share.
fn painted(buf: &PixelBuffer, w: u32, h: u32) -> (Vec<(u32, u32)>, Option<Colour>) {
    let black = Colour::new(0, 0, 0);
    let mut out = Vec::new();
    let mut col = None;
    for x in 0..w {
        for y in 0..h {
            let c = buf.get_pixel(x, y);
            if c != black {
                out.push((x, y));
                match col {
                    None => col = Some(c),
                    Some(p) => assert_eq!(p, c),
                }
            }
        }
    }
    (out, col)
}

fn single_face_model() -> Model {
    Model::parse_obj(b"v 0 0 0\nv 1 0 0\nv 0 1 0\nf 1 2 3\n").unwrap()
}

#[test]
fn solid_single_face_matches_analytic_mask() {
    let model = single_face_model();
    assert!(model.is_valid());
    let mut buf = PixelBuffer::new(20, 20);
    render_scene(
        &mut buf,
        Colour::new(0, 255, 255),
        Colour::new(255, 255, 0),
        &model,
        RenderMode::Solid,
        SCALE,
        0,
    );
    let (pixels, col) = painted(&buf, 20, 20);
    // The face is back-facing under this camera, so the reverse colour,
    // scaled by the light intensity, fills the projected triangle.
    assert_eq!(col, Some(Colour::new(232, 232, 0)));
    // The analytically rasterized mask, columns of contiguous spans.
    let spans: [(u32, u32, u32); 11] = [
        (0, 10, 13),
        (1, 10, 14),
        (2, 10, 16),
        (3, 10, 17),
        (4, 10, 18),
        (5, 10, 18),
        (6, 10, 18),
        (7, 10, 18),
        (8, 10, 18),
        (9, 10, 18),
        (10, 10, 18),
    ];
    let mut expected = Vec::new();
    for (x, lo, hi) in spans {
        for y in lo..=hi {
            expected.push((x, y));
        }
    }
    assert_eq!(pixels, expected);
}

#[test]
fn wireframe_single_face_draws_the_three_edges() {
    let model = single_face_model();
    let mut buf = PixelBuffer::new(20, 20);
    render_scene(
        &mut buf,
        Colour::new(0, 255, 255),
        Colour::new(255, 255, 0),
        &model,
        RenderMode::Wireframe,
        SCALE,
        0,
    );
    let (pixels, col) = painted(&buf, 20, 20);
    assert_eq!(col, Some(Colour::new(232, 232, 0)));
    assert_eq!(
        pixels,
        vec![
            (0, 8),
            (0, 12),
            (0, 13),
            (1, 8),
            (1, 14),
            (2, 8),
            (2, 15),
            (3, 9),
            (3, 16),
            (4, 9),
            (4, 17),
            (5, 9),
            (5, 18),
            (6, 9),
            (6, 19),
            (7, 9),
            (8, 9),
            (9, 9),
            (10, 9),
            (10, 10),
            (10, 11),
            (10, 12),
            (10, 13),
            (10, 14),
            (10, 15),
            (10, 16),
            (10, 17),
            (10, 18),
            (10, 19),
        ]
    );
}

#[test]
fn empty_model_renders_nothing() {
    let model = Model::parse_obj(b"").unwrap();
    let mut buf = PixelBuffer::new(10, 10);
    render_scene(
        &mut buf,
        Colour::new(0, 255, 255),
        Colour::new(255, 255, 0),
        &model,
        RenderMode::Solid,
        SCALE,
        0,
    );
    let (pixels, _) = painted(&buf, 10, 10);
    assert_eq!(pixels, vec![]);
}

#[test]
fn flipped_rgba_export_reverses_rows() {
    let mut buf = PixelBuffer::new(2, 2);
    render_scene(
        &mut buf,
        Colour::new(0, 255, 255),
        Colour::new(255, 255, 0),
        &Model::parse_obj(b"").unwrap(),
        RenderMode::Solid,
        SCALE,
        0,
    );
    let bytes = buf.to_rgba_flipped();
    assert_eq!(bytes.len(), 16);
    for px in bytes.chunks(4) {
        assert_eq!(px, [0, 0, 0, 255]);
    }
}
