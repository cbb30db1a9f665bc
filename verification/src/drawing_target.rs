//! Colours and the pixel-sink capability that the rasterizer writes through.

use vstd::prelude::*;

use crate::fixed::{lemma_tdiv_range, tdiv, SCALE};

verus! {

/// Largest intensity accepted by `Colour::scale`.
pub const INTENSITY_LIM: i64 = 0x1_0000_0000;

/// An RGB colour with 8-bit channels.
#[derive(Debug, PartialEq, Eq, Structural, Clone, Copy)]
pub struct Colour {
    pub r: u8,
    pub g: u8,
    pub b: u8,
}

/// A channel scaled by a fixed-point factor `t`, saturating at 255.
pub open spec fn scale_channel(c: int, t: int) -> int {
    let v = tdiv(c * t, SCALE as int);
    if v > 255 {
        255
    } else {
        v
    }
}

impl Colour {
    pub fn new(r: u8, g: u8, b: u8) -> (c: Self)
        ensures
            c.r == r,
            c.g == g,
            c.b == b,
    {
        Self { r, g, b }
    }

    /// Scales each channel by the fixed-point factor `t`.
    pub fn scale(self, t: i64) -> (c: Self)
        requires
            0 <= t <= INTENSITY_LIM,
        ensures
            c.r == scale_channel(self.r as int, t as int),
            c.g == scale_channel(self.g as int, t as int),
            c.b == scale_channel(self.b as int, t as int),
    {
        Self {
            r: Self::scale_one(self.r, t),
            g: Self::scale_one(self.g, t),
            b: Self::scale_one(self.b, t),
        }
    }

    fn scale_one(c: u8, t: i64) -> (r: u8)
        requires
            0 <= t <= INTENSITY_LIM,
        ensures
            r == scale_channel(c as int, t as int),
    {
        proof {
            crate::fixed::lemma_mul_bounds(c as int, t as int, 255, INTENSITY_LIM as int);
        }
        let p: i64 = (c as i64) * t;
        let v = crate::fixed::div_i64(p, SCALE);
        proof {
            lemma_tdiv_range(p as int, SCALE as int, 0xff_0000_0000int);
            assert(tdiv(p as int, SCALE as int) >= 0) by (nonlinear_arith)
                requires
                    p >= 0,
                    tdiv(p as int, SCALE as int) == if p == 0 {
                        0int
                    } else {
                        (p as int) / (SCALE as int)
                    },
            ;
        }
        if v > 255 {
            255
        } else {
            v as u8
        }
    }
}

/// The capability surface the rasterizer draws through: a fixed-size grid
/// of pixels with single-pixel writes and whole-buffer clearing.
pub trait DrawingTarget: Sized {
    /// The implementation's internal consistency condition.
    spec fn inv(&self) -> bool;

    /// The grid width, as an unbounded integer.
    spec fn width_spec(&self) -> int;

    /// The grid height, as an unbounded integer.
    spec fn height_spec(&self) -> int;

    /// The pixel contents, keyed by `(x, y)` from the top-left corner.
    spec fn pixels(&self) -> Map<(int, int), Colour>;

    fn width(&self) -> (w: u32)
        requires
            self.inv(),
        ensures
            w as int == self.width_spec(),
    ;

    fn height(&self) -> (h: u32)
        requires
            self.inv(),
        ensures
            h as int == self.height_spec(),
    ;

    /// Writes one pixel; every other pixel keeps its colour.
    fn set_pixel(&mut self, x: u32, y: u32, colour: Colour)
        requires
            old(self).inv(),
            (x as int) < old(self).width_spec(),
            (y as int) < old(self).height_spec(),
        ensures
            final(self).inv(),
            final(self).width_spec() == old(self).width_spec(),
            final(self).height_spec() == old(self).height_spec(),
            forall|a: int, b: int|
                0 <= a < old(self).width_spec() && 0 <= b < old(self).height_spec()
                    ==> #[trigger] final(self).pixels()[(a, b)] == if a == x as int && b
                    == y as int {
                    colour
                } else {
                    old(self).pixels()[(a, b)]
                },
    ;

    /// Resets every pixel to black.
    fn clear(&mut self)
        requires
            old(self).inv(),
        ensures
            final(self).inv(),
            final(self).width_spec() == old(self).width_spec(),
            final(self).height_spec() == old(self).height_spec(),
            forall|a: int, b: int|
                0 <= a < old(self).width_spec() && 0 <= b < old(self).height_spec()
                    ==> #[trigger] final(self).pixels()[(a, b)] == (Colour { r: 0, g: 0, b: 0 }),
    ;
}

/// An in-memory pixel grid, row-major from the top-left corner.
pub struct PixelBuffer {
    pub width: u32,
    pub height: u32,
    pub data: Vec<Colour>,
}

impl PixelBuffer {
    /// A buffer of the given size, all pixels black.
    pub fn new(width: u32, height: u32) -> (r: Self)
        requires
            width * height <= usize::MAX,
        ensures
            r.inv(),
            r.width_spec() == width as int,
            r.height_spec() == height as int,
            forall|a: int, b: int|
                0 <= a < (width as int) && 0 <= b < (height as int) ==> #[trigger] r.pixels()[(a, b)]
                    == (Colour { r: 0, g: 0, b: 0 }),
    {
        let total: usize = (width as usize) * (height as usize);
        let mut data: Vec<Colour> = Vec::new();
        let mut i: usize = 0;
        while i < total
            invariant
                data@.len() == i,
                i <= total,
                forall|k: int|
                    0 <= k < i ==> data@[k] == (Colour { r: 0, g: 0, b: 0 }),
            decreases total - i,
        {
            data.push(Colour { r: 0, g: 0, b: 0 });
            i = i + 1;
        }
        let r = Self { width, height, data };
        proof {
            assert forall|a: int, b: int|
                0 <= a < (width as int) && 0 <= b < (height as int) implies #[trigger] r.pixels()[
                (a, b)] == (Colour { r: 0, g: 0, b: 0 }) by {
                assert(0 <= b * (width as int) + a < (width as int) * (height as int))
                    by (nonlinear_arith)
                    requires
                        0 <= a < (width as int),
                        0 <= b < (height as int),
                ;
            }
        }
        r
    }

    /// Reads one pixel.
    pub fn get_pixel(&self, x: u32, y: u32) -> (c: Colour)
        requires
            self.inv(),
            (x as int) < self.width_spec(),
            (y as int) < self.height_spec(),
        ensures
            c == self.pixels()[(x as int, y as int)],
    {
        let n: usize = self.data.len();
        proof {
            assert((y as int) * (self.width as int) + (x as int) < (self.width as int) * (
            self.height as int) && (y as int) * (self.width as int) >= 0) by (nonlinear_arith)
                requires
                    0 <= (x as int) < (self.width as int),
                    0 <= (y as int) < (self.height as int),
            ;
        }
        let idx: usize = (y as usize) * (self.width as usize) + (x as usize);
        self.data[idx]
    }
}

impl DrawingTarget for PixelBuffer {
    open spec fn inv(&self) -> bool {
        self.data@.len() == (self.width as int) * (self.height as int)
    }

    open spec fn width_spec(&self) -> int {
        self.width as int
    }

    open spec fn height_spec(&self) -> int {
        self.height as int
    }

    open spec fn pixels(&self) -> Map<(int, int), Colour> {
        Map::new(
            |k: (int, int)| 0 <= k.0 < self.width as int && 0 <= k.1 < self.height as int,
            |k: (int, int)| self.data@[k.1 * self.width as int + k.0],
        )
    }

    fn width(&self) -> (w: u32) {
        self.width
    }

    fn height(&self) -> (h: u32) {
        self.height
    }

    fn set_pixel(&mut self, x: u32, y: u32, colour: Colour) {
        let n: usize = self.data.len();
        proof {
            assert((y as int) * (self.width as int) + (x as int) < (self.width as int) * (
            self.height as int) && (y as int) * (self.width as int) >= 0) by (nonlinear_arith)
                requires
                    0 <= (x as int) < (self.width as int),
                    0 <= (y as int) < (self.height as int),
            ;
        }
        let idx: usize = (y as usize) * (self.width as usize) + (x as usize);
        self.data[idx] = colour;
        proof {
            assert forall|a: int, b: int|
                0 <= a < (self.width as int) && 0 <= b < (self.height as int) implies #[trigger] self
                .pixels()[(a, b)] == if a == x as int && b == y as int {
                colour
            } else {
                old(self).pixels()[(a, b)]
            } by {
                assert(b * (self.width as int) + a < (self.width as int) * (self.height as int)
                    && b * (self.width as int) + a >= 0) by (nonlinear_arith)
                    requires
                        0 <= a < (self.width as int),
                        0 <= b < (self.height as int),
                ;
                if (a, b) != (x as int, y as int) {
                    assert(b * (self.width as int) + a != (y as int) * (self.width as int) + (
                    x as int)) by (nonlinear_arith)
                        requires
                            0 <= a < (self.width as int),
                            0 <= (x as int) < (self.width as int),
                            b >= 0,
                            y as int >= 0,
                            !(a == x as int && b == y as int),
                    ;
                }
            }
        }
    }

    fn clear(&mut self) {
        let total: usize = self.data.len();
        let mut i: usize = 0;
        while i < total
            invariant
                self.data@.len() == total,
                self.width == old(self).width,
                self.height == old(self).height,
                i <= total,
                forall|k: int| 0 <= k < i ==> self.data@[k] == (Colour { r: 0, g: 0, b: 0 }),
            decreases total - i,
        {
            self.data[i] = Colour { r: 0, g: 0, b: 0 };
            i = i + 1;
        }
        proof {
            assert forall|a: int, b: int|
                0 <= a < (self.width as int) && 0 <= b < (self.height as int) implies #[trigger] self
                .pixels()[(a, b)] == (Colour { r: 0, g: 0, b: 0 }) by {
                assert(0 <= b * (self.width as int) + a < (self.width as int) * (
                self.height as int)) by (nonlinear_arith)
                    requires
                        0 <= a < (self.width as int),
                        0 <= b < (self.height as int),
                ;
            }
        }
    }
}

/// A non-negative intensity keeps each scaled channel inside a byte.
pub proof fn lemma_scale_channel_range(c: int, t: int)
    requires
        0 <= c <= 255,
        0 <= t,
    ensures
        0 <= scale_channel(c, t) <= 255,
{
    assert(c * t >= 0) by (nonlinear_arith)
        requires
            0 <= c,
            0 <= t,
    ;
    assert(tdiv(c * t, SCALE as int) >= 0) by (nonlinear_arith)
        requires
            c * t >= 0,
            tdiv(c * t, SCALE as int) == if c * t == 0 {
                0int
            } else {
                (c * t) / (SCALE as int)
            },
    ;
}

/// A pixel's byte block sits inside the bytes of the first `ymax` rows.
proof fn lemma_row_base(a: int, b: int, w: int, ymax: int)
    requires
        0 <= a < w,
        0 <= b < ymax,
    ensures
        0 <= (b * w + a) * 4,
        (b * w + a) * 4 + 3 < ymax * w * 4,
{
    assert(0 <= (b * w + a) * 4 && (b * w + a) * 4 + 3 < ymax * w * 4) by (nonlinear_arith)
        requires
            0 <= a < w,
            0 <= b < ymax,
    ;
}

impl PixelBuffer {
    /// The buffer as RGBA bytes with rows flipped vertically, alpha opaque:
    /// row `y` of the result holds row `height - 1 - y` of the buffer.
    pub fn to_rgba_flipped(&self) -> (v: Vec<u8>)
        requires
            self.inv(),
            self.width_spec() * self.height_spec() * 4 <= usize::MAX,
        ensures
            v@.len() == self.width_spec() * self.height_spec() * 4,
            forall|x: int, y: int|
                0 <= x < self.width_spec() && 0 <= y < self.height_spec() ==> {
                    let base = (y * self.width_spec() + x) * 4;
                    let c = #[trigger] self.pixels()[(x, self.height_spec() - 1 - y)];
                    &&& v@[base] == c.r
                    &&& v@[base + 1] == c.g
                    &&& v@[base + 2] == c.b
                    &&& v@[base + 3] == 255u8
                },
    {
        let w = self.width;
        let h = self.height;
        let mut v: Vec<u8> = Vec::new();
        let mut y: u32 = 0;
        while y < h
            invariant
                y <= h,
                w == self.width,
                h == self.height,
                self.inv(),
                (w as int) * (h as int) * 4 <= usize::MAX,
                v@.len() == (y as int) * (w as int) * 4,
                forall|a: int, b: int|
                    0 <= a < w as int && 0 <= b < y as int ==> {
                        let base = (b * (w as int) + a) * 4;
                        let c = #[trigger] self.pixels()[(a, h as int - 1 - b)];
                        &&& v@[base] == c.r
                        &&& v@[base + 1] == c.g
                        &&& v@[base + 2] == c.b
                        &&& v@[base + 3] == 255u8
                    },
            decreases h - y,
        {
            let mut x: u32 = 0;
            while x < w
                invariant
                    x <= w,
                    y < h,
                    w == self.width,
                    h == self.height,
                    self.inv(),
                    (w as int) * (h as int) * 4 <= usize::MAX,
                    v@.len() == (y as int) * (w as int) * 4 + (x as int) * 4,
                    forall|a: int, b: int|
                        0 <= a < w as int && 0 <= b < y as int ==> {
                            let base = (b * (w as int) + a) * 4;
                            let c = #[trigger] self.pixels()[(a, h as int - 1 - b)];
                            &&& v@[base] == c.r
                            &&& v@[base + 1] == c.g
                            &&& v@[base + 2] == c.b
                            &&& v@[base + 3] == 255u8
                        },
                    forall|a: int|
                        0 <= a < x as int ==> {
                            let base = ((y as int) * (w as int) + a) * 4;
                            let c = #[trigger] self.pixels()[(a, h as int - 1 - y as int)];
                            &&& v@[base] == c.r
                            &&& v@[base + 1] == c.g
                            &&& v@[base + 2] == c.b
                            &&& v@[base + 3] == 255u8
                        },
                decreases w - x,
            {
                proof {
                    assert((y as int) * (w as int) * 4 + (x as int) * 4 + 4 <= (w as int) * (
                    h as int) * 4) by (nonlinear_arith)
                        requires
                            0 <= (x as int) < (w as int),
                            0 <= (y as int) < (h as int),
                    ;
                }
                let c = self.get_pixel(x, h - 1 - y);
                v.push(c.r);
                v.push(c.g);
                v.push(c.b);
                v.push(255);
                proof {
                    assert forall|a: int, b: int|
                        0 <= a < w as int && 0 <= b < y as int implies {
                        let base = (b * (w as int) + a) * 4;
                        let cc = #[trigger] self.pixels()[(a, h as int - 1 - b)];
                        &&& v@[base] == cc.r
                        &&& v@[base + 1] == cc.g
                        &&& v@[base + 2] == cc.b
                        &&& v@[base + 3] == 255u8
                    } by {
                        lemma_row_base(a, b, w as int, y as int);
                    }
                }
                x = x + 1;
            }
            proof {
                assert((y as int + 1) * (w as int) * 4 == (y as int) * (w as int) * 4 + (
                w as int) * 4) by (nonlinear_arith);
                assert forall|a: int, b: int|
                    0 <= a < w as int && 0 <= b < y as int + 1 implies {
                    let base = (b * (w as int) + a) * 4;
                    let cc = #[trigger] self.pixels()[(a, h as int - 1 - b)];
                    &&& v@[base] == cc.r
                    &&& v@[base + 1] == cc.g
                    &&& v@[base + 2] == cc.b
                    &&& v@[base + 3] == 255u8
                } by {
                    lemma_row_base(a, b, w as int, y as int + 1);
                }
            }
            y = y + 1;
        }
        proof {
            assert((h as int) * (w as int) * 4 == (w as int) * (h as int) * 4)
                by (nonlinear_arith);
        }
        v
    }
}

} // verus!
