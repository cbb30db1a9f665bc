//! The mesh model and the OBJ-subset loader.
//!
//! Vertices carry raw fixed-point coordinates; the text loader parses the
//! decimal fields of the file directly into that representation.  Every
//! parsing function is pinned to a spec-level parse of the same bytes.

use vstd::prelude::*;

use crate::fixed::{rdivn, SCALE};

verus! {

/// A fatal defect in a mesh file: the whole load aborts.
#[derive(Debug, PartialEq, Eq, Structural, Clone, Copy)]
pub enum LoadError {
    /// A numeric field is missing, empty, non-decimal or out of range.
    MalformedNumber,
    /// A face line names a number of vertices other than three or four.
    UnsupportedFaceCount,
}

/// A vertex position in model space, raw fixed-point.
#[derive(Debug, PartialEq, Eq, Structural, Clone, Copy)]
pub struct Vertex {
    pub x: i64,
    pub y: i64,
    pub z: i64,
}

impl Vertex {
    pub fn new(x: i64, y: i64, z: i64) -> (r: Self)
        ensures
            r.x == x,
            r.y == y,
            r.z == z,
    {
        Vertex { x, y, z }
    }

    /// The position as a point.
    pub fn as_point3(&self) -> (r: crate::point::Point3)
        ensures
            r.x == self.x,
            r.y == self.y,
            r.z == self.z,
    {
        crate::point::Point3 { x: self.x, y: self.y, z: self.z }
    }
}

/// A triangular face: three vertex indices in anticlockwise winding, with
/// optional texture-vertex indices used only as edge-highlight flags.
#[derive(Debug, PartialEq, Eq, Structural, Clone, Copy)]
pub struct Face {
    pub i0: usize,
    pub i1: usize,
    pub i2: usize,
    pub vt0: Option<usize>,
    pub vt1: Option<usize>,
    pub vt2: Option<usize>,
}

impl Face {
    pub fn new(
        i0: usize,
        i1: usize,
        i2: usize,
        vt0: Option<usize>,
        vt1: Option<usize>,
        vt2: Option<usize>,
    ) -> (r: Self)
        ensures
            r == (Face { i0, i1, i2, vt0, vt1, vt2 }),
    {
        Face { i0, i1, i2, vt0, vt1, vt2 }
    }
}

/// An immutable vertex buffer and face list.
pub struct Model {
    vertices: Vec<Vertex>,
    faces: Vec<Face>,
}

impl Model {
    /// The vertex buffer.
    pub closed spec fn vertices_view(&self) -> Seq<Vertex> {
        self.vertices@
    }

    /// The face list.
    pub closed spec fn faces_view(&self) -> Seq<Face> {
        self.faces@
    }

    /// Every face references only vertices that exist.
    pub open spec fn wf(&self) -> bool {
        forall|i: int|
            0 <= i < self.faces_view().len() ==> {
                let f = #[trigger] self.faces_view()[i];
                f.i0 < self.vertices_view().len() && f.i1 < self.vertices_view().len() && f.i2
                    < self.vertices_view().len()
            }
    }

    /// Every vertex coordinate lies within `lim`.
    pub open spec fn coords_bounded(&self, lim: int) -> bool {
        forall|i: int|
            0 <= i < self.vertices_view().len() ==> {
                let v = #[trigger] self.vertices_view()[i];
                -lim <= v.x <= lim && -lim <= v.y <= lim && -lim <= v.z <= lim
            }
    }

    /// Builds a model from parts.
    pub fn new(vertices: Vec<Vertex>, faces: Vec<Face>) -> (r: Self)
        ensures
            r.vertices_view() == vertices@,
            r.faces_view() == faces@,
    {
        Model { vertices, faces }
    }

    pub fn faces(&self) -> (r: &Vec<Face>)
        ensures
            r@ == self.faces_view(),
    {
        &self.faces
    }

    /// Looks a vertex up by index; the model must have been validated, so
    /// an out-of-range index is a caller defect, not a runtime condition.
    pub fn vertex(&self, index: usize) -> (r: &Vertex)
        requires
            (index as int) < self.vertices_view().len(),
        ensures
            *r == self.vertices_view()[index as int],
    {
        &self.vertices[index]
    }

    pub fn vertex_count(&self) -> (n: usize)
        ensures
            n == self.vertices_view().len(),
    {
        self.vertices.len()
    }

    pub fn face_count(&self) -> (n: usize)
        ensures
            n == self.faces_view().len(),
    {
        self.faces.len()
    }

    /// Whether every vertex coordinate lies within `lim`.
    pub fn coords_within(&self, lim: i64) -> (r: bool)
        requires
            0 <= lim,
        ensures
            r == self.coords_bounded(lim as int),
    {
        let nv = self.vertices.len();
        let mut i: usize = 0;
        while i < nv
            invariant
                i <= nv,
                0 <= lim,
                nv == self.vertices_view().len(),
                forall|j: int|
                    0 <= j < i ==> {
                        let v = #[trigger] self.vertices_view()[j];
                        -lim <= v.x <= lim && -lim <= v.y <= lim && -lim <= v.z <= lim
                    },
            decreases nv - i,
        {
            let v = &self.vertices[i];
            if v.x > lim || v.x < -lim || v.y > lim || v.y < -lim || v.z > lim || v.z < -lim {
                return false;
            }
            i = i + 1;
        }
        true
    }

    /// Whether every face references only vertices that exist.
    pub fn is_valid(&self) -> (r: bool)
        ensures
            r == self.wf(),
    {
        let nv = self.vertices.len();
        let nf = self.faces.len();
        let mut i: usize = 0;
        while i < nf
            invariant
                i <= nf,
                nf == self.faces_view().len(),
                nv == self.vertices_view().len(),
                forall|j: int|
                    0 <= j < i ==> {
                        let f = #[trigger] self.faces_view()[j];
                        f.i0 < nv && f.i1 < nv && f.i2 < nv
                    },
            decreases nf - i,
        {
            let f = &self.faces[i];
            if f.i0 >= nv || f.i1 >= nv || f.i2 >= nv {
                return false;
            }
            i = i + 1;
        }
        true
    }
}

/// Splitting a byte sequence on a separator, Rust-style: separators delimit
/// tokens, and leading, trailing or doubled separators yield empty tokens.
pub open spec fn split_spec(s: Seq<u8>, sep: u8) -> Seq<Seq<u8>>
    decreases s.len(),
{
    if s.len() == 0 {
        seq![Seq::<u8>::empty()]
    } else if s[0] == sep {
        seq![Seq::<u8>::empty()] + split_spec(s.skip(1), sep)
    } else {
        let r = split_spec(s.skip(1), sep);
        seq![seq![s[0]] + r[0]] + r.skip(1)
    }
}

/// A split always yields at least one token.
pub proof fn lemma_split_len(s: Seq<u8>, sep: u8)
    ensures
        split_spec(s, sep).len() >= 1,
    decreases s.len(),
{
    if s.len() != 0 {
        lemma_split_len(s.skip(1), sep);
    }
}

/// The sequence-of-sequences view of a vector of byte vectors.
pub open spec fn vecs_view(v: Seq<Vec<u8>>) -> Seq<Seq<u8>> {
    Seq::new(v.len(), |i: int| v[i]@)
}

/// Splits a byte slice on a separator, exactly as `split_spec`.
pub fn split_bytes(s: &[u8], sep: u8) -> (r: Vec<Vec<u8>>)
    ensures
        vecs_view(r@) == split_spec(s@, sep),
        r@.len() >= 1,
{
    let mut acc: Vec<Vec<u8>> = Vec::new();
    acc.push(Vec::new());
    let mut i: usize = s.len();
    proof {
        assert(s@.skip(i as int) =~= Seq::<u8>::empty());
        assert(vecs_view(acc@) =~= split_spec(s@.skip(i as int), sep));
    }
    while i > 0
        invariant
            i <= s@.len(),
            acc@.len() >= 1,
            vecs_view(acc@) == split_spec(s@.skip(i as int), sep),
        decreases i,
    {
        i = i - 1;
        let c = s[i];
        proof {
            assert(s@.skip(i as int).skip(1) =~= s@.skip(i as int + 1));
            assert(s@.skip(i as int)[0] == s@[i as int]);
            assert(s@.skip(i as int).len() == s@.len() - i as int);
            lemma_split_len(s@.skip(i as int + 1), sep);
        }
        if c == sep {
            acc.insert(0, Vec::new());
            proof {
                assert(vecs_view(acc@) =~= split_spec(s@.skip(i as int), sep));
            }
        } else {
            let mut first = acc.remove(0);
            first.insert(0, c);
            acc.insert(0, first);
            proof {
                assert(vecs_view(acc@) =~~= split_spec(s@.skip(i as int), sep));
            }
        }
    }
    proof {
        assert(s@.skip(0) =~= s@);
    }
    acc
}

/// Whether the byte is a decimal digit.
pub open spec fn is_digit(c: u8) -> bool {
    48 <= c <= 57
}

/// Whether every byte of the sequence is a decimal digit.
pub open spec fn all_digits(s: Seq<u8>) -> bool {
    forall|i: int| 0 <= i < s.len() ==> is_digit(#[trigger] s[i])
}

/// The value of a sequence of decimal digits.
pub open spec fn digits_val(s: Seq<u8>) -> int
    decreases s.len(),
{
    if s.len() == 0 {
        0
    } else {
        digits_val(s.drop_last()) * 10 + (s.last() - 48)
    }
}

pub proof fn lemma_digits_val_nonneg(s: Seq<u8>)
    requires
        all_digits(s),
    ensures
        digits_val(s) >= 0,
    decreases s.len(),
{
    if s.len() > 0 {
        assert(all_digits(s.drop_last()));
        lemma_digits_val_nonneg(s.drop_last());
    }
}

/// Extending a digit string can only grow its value.
pub proof fn lemma_digits_val_prefix(s: Seq<u8>, n: int)
    requires
        all_digits(s),
        0 <= n <= s.len(),
    ensures
        digits_val(s.take(n)) <= digits_val(s),
    decreases s.len() - n,
{
    if n < s.len() {
        lemma_digits_val_prefix(s, n + 1);
        assert(s.take(n + 1).drop_last() =~= s.take(n));
        assert(digits_val(s.take(n + 1)) == digits_val(s.take(n)) * 10 + (s.take(n + 1).last()
            - 48));
        assert(all_digits(s.take(n)));
        lemma_digits_val_nonneg(s.take(n));
    } else {
        assert(s.take(n) =~= s);
    }
}

/// Parses a capped non-negative decimal integer: the token must be
/// non-empty, all digits, and its value at most `cap`.
pub open spec fn parse_digits_spec(s: Seq<u8>, cap: int) -> Option<int> {
    if s.len() >= 1 && all_digits(s) && digits_val(s) <= cap {
        Some(digits_val(s))
    } else {
        None
    }
}

/// Parses a capped decimal integer token, exactly as `parse_digits_spec`.
pub fn parse_digits(s: &[u8], cap: u64) -> (r: Option<u64>)
    requires
        cap <= 0xffff_ffff,
    ensures
        match r {
            Some(v) => parse_digits_spec(s@, cap as int) == Some(v as int),
            None => parse_digits_spec(s@, cap as int) is None,
        },
{
    let n = s.len();
    if n == 0 {
        return None;
    }
    let mut acc: u64 = 0;
    let mut i: usize = 0;
    while i < n
        invariant
            i <= n,
            n == s@.len(),
            cap <= 0xffff_ffff,
            all_digits(s@.take(i as int)),
            acc as int == digits_val(s@.take(i as int)),
            acc <= cap,
        decreases n - i,
    {
        let c = s[i];
        if c < 48 || c > 57 {
            proof {
                assert(!is_digit(s@[i as int]));
                assert(!all_digits(s@));
            }
            return None;
        }
        let d: u64 = (c - 48) as u64;
        let next: u64 = acc * 10 + d;
        proof {
            assert(s@.take(i as int + 1).drop_last() =~= s@.take(i as int));
            assert(next as int == digits_val(s@.take(i as int + 1)));
        }
        if next > cap {
            proof {
                if all_digits(s@) {
                    lemma_digits_val_prefix(s@, i as int + 1);
                    assert(digits_val(s@) > cap);
                }
            }
            return None;
        }
        acc = next;
        i = i + 1;
    }
    proof {
        assert(s@.take(n as int) =~= s@);
    }
    Some(acc)
}

/// Ten to the `k`-th power.
pub open spec fn pow10(k: int) -> int
    decreases k,
{
    if k <= 0 {
        1
    } else {
        10 * pow10(k - 1)
    }
}

/// A string of `n` digits is worth less than ten to the `n`.
pub proof fn lemma_digits_val_bound(s: Seq<u8>)
    requires
        all_digits(s),
    ensures
        0 <= digits_val(s) < pow10(s.len() as int),
    decreases s.len(),
{
    if s.len() > 0 {
        assert(all_digits(s.drop_last()));
        lemma_digits_val_bound(s.drop_last());
    }
}

fn pow10_exec(k: usize) -> (r: i64)
    requires
        k <= 9,
    ensures
        r as int == pow10(k as int),
        1 <= r <= 1_000_000_000,
{
    let mut r: i64 = 1;
    let mut i: usize = 0;
    while i < k
        invariant
            i <= k <= 9,
            r as int == pow10(i as int),
            1 <= r <= 1_000_000_000,
        decreases k - i,
    {
        proof {
            reveal_with_fuel(pow10, 10);
            assert(pow10(i as int) <= pow10(8)) by {
                reveal_with_fuel(pow10, 10);
                lemma_pow10_mono(i as int, 8);
            }
        }
        r = r * 10;
        i = i + 1;
    }
    r
}

proof fn lemma_pow10_mono(a: int, b: int)
    requires
        a <= b,
    ensures
        pow10(a) <= pow10(b),
        pow10(a) >= 1,
    decreases b - a,
{
    if a < b {
        lemma_pow10_mono(a, b - 1);
    } else if a == b {
        lemma_pow10_pos(a);
    }
    lemma_pow10_pos(a);
}

proof fn lemma_pow10_pos(a: int)
    ensures
        pow10(a) >= 1,
    decreases a,
{
    if a > 0 {
        lemma_pow10_pos(a - 1);
    }
}

/// The raw fixed-point value of a decimal token: an optional sign, integer
/// digits and fractional digits around an optional dot; at least one digit;
/// the integer part capped at 32767; the fraction read to nine digits and
/// rounded to the nearest representable value.
pub open spec fn parse_fixed_spec(s: Seq<u8>) -> Option<int> {
    let neg = s.len() > 0 && s[0] == 45;
    let signed = s.len() > 0 && (s[0] == 45 || s[0] == 43);
    let t = if signed {
        s.skip(1)
    } else {
        s
    };
    let parts = split_spec(t, 46);
    if parts.len() == 1 {
        match parse_digits_spec(parts[0], 32767) {
            Some(v) => Some(
                if neg {
                    -(v * SCALE)
                } else {
                    v * SCALE
                },
            ),
            None => None,
        }
    } else if parts.len() == 2 {
        let ip = parts[0];
        let fp = parts[1];
        if ip.len() == 0 && fp.len() == 0 {
            None
        } else if !all_digits(ip) || !all_digits(fp) {
            None
        } else if digits_val(ip) > 32767 {
            None
        } else {
            let k = if fp.len() <= 9 {
                fp.len() as int
            } else {
                9
            };
            let raw = digits_val(ip) * SCALE + rdivn(digits_val(fp.take(k)) * SCALE, pow10(k));
            Some(
                if neg {
                    -raw
                } else {
                    raw
                },
            )
        }
    } else {
        None
    }
}

/// Parses a decimal token into a raw fixed-point value, exactly as
/// `parse_fixed_spec`; accepted values lie within `32768 * SCALE`.
#[verifier::loop_isolation(false)]
pub fn parse_fixed(s: &[u8]) -> (r: Option<i64>)
    ensures
        match r {
            Some(v) => parse_fixed_spec(s@) == Some(v as int) && -0x8000_0000i64 <= v
                <= 0x8000_0000i64,
            None => parse_fixed_spec(s@) is None,
        },
{
    let n = s.len();
    let signed = n > 0 && (s[0] == 45 || s[0] == 43);
    let neg = n > 0 && s[0] == 45;
    let start: usize = if signed {
        1
    } else {
        0
    };
    let mut body: Vec<u8> = Vec::new();
    let mut i: usize = start;
    while i < n
        invariant
            start <= i <= n,
            n == s@.len(),
            body@ == s@.subrange(start as int, i as int),
        decreases n - i,
    {
        body.push(s[i]);
        proof {
            assert(s@.subrange(start as int, i as int).push(s@[i as int]) =~= s@.subrange(
                start as int,
                i as int + 1,
            ));
        }
        i = i + 1;
    }
    proof {
        assert(s@.subrange(start as int, n as int) =~= (if signed {
            s@.skip(1)
        } else {
            s@
        }));
    }
    let parts = split_bytes(body.as_slice(), 46);
    if parts.len() == 1 {
        match parse_digits(parts[0].as_slice(), 32767) {
            Some(v) => {
                let raw: i64 = (v as i64) * SCALE;
                if neg {
                    Some(-raw)
                } else {
                    Some(raw)
                }
            },
            None => None,
        }
    } else if parts.len() == 2 {
        let ip = &parts[0];
        let fp = &parts[1];
        if ip.len() == 0 && fp.len() == 0 {
            return None;
        }
        let iv: u64 = if ip.len() == 0 {
            0
        } else {
            match parse_digits(ip.as_slice(), 32767) {
                Some(v) => v,
                None => {
                    return None;
                },
            }
        };
        // The whole fractional token must be digits, however long.
        let fl = fp.len();
        let mut j: usize = 0;
        while j < fl
            invariant
                j <= fl,
                fl == fp@.len(),
                all_digits(fp@.take(j as int)),
            decreases fl - j,
        {
            let c = fp[j];
            if c < 48 || c > 57 {
                proof {
                    assert(!is_digit(fp@[j as int]));
                }
                return None;
            }
            proof {
                assert(fp@.take(j as int + 1) =~= fp@.take(j as int).push(fp@[j as int]));
            }
            j = j + 1;
        }
        proof {
            assert(fp@.take(fl as int) =~= fp@);
        }
        let k: usize = if fl <= 9 {
            fl
        } else {
            9
        };
        let mut f9: Vec<u8> = Vec::new();
        let mut m: usize = 0;
        while m < k
            invariant
                m <= k <= 9,
                k <= fp@.len(),
                fl == fp@.len(),
                f9@ == fp@.subrange(0, m as int),
            decreases k - m,
        {
            f9.push(fp[m]);
            proof {
                assert(fp@.subrange(0, m as int).push(fp@[m as int]) =~= fp@.subrange(
                    0,
                    m as int + 1,
                ));
            }
            m = m + 1;
        }
        proof {
            assert(f9@ =~= fp@.take(k as int));
            assert(all_digits(f9@));
            lemma_digits_val_bound(f9@);
            lemma_pow10_mono(k as int, 9);
        }
        let fv: u64 = match parse_digits(f9.as_slice(), 0xffff_ffff) {
            Some(v) => v,
            None => {
                proof {
                    if f9.len() == 0 {
                        assert(digits_val(f9@) == 0);
                    }
                }
                0
            },
        };
        let p10 = pow10_exec(k);
        proof {
            assert(fv as int == digits_val(fp@.take(k as int))) by {
                if f9@.len() == 0 {
                    assert(digits_val(f9@) == 0);
                }
            }
            assert(0 <= (fv as int) * SCALE <= SCALE as int * (p10 as int)) by (nonlinear_arith)
                requires
                    0 <= (fv as int) < (p10 as int),
                    SCALE as int > 0,
            ;
            crate::fixed::lemma_rdivn_between((fv as int) * SCALE, p10 as int, 0, SCALE as int);
        }
        let fraw = crate::fixed::div_round_i64((fv as i64) * SCALE, p10);
        let raw: i64 = (iv as i64) * SCALE + fraw;
        if neg {
            Some(-raw)
        } else {
            Some(raw)
        }
    } else {
        None
    }
}

/// The zero-based vertex index and optional texture-vertex index of a face
/// corner token: one or two one-based decimal fields separated by a slash.
pub open spec fn parse_face_vertex_spec(s: Seq<u8>) -> Result<(int, Option<int>), LoadError> {
    let parts = split_spec(s, 47);
    match parse_digits_spec(parts[0], 0xffff_ffff) {
        None => Err(LoadError::MalformedNumber),
        Some(v) => if v == 0 {
            Err(LoadError::MalformedNumber)
        } else if parts.len() >= 2 {
            match parse_digits_spec(parts[1], 0xffff_ffff) {
                None => Err(LoadError::MalformedNumber),
                Some(t) => if t == 0 {
                    Err(LoadError::MalformedNumber)
                } else {
                    Ok((v - 1, Some(t - 1)))
                },
            }
        } else {
            Ok((v - 1, None))
        },
    }
}

/// Parses one face corner token, exactly as `parse_face_vertex_spec`;
/// the file's one-based indices come out zero-based.
pub fn parse_face_vertex(s: &[u8]) -> (r: Result<(usize, Option<usize>), LoadError>)
    ensures
        match r {
            Ok((i, vt)) => parse_face_vertex_spec(s@) == Ok::<(int, Option<int>), LoadError>(
                (
                    i as int,
                    match vt {
                        Some(t) => Some(t as int),
                        None => None::<int>,
                    },
                ),
            ),
            Err(e) => parse_face_vertex_spec(s@) == Err::<(int, Option<int>), LoadError>(e),
        },
{
    let parts = split_bytes(s, 47);
    match parse_digits(parts[0].as_slice(), 0xffff_ffff) {
        None => Err(LoadError::MalformedNumber),
        Some(v) => {
            if v == 0 {
                Err(LoadError::MalformedNumber)
            } else if parts.len() >= 2 {
                match parse_digits(parts[1].as_slice(), 0xffff_ffff) {
                    None => Err(LoadError::MalformedNumber),
                    Some(t) => {
                        if t == 0 {
                            Err(LoadError::MalformedNumber)
                        } else {
                            Ok(((v - 1) as usize, Some((t - 1) as usize)))
                        }
                    },
                }
            } else {
                Ok(((v - 1) as usize, None))
            }
        },
    }
}

/// A line with its trailing carriage return, if any, removed.
pub open spec fn strip_cr(s: Seq<u8>) -> Seq<u8> {
    if s.len() > 0 && s.last() == 13 {
        s.drop_last()
    } else {
        s
    }
}

/// An option of unbounded integers narrowed to machine indices.
pub open spec fn opt_usize(o: Option<int>) -> Option<usize> {
    match o {
        Some(v) => Some(v as usize),
        None => None,
    }
}

/// The face built from three parsed corner tokens.
pub open spec fn face_from(
    c0: (int, Option<int>),
    c1: (int, Option<int>),
    c2: (int, Option<int>),
) -> Face {
    Face {
        i0: c0.0 as usize,
        i1: c1.0 as usize,
        i2: c2.0 as usize,
        vt0: opt_usize(c0.1),
        vt1: opt_usize(c1.1),
        vt2: opt_usize(c2.1),
    }
}

/// What one line of the file contributes: its vertices and faces, or the
/// error that aborts the load.  Lines whose first token is neither `v` nor
/// `f` contribute nothing.  A four-vertex face is triangulated into two.
pub open spec fn parse_line_spec(s: Seq<u8>) -> Result<(Seq<Vertex>, Seq<Face>), LoadError> {
    let parts = split_spec(strip_cr(s), 32);
    let t = parts[0];
    if t.len() == 1 && t[0] == 118 {
        if parts.len() < 4 {
            Err(LoadError::MalformedNumber)
        } else {
            match parse_fixed_spec(parts[1]) {
                None => Err(LoadError::MalformedNumber),
                Some(x) => match parse_fixed_spec(parts[2]) {
                    None => Err(LoadError::MalformedNumber),
                    Some(y) => match parse_fixed_spec(parts[3]) {
                        None => Err(LoadError::MalformedNumber),
                        Some(z) => Ok(
                            (
                                seq![Vertex { x: x as i64, y: y as i64, z: z as i64 }],
                                Seq::<Face>::empty(),
                            ),
                        ),
                    },
                },
            }
        }
    } else if t.len() == 1 && t[0] == 102 {
        if parts.len() == 4 {
            match parse_face_vertex_spec(parts[1]) {
                Err(e) => Err(e),
                Ok(c0) => match parse_face_vertex_spec(parts[2]) {
                    Err(e) => Err(e),
                    Ok(c1) => match parse_face_vertex_spec(parts[3]) {
                        Err(e) => Err(e),
                        Ok(c2) => Ok((Seq::<Vertex>::empty(), seq![face_from(c0, c1, c2)])),
                    },
                },
            }
        } else if parts.len() == 5 {
            match parse_face_vertex_spec(parts[1]) {
                Err(e) => Err(e),
                Ok(c0) => match parse_face_vertex_spec(parts[2]) {
                    Err(e) => Err(e),
                    Ok(c1) => match parse_face_vertex_spec(parts[3]) {
                        Err(e) => Err(e),
                        Ok(c2) => match parse_face_vertex_spec(parts[4]) {
                            Err(e) => Err(e),
                            Ok(c3) => Ok(
                                (
                                    Seq::<Vertex>::empty(),
                                    seq![face_from(c0, c1, c2), face_from(c0, c2, c3)],
                                ),
                            ),
                        },
                    },
                },
            }
        } else {
            Err(LoadError::UnsupportedFaceCount)
        }
    } else {
        Ok((Seq::<Vertex>::empty(), Seq::<Face>::empty()))
    }
}

/// Parses one line, exactly as `parse_line_spec`.
#[verifier::loop_isolation(false)]
pub fn parse_line(line: Vec<u8>) -> (r: Result<(Vec<Vertex>, Vec<Face>), LoadError>)
    ensures
        match r {
            Ok(p) => parse_line_spec(line@) == Ok::<(Seq<Vertex>, Seq<Face>), LoadError>(
                (p.0@, p.1@),
            ),
            Err(e) => parse_line_spec(line@) == Err::<(Seq<Vertex>, Seq<Face>), LoadError>(e),
        },
{
    let ghost orig = line@;
    let mut l = line;
    if l.len() > 0 {
        let last = l[l.len() - 1];
        if last == 13 {
            l.pop();
            proof {
                assert(l@ =~= strip_cr(orig));
            }
        }
    }
    proof {
        assert(l@ =~= strip_cr(orig));
    }
    let parts = split_bytes(l.as_slice(), 32);
    let t = &parts[0];
    if t.len() == 1 && t[0] == 118 {
        if parts.len() < 4 {
            return Err(LoadError::MalformedNumber);
        }
        match parse_fixed(parts[1].as_slice()) {
            None => Err(LoadError::MalformedNumber),
            Some(x) => match parse_fixed(parts[2].as_slice()) {
                None => Err(LoadError::MalformedNumber),
                Some(y) => match parse_fixed(parts[3].as_slice()) {
                    None => Err(LoadError::MalformedNumber),
                    Some(z) => {
                        let mut vs: Vec<Vertex> = Vec::new();
                        vs.push(Vertex::new(x, y, z));
                        let fs: Vec<Face> = Vec::new();
                        proof {
                            assert(parse_line_spec(orig)->Ok_0.0 =~= vs@);
                            assert(fs@ =~= Seq::<Face>::empty());
                        }
                        Ok((vs, fs))
                    },
                },
            },
        }
    } else if t.len() == 1 && t[0] == 102 {
        if parts.len() == 4 {
            match parse_face_vertex(parts[1].as_slice()) {
                Err(e) => Err(e),
                Ok(c0) => match parse_face_vertex(parts[2].as_slice()) {
                    Err(e) => Err(e),
                    Ok(c1) => match parse_face_vertex(parts[3].as_slice()) {
                        Err(e) => Err(e),
                        Ok(c2) => {
                            let vs: Vec<Vertex> = Vec::new();
                            let mut fs: Vec<Face> = Vec::new();
                            fs.push(Face::new(c0.0, c1.0, c2.0, c0.1, c1.1, c2.1));
                            proof {
                                assert(vs@ =~= Seq::<Vertex>::empty());
                                assert(parse_line_spec(orig)->Ok_0.1 =~= fs@);
                            }
                            Ok((vs, fs))
                        },
                    },
                },
            }
        } else if parts.len() == 5 {
            match parse_face_vertex(parts[1].as_slice()) {
                Err(e) => Err(e),
                Ok(c0) => match parse_face_vertex(parts[2].as_slice()) {
                    Err(e) => Err(e),
                    Ok(c1) => match parse_face_vertex(parts[3].as_slice()) {
                        Err(e) => Err(e),
                        Ok(c2) => match parse_face_vertex(parts[4].as_slice()) {
                            Err(e) => Err(e),
                            Ok(c3) => {
                                let vs: Vec<Vertex> = Vec::new();
                                let mut fs: Vec<Face> = Vec::new();
                                fs.push(Face::new(c0.0, c1.0, c2.0, c0.1, c1.1, c2.1));
                                fs.push(Face::new(c0.0, c2.0, c3.0, c0.1, c2.1, c3.1));
                                proof {
                                    assert(vs@ =~= Seq::<Vertex>::empty());
                                    assert(parse_line_spec(orig)->Ok_0.1 =~= fs@);
                                }
                                Ok((vs, fs))
                            },
                        },
                    },
                },
            }
        } else {
            Err(LoadError::UnsupportedFaceCount)
        }
    } else {
        let vs: Vec<Vertex> = Vec::new();
        let fs: Vec<Face> = Vec::new();
        proof {
            assert(vs@ =~= Seq::<Vertex>::empty());
            assert(fs@ =~= Seq::<Face>::empty());
        }
        Ok((vs, fs))
    }
}

/// Prepends accumulated vertices and faces to a tail parse.
pub open spec fn lines_combine(
    vs: Seq<Vertex>,
    fs: Seq<Face>,
    rest: Result<(Seq<Vertex>, Seq<Face>), LoadError>,
) -> Result<(Seq<Vertex>, Seq<Face>), LoadError> {
    match rest {
        Ok(r) => Ok((vs + r.0, fs + r.1)),
        Err(e) => Err(e),
    }
}

/// What a sequence of lines contributes, line by line; the first error
/// aborts the whole load.
pub open spec fn parse_lines_spec(lines: Seq<Seq<u8>>) -> Result<
    (Seq<Vertex>, Seq<Face>),
    LoadError,
>
    decreases lines.len(),
{
    if lines.len() == 0 {
        Ok((Seq::<Vertex>::empty(), Seq::<Face>::empty()))
    } else {
        match parse_line_spec(lines[0]) {
            Err(e) => Err(e),
            Ok(p) => lines_combine(p.0, p.1, parse_lines_spec(lines.skip(1))),
        }
    }
}

/// The model described by the bytes of a mesh file, or the error that
/// aborts the load: lines split on newline, each contributing in order.
pub open spec fn parse_obj_spec(bytes: Seq<u8>) -> Result<(Seq<Vertex>, Seq<Face>), LoadError> {
    parse_lines_spec(split_spec(bytes, 10))
}

impl Model {
    /// Parses the text of a mesh file, exactly as `parse_obj_spec`: `v` and
    /// `f` lines in order, everything else ignored, the first defect fatal.
    #[verifier::loop_isolation(false)]
    pub fn parse_obj(bytes: &[u8]) -> (r: Result<Model, LoadError>)
        ensures
            match r {
                Ok(m) => parse_obj_spec(bytes@) == Ok::<(Seq<Vertex>, Seq<Face>), LoadError>(
                    (m.vertices_view(), m.faces_view()),
                ),
                Err(e) => parse_obj_spec(bytes@) == Err::<(Seq<Vertex>, Seq<Face>), LoadError>(e),
            },
    {
        let ghost glines = split_spec(bytes@, 10);
        let mut lines = split_bytes(bytes, 10);
        let mut verts: Vec<Vertex> = Vec::new();
        let mut faces: Vec<Face> = Vec::new();
        let ghost mut gi: int = 0;
        proof {
            assert(vecs_view(lines@) =~= glines.skip(0));
            assert(verts@ + Seq::<Vertex>::empty() =~= verts@);
            assert(faces@ + Seq::<Face>::empty() =~= faces@);
        }
        while lines.len() > 0
            invariant
                0 <= gi <= glines.len(),
                gi + lines@.len() == glines.len(),
                vecs_view(lines@) == glines.skip(gi),
                parse_lines_spec(glines) == lines_combine(
                    verts@,
                    faces@,
                    parse_lines_spec(glines.skip(gi)),
                ),
            decreases lines@.len(),
        {
            let line = lines.remove(0);
            proof {
                assert(glines.skip(gi)[0] == glines[gi]);
                assert(line@ == glines[gi]);
                assert(glines.skip(gi).skip(1) =~= glines.skip(gi + 1));
                assert(vecs_view(lines@) =~= glines.skip(gi + 1));
            }
            match parse_line(line) {
                Err(e) => {
                    return Err(e);
                },
                Ok(p) => {
                    let (mut vs, mut fs) = p;
                    proof {
                        let rest = parse_lines_spec(glines.skip(gi + 1));
                        if rest is Ok {
                            assert(verts@ + (vs@ + rest->Ok_0.0) =~= (verts@ + vs@)
                                + rest->Ok_0.0);
                            assert(faces@ + (fs@ + rest->Ok_0.1) =~= (faces@ + fs@)
                                + rest->Ok_0.1);
                        }
                    }
                    verts.append(&mut vs);
                    faces.append(&mut fs);
                    proof {
                        gi = gi + 1;
                    }
                },
            }
        }
        proof {
            assert(glines.skip(gi) =~= Seq::<Seq<u8>>::empty());
            assert(verts@ + Seq::<Vertex>::empty() =~= verts@);
            assert(faces@ + Seq::<Face>::empty() =~= faces@);
        }
        Ok(Model { vertices: verts, faces })
    }
}

} // verus!
