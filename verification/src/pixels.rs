//! The pixel compositor: solid and alpha-blended rectangle fills, coverage-mask
//! blits, RGBA image blits and colour-glyph blits over one RGBA frame buffer.
//!
//! A frame is a byte slice of `pw * ph` pixels in row-major order, four bytes
//! (red, green, blue, alpha) per pixel. Every operation clips to the frame and to
//! the buffers it is handed: a pixel that lies outside either is left alone.

use vstd::arithmetic::div_mod::lemma_fundamental_div_mod;
use vstd::arithmetic::div_mod::lemma_fundamental_div_mod_converse;
use vstd::arithmetic::div_mod::lemma_mod_bound;
use vstd::prelude::*;

verus! {

/// One pixel of a frame.
#[derive(Clone, Copy, Debug)]
pub struct Pixel {
    pub r: u8,
    pub g: u8,
    pub b: u8,
    pub a: u8,
}

/// What a compositing pass lays over the frame.
#[derive(Clone, Copy)]
pub enum Source<'a> {
    /// An opaque colour.
    Solid([u8; 3]),
    /// A colour at one alpha for the whole rectangle.
    Tint([u8; 3], u8),
    /// A coverage mask, one byte per pixel, blended with one colour.
    Mask(&'a [u8], [u8; 3]),
    /// An RGBA image, four bytes per pixel, laid over by its own alpha.
    Image(&'a [u8]),
    /// A pre-coloured glyph, four bytes per pixel, each channel scaled on its own.
    Glyph(&'a [u8]),
}

/// `src` laid over `dst` at alpha `a`: `(src * a + dst * (255 - a)) / 255`.
pub open spec fn over(src: u8, dst: u8, a: u8) -> u8 {
    ((src as int * a as int + dst as int * (255 - a as int)) / 255) as u8
}

/// The alpha left after laying alpha `a` over a pixel of alpha `dst`:
/// `a + dst * (255 - a) / 255`.
pub open spec fn over_alpha(dst: u8, a: u8) -> u8 {
    (a as int + dst as int * (255 - a as int) / 255) as u8
}

/// A pre-coloured channel over `dst`, each part rounded down on its own:
/// `src * a / 255 + dst * (255 - a) / 255`.
pub open spec fn over_scaled(src: u8, dst: u8, a: u8) -> u8 {
    (src as int * a as int / 255 + dst as int * (255 - a as int) / 255) as u8
}

/// Colour `(r, g, b)` laid over pixel `d` at alpha `a`.
pub open spec fn lay(r: u8, g: u8, b: u8, a: u8, d: Pixel) -> Pixel {
    Pixel { r: over(r, d.r, a), g: over(g, d.g, a), b: over(b, d.b, a), a: over_alpha(d.a, a) }
}

/// The pixel that starts at byte `4 * p` of `data`.
pub open spec fn pixel_at(data: Seq<u8>, p: int) -> Pixel {
    Pixel { r: data[4 * p], g: data[4 * p + 1], b: data[4 * p + 2], a: data[4 * p + 3] }
}

/// Channel `ch` (0 red, 1 green, 2 blue, else alpha) of a pixel.
pub open spec fn channel(px: Pixel, ch: int) -> u8 {
    if ch == 0 {
        px.r
    } else if ch == 1 {
        px.g
    } else if ch == 2 {
        px.b
    } else {
        px.a
    }
}

/// What a source lays over the frame, with its buffers as sequences.
pub enum Paint {
    /// An opaque colour.
    Solid([u8; 3]),
    /// A colour at one alpha.
    Tint([u8; 3], u8),
    /// A coverage mask blended with one colour.
    Mask(Seq<u8>, [u8; 3]),
    /// An RGBA image.
    Image(Seq<u8>),
    /// A pre-coloured glyph.
    Glyph(Seq<u8>),
}

impl<'a> View for Source<'a> {
    type V = Paint;

    open spec fn view(&self) -> Paint {
        match self {
            Source::Solid(c) => Paint::Solid(*c),
            Source::Tint(c, a) => Paint::Tint(*c, *a),
            Source::Mask(m, c) => Paint::Mask(m@, *c),
            Source::Image(s) => Paint::Image(s@),
            Source::Glyph(s) => Paint::Glyph(s@),
        }
    }
}

impl Paint {
    /// Whether the source holds a value at source index `si`.
    pub open spec fn has(self, si: int) -> bool {
        match self {
            Paint::Solid(_) => true,
            Paint::Tint(_, _) => true,
            Paint::Mask(m, _) => 0 <= si < m.len(),
            Paint::Image(s) => 0 <= si && 4 * si + 4 <= s.len(),
            Paint::Glyph(s) => 0 <= si && 4 * si + 4 <= s.len(),
        }
    }

    /// The pixel that results from laying source index `si` over `d`.
    pub open spec fn laid(self, si: int, d: Pixel) -> Pixel {
        match self {
            Paint::Solid(c) => Pixel { r: c[0], g: c[1], b: c[2], a: 255 },
            Paint::Tint(c, a) => lay(c[0], c[1], c[2], a, d),
            Paint::Mask(m, c) => lay(c[0], c[1], c[2], m[si], d),
            Paint::Image(s) => lay(s[4 * si], s[4 * si + 1], s[4 * si + 2], s[4 * si + 3], d),
            Paint::Glyph(s) => {
                let a = s[4 * si + 3];
                Pixel {
                    r: over_scaled(s[4 * si], d.r, a),
                    g: over_scaled(s[4 * si + 1], d.g, a),
                    b: over_scaled(s[4 * si + 2], d.b, a),
                    a: over_alpha(d.a, a),
                }
            },
        }
    }
}

/// Whether a pass over the rectangle at `(x0, y0)` of size `w` by `h` writes pixel
/// `p` of a frame of `len` bytes: the pixel lies in the frame, in the rectangle and
/// in the buffer, and the source holds a value for it.
pub open spec fn touched(
    len: int,
    pw: int,
    ph: int,
    x0: int,
    y0: int,
    w: int,
    h: int,
    src: Paint,
    p: int,
) -> bool {
    &&& pw > 0
    &&& 0 <= p
    &&& p / pw < ph
    &&& x0 <= p % pw < x0 + w
    &&& y0 <= p / pw < y0 + h
    &&& 4 * p + 4 <= len
    &&& src.has((p / pw - y0) * w + (p % pw - x0))
}

/// Byte `i` of the frame after the pass.
pub open spec fn composite_at(
    data: Seq<u8>,
    pw: int,
    ph: int,
    x0: int,
    y0: int,
    w: int,
    h: int,
    src: Paint,
    i: int,
) -> u8 {
    let p = i / 4;
    if touched(data.len() as int, pw, ph, x0, y0, w, h, src, p) {
        channel(src.laid((p / pw - y0) * w + (p % pw - x0), pixel_at(data, p)), i % 4)
    } else {
        data[i]
    }
}

/// The frame after one pass of `src` over the rectangle at `(x0, y0)` of size `w`
/// by `h`: every touched pixel holds the source laid over what was there, every
/// other byte is unchanged.
pub open spec fn composite(
    data: Seq<u8>,
    pw: int,
    ph: int,
    x0: int,
    y0: int,
    w: int,
    h: int,
    src: Paint,
) -> Seq<u8> {
    Seq::new(data.len(), |i: int| composite_at(data, pw, ph, x0, y0, w, h, src, i))
}

/// A pass keeps the length of the frame.
pub proof fn lemma_composite_len(
    data: Seq<u8>,
    pw: int,
    ph: int,
    x0: int,
    y0: int,
    w: int,
    h: int,
    src: Paint,
)
    ensures
        composite(data, pw, ph, x0, y0, w, h, src).len() == data.len(),
{
}

proof fn lemma_over_bounds(s: u8, d: u8, a: u8)
    ensures
        0 <= (s as int * a as int + d as int * (255 - a as int)) / 255 <= 255,
        0 <= d as int * (255 - a as int) / 255 <= 255 - a as int,
        0 <= s as int * a as int / 255 <= a as int,
        0 <= s as int * a as int <= 65025,
        0 <= d as int * (255 - a as int) <= 65025,
{
    assert(0 <= s as int * a as int <= 255 * a as int) by (nonlinear_arith)
        requires
            0 <= s <= 255,
            0 <= a <= 255,
    ;
    assert(0 <= d as int * (255 - a as int) <= 255 * (255 - a as int)) by (nonlinear_arith)
        requires
            0 <= d <= 255,
            0 <= a <= 255,
    ;
}

/// An alpha of zero leaves the pixel as it was, and a full alpha gives the colour.
pub proof fn lemma_lay_ends(r: u8, g: u8, b: u8, d: Pixel)
    ensures
        lay(r, g, b, 0, d) == d,
        lay(r, g, b, 255, d) == (Pixel { r, g, b, a: 255 }),
{
    assert(d.r as int * 255 / 255 == d.r as int);
    assert(d.g as int * 255 / 255 == d.g as int);
    assert(d.b as int * 255 / 255 == d.b as int);
    assert(d.a as int * 255 / 255 == d.a as int);
    assert(r as int * 255 / 255 == r as int);
    assert(g as int * 255 / 255 == g as int);
    assert(b as int * 255 / 255 == b as int);
    assert(r as int * 0 == 0 && g as int * 0 == 0 && b as int * 0 == 0);
    assert(d.r as int * 0 == 0 && d.g as int * 0 == 0 && d.b as int * 0 == 0 && d.a as int * 0 == 0);
}

fn blend_channel(s: u8, d: u8, a: u8) -> (out: u8)
    ensures
        out == over(s, d, a),
{
    proof {
        lemma_over_bounds(s, d, a);
    }
    let a32: u32 = a as u32;
    let inv: u32 = 255 - a32;
    ((s as u32 * a32 + d as u32 * inv) / 255) as u8
}

fn blend_alpha(d: u8, a: u8) -> (out: u8)
    ensures
        out == over_alpha(d, a),
{
    proof {
        lemma_over_bounds(0, d, a);
    }
    let a32: u32 = a as u32;
    let inv: u32 = 255 - a32;
    (a32 + d as u32 * inv / 255) as u8
}

fn blend_scaled(s: u8, d: u8, a: u8) -> (out: u8)
    ensures
        out == over_scaled(s, d, a),
{
    proof {
        lemma_over_bounds(s, d, a);
    }
    let a32: u32 = a as u32;
    let inv: u32 = 255 - a32;
    (s as u32 * a32 / 255 + d as u32 * inv / 255) as u8
}

fn blend(r: u8, g: u8, b: u8, a: u8, d: Pixel) -> (out: Pixel)
    ensures
        out == lay(r, g, b, a, d),
{
    Pixel {
        r: blend_channel(r, d.r, a),
        g: blend_channel(g, d.g, a),
        b: blend_channel(b, d.b, a),
        a: blend_alpha(d.a, a),
    }
}

/// The pixel to write for source index `si` over `d`, or `None` where nothing has
/// to be written: the source holds no value there, or the pixel stays as it is.
fn paint(src: Source, si: u64, d: Pixel) -> (out: Option<Pixel>)
    ensures
        match out {
            Some(px) => src@.has(si as int) && px == src@.laid(si as int, d),
            None => !src@.has(si as int) || src@.laid(si as int, d) == d,
        },
{
    match src {
        Source::Solid(c) => Some(Pixel { r: c[0], g: c[1], b: c[2], a: 255 }),
        Source::Tint(c, a) => Some(blend(c[0], c[1], c[2], a, d)),
        Source::Mask(m, c) => {
            if si >= m.len() as u64 {
                return None;
            }
            let a: u8 = m[si as usize];
            if a == 0 {
                proof {
                    lemma_lay_ends(c[0], c[1], c[2], d);
                }
                return None;
            }
            Some(blend(c[0], c[1], c[2], a, d))
        },
        Source::Image(s) => {
            if si >= (s.len() / 4) as u64 {
                return None;
            }
            let i: usize = si as usize * 4;
            let a: u8 = s[i + 3];
            proof {
                lemma_lay_ends(s[i as int], s[i + 1], s[i + 2], d);
            }
            if a == 0 {
                None
            } else if a == 255 {
                Some(Pixel { r: s[i], g: s[i + 1], b: s[i + 2], a: 255 })
            } else {
                Some(blend(s[i], s[i + 1], s[i + 2], a, d))
            }
        },
        Source::Glyph(s) => {
            if si >= (s.len() / 4) as u64 {
                return None;
            }
            let i: usize = si as usize * 4;
            let a: u8 = s[i + 3];
            if a == 0 {
                proof {
                    lemma_lay_ends(0, 0, 0, d);
                    assert(s[i as int] as int * 0 == 0 && s[i + 1] as int * 0 == 0 && s[i + 2] as int
                        * 0 == 0);
                    assert(d.r as int * 255 / 255 == d.r as int);
                    assert(d.g as int * 255 / 255 == d.g as int);
                    assert(d.b as int * 255 / 255 == d.b as int);
                }
                return None;
            }
            Some(
                Pixel {
                    r: blend_scaled(s[i], d.r, a),
                    g: blend_scaled(s[i + 1], d.g, a),
                    b: blend_scaled(s[i + 2], d.b, a),
                    a: blend_alpha(d.a, a),
                },
            )
        },
    }
}

proof fn lemma_coords(p: int, pw: int)
    requires
        0 <= p,
        0 < pw,
    ensures
        0 <= p / pw,
        0 <= p % pw < pw,
        p == (p / pw) * pw + p % pw,
{
    lemma_fundamental_div_mod(p, pw);
    lemma_mod_bound(p, pw);
    assert(pw * (p / pw) == (p / pw) * pw) by (nonlinear_arith);
    assert(0 <= p / pw) by (nonlinear_arith)
        requires
            0 <= p,
            0 < pw,
            p == (p / pw) * pw + p % pw,
            p % pw < pw,
    ;
}

proof fn lemma_coords_of(row: int, col: int, pw: int)
    requires
        0 <= row,
        0 <= col < pw,
    ensures
        (row * pw + col) / pw == row,
        (row * pw + col) % pw == col,
        0 <= row * pw + col,
{
    assert(row * pw == pw * row) by (nonlinear_arith);
    assert(0 <= row * pw) by (nonlinear_arith)
        requires
            0 <= row,
            0 < pw,
    ;
    lemma_fundamental_div_mod_converse(row * pw + col, pw, row, col);
}

/// Byte `i` of a frame on which the pass has handled every pixel before row `py`,
/// and in row `py` every pixel before column `px`.
spec fn partial(
    data: Seq<u8>,
    pw: int,
    ph: int,
    x0: int,
    y0: int,
    w: int,
    h: int,
    src: Paint,
    py: int,
    px: int,
    i: int,
) -> u8 {
    let p = i / 4;
    if pw > 0 && (p / pw < py || (p / pw == py && p % pw < px)) {
        composite_at(data, pw, ph, x0, y0, w, h, src, i)
    } else {
        data[i]
    }
}

/// Lays `src` over the rectangle at `(x0, y0)` of size `w` by `h`, clipped to the
/// frame of `pw` by `ph` pixels and to the length of `data`.
pub fn composite_into(
    data: &mut [u8],
    pw: u32,
    ph: u32,
    x0: i64,
    y0: i64,
    w: i64,
    h: i64,
    src: Source,
)
    requires
        -0x100_0000_0000 <= x0 <= 0x100_0000_0000,
        -0x100_0000_0000 <= y0 <= 0x100_0000_0000,
        -0x8000_0000 <= w <= 0xffff_ffff,
        -0x8000_0000 <= h <= 0xffff_ffff,
    ensures
        final(data)@ == composite(old(data)@, pw as int, ph as int, x0 as int, y0 as int, w as int, h as int, src@),
{
    let pixels: u64 = (data.len() / 4) as u64;
    let y_start: i64 = if y0 > 0 { y0 } else { 0 };
    let y_stop: i64 = if y0 + h < ph as i64 { y0 + h } else { ph as i64 };
    let x_start: i64 = if x0 > 0 { x0 } else { 0 };
    let x_stop: i64 = if x0 + w < pw as i64 { x0 + w } else { pw as i64 };
    let ghost before = data@;
    let mut py: i64 = y_start;
    proof {
        assert forall|i: int| 0 <= i < before.len() implies data@[i] == partial(
            before, pw as int, ph as int, x0 as int, y0 as int, w as int, h as int, src@, py as int, 0, i,
        ) by {
            if pw > 0 {
                lemma_coords(i / 4, pw as int);
            }
        }
    }
    while py < y_stop
        invariant
            before == old(data)@,
            data@.len() == before.len(),
            pixels == before.len() / 4,
            pixels * 4 <= usize::MAX,
            y_start == (if y0 > 0 { y0 } else { 0 }),
            y_stop == (if y0 + h < ph as int { y0 + h } else { ph as int }),
            x_start == (if x0 > 0 { x0 } else { 0 }),
            x_stop == (if x0 + w < pw as int { x0 + w } else { pw as int }),
            -0x100_0000_0000 <= x0 <= 0x100_0000_0000,
            -0x100_0000_0000 <= y0 <= 0x100_0000_0000,
            -0x8000_0000 <= w <= 0xffff_ffff,
            -0x8000_0000 <= h <= 0xffff_ffff,
            y_start <= py,
            forall|i: int|
                0 <= i < before.len() ==> data@[i] == partial(
                    before, pw as int, ph as int, x0 as int, y0 as int, w as int, h as int, src@, py as int, 0, i,
                ),
        decreases y_stop - py,
    {
        let mut px: i64 = x_start;
        proof {
            assert forall|i: int| 0 <= i < before.len() implies data@[i] == partial(
                before, pw as int, ph as int, x0 as int, y0 as int, w as int, h as int, src@, py as int,
                px as int, i,
            ) by {
                if pw > 0 {
                    lemma_coords(i / 4, pw as int);
                }
            }
        }
        while px < x_stop
            invariant
                data@.len() == before.len(),
                pixels == before.len() / 4,
                pixels * 4 <= usize::MAX,
            pixels * 4 <= usize::MAX,
                y_stop == (if y0 + h < ph as int { y0 + h } else { ph as int }),
                x_start == (if x0 > 0 { x0 } else { 0 }),
                x_stop == (if x0 + w < pw as int { x0 + w } else { pw as int }),
                -0x100_0000_0000 <= x0 <= 0x100_0000_0000,
                -0x100_0000_0000 <= y0 <= 0x100_0000_0000,
                -0x8000_0000 <= w <= 0xffff_ffff,
                -0x8000_0000 <= h <= 0xffff_ffff,
                0 <= py < y_stop,
                y0 <= py,
                x_start <= px,
                forall|i: int|
                    0 <= i < before.len() ==> data@[i] == partial(
                        before, pw as int, ph as int, x0 as int, y0 as int, w as int, h as int, src@,
                        py as int, px as int, i,
                    ),
            decreases x_stop - px,
        {
            let ghost mid = data@;
            assert(py as int * pw as int + px as int <= 0xffff_ffff * 0xffff_ffff + 0xffff_ffff
                && 0 <= py as int * pw as int) by (nonlinear_arith)
                requires
                    0 <= py < ph,
                    0 <= px < pw,
                    pw <= 0xffff_ffff,
                    ph <= 0xffff_ffff,
            ;
            let p: u64 = py as u64 * pw as u64 + px as u64;
            assert(0 <= (py - y0) as int * w as int + (px - x0) as int <= 0xffff_ffff * 0xffff_ffff
                + 0xffff_ffff && 0 <= (py - y0) as int * w as int) by (nonlinear_arith)
                requires
                    0 <= py - y0 < h,
                    0 <= px - x0 < w,
                    w <= 0xffff_ffff,
                    h <= 0xffff_ffff,
            ;
            let si: u64 = (py - y0) as u64 * w as u64 + (px - x0) as u64;
            proof {
                lemma_coords_of(py as int, px as int, pw as int);
            }
            if p < pixels {
                let i: usize = p as usize * 4;
                let d = Pixel { r: data[i], g: data[i + 1], b: data[i + 2], a: data[i + 3] };
                assert(d == pixel_at(before, p as int));
                match paint(src, si, d) {
                    Some(out) => {
                        data[i] = out.r;
                        data[i + 1] = out.g;
                        data[i + 2] = out.b;
                        data[i + 3] = out.a;
                    },
                    None => {},
                }
            }
            proof {
                assert forall|i: int| 0 <= i < before.len() implies data@[i] == partial(
                    before, pw as int, ph as int, x0 as int, y0 as int, w as int, h as int, src@,
                    py as int, px + 1, i,
                ) by {
                    lemma_coords(i / 4, pw as int);
                    assert(mid[i] == partial(
                        before, pw as int, ph as int, x0 as int, y0 as int, w as int, h as int, src@,
                        py as int, px as int, i,
                    ));
                }
            }
            px = px + 1;
        }
        proof {
            assert forall|i: int| 0 <= i < before.len() implies data@[i] == partial(
                before, pw as int, ph as int, x0 as int, y0 as int, w as int, h as int, src@, py + 1, 0, i,
            ) by {
                if pw > 0 {
                    lemma_coords(i / 4, pw as int);
                }
            }
        }
        py = py + 1;
    }
    proof {
        assert forall|i: int| 0 <= i < before.len() implies data@[i] == composite_at(
            before, pw as int, ph as int, x0 as int, y0 as int, w as int, h as int, src@, i,
        ) by {
            if pw > 0 {
                lemma_coords(i / 4, pw as int);
            }
        }
        assert(data@ =~= composite(
            before, pw as int, ph as int, x0 as int, y0 as int, w as int, h as int, src@,
        ));
    }
}

/// A tint at full alpha is the solid colour.
pub proof fn lemma_opaque_tint_is_solid(
    data: Seq<u8>,
    pw: int,
    ph: int,
    x0: int,
    y0: int,
    w: int,
    h: int,
    c: [u8; 3],
)
    ensures
        composite(data, pw, ph, x0, y0, w, h, Paint::Tint(c, 255)) == composite(
            data, pw, ph, x0, y0, w, h, Paint::Solid(c),
        ),
{
    assert forall|i: int| 0 <= i < data.len() implies composite_at(
        data, pw, ph, x0, y0, w, h, Paint::Tint(c, 255), i,
    ) == composite_at(data, pw, ph, x0, y0, w, h, Paint::Solid(c), i) by {
        lemma_lay_ends(c[0], c[1], c[2], pixel_at(data, i / 4));
    }
    assert(composite(data, pw, ph, x0, y0, w, h, Paint::Tint(c, 255)) =~= composite(
        data, pw, ph, x0, y0, w, h, Paint::Solid(c),
    ));
}

/// A frame without columns or rows is never written, whatever the sign of its size.
proof fn lemma_empty_frame(
    data: Seq<u8>,
    pw: int,
    ph: int,
    x0: int,
    y0: int,
    w: int,
    h: int,
    src: Paint,
)
    requires
        pw <= 0 || ph <= 0,
    ensures
        composite(data, pw, ph, x0, y0, w, h, src) == data,
{
    assert forall|i: int| 0 <= i < data.len() implies composite_at(data, pw, ph, x0, y0, w, h, src, i)
        == data[i] by {
        if pw > 0 {
            lemma_coords(i / 4, pw);
        }
    }
    assert(composite(data, pw, ph, x0, y0, w, h, src) =~= data);
}

/// Fills the rectangle at `(x, y)` of size `w` by `h` with the opaque colour `c`.
pub fn fill_rect(data: &mut [u8], pw: u32, ph: u32, x: u32, y: u32, w: u32, h: u32, c: [u8; 3])
    ensures
        final(data)@ == composite(
            old(data)@, pw as int, ph as int, x as int, y as int, w as int, h as int, Paint::Solid(c),
        ),
{
    composite_into(data, pw, ph, x as i64, y as i64, w as i64, h as i64, Source::Solid(c));
}

/// Lays the colour `c` at alpha `a` over the rectangle at `(x, y)` of size `w` by
/// `h`; at full alpha this is the opaque fill.
pub fn fill_rect_alpha(
    data: &mut [u8],
    pw: u32,
    ph: u32,
    x: u32,
    y: u32,
    w: u32,
    h: u32,
    c: [u8; 3],
    a: u8,
)
    ensures
        final(data)@ == composite(
            old(data)@, pw as int, ph as int, x as int, y as int, w as int, h as int, Paint::Tint(c, a),
        ),
{
    if a == 0xff {
        proof {
            lemma_opaque_tint_is_solid(
                data@, pw as int, ph as int, x as int, y as int, w as int, h as int, c,
            );
        }
        fill_rect(data, pw, ph, x, y, w, h, c);
    } else {
        composite_into(data, pw, ph, x as i64, y as i64, w as i64, h as i64, Source::Tint(c, a));
    }
}

/// Lays `src` over the rectangle at `(x0, y0)` of a frame whose size is given with
/// a sign; a frame of negative width or height holds no pixel.
fn blit(data: &mut [u8], pw: i32, ph: i32, x0: i32, y0: i32, w: i32, h: i32, src: Source)
    ensures
        final(data)@ == composite(
            old(data)@, pw as int, ph as int, x0 as int, y0 as int, w as int, h as int, src@,
        ),
{
    if pw <= 0 || ph <= 0 {
        proof {
            lemma_empty_frame(data@, pw as int, ph as int, x0 as int, y0 as int, w as int, h as int, src@);
        }
    } else {
        composite_into(data, pw as u32, ph as u32, x0 as i64, y0 as i64, w as i64, h as i64, src);
    }
}

/// Blends `color` into the frame through the coverage mask `mask`, `w` by `h` bytes,
/// placed at `(x0, y0)`.
pub fn blit_mask(
    data: &mut [u8],
    pw: i32,
    ph: i32,
    x0: i32,
    y0: i32,
    w: i32,
    h: i32,
    mask: &[u8],
    color: &[u8; 3],
)
    ensures
        final(data)@ == composite(
            old(data)@, pw as int, ph as int, x0 as int, y0 as int, w as int, h as int,
            Paint::Mask(mask@, *color),
        ),
{
    blit(data, pw, ph, x0, y0, w, h, Source::Mask(mask, *color));
}

/// Lays the RGBA image `src`, `w` by `h` pixels, over the frame at `(x0, y0)`, each
/// pixel by its own alpha.
pub fn blit_rgba(data: &mut [u8], pw: i32, ph: i32, x0: i32, y0: i32, w: i32, h: i32, src: &[u8])
    ensures
        final(data)@ == composite(
            old(data)@, pw as int, ph as int, x0 as int, y0 as int, w as int, h as int,
            Paint::Image(src@),
        ),
{
    blit(data, pw, ph, x0, y0, w, h, Source::Image(src));
}

/// Lays the pre-coloured glyph `rgba`, `w` by `h` pixels, over the frame at
/// `(x0, y0)`.
pub fn blit_color(data: &mut [u8], pw: i32, ph: i32, x0: i32, y0: i32, w: i32, h: i32, rgba: &[u8])
    ensures
        final(data)@ == composite(
            old(data)@, pw as int, ph as int, x0 as int, y0 as int, w as int, h as int,
            Paint::Glyph(rgba@),
        ),
{
    blit(data, pw, ph, x0, y0, w, h, Source::Glyph(rgba));
}

/// The channel of a source pixel that lands in channel `ch` of the presented
/// pixel: red and blue change places.
pub open spec fn swapped(ch: int) -> int {
    if ch == 0 {
        2
    } else if ch == 2 {
        0
    } else {
        ch
    }
}

/// `dst` after the frame `src` has been presented into it: every pixel that both
/// hold whole is the source pixel with red and blue exchanged, the rest of `dst`
/// is unchanged.
pub open spec fn presented(dst: Seq<u8>, src: Seq<u8>) -> Seq<u8> {
    Seq::new(
        dst.len(),
        |i: int|
            if i / 4 < dst.len() / 4 && i / 4 < src.len() / 4 {
                src[4 * (i / 4) + swapped(i % 4)]
            } else {
                dst[i]
            },
    )
}

/// Copies the RGBA frame `src` into `dst` in BGRA order, pixel by pixel.
pub fn swap_channels(dst: &mut [u8], src: &[u8])
    ensures
        final(dst)@ == presented(old(dst)@, src@),
{
    let n: usize = if dst.len() / 4 < src.len() / 4 { dst.len() / 4 } else { src.len() / 4 };
    let mut k: usize = 0;
    while k < n
        invariant
            k <= n,
            n == (if old(dst)@.len() / 4 < src@.len() / 4 { old(dst)@.len() / 4 } else { src@.len() / 4 }),
            dst@.len() == old(dst)@.len(),
            dst@.len() <= usize::MAX,
            forall|i: int|
                0 <= i < dst@.len() ==> dst@[i] == (if i / 4 < k {
                    src@[4 * (i / 4) + swapped(i % 4)]
                } else {
                    old(dst)@[i]
                }),
        decreases n - k,
    {
        let i: usize = k * 4;
        dst[i] = src[i + 2];
        dst[i + 1] = src[i + 1];
        dst[i + 2] = src[i];
        dst[i + 3] = src[i + 3];
        k += 1;
    }
    assert(dst@ =~= presented(old(dst)@, src@));
}

} // verus!
