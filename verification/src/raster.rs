//! The mathematical model of the menu's CPU canvas: an RGBA8 image (straight alpha, row 0 at
//! the top, four bytes per pixel) and the one drawing operation everything is built from, a
//! source-over blend of one colour over an axis-aligned rectangle of pixels.
use vstd::prelude::*;
use vstd::arithmetic::div_mod::lemma_fundamental_div_mod_converse;

verus! {

/// A source-over fill of the pixels `x0 <= x < x1`, `y0 <= y < y1` with colour `c` (RGBA).
/// Pixels outside the canvas are simply not drawn.
pub struct Fill {
    pub x0: int,
    pub y0: int,
    pub x1: int,
    pub y1: int,
    pub c: Seq<u8>,
}

/// The blended value of one colour channel: `src` over `dst`, where `a` is the source alpha and
/// `da` the destination alpha (both 0..=255), rounded to the nearest integer (halves up).
///
/// This is `(src·α + dst·β·(1 − α)) / (α + β·(1 − α))` with `α = a / 255`, `β = da / 255`,
/// computed exactly.
pub open spec fn blend_channel(src: int, dst: int, a: int, da: int) -> int {
    let den = a * 255 + da * (255 - a);
    (2 * (src * a * 255 + dst * da * (255 - a)) + den) / (2 * den)
}

/// The alpha that a source alpha `a` over a destination alpha `da` leaves, `α + β·(1 − α)`
/// scaled back to 0..=255 and rounded to the nearest integer (halves up).
pub open spec fn blend_alpha(a: int, da: int) -> int {
    (2 * (a * 255 + da * (255 - a)) + 255) / 510
}

/// The pixel `p` (four channels) after colour `c` is blended over it. Where both are fully
/// transparent nothing changes.
pub open spec fn blended(p: Seq<u8>, c: Seq<u8>) -> Seq<u8> {
    let a = c[3] as int;
    let da = p[3] as int;
    if a == 0 && da == 0 {
        p
    } else {
        seq![
            blend_channel(c[0] as int, p[0] as int, a, da) as u8,
            blend_channel(c[1] as int, p[1] as int, a, da) as u8,
            blend_channel(c[2] as int, p[2] as int, a, da) as u8,
            blend_alpha(a, da) as u8,
        ]
    }
}

/// The image `px` with colour `c` blended over pixel number `p` (row-major).
pub open spec fn blend_at(px: Seq<u8>, p: int, c: Seq<u8>) -> Seq<u8> {
    Seq::new(
        px.len(),
        |i: int| if i / 4 == p { blended(px.subrange(4 * p, 4 * p + 4), c)[i % 4] } else { px[i] },
    )
}

/// Whether `f` covers the pixel at column `x`, row `y`.
pub open spec fn covers(f: Fill, x: int, y: int) -> bool {
    f.x0 <= x < f.x1 && f.y0 <= y < f.y1
}

/// The `w`-wide image `px` after the fill `f`.
pub open spec fn fill_image(px: Seq<u8>, w: int, f: Fill) -> Seq<u8> {
    Seq::new(
        px.len(),
        |i: int|
            {
                let p = i / 4;
                if covers(f, p % w, p / w) {
                    blended(px.subrange(4 * p, 4 * p + 4), f.c)[i % 4]
                } else {
                    px[i]
                }
            },
    )
}

/// The `w`-wide image `px` after the fills `fills`, applied in order.
pub open spec fn apply_fills(px: Seq<u8>, w: int, fills: Seq<Fill>) -> Seq<u8>
    decreases fills.len(),
{
    if fills.len() == 0 {
        px
    } else {
        fill_image(apply_fills(px, w, fills.drop_last()), w, fills.last())
    }
}

/// A well-formed `w` x `h` RGBA image.
pub open spec fn image_wf(px: Seq<u8>, w: int, h: int) -> bool {
    0 <= w && 0 <= h && px.len() == w * h * 4
}

/// Pixel `p` of a `w`-wide image lies at column `p % w` and row `p / w`.
pub proof fn lemma_pixel_position(p: int, w: int, x: int, y: int)
    requires
        0 <= x < w,
        p == y * w + x,
    ensures
        p % w == x,
        p / w == y,
{
    lemma_fundamental_div_mod_converse(p, w, y, x);
}

/// Byte `i` of an image belongs to pixel `i / 4`, as channel `i % 4`.
pub proof fn lemma_byte_of_pixel(i: int, p: int, k: int)
    requires
        0 <= k < 4,
        i == 4 * p + k,
    ensures
        i / 4 == p,
        i % 4 == k,
{
    lemma_fundamental_div_mod_converse(i, 4, p, k);
}

/// Every blended channel fits in a byte.
pub proof fn lemma_blend_bounds(src: int, dst: int, a: int, da: int)
    requires
        0 <= src <= 255,
        0 <= dst <= 255,
        0 <= a <= 255,
        0 <= da <= 255,
        a != 0 || da != 0,
    ensures
        0 <= blend_channel(src, dst, a, da) <= 255,
        0 <= blend_alpha(a, da) <= 255,
        0 < a * 255 + da * (255 - a) <= 65025,
        0 <= src * a * 255 + dst * da * (255 - a) <= 255 * (a * 255 + da * (255 - a)),
{
    let den = a * 255 + da * (255 - a);
    assert(0 < den <= 65025) by (nonlinear_arith)
        requires 0 <= a <= 255, 0 <= da <= 255, a != 0 || da != 0, den == a * 255 + da * (255 - a);
    let num = src * a * 255 + dst * da * (255 - a);
    assert(0 <= num <= 255 * den) by (nonlinear_arith)
        requires
            0 <= src <= 255, 0 <= dst <= 255, 0 <= a <= 255, 0 <= da <= 255,
            den == a * 255 + da * (255 - a), num == src * a * 255 + dst * da * (255 - a);
    assert(0 <= (2 * num + den) / (2 * den) <= 255) by (nonlinear_arith)
        requires 0 < den, 0 <= num <= 255 * den;
    assert(0 <= (2 * den + 255) / 510 <= 255) by (nonlinear_arith)
        requires 0 < den <= 65025;
}

/// Applying `a` and then `b` is applying `a + b`.
pub proof fn lemma_apply_fills_append(px: Seq<u8>, w: int, a: Seq<Fill>, b: Seq<Fill>)
    ensures
        apply_fills(px, w, a + b) == apply_fills(apply_fills(px, w, a), w, b),
    decreases b.len(),
{
    if b.len() == 0 {
        assert(a + b =~= a);
    } else {
        assert((a + b).drop_last() =~= a + b.drop_last());
        assert((a + b).last() == b.last());
        lemma_apply_fills_append(px, w, a, b.drop_last());
    }
}

/// Fills keep the image's size.
pub proof fn lemma_apply_fills_len(px: Seq<u8>, w: int, fills: Seq<Fill>)
    ensures
        apply_fills(px, w, fills).len() == px.len(),
    decreases fills.len(),
{
    if fills.len() > 0 {
        lemma_apply_fills_len(px, w, fills.drop_last());
    }
}

/// An opaque colour simply replaces the pixel it is blended over.
pub proof fn lemma_blend_opaque(p: Seq<u8>, c: Seq<u8>)
    requires
        p.len() == 4,
        c.len() == 4,
        c[3] == 255,
    ensures
        blended(p, c) == c,
{
    let da = p[3] as int;
    assert forall|k: int| 0 <= k < 3 implies blend_channel(#[trigger] c[k] as int, p[k] as int, 255, da) == c[k] by {
        let src = c[k] as int;
        let dst = p[k] as int;
        assert(255 * 255 + da * (255 - 255) == 65025);
        assert(2 * (src * 255 * 255 + dst * da * (255 - 255)) + 65025 == 130050 * src + 65025) by (nonlinear_arith);
        lemma_fundamental_div_mod_converse(130050 * src + 65025, 130050, src, 65025);
    };
    assert(blend_alpha(255, da) == 255) by {
        assert(2 * (255 * 255 + da * (255 - 255)) + 255 == 510 * 255 + 255) by (nonlinear_arith);
        lemma_fundamental_div_mod_converse(510 * 255 + 255int, 510, 255, 255);
    };
    assert(blended(p, c) =~= c);
}

/// A fully transparent colour leaves the pixel it is blended over as it was.
pub proof fn lemma_blend_transparent(p: Seq<u8>, c: Seq<u8>)
    requires
        p.len() == 4,
        c.len() == 4,
        c[3] == 0,
    ensures
        blended(p, c) == p,
{
    let da = p[3] as int;
    if da != 0 {
        let den = da * 255;
        assert forall|k: int| 0 <= k < 3 implies blend_channel(c[k] as int, #[trigger] p[k] as int, 0, da) == p[k] by {
            let src = c[k] as int;
            let dst = p[k] as int;
            assert(0 * 255 + da * (255 - 0) == den);
            assert(2 * (src * 0 * 255 + dst * da * (255 - 0)) + den == (2 * den) * dst + den) by (nonlinear_arith)
                requires den == da * 255;
            assert(0 < den) by (nonlinear_arith)
                requires den == da * 255, 0 < da;
            lemma_fundamental_div_mod_converse((2 * den) * dst + den, 2 * den, dst, den);
        };
        assert(blend_alpha(0, da) == da) by {
            assert(2 * (0 * 255 + da * (255 - 0)) + 255 == 510 * da + 255) by (nonlinear_arith);
            lemma_fundamental_div_mod_converse(510 * da + 255, 510, da, 255);
        };
        assert(blended(p, c) =~= p);
    }
}

/// One blended colour channel, computed.
fn blend_channel_exec(src: u8, dst: u8, a: u32, da: u32, den: u32) -> (r: u8)
    requires
        a <= 255,
        da <= 255,
        den == a * 255 + da * (255 - a),
        a != 0 || da != 0,
    ensures
        r == blend_channel(src as int, dst as int, a as int, da as int),
{
    proof {
        lemma_blend_bounds(src as int, dst as int, a as int, da as int);
    }
    let s = src as u32;
    let d = dst as u32;
    assert(s * a <= 65025 && d * da <= 65025 && d * da * (255 - a) <= 65025 * 255 && s * a * 255 <= 65025 * 255)
        by (nonlinear_arith)
        requires s <= 255, d <= 255, a <= 255, da <= 255;
    let num: u32 = s * a * 255 + d * da * (255 - a);
    ((2 * num + den) / (2 * den)) as u8
}

/// The pixel `p` (RGBA) after the colour `c` is blended over it (see [`blended`]).
pub fn blend_pixel(p: [u8; 4], c: [u8; 4]) -> (r: [u8; 4])
    ensures
        r@ == blended(p@, c@),
{
    let a = c[3] as u32;
    let da = p[3] as u32;
    if a == 0 && da == 0 {
        return p;
    }
    proof {
        lemma_blend_bounds(0, 0, a as int, da as int);
    }
    assert(da * (255 - a) <= 65025) by (nonlinear_arith)
        requires a <= 255, da <= 255;
    let den: u32 = a * 255 + da * (255 - a);
    let r0 = blend_channel_exec(c[0], p[0], a, da, den);
    let r1 = blend_channel_exec(c[1], p[1], a, da, den);
    let r2 = blend_channel_exec(c[2], p[2], a, da, den);
    let out_a = ((2 * den + 255) / 510) as u8;
    let r = [r0, r1, r2, out_a];
    assert(r@ =~= blended(p@, c@));
    r
}

} // verus!
