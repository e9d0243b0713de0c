//! The launch screen's 2-D layer: text and panels painted on the CPU into an RGBA image the size
//! of the window, with the engine's own 5x7 bitmap font (see [`crate::font`]).
use vstd::prelude::*;
use crate::text::{ascii_upper, ascii_upper_seq, chars_of, is_ascii_seq, string_from_chars, str_to_uppercase, to_uppercase};
use crate::player::Character;
use crate::font::{glyph, glyph_spec, row_bit, row_has_ink, GLYPH_H, GLYPH_W};
use vstd::arithmetic::div_mod::lemma_fundamental_div_mod_converse;
use crate::raster::{blend_alpha, blend_channel, blend_pixel, lemma_blend_opaque, apply_fills, blend_at, blended, covers, fill_image, image_wf, lemma_apply_fills_append, lemma_apply_fills_len, lemma_byte_of_pixel, lemma_pixel_position, Fill};

verus! {

/// A CPU RGBA canvas (straight alpha, row 0 at the top).
struct Canvas {
    w: i32,
    h: i32,
    px: Vec<u8>,
}

/// The image `px` part-way through a fill `f` drawn row by row: the covered pixels before row
/// `yc`, and those of row `yc` left of column `xc`, are blended; the rest are untouched.
spec fn fill_progress(px: Seq<u8>, w: int, f: Fill, yc: int, xc: int) -> Seq<u8> {
    Seq::new(
        px.len(),
        |i: int|
            {
                let p = i / 4;
                if covers(f, p % w, p / w) && (p / w < yc || (p / w == yc && p % w < xc)) {
                    blended(px.subrange(4 * p, 4 * p + 4), f.c)[i % 4]
                } else {
                    px[i]
                }
            },
    )
}

proof fn lemma_fill_step(px: Seq<u8>, w: int, h: int, f: Fill, x: int, y: int)
    requires
        image_wf(px, w, h),
        0 <= x < w,
        0 <= y < h,
        covers(f, x, y),
    ensures
        blend_at(fill_progress(px, w, f, y, x), y * w + x, f.c) == fill_progress(px, w, f, y, x + 1),
{
    let cur = fill_progress(px, w, f, y, x);
    let p0 = y * w + x;
    lemma_pixel_position(p0, w, x, y);
    assert(0 <= p0 < w * h) by (nonlinear_arith)
        requires 0 <= x < w, 0 <= y < h, p0 == y * w + x;
    assert(4 * p0 + 4 <= px.len());
    assert forall|k: int| 0 <= k < 4 implies #[trigger] cur[4 * p0 + k] == px[4 * p0 + k] by {
        lemma_byte_of_pixel(4 * p0 + k, p0, k);
    };
    assert(cur.subrange(4 * p0, 4 * p0 + 4) =~= px.subrange(4 * p0, 4 * p0 + 4));
    let lhs = blend_at(cur, p0, f.c);
    let rhs = fill_progress(px, w, f, y, x + 1);
    assert forall|j: int| 0 <= j < px.len() implies lhs[j] == rhs[j] by {
        let p = j / 4;
        vstd::arithmetic::div_mod::lemma_fundamental_div_mod(p, w);
        if p % w == x && p / w == y {
            assert(w * y == y * w) by (nonlinear_arith);
            assert(p == p0);
        }
    };
    assert(lhs =~= rhs);
}

proof fn lemma_fill_start(px: Seq<u8>, w: int, f: Fill, ys: int, xs: int)
    requires
        ys == if f.y0 > 0 { f.y0 } else { 0 },
        xs == if f.x0 > 0 { f.x0 } else { 0 },
        0 < w,
    ensures
        fill_progress(px, w, f, ys, xs) == px,
{
    assert forall|j: int| 0 <= j < px.len() implies fill_progress(px, w, f, ys, xs)[j] == px[j] by {
        let p = j / 4;
        assert(p % w >= 0);
    };
    assert(fill_progress(px, w, f, ys, xs) =~= px);
}

proof fn lemma_fill_row(px: Seq<u8>, w: int, f: Fill, y: int, xc: int, xs: int)
    requires
        xc >= f.x1 || xc >= w,
        xs == if f.x0 > 0 { f.x0 } else { 0 },
        0 < w,
    ensures
        fill_progress(px, w, f, y, xc) == fill_progress(px, w, f, y + 1, xs),
{
    assert forall|j: int| 0 <= j < px.len() implies fill_progress(px, w, f, y, xc)[j] == fill_progress(px, w, f, y + 1, xs)[j] by {
        let p = j / 4;
        assert(0 <= p % w < w);
    };
    assert(fill_progress(px, w, f, y, xc) =~= fill_progress(px, w, f, y + 1, xs));
}

proof fn lemma_fill_end(px: Seq<u8>, w: int, h: int, f: Fill, yc: int, xs: int)
    requires
        image_wf(px, w, h),
        yc >= f.y1 || yc >= h,
        0 < w,
    ensures
        fill_progress(px, w, f, yc, xs) == fill_image(px, w, f),
{
    assert forall|j: int| 0 <= j < px.len() implies fill_progress(px, w, f, yc, xs)[j] == fill_image(px, w, f)[j] by {
        let p = j / 4;
        assert(p < w * h);
        assert(p / w < h) by (nonlinear_arith)
            requires 0 <= p < w * h, 0 < w;
    };
    assert(fill_progress(px, w, f, yc, xs) =~= fill_image(px, w, f));
}

proof fn lemma_fill_empty(px: Seq<u8>, w: int, f: Fill)
    requires
        w == 0,
        px.len() == 0,
    ensures
        fill_image(px, w, f) == px,
{
    assert(fill_image(px, w, f) =~= px);
}

/// The fill for glyph cell (`rx`, `ry`) of a character whose cell's top-left corner is at
/// (`cx`, `y`), drawn at `s` canvas pixels per font pixel.
pub open spec fn cell_fill(cx: int, y: int, rx: int, ry: int, s: int, c: Seq<u8>) -> Fill {
    Fill { x0: cx + rx * s, y0: y + ry * s, x1: cx + (rx + 1) * s, y1: y + (ry + 1) * s, c }
}

/// The fills for the inked cells among the first `n` cells (row-major, five per row) of a glyph.
pub open spec fn glyph_fills(cx: int, y: int, rows: Seq<u8>, s: int, c: Seq<u8>, n: int) -> Seq<Fill>
    decreases n,
{
    if n <= 0 {
        Seq::empty()
    } else {
        let prev = glyph_fills(cx, y, rows, s, c, n - 1);
        let j = n - 1;
        if row_bit(rows[j / 5], j % 5) {
            prev.push(cell_fill(cx, y, j % 5, j / 5, s, c))
        } else {
            prev
        }
    }
}

/// The fills that draw character `ch` with its cell's top-left corner at (`cx`, `y`); none for
/// a character the font does not have.
pub open spec fn char_fills(cx: int, y: int, ch: char, s: int, c: Seq<u8>) -> Seq<Fill> {
    match glyph_spec(ch) {
        Some(rows) => glyph_fills(cx, y, rows, s, c, 35),
        None => Seq::empty(),
    }
}

/// The fills that draw `t` left to right from (`x`, `y`), each character `6 * s` canvas pixels
/// after the previous one.
pub open spec fn text_fills(x: int, y: int, t: Seq<char>, s: int, c: Seq<u8>) -> Seq<Fill>
    decreases t.len(),
{
    if t.len() == 0 {
        Seq::empty()
    } else {
        text_fills(x, y, t.drop_last(), s, c) + char_fills(x + (t.len() - 1) * 6 * s, y, t.last(), s, c)
    }
}

/// Width in canvas pixels of `n` characters at scale `s` (no gap after the last one).
pub open spec fn text_width_spec(n: int, s: int) -> int {
    if n == 0 { 0 } else { n * 6 * s - s }
}

/// The drop-shadow colour under text of colour `c`: black at seven tenths of its alpha.
pub open spec fn shadow_of(c: Seq<u8>) -> Seq<u8> {
    seq![0u8, 0u8, 0u8, ((c[3] as int) * 7 / 10) as u8]
}

/// The fills that draw `t` centred on `cx` with its top at `y`, over a drop shadow offset by
/// one font pixel right and down.
pub open spec fn centered_fills(cx: int, y: int, t: Seq<char>, s: int, c: Seq<u8>) -> Seq<Fill> {
    let x = cx - text_width_spec(t.len() as int, s) / 2;
    text_fills(x + s, y + s, t, s, shadow_of(c)) + text_fills(x, y, t, s, c)
}

/// The four fills of a `t`-thick frame just inside the rectangle from (`x0`, `y0`) to (`x1`, `y1`).
pub open spec fn frame_fills(x0: int, y0: int, x1: int, y1: int, t: int, c: Seq<u8>) -> Seq<Fill> {
    seq![
        Fill { x0, y0, x1, y1: y0 + t, c },
        Fill { x0, y0: y1 - t, x1, y1, c },
        Fill { x0, y0, x1: x0 + t, y1, c },
        Fill { x0: x1 - t, y0, x1, y1, c },
    ]
}

/// Every coordinate that drawing `n` characters at scale `s` from (`x`, `y`) computes fits an `i32`.
pub open spec fn ink_fits(x: int, y: int, n: int, s: int) -> bool {
    &&& 0 <= s
    &&& n <= i32::MAX
    &&& i32::MIN <= x
    &&& x + n * 6 * s <= i32::MAX
    &&& i32::MIN <= y
    &&& y + 7 * s <= i32::MAX
    &&& 7 * s <= i32::MAX
}

/// Every coordinate that drawing `n` characters centred on `cx`, top at `y`, at scale `s` (with
/// the shadow) computes fits an `i32`.
pub open spec fn centered_fits(cx: int, y: int, n: int, s: int) -> bool {
    let x = cx - text_width_spec(n, s) / 2;
    &&& 0 <= s
    &&& n * 6 <= i32::MAX
    &&& n * 6 * s <= i32::MAX
    &&& ink_fits(x, y, n, s)
    &&& ink_fits(x + s, y + s, n, s)
}

proof fn lemma_push_fill(px: Seq<u8>, w: int, ops: Seq<Fill>, f: Fill)
    ensures
        apply_fills(px, w, ops.push(f)) == fill_image(apply_fills(px, w, ops), w, f),
{
    assert(ops.push(f).drop_last() =~= ops);
}

proof fn lemma_cell_index(ry: int, rx: int)
    requires
        0 <= rx < 5,
        0 <= ry,
    ensures
        (ry * 5 + rx) / 5 == ry,
        (ry * 5 + rx) % 5 == rx,
{
    lemma_fundamental_div_mod_converse(ry * 5 + rx, 5, ry, rx);
}

/// Body text.
pub const TEXT: [u8; 4] = [236, 238, 245, 255];
/// Secondary text.
pub const DIM: [u8; 4] = [150, 156, 176, 255];
/// The selected card's title and frame.
pub const GOLD: [u8; 4] = [255, 210, 74, 255];
/// The shade over the card that is not chosen.
pub const SHADE: [u8; 4] = [6, 8, 14, 110];
/// The band behind the title lines.
pub const TOP_BAND: [u8; 4] = [6, 8, 14, 150];
/// The band behind the cards' text.
pub const BOTTOM_BAND: [u8; 4] = [6, 8, 14, 170];

/// The base text scale for an `h`-pixel-high window: 3 at 720p, 4 at 1080p, never below 1.
pub open spec fn menu_scale(h: int) -> int {
    if h / 240 > 1 { h / 240 } else { 1 }
}

/// A fully transparent `w` x `h` image.
pub open spec fn blank_image(w: int, h: int) -> Seq<u8> {
    Seq::new((w * h * 4) as nat, |i: int| 0u8)
}

/// The fills for `lines[0..k]` of a card, each line `10 * s` below the previous.
pub open spec fn card_lines_fills(cx: int, y: int, lines: Seq<Seq<char>>, s: int, c: Seq<u8>, k: int) -> Seq<Fill>
    decreases k,
{
    if k <= 0 {
        Seq::empty()
    } else {
        card_lines_fills(cx, y, lines, s, c, k - 1) + centered_fills(cx, y + 16 * s + (k - 1) * (10 * s), lines[k - 1], s, c)
    }
}

/// The fills of one character card centred on `cx`: its title, its four description lines, and
/// for the selected card a gold frame and a "selected" marker.
pub open spec fn card_fills(w: int, h: int, cx: int, title: Seq<char>, lines: Seq<Seq<char>>, picked: bool) -> Seq<Fill> {
    let s = menu_scale(h);
    let top = h * 74 / 100;
    centered_fills(cx, top, title, s * 2, if picked { GOLD@ } else { TEXT@ })
        + card_lines_fills(cx, top, lines, s, if picked { TEXT@ } else { DIM@ }, 4)
        + if picked {
            frame_fills(cx - w / 4 + 3 * s, h * 24 / 100, cx + w / 4 - 3 * s, h * 71 / 100, if s / 2 > 2 { s / 2 } else { 2 }, GOLD@)
                + centered_fills(cx, h * 71 / 100 - 9 * s, "< SELECTED >"@, s, GOLD@)
        } else {
            Seq::empty()
        }
}

/// The human's card text.
pub open spec fn human_lines() -> Seq<Seq<char>> {
    seq!["TALL AND STRONG."@, "SWINGS A BAT."@, "WALK, OR SPRINT WITH SHIFT."@, ""@]
}

/// The rat's card text.
pub open spec fn rat_lines() -> Seq<Seq<char>> {
    seq!["SMALL, QUICK AND HARD TO SPOT."@, "ALWAYS RUNNING AT A SPRINT."@, "FITS THROUGH TIGHT GAPS."@, "(SHOWN ABOUT 3X LIFE SIZE)"@]
}

/// Every fill the menu is painted with, in order, for a `w` x `h` window with `selected`
/// highlighted and `map_upper` the upper-cased map name.
pub open spec fn paint_fills(w: int, h: int, selected: Character, map_upper: Seq<char>) -> Seq<Fill> {
    let s = menu_scale(h);
    let half_x = w / 2;
    let unpicked_x0 = if selected == Character::Human { w / 2 } else { 0 };
    seq![
        Fill { x0: unpicked_x0, y0: 0, x1: unpicked_x0 + half_x, y1: h, c: SHADE@ },
        Fill { x0: 0, y0: 0, x1: w, y1: h * 22 / 100, c: TOP_BAND@ },
        Fill { x0: 0, y0: h * 72 / 100, x1: w, y1: h, c: BOTTOM_BAND@ },
    ] + centered_fills(w / 2, h * 4 / 100, "RED ENGINE 2"@, s, DIM@)
        + centered_fills(w / 2, h * 9 / 100, "CHOOSE YOUR CHARACTER"@, s * 2, TEXT@)
        + centered_fills(w / 2, h * 16 / 100, "MAP: "@ + map_upper, s, DIM@)
        + card_fills(w, h, w / 4, "1  HUMAN"@, human_lines(), selected == Character::Human)
        + card_fills(w, h, w * 3 / 4, "2  CHEDDAR THE RAT"@, rat_lines(), selected == Character::Rat)
        + centered_fills(w / 2, h - 7 * s - 3 * s, "CLICK A CHARACTER OR PRESS 1 / 2 TO PLAY  (ARROWS + ENTER WORK TOO)"@, s, DIM@)
}

/// The menu image for a `w` x `h` window.
pub open spec fn paint_spec(w: int, h: int, selected: Character, map_upper: Seq<char>) -> Seq<u8> {
    apply_fills(blank_image(w, h), w, paint_fills(w, h, selected, map_upper))
}

/// The sizes for which painting the menu stays within `i32` arithmetic: the window itself, and
/// the map line (whose length is that of the upper-cased map name plus five).
pub open spec fn paint_fits(w: int, h: int, map_upper_len: int) -> bool {
    &&& 0 <= w <= i32::MAX
    &&& 0 <= h <= i32::MAX
    &&& w * h * 4 <= i32::MAX
    &&& w * 3 <= i32::MAX
    &&& h * 74 <= i32::MAX
    &&& centered_fits(w / 2, h * 16 / 100, map_upper_len + 5, menu_scale(h))
}

proof fn lemma_short_text_fits(cx: int, y: int, n: int, s: int)
    requires
        0 <= n <= 100,
        0 <= s <= 300_000,
        -1_000_000_000 <= cx <= 800_000_000,
        -1_000_000_000 <= y <= 100_000_000,
    ensures
        centered_fits(cx, y, n, s),
{
    assert(0 <= n * 6 * s <= 180_000_000) by (nonlinear_arith)
        requires 0 <= n <= 100, 0 <= s <= 300_000;
    assert(0 <= text_width_spec(n, s) <= 180_000_000) by (nonlinear_arith)
        requires 0 <= n * 6 * s <= 180_000_000, 0 <= s, 0 <= n;
}

proof fn lemma_single_fill(px: Seq<u8>, w: int, f: Fill)
    ensures
        apply_fills(px, w, seq![f]) == fill_image(px, w, f),
{
    assert(seq![f].drop_last() =~= Seq::<Fill>::empty());
    assert(apply_fills(px, w, Seq::<Fill>::empty()) == px);
}

impl Canvas {
    spec fn wf(&self) -> bool {
        &&& 0 <= self.w
        &&& 0 <= self.h
        &&& self.w * self.h * 4 <= i32::MAX
        &&& self.px@.len() == self.w * self.h * 4
    }

    fn new(w: u32, h: u32) -> (cv: Self)
        requires
            w <= i32::MAX,
            h <= i32::MAX,
            w * h * 4 <= i32::MAX,
        ensures
            cv.wf(),
            cv.w == w,
            cv.h == h,
            cv.px@ == Seq::new((w * h * 4) as nat, |i: int| 0u8),
    {
        assert(w * h * 4 <= u32::MAX);
        let n = (w * h * 4) as usize;
        let cv = Canvas { w: w as i32, h: h as i32, px: vec![0; n] };
        assert(cv.px@ =~= Seq::new((w * h * 4) as nat, |i: int| 0u8));
        cv
    }

    /// Source-over blend of `c` (RGBA) at `(x, y)`.
    fn blend(&mut self, x: i32, y: i32, c: [u8; 4])
        requires
            old(self).wf(),
        ensures
            final(self).wf(),
            final(self).w == old(self).w,
            final(self).h == old(self).h,
            final(self).px@ == if 0 <= x < old(self).w && 0 <= y < old(self).h {
                blend_at(old(self).px@, y * old(self).w + x, c@)
            } else {
                old(self).px@
            },
    {
        if x < 0 || y < 0 || x >= self.w || y >= self.h {
            return;
        }
        let ghost p = y * self.w + x;
        let ghost old_px = self.px@;
        assert(0 <= p < self.w * self.h) by (nonlinear_arith)
            requires 0 <= x < self.w, 0 <= y < self.h, p == y * self.w + x;
        assert(4 * p + 4 <= self.w * self.h * 4) by (nonlinear_arith)
            requires p < self.w * self.h;
        let i = ((y * self.w + x) * 4) as usize;
        let old4 = [self.px[i], self.px[i + 1], self.px[i + 2], self.px[i + 3]];
        proof {
            assert(old4@ =~= old_px.subrange(4 * p, 4 * p + 4));
        }
        let new4 = blend_pixel(old4, c);
        self.px.set(i, new4[0]);
        self.px.set(i + 1, new4[1]);
        self.px.set(i + 2, new4[2]);
        self.px.set(i + 3, new4[3]);
        proof {
            assert forall|j: int| 0 <= j < old_px.len() implies #[trigger] self.px@[j] == blend_at(old_px, p, c@)[j] by {
                if j / 4 == p {
                    let kk = j % 4;
                    assert(j == 4 * p + kk);
                } else {
                    if i <= j < i + 4 {
                        lemma_byte_of_pixel(j, p, j - i);
                    }
                }
            };
            assert(self.px@ =~= blend_at(old_px, p, c@));
        }
    }

    /// Blends `c` over every pixel of the rectangle `x0 <= x < x1`, `y0 <= y < y1` that lies on
    /// the canvas.
    fn rect(&mut self, x0: i32, y0: i32, x1: i32, y1: i32, c: [u8; 4])
        requires
            old(self).wf(),
        ensures
            final(self).wf(),
            final(self).w == old(self).w,
            final(self).h == old(self).h,
            final(self).px@ == fill_image(old(self).px@, old(self).w as int, Fill { x0: x0 as int, y0: y0 as int, x1: x1 as int, y1: y1 as int, c: c@ }),
    {
        let ghost f = Fill { x0: x0 as int, y0: y0 as int, x1: x1 as int, y1: y1 as int, c: c@ };
        let ghost px0 = self.px@;
        let ghost w = self.w as int;
        let ghost h = self.h as int;
        if self.w == 0 {
            proof { lemma_fill_empty(px0, w, f); }
            return;
        }
        let ys = if y0 > 0 { y0 } else { 0 };
        let ye = if y1 < self.h { y1 } else { self.h };
        let xs = if x0 > 0 { x0 } else { 0 };
        let xe = if x1 < self.w { x1 } else { self.w };
        proof { lemma_fill_start(px0, w, f, ys as int, xs as int); }
        let mut y = ys;
        while y < ye
            invariant
                self.wf(),
                self.w == w,
                self.h == h,
                0 < w,
                px0.len() == w * h * 4,
                ys <= y,
                ye <= h,
                xs == if f.x0 > 0 { f.x0 } else { 0 },
                xe == if f.x1 < w { f.x1 } else { w },
                f.y0 <= ys,
                ye <= f.y1,
                0 <= ys,
                f.c == c@,
                self.px@ == fill_progress(px0, w, f, y as int, xs as int),
            decreases ye - y,
        {
            let mut x = xs;
            while x < xe
                invariant
                    self.wf(),
                    self.w == w,
                    self.h == h,
                    0 < w,
                    px0.len() == w * h * 4,
                    xs <= x,
                    0 <= xs,
                    f.x0 <= xs,
                    xe == if f.x1 < w { f.x1 } else { w },
                    0 <= y < h,
                    f.y0 <= y < f.y1,
                    f.c == c@,
                    self.px@ == fill_progress(px0, w, f, y as int, x as int),
                decreases xe - x,
            {
                proof { lemma_fill_step(px0, w, h, f, x as int, y as int); }
                self.blend(x, y, c);
                x = x + 1;
            }
            proof { lemma_fill_row(px0, w, f, y as int, x as int, xs as int); }
            y = y + 1;
        }
        proof { lemma_fill_end(px0, w, h, f, y as int, xs as int); }
    }

    fn frame(&mut self, x0: i32, y0: i32, x1: i32, y1: i32, thick: i32, c: [u8; 4])
        requires
            old(self).wf(),
            i32::MIN <= y0 + thick <= i32::MAX,
            i32::MIN <= y1 - thick <= i32::MAX,
            i32::MIN <= x0 + thick <= i32::MAX,
            i32::MIN <= x1 - thick <= i32::MAX,
        ensures
            final(self).wf(),
            final(self).w == old(self).w,
            final(self).h == old(self).h,
            final(self).px@ == apply_fills(old(self).px@, old(self).w as int, frame_fills(x0 as int, y0 as int, x1 as int, y1 as int, thick as int, c@)),
    {
        let ghost px0 = self.px@;
        let ghost w = self.w as int;
        let ghost fs = frame_fills(x0 as int, y0 as int, x1 as int, y1 as int, thick as int, c@);
        self.rect(x0, y0, x1, y0 + thick, c);
        proof {
            lemma_push_fill(px0, w, Seq::empty(), fs[0]);
        }
        self.rect(x0, y1 - thick, x1, y1, c);
        proof {
            lemma_push_fill(px0, w, seq![fs[0]], fs[1]);
            assert(seq![fs[0]].push(fs[1]) =~= seq![fs[0], fs[1]]);
        }
        self.rect(x0, y0, x0 + thick, y1, c);
        proof {
            lemma_push_fill(px0, w, seq![fs[0], fs[1]], fs[2]);
            assert(seq![fs[0], fs[1]].push(fs[2]) =~= seq![fs[0], fs[1], fs[2]]);
        }
        self.rect(x1 - thick, y0, x1, y1, c);
        proof {
            lemma_push_fill(px0, w, seq![fs[0], fs[1], fs[2]], fs[3]);
            assert(seq![fs[0], fs[1], fs[2]].push(fs[3]) =~= fs);
        }
    }

    fn text_width(text: &str, scale: i32) -> (r: i32)
        requires
            0 <= scale,
            text@.len() * 6 <= i32::MAX,
            text@.len() * 6 * scale <= i32::MAX,
        ensures
            r == text_width_spec(text@.len() as int, scale as int),
    {
        let n = chars_of(text).len() as i32;
        if n == 0 {
            0
        } else {
            assert(0 <= n * 6 * scale <= i32::MAX && 0 <= n * 6) by (nonlinear_arith)
                requires 0 <= scale, 0 <= n, n * 6 * scale <= i32::MAX, n * 6 <= i32::MAX;
            n * (GLYPH_W + 1) * scale - scale
        }
    }

    fn ink(&mut self, x: i32, y: i32, text: &str, scale: i32, c: [u8; 4])
        requires
            old(self).wf(),
            ink_fits(x as int, y as int, text@.len() as int, scale as int),
        ensures
            final(self).wf(),
            final(self).w == old(self).w,
            final(self).h == old(self).h,
            final(self).px@ == apply_fills(old(self).px@, old(self).w as int, text_fills(x as int, y as int, text@, scale as int, c@)),
    {
        let ghost px0 = self.px@;
        let ghost w = self.w as int;
        let ghost s = scale as int;
        let cs = chars_of(text);
        let ghost t = cs@;
        let ghost mut ops: Seq<Fill> = Seq::empty();
        let mut cx = x;
        let mut k: usize = 0;
        assert(t.take(0) =~= Seq::<char>::empty());
        while k < cs.len()
            invariant
                self.wf(),
                self.w == w,
                self.h == old(self).h,
                t == text@,
                cs@ == t,
                0 <= k <= t.len(),
                ink_fits(x as int, y as int, t.len() as int, s),
                s == scale,
                cx == x + k * 6 * s,
                ops == text_fills(x as int, y as int, t.take(k as int), s, c@),
                self.px@ == apply_fills(px0, w, ops),
            decreases t.len() - k,
        {
            let ch = cs[k];
            let ghost base = ops;
            proof {
                assert(x + (k + 1) * 6 * s <= x + t.len() * 6 * s) by (nonlinear_arith)
                    requires k + 1 <= t.len(), 0 <= s;
                assert(k * 6 * s + 6 * s == (k + 1) * 6 * s) by (nonlinear_arith);
            }
            match glyph(ch) {
                Some(rows) => {
                    let mut ry: usize = 0;
                    while ry < 7
                        invariant
                            self.wf(),
                            self.w == w,
                            self.h == old(self).h,
                            0 <= ry <= 7,
                            0 <= s,
                            s == scale,
                            i32::MIN <= cx,
                            cx + 6 * s <= i32::MAX,
                            i32::MIN <= y,
                            y + 7 * s <= i32::MAX,
                            7 * s <= i32::MAX,
                            ops == base + glyph_fills(cx as int, y as int, rows@, s, c@, (ry * 5) as int),
                            self.px@ == apply_fills(px0, w, ops),
                        decreases 7 - ry,
                    {
                        let row = rows[ry];
                        let mut rx: usize = 0;
                        while rx < 5
                            invariant
                                self.wf(),
                                self.w == w,
                                self.h == old(self).h,
                                0 <= ry < 7,
                                0 <= rx <= 5,
                                0 <= s,
                                s == scale,
                                row == rows@[ry as int],
                                i32::MIN <= cx,
                                cx + 6 * s <= i32::MAX,
                                i32::MIN <= y,
                                y + 7 * s <= i32::MAX,
                                7 * s <= i32::MAX,
                                ops == base + glyph_fills(cx as int, y as int, rows@, s, c@, (ry * 5 + rx) as int),
                                self.px@ == apply_fills(px0, w, ops),
                            decreases 5 - rx,
                        {
                            proof {
                                lemma_cell_index(ry as int, rx as int);
                                assert(0 <= rx * s <= (rx + 1) * s <= 5 * s) by (nonlinear_arith)
                                    requires 0 <= rx < 5, 0 <= s;
                                assert(0 <= ry * s <= (ry + 1) * s <= 7 * s) by (nonlinear_arith)
                                    requires 0 <= ry < 7, 0 <= s;
                            }
                            if row_has_ink(row, rx) {
                                let x0 = cx + (rx as i32) * scale;
                                let y0 = y + (ry as i32) * scale;
                                let x1 = cx + (rx as i32 + 1) * scale;
                                let y1 = y + (ry as i32 + 1) * scale;
                                let ghost f = cell_fill(cx as int, y as int, rx as int, ry as int, s, c@);
                                self.rect(x0, y0, x1, y1, c);
                                proof {
                                    lemma_push_fill(px0, w, ops, f);
                                    ops = ops.push(f);
                                    assert(ops =~= base + glyph_fills(cx as int, y as int, rows@, s, c@, (ry * 5 + rx + 1) as int));
                                }
                            } else {
                                proof {
                                    assert(ops =~= base + glyph_fills(cx as int, y as int, rows@, s, c@, (ry * 5 + rx + 1) as int));
                                }
                            }
                            rx = rx + 1;
                        }
                        assert(ry * 5 + 5 == (ry + 1) * 5);
                        ry = ry + 1;
                    }
                    proof {
                        assert(ops == base + char_fills(cx as int, y as int, ch, s, c@));
                    }
                },
                None => {
                    proof {
                        assert(ops =~= base + char_fills(cx as int, y as int, ch, s, c@));
                    }
                },
            }
            proof {
                let tk = t.take((k + 1) as int);
                assert(tk.drop_last() =~= t.take(k as int));
                assert(tk.last() == ch);
                assert(ops == text_fills(x as int, y as int, tk, s, c@));
            }
            cx = cx + (GLYPH_W + 1) * scale;
            k = k + 1;
        }
        proof {
            assert(t.take(t.len() as int) =~= t);
        }
    }

    /// Text centred on `cx` with its top at `y`, over a soft dark drop shadow.
    fn text_centered(&mut self, cx: i32, y: i32, text: &str, scale: i32, c: [u8; 4])
        requires
            old(self).wf(),
            centered_fits(cx as int, y as int, text@.len() as int, scale as int),
        ensures
            final(self).wf(),
            final(self).w == old(self).w,
            final(self).h == old(self).h,
            final(self).px@ == apply_fills(old(self).px@, old(self).w as int, centered_fills(cx as int, y as int, text@, scale as int, c@)),
    {
        let ghost px0 = self.px@;
        let ghost w = self.w as int;
        let tw = Self::text_width(text, scale);
        assert(tw >= 0) by (nonlinear_arith)
            requires tw == text_width_spec(text@.len() as int, scale as int), scale >= 0;
        let x = cx - tw / 2;
        let shadow: [u8; 4] = [0, 0, 0, ((c[3] as u32) * 7 / 10) as u8];
        assert(shadow@ =~= shadow_of(c@));
        assert(x == cx - text_width_spec(text@.len() as int, scale as int) / 2);
        self.ink(x + scale, y + scale, text, scale, shadow);
        let ghost mid = self.px@;
        self.ink(x, y, text, scale, c);
        proof {
            assert(shadow@ == shadow_of(c@));
            let a = text_fills((x + scale) as int, (y + scale) as int, text@, scale as int, shadow@);
            let b = text_fills(x as int, y as int, text@, scale as int, c@);
            lemma_apply_fills_append(px0, w, a, b);
        }
    }
}


/// Paints one character card centred on `cx` (see [`card_fills`]).
fn paint_card(cv: &mut Canvas, w: i32, h: i32, s: i32, cx: i32, title: &str, lines: &[&str; 4], picked: bool)
    requires
        old(cv).wf(),
        old(cv).w == w,
        old(cv).h == h,
        w * 3 <= i32::MAX,
        h * 74 <= i32::MAX,
        s == menu_scale(h as int),
        0 <= cx <= w,
        title@.len() <= 30,
        forall|i: int| 0 <= i < 4 ==> (#[trigger] lines@[i])@.len() <= 40,
    ensures
        final(cv).wf(),
        final(cv).w == w,
        final(cv).h == h,
        final(cv).px@ == apply_fills(old(cv).px@, w as int, card_fills(w as int, h as int, cx as int, title@, lines@.map_values(|l: &str| l@), picked)),
{
    let ghost px0 = cv.px@;
    let ghost lv = lines@.map_values(|l: &str| l@);
    proof {
        assert(h / 240 <= 121_000) by (nonlinear_arith)
            requires 0 <= h, h * 74 <= i32::MAX;
    }
    let text = TEXT;
    let dim = DIM;
    let gold = GOLD;
    let title_c = if picked { gold } else { text };
    let top = h * 74 / 100;
    proof { lemma_short_text_fits(cx as int, top as int, title@.len() as int, (s * 2) as int); }
    cv.text_centered(cx, top, title, s * 2, title_c);
    let ghost mut ops = centered_fills(cx as int, top as int, title@, (s * 2) as int, title_c@);
    let line_c = if picked { text } else { dim };
    let mut i: usize = 0;
    while i < 4
        invariant
            cv.wf(),
            cv.w == w,
            cv.h == h,
            0 <= i <= 4,
            1 <= s <= 121_000,
            0 <= cx <= w,
            w * 3 <= i32::MAX,
            h * 74 <= i32::MAX,
            top == h * 74 / 100,
            lv == lines@.map_values(|l: &str| l@),
            forall|j: int| 0 <= j < 4 ==> (#[trigger] lines@[j])@.len() <= 40,
            ops == centered_fills(cx as int, top as int, title@, (s * 2) as int, title_c@)
                + card_lines_fills(cx as int, top as int, lv, s as int, line_c@, i as int),
            cv.px@ == apply_fills(px0, w as int, ops),
        decreases 4 - i,
    {
        assert(0 <= (i as i32) * (10 * s) <= 3_630_000) by (nonlinear_arith)
            requires 0 <= i < 4, 1 <= s <= 121_000;
        let y = top + (16 * s) + (i as i32) * (10 * s);
        proof {
            assert(lines@[i as int]@ == lv[i as int]);
            lemma_short_text_fits(cx as int, y as int, lv[i as int].len() as int, s as int);
        }
        let ghost before = cv.px@;
        cv.text_centered(cx, y, lines[i], s, line_c);
        proof {
            let f = centered_fills(cx as int, y as int, lv[i as int], s as int, line_c@);
            lemma_apply_fills_append(px0, w as int, ops, f);
            ops = ops + f;
        }
        i = i + 1;
    }
    if picked {
        let x0 = cx - w / 4 + 3 * s;
        let x1 = cx + w / 4 - 3 * s;
        let thick = if s / 2 > 2 { s / 2 } else { 2 };
        cv.frame(x0, h * 24 / 100, x1, h * 71 / 100, thick, gold);
        proof {
            let f = frame_fills(x0 as int, (h * 24 / 100) as int, x1 as int, (h * 71 / 100) as int, thick as int, gold@);
            lemma_apply_fills_append(px0, w as int, ops, f);
            ops = ops + f;
            reveal_strlit("< SELECTED >");
            lemma_short_text_fits(cx as int, (h * 71 / 100 - 9 * s) as int, 12, s as int);
        }
        cv.text_centered(cx, h * 71 / 100 - 9 * s, "< SELECTED >", s, gold);
        proof {
            let f = centered_fills(cx as int, (h * 71 / 100 - 9 * s) as int, "< SELECTED >"@, s as int, gold@);
            lemma_apply_fills_append(px0, w as int, ops, f);
            ops = ops + f;
        }
    }
    proof {
        let want = card_fills(w as int, h as int, cx as int, title@, lv, picked);
        assert(ops =~= want);
    }
}

/// The shade over the unchosen card and the two text bands.
pub open spec fn backdrop_fills(w: int, h: int, selected: Character) -> Seq<Fill> {
    let unpicked_x0 = if selected == Character::Human { w / 2 } else { 0 };
    seq![
        Fill { x0: unpicked_x0, y0: 0, x1: unpicked_x0 + w / 2, y1: h, c: SHADE@ },
        Fill { x0: 0, y0: 0, x1: w, y1: h * 22 / 100, c: TOP_BAND@ },
        Fill { x0: 0, y0: h * 72 / 100, x1: w, y1: h, c: BOTTOM_BAND@ },
    ]
}

/// The three title lines: the engine's name, the question, and the map.
pub open spec fn title_fills(w: int, h: int, map_upper: Seq<char>) -> Seq<Fill> {
    let s = menu_scale(h);
    centered_fills(w / 2, h * 4 / 100, "RED ENGINE 2"@, s, DIM@)
        + centered_fills(w / 2, h * 9 / 100, "CHOOSE YOUR CHARACTER"@, s * 2, TEXT@)
        + centered_fills(w / 2, h * 16 / 100, "MAP: "@ + map_upper, s, DIM@)
}

/// The window facts every painting step relies on.
spec fn menu_canvas(cv: &Canvas, w: int, h: int) -> bool {
    &&& cv.wf()
    &&& cv.w == w
    &&& cv.h == h
    &&& w * 3 <= i32::MAX
    &&& h * 74 <= i32::MAX
}

fn paint_backdrop(cv: &mut Canvas, selected: Character)
    requires
        menu_canvas(old(cv), old(cv).w as int, old(cv).h as int),
    ensures
        menu_canvas(final(cv), old(cv).w as int, old(cv).h as int),
        final(cv).px@ == apply_fills(old(cv).px@, old(cv).w as int, backdrop_fills(old(cv).w as int, old(cv).h as int, selected)),
{
    let ghost px0 = cv.px@;
    let (wi, hi) = (cv.w, cv.h);
    let (half_x, unpicked_x0) = (wi / 2, if selected == Character::Human { wi / 2 } else { 0 });
    cv.rect(unpicked_x0, 0, unpicked_x0 + half_x, hi, SHADE);
    let ghost fs = backdrop_fills(wi as int, hi as int, selected);
    proof { lemma_single_fill(px0, wi as int, fs[0]); }
    cv.rect(0, 0, wi, hi * 22 / 100, TOP_BAND);
    proof { lemma_push_fill(px0, wi as int, seq![fs[0]], fs[1]); }
    cv.rect(0, hi * 72 / 100, wi, hi, BOTTOM_BAND);
    proof {
        lemma_push_fill(px0, wi as int, seq![fs[0]].push(fs[1]), fs[2]);
        assert(seq![fs[0]].push(fs[1]).push(fs[2]) =~= fs);
    }
}

fn paint_titles(cv: &mut Canvas, map_upper: &str)
    requires
        menu_canvas(old(cv), old(cv).w as int, old(cv).h as int),
        centered_fits((old(cv).w / 2) as int, (old(cv).h * 16 / 100) as int, map_upper@.len() + 5int, menu_scale(old(cv).h as int)),
    ensures
        menu_canvas(final(cv), old(cv).w as int, old(cv).h as int),
        final(cv).px@ == apply_fills(old(cv).px@, old(cv).w as int, title_fills(old(cv).w as int, old(cv).h as int, map_upper@)),
{
    let ghost px0 = cv.px@;
    let (wi, hi) = (cv.w, cv.h);
    let s = if hi / 240 > 1 { hi / 240 } else { 1 };
    proof {
        assert(hi / 240 <= 121_000) by (nonlinear_arith)
            requires 0 <= hi, hi * 74 <= i32::MAX;
        reveal_strlit("RED ENGINE 2");
        reveal_strlit("CHOOSE YOUR CHARACTER");
        reveal_strlit("MAP: ");
        lemma_short_text_fits((wi / 2) as int, (hi * 4 / 100) as int, 12, s as int);
        lemma_short_text_fits((wi / 2) as int, (hi * 9 / 100) as int, 21, (s * 2) as int);
    }
    cv.text_centered(wi / 2, hi * 4 / 100, "RED ENGINE 2", s, DIM);
    let ghost a = centered_fills((wi / 2) as int, (hi * 4 / 100) as int, "RED ENGINE 2"@, s as int, DIM@);
    cv.text_centered(wi / 2, hi * 9 / 100, "CHOOSE YOUR CHARACTER", s * 2, TEXT);
    let ghost b = centered_fills((wi / 2) as int, (hi * 9 / 100) as int, "CHOOSE YOUR CHARACTER"@, (s * 2) as int, TEXT@);
    proof { lemma_apply_fills_append(px0, wi as int, a, b); }
    let mut line_chars = chars_of("MAP: ");
    let upper_chars = chars_of(map_upper);
    let mut k: usize = 0;
    while k < upper_chars.len()
        invariant
            0 <= k <= upper_chars@.len(),
            upper_chars@ == map_upper@,
            line_chars@ == "MAP: "@ + map_upper@.take(k as int),
        decreases upper_chars@.len() - k,
    {
        line_chars.push(upper_chars[k]);
        k = k + 1;
        assert(line_chars@ =~= "MAP: "@ + map_upper@.take(k as int));
    }
    assert(map_upper@.take(map_upper@.len() as int) =~= map_upper@);
    let map_line = string_from_chars(&line_chars);
    cv.text_centered(wi / 2, hi * 16 / 100, map_line.as_str(), s, DIM);
    proof {
        let c = centered_fills((wi / 2) as int, (hi * 16 / 100) as int, "MAP: "@ + map_upper@, s as int, DIM@);
        lemma_apply_fills_append(px0, wi as int, a + b, c);
    }
}

/// The two character cards.
pub open spec fn cards_fills(w: int, h: int, selected: Character) -> Seq<Fill> {
    card_fills(w, h, w / 4, "1  HUMAN"@, human_lines(), selected == Character::Human)
        + card_fills(w, h, w * 3 / 4, "2  CHEDDAR THE RAT"@, rat_lines(), selected == Character::Rat)
}

/// The hint at the bottom of the screen.
pub open spec fn footer_fills(w: int, h: int) -> Seq<Fill> {
    let s = menu_scale(h);
    centered_fills(w / 2, h - 7 * s - 3 * s, "CLICK A CHARACTER OR PRESS 1 / 2 TO PLAY  (ARROWS + ENTER WORK TOO)"@, s, DIM@)
}

proof fn lemma_paint_fills_parts(w: int, h: int, selected: Character, map_upper: Seq<char>)
    ensures
        paint_fills(w, h, selected, map_upper) == backdrop_fills(w, h, selected) + title_fills(w, h, map_upper)
            + cards_fills(w, h, selected) + footer_fills(w, h),
{
    let a = backdrop_fills(w, h, selected);
    let b = centered_fills(w / 2, h * 4 / 100, "RED ENGINE 2"@, menu_scale(h), DIM@);
    let c = centered_fills(w / 2, h * 9 / 100, "CHOOSE YOUR CHARACTER"@, menu_scale(h) * 2, TEXT@);
    let d = centered_fills(w / 2, h * 16 / 100, "MAP: "@ + map_upper, menu_scale(h), DIM@);
    let e = card_fills(w, h, w / 4, "1  HUMAN"@, human_lines(), selected == Character::Human);
    let f = card_fills(w, h, w * 3 / 4, "2  CHEDDAR THE RAT"@, rat_lines(), selected == Character::Rat);
    let g = footer_fills(w, h);
    assert(a + b + c + d + e + f + g =~= a + (b + c + d) + (e + f) + g);
}

fn paint_cards(cv: &mut Canvas, selected: Character)
    requires
        menu_canvas(old(cv), old(cv).w as int, old(cv).h as int),
    ensures
        menu_canvas(final(cv), old(cv).w as int, old(cv).h as int),
        final(cv).px@ == apply_fills(old(cv).px@, old(cv).w as int, cards_fills(old(cv).w as int, old(cv).h as int, selected)),
{
    let ghost px0 = cv.px@;
    let (wi, hi) = (cv.w, cv.h);
    let s = if hi / 240 > 1 { hi / 240 } else { 1 };
    let human_lines_arr: [&str; 4] = ["TALL AND STRONG.", "SWINGS A BAT.", "WALK, OR SPRINT WITH SHIFT.", ""];
    let rat_lines_arr: [&str; 4] = ["SMALL, QUICK AND HARD TO SPOT.", "ALWAYS RUNNING AT A SPRINT.", "FITS THROUGH TIGHT GAPS.", "(SHOWN ABOUT 3X LIFE SIZE)"];
    proof {
        reveal_strlit("TALL AND STRONG.");
        reveal_strlit("SWINGS A BAT.");
        reveal_strlit("WALK, OR SPRINT WITH SHIFT.");
        reveal_strlit("");
        reveal_strlit("SMALL, QUICK AND HARD TO SPOT.");
        reveal_strlit("ALWAYS RUNNING AT A SPRINT.");
        reveal_strlit("FITS THROUGH TIGHT GAPS.");
        reveal_strlit("(SHOWN ABOUT 3X LIFE SIZE)");
        reveal_strlit("1  HUMAN");
        reveal_strlit("2  CHEDDAR THE RAT");
        assert(human_lines_arr@.map_values(|l: &str| l@) =~= human_lines());
        assert(rat_lines_arr@.map_values(|l: &str| l@) =~= rat_lines());
    }
    paint_card(cv, wi, hi, s, wi / 4, "1  HUMAN", &human_lines_arr, selected == Character::Human);
    paint_card(cv, wi, hi, s, wi * 3 / 4, "2  CHEDDAR THE RAT", &rat_lines_arr, selected == Character::Rat);
    proof {
        let e = card_fills(wi as int, hi as int, (wi / 4) as int, "1  HUMAN"@, human_lines(), selected == Character::Human);
        let f = card_fills(wi as int, hi as int, (wi * 3 / 4) as int, "2  CHEDDAR THE RAT"@, rat_lines(), selected == Character::Rat);
        lemma_apply_fills_append(px0, wi as int, e, f);
    }
}

fn paint_footer(cv: &mut Canvas)
    requires
        menu_canvas(old(cv), old(cv).w as int, old(cv).h as int),
    ensures
        menu_canvas(final(cv), old(cv).w as int, old(cv).h as int),
        final(cv).px@ == apply_fills(old(cv).px@, old(cv).w as int, footer_fills(old(cv).w as int, old(cv).h as int)),
{
    let (wi, hi) = (cv.w, cv.h);
    let s = if hi / 240 > 1 { hi / 240 } else { 1 };
    proof {
        assert(hi / 240 <= 121_000) by (nonlinear_arith)
            requires 0 <= hi, hi * 74 <= i32::MAX;
        reveal_strlit("CLICK A CHARACTER OR PRESS 1 / 2 TO PLAY  (ARROWS + ENTER WORK TOO)");
        lemma_short_text_fits((wi / 2) as int, (hi - GLYPH_H * s - 3 * s) as int, 67, s as int);
    }
    cv.text_centered(wi / 2, hi - GLYPH_H * s - 3 * s, "CLICK A CHARACTER OR PRESS 1 / 2 TO PLAY  (ARROWS + ENTER WORK TOO)", s, DIM);
}

/// Paints the menu for a `w` x `h` window whose map line reads `MAP: ` followed by
/// `map_upper`.
pub fn paint_upper(w: u32, h: u32, selected: Character, map_upper: &str) -> (img: Vec<u8>)
    requires
        paint_fits(w as int, h as int, map_upper@.len() as int),
    ensures
        img@ == paint_spec(w as int, h as int, selected, map_upper@),
{
    let mut cv = Canvas::new(w, h);
    let ghost px0 = cv.px@;
    let ghost wn = w as int;
    let ghost hn = h as int;
    paint_backdrop(&mut cv, selected);
    let ghost f1 = backdrop_fills(wn, hn, selected);
    paint_titles(&mut cv, map_upper);
    let ghost f2 = title_fills(wn, hn, map_upper@);
    proof { lemma_apply_fills_append(px0, wn, f1, f2); }
    paint_cards(&mut cv, selected);
    let ghost f3 = cards_fills(wn, hn, selected);
    proof { lemma_apply_fills_append(px0, wn, f1 + f2, f3); }
    paint_footer(&mut cv);
    proof {
        let f4 = footer_fills(wn, hn);
        lemma_apply_fills_append(px0, wn, f1 + f2 + f3, f4);
        lemma_paint_fills_parts(wn, hn, selected, map_upper@);
        assert(px0 =~= blank_image(wn, hn));
    }
    cv.px
}

/// Paints the menu's text and panels for a `w` x `h` window. `map` is the scene's file stem.
pub fn paint(w: u32, h: u32, selected: Character, map: &str) -> (img: Vec<u8>)
    requires
        paint_fits(w as int, h as int, str_to_uppercase(map@).len() as int),
    ensures
        img@ == paint_spec(w as int, h as int, selected, str_to_uppercase(map@)),
        is_ascii_seq(map@) ==> img@ == paint_spec(w as int, h as int, selected, ascii_upper_seq(map@)),
{
    let upper = to_uppercase(map);
    paint_upper(w, h, selected, upper.as_str())
}


/// Whether [`centered_fits`] holds, computed in wide arithmetic.
fn centered_fits_exec(cx: i128, y: i128, n: i128, s: i128) -> (r: bool)
    requires
        -0x100_0000_0000 <= cx <= 0x100_0000_0000,
        -0x100_0000_0000 <= y <= 0x100_0000_0000,
        0 <= n <= 0x2_0000_0000_0000_0000,
        0 <= s <= 0x100_0000_0000,
    ensures
        r == centered_fits(cx as int, y as int, n as int, s as int),
{
    let min = i32::MIN as i128;
    let max = i32::MAX as i128;
    assert(0 <= n * 6 * s <= 0x2_0000_0000_0000_0000 * 6 * 0x100_0000_0000) by (nonlinear_arith)
        requires 0 <= n <= 0x2_0000_0000_0000_0000, 0 <= s <= 0x100_0000_0000;
    let wide = n * 6 * s;
    let tw = if n == 0 { 0 } else { wide - s };
    assert(tw >= 0) by (nonlinear_arith)
        requires tw == (if n == 0 { 0 } else { n * 6 * s - s }), 0 <= s, 0 <= n;
    let x = cx - tw / 2;
    let ink_a = x >= min && x + wide <= max && y >= min && y + 7 * s <= max && 7 * s <= max;
    let ink_b = x + s >= min && x + s + wide <= max && y + s >= min && y + s + 7 * s <= max && 7 * s <= max;
    n * 6 <= max && wide <= max && ink_a && ink_b
}

/// Paints the menu like [`paint`] when the window and the map name are small enough for its
/// `i32` pixel arithmetic, and returns `None` when they are not.
pub fn try_paint(w: u32, h: u32, selected: Character, map: &str) -> (r: Option<Vec<u8>>)
    ensures
        r is Some <==> paint_fits(w as int, h as int, str_to_uppercase(map@).len() as int),
        r matches Some(img) ==> img@ == paint_spec(w as int, h as int, selected, str_to_uppercase(map@)),
        is_ascii_seq(map@) ==> (r matches Some(img) ==> img@ == paint_spec(w as int, h as int, selected, ascii_upper_seq(map@))),
{
    let upper = to_uppercase(map);
    let n = chars_of(upper.as_str()).len();
    let (wl, hl) = (w as u64, h as u64);
    let max = i32::MAX as u64;
    if wl > max || hl > max {
        return None;
    }
    assert(wl * hl * 4 <= 0x7fff_ffffu64 * 0x7fff_ffffu64 * 4) by (nonlinear_arith)
        requires wl <= 0x7fff_ffff, hl <= 0x7fff_ffff;
    if wl * hl * 4 > max || wl * 3 > max || hl * 74 > max {
        return None;
    }
    let (wi, hi) = (w as i32, h as i32);
    let s = if hi / 240 > 1 { hi / 240 } else { 1 };
    if !centered_fits_exec((wi / 2) as i128, (hi * 16 / 100) as i128, n as i128 + 5, s as i128) {
        return None;
    }
    Some(paint(w, h, selected, map))
}

/// Remembers what the menu overlay was last painted for, so that it is painted again only when the
/// window size or the highlighted character changes.
pub struct OverlayCache {
    painted: Option<(u32, u32, Character)>,
}

impl OverlayCache {
    /// The window size and highlight the overlay was last painted for.
    pub closed spec fn last(&self) -> Option<(u32, u32, Character)> {
        self.painted
    }

    /// Nothing painted yet.
    pub fn new() -> (r: Self)
        ensures
            r.last() == None::<(u32, u32, Character)>,
    {
        OverlayCache { painted: None }
    }

    /// Whether the overlay must be painted for a `w` x `h` window with `selected` highlighted;
    /// from now on it counts as painted for them.
    pub fn needs_paint(&mut self, w: u32, h: u32, selected: Character) -> (r: bool)
        ensures
            r == (old(self).last() != Some((w, h, selected))),
            final(self).last() == Some((w, h, selected)),
    {
        let same = match self.painted {
            Some((pw, ph, pc)) => pw == w && ph == h && pc == selected,
            None => false,
        };
        self.painted = Some((w, h, selected));
        !same
    }
}

/// The map name is only ever shown upper-cased: for a map name in ASCII, painting it gives the
/// same image as painting its upper-cased form (see the ASCII clause of [`paint`]'s contract).
pub proof fn lemma_paint_ignores_map_case(w: int, h: int, selected: Character, map: Seq<char>)
    requires
        is_ascii_seq(map),
    ensures
        is_ascii_seq(ascii_upper_seq(map)),
        paint_spec(w, h, selected, ascii_upper_seq(ascii_upper_seq(map))) == paint_spec(w, h, selected, ascii_upper_seq(map)),
{
    let u = ascii_upper_seq(map);
    assert forall|i: int| 0 <= i < u.len() implies (#[trigger] u[i] as u32) < 0x80 by {
        assert((map[i] as u32) < 0x80);
    };
    assert forall|i: int| 0 <= i < u.len() implies #[trigger] ascii_upper(u[i]) == u[i] by {
        assert(u[i] == ascii_upper(map[i]));
    };
    assert(ascii_upper_seq(u) =~= u);
}

/// Every fill of `fs` lies within rows `lo .. hi`.
spec fn rows_within(fs: Seq<Fill>, lo: int, hi: int) -> bool {
    forall|i: int| #![trigger fs[i]] 0 <= i < fs.len() ==> lo <= fs[i].y0 && fs[i].y1 <= hi
}

/// No fill of `fs` reaches into rows `a .. b`.
spec fn misses_rows(fs: Seq<Fill>, a: int, b: int) -> bool {
    forall|i: int| #![trigger fs[i]] 0 <= i < fs.len() ==> fs[i].y1 <= a || fs[i].y0 >= b
}

proof fn lemma_rows_within_append(f: Seq<Fill>, g: Seq<Fill>, lo: int, hi: int)
    requires
        rows_within(f, lo, hi),
        rows_within(g, lo, hi),
    ensures
        rows_within(f + g, lo, hi),
{
    assert forall|i: int| #![trigger (f + g)[i]] 0 <= i < (f + g).len() implies lo <= (f + g)[i].y0 && (f + g)[i].y1 <= hi by {
        if i < f.len() {
            assert((f + g)[i] == f[i]);
        } else {
            assert((f + g)[i] == g[i - f.len()]);
        }
    };
}

proof fn lemma_misses_rows_append(f: Seq<Fill>, g: Seq<Fill>, a: int, b: int)
    requires
        misses_rows(f, a, b),
        misses_rows(g, a, b),
    ensures
        misses_rows(f + g, a, b),
{
    assert forall|i: int| #![trigger (f + g)[i]] 0 <= i < (f + g).len() implies (f + g)[i].y1 <= a || (f + g)[i].y0 >= b by {
        if i < f.len() {
            assert((f + g)[i] == f[i]);
        } else {
            assert((f + g)[i] == g[i - f.len()]);
        }
    };
}

proof fn lemma_glyph_rows(cx: int, y: int, rows: Seq<u8>, s: int, c: Seq<u8>, n: int)
    requires
        0 <= s,
        n <= 35,
    ensures
        rows_within(glyph_fills(cx, y, rows, s, c, n), y, y + 7 * s),
    decreases n,
{
    if n > 0 {
        lemma_glyph_rows(cx, y, rows, s, c, n - 1);
        let j = n - 1;
        let ry = j / 5;
        assert(0 <= ry <= 6);
        assert(y <= y + ry * s && y + (ry + 1) * s <= y + 7 * s) by (nonlinear_arith)
            requires 0 <= ry <= 6, 0 <= s;
        let prev = glyph_fills(cx, y, rows, s, c, n - 1);
        if row_bit(rows[j / 5], j % 5) {
            let f = cell_fill(cx, y, j % 5, j / 5, s, c);
            assert forall|i: int| #![trigger prev.push(f)[i]] 0 <= i < prev.push(f).len() implies y <= prev.push(f)[i].y0 && prev.push(f)[i].y1 <= y + 7 * s by {
                if i < prev.len() {
                    assert(prev.push(f)[i] == prev[i]);
                }
            };
        }
    }
}

proof fn lemma_text_rows(x: int, y: int, t: Seq<char>, s: int, c: Seq<u8>)
    requires
        0 <= s,
    ensures
        rows_within(text_fills(x, y, t, s, c), y, y + 7 * s),
    decreases t.len(),
{
    if t.len() > 0 {
        lemma_text_rows(x, y, t.drop_last(), s, c);
        let cx = x + (t.len() - 1) * 6 * s;
        match glyph_spec(t.last()) {
            Some(rows) => lemma_glyph_rows(cx, y, rows, s, c, 35),
            None => {},
        }
        lemma_rows_within_append(text_fills(x, y, t.drop_last(), s, c), char_fills(cx, y, t.last(), s, c), y, y + 7 * s);
    }
}

proof fn lemma_centered_rows(cx: int, y: int, t: Seq<char>, s: int, c: Seq<u8>)
    requires
        0 <= s,
    ensures
        rows_within(centered_fills(cx, y, t, s, c), y, y + 8 * s),
{
    let x = cx - text_width_spec(t.len() as int, s) / 2;
    lemma_text_rows(x + s, y + s, t, s, shadow_of(c));
    lemma_text_rows(x, y, t, s, c);
    lemma_rows_within_append(text_fills(x + s, y + s, t, s, shadow_of(c)), text_fills(x, y, t, s, c), y, y + 8 * s);
}

proof fn lemma_rows_within_misses(fs: Seq<Fill>, lo: int, hi: int, a: int, b: int)
    requires
        rows_within(fs, lo, hi),
        hi <= a || lo >= b,
    ensures
        misses_rows(fs, a, b),
{
    assert forall|i: int| #![trigger fs[i]] 0 <= i < fs.len() implies fs[i].y1 <= a || fs[i].y0 >= b by {
        assert(lo <= fs[i].y0 && fs[i].y1 <= hi);
    };
}

proof fn lemma_card_lines_rows(cx: int, y: int, lines: Seq<Seq<char>>, s: int, c: Seq<u8>, k: int, a: int, b: int)
    requires
        0 <= s,
        y >= b,
    ensures
        misses_rows(card_lines_fills(cx, y, lines, s, c, k), a, b),
    decreases k,
{
    if k > 0 {
        lemma_card_lines_rows(cx, y, lines, s, c, k - 1, a, b);
        let yy = y + 16 * s + (k - 1) * (10 * s);
        assert(yy >= y) by (nonlinear_arith)
            requires yy == y + 16 * s + (k - 1) * (10 * s), 0 <= s, k >= 1;
        lemma_centered_rows(cx, yy, lines[k - 1], s, c);
        lemma_rows_within_misses(centered_fills(cx, yy, lines[k - 1], s, c), yy, yy + 8 * s, a, b);
        lemma_misses_rows_append(card_lines_fills(cx, y, lines, s, c, k - 1), centered_fills(cx, yy, lines[k - 1], s, c), a, b);
    }
}

#[verifier::spinoff_prover]
proof fn lemma_card_rows(w: int, h: int, cx: int, title: Seq<char>, lines: Seq<Seq<char>>, picked: bool)
    requires
        h >= 128,
    ensures
        misses_rows(card_fills(w, h, cx, title, lines, picked), h * 22 / 100, h * 24 / 100),
{
    let s = menu_scale(h);
    let a = h * 22 / 100;
    let b = h * 24 / 100;
    let top = h * 74 / 100;
    assert(1 <= s && (s * 240 <= h || s == 1));
    assert(top >= b);
    lemma_centered_rows(cx, top, title, s * 2, if picked { GOLD@ } else { TEXT@ });
    lemma_rows_within_misses(centered_fills(cx, top, title, s * 2, if picked { GOLD@ } else { TEXT@ }), top, top + 8 * (s * 2), a, b);
    lemma_card_lines_rows(cx, top, lines, s, if picked { TEXT@ } else { DIM@ }, 4, a, b);
    lemma_misses_rows_append(
        centered_fills(cx, top, title, s * 2, if picked { GOLD@ } else { TEXT@ }),
        card_lines_fills(cx, top, lines, s, if picked { TEXT@ } else { DIM@ }, 4),
        a,
        b,
    );
    let head = centered_fills(cx, top, title, s * 2, if picked { GOLD@ } else { TEXT@ }) + card_lines_fills(
        cx,
        top,
        lines,
        s,
        if picked { TEXT@ } else { DIM@ },
        4,
    );
    if picked {
        let t = if s / 2 > 2 { s / 2 } else { 2 };
        let fr = frame_fills(cx - w / 4 + 3 * s, b, cx + w / 4 - 3 * s, h * 71 / 100, t, GOLD@);
        assert(h * 71 / 100 - t >= b) by (nonlinear_arith)
            requires h >= 128, 1 <= s, s * 240 <= h || s == 1, t <= s / 2 + 2, b == h * 24 / 100;
        assert forall|i: int| #![trigger fr[i]] 0 <= i < fr.len() implies fr[i].y1 <= a || fr[i].y0 >= b by {
        };
        let my = h * 71 / 100 - 9 * s;
        assert(my >= b) by (nonlinear_arith)
            requires h >= 128, 1 <= s, s * 240 <= h || s == 1, my == h * 71 / 100 - 9 * s, b == h * 24 / 100;
        lemma_centered_rows(cx, my, "< SELECTED >"@, s, GOLD@);
        lemma_rows_within_misses(centered_fills(cx, my, "< SELECTED >"@, s, GOLD@), my, my + 8 * s, a, b);
        lemma_misses_rows_append(fr, centered_fills(cx, my, "< SELECTED >"@, s, GOLD@), a, b);
        lemma_misses_rows_append(head, fr + centered_fills(cx, my, "< SELECTED >"@, s, GOLD@), a, b);
    } else {
        assert(head + Seq::<Fill>::empty() =~= head);
    }
}

/// Fills that miss a pixel's row leave its four bytes as they were.
proof fn lemma_fills_keep_pixel(px: Seq<u8>, w: int, fs: Seq<Fill>, x: int, y: int)
    requires
        0 <= x < w,
        0 <= y,
        4 * (y * w + x) + 4 <= px.len(),
        forall|i: int| #![trigger fs[i]] 0 <= i < fs.len() ==> fs[i].y1 <= y || fs[i].y0 > y,
    ensures
        apply_fills(px, w, fs).len() == px.len(),
        apply_fills(px, w, fs).subrange(4 * (y * w + x), 4 * (y * w + x) + 4) == px.subrange(4 * (y * w + x), 4 * (y * w + x) + 4),
    decreases fs.len(),
{
    if fs.len() > 0 {
        let rest = fs.drop_last();
        assert forall|i: int| #![trigger rest[i]] 0 <= i < rest.len() implies rest[i].y1 <= y || rest[i].y0 > y by {
            assert(rest[i] == fs[i]);
        };
        lemma_fills_keep_pixel(px, w, rest, x, y);
        let prev = apply_fills(px, w, rest);
        let f = fs.last();
        assert(f.y1 <= y || f.y0 > y);
        let p = y * w + x;
        lemma_pixel_position(p, w, x, y);
        assert forall|k: int| 0 <= k < 4 implies #[trigger] fill_image(prev, w, f)[4 * p + k] == prev[4 * p + k] by {
            lemma_byte_of_pixel(4 * p + k, p, k);
        };
        assert(fill_image(prev, w, f).subrange(4 * p, 4 * p + 4) =~= prev.subrange(4 * p, 4 * p + 4));
    }
}

/// The shade colour over a fully transparent pixel comes out as itself.
proof fn lemma_shade_over_clear()
    ensures
        blend_channel(6, 0, 110, 0) == 6,
        blend_channel(8, 0, 110, 0) == 8,
        blend_channel(14, 0, 110, 0) == 14,
        blend_alpha(110, 0) == 110,
{
    // den = 110 * 255 = 28050; each channel is (2 * c * 28050 + 28050) / 56100.
    lemma_fundamental_div_mod_converse(364650int, 56100int, 6int, 28050int);
    lemma_fundamental_div_mod_converse(476850int, 56100int, 8int, 28050int);
    lemma_fundamental_div_mod_converse(813450int, 56100int, 14int, 28050int);
    lemma_fundamental_div_mod_converse(56355int, 510int, 110int, 255int);
}

/// The title lines lie above the band of rows between the title band and the cards.
#[verifier::spinoff_prover]
proof fn lemma_titles_miss_band(w: int, h: int, map_upper: Seq<char>)
    requires
        h >= 128,
    ensures
        misses_rows(title_fills(w, h, map_upper), h * 22 / 100, h * 24 / 100),
{
    let s = menu_scale(h);
    let a = h * 22 / 100;
    let b = h * 24 / 100;
    assert(1 <= s && (s * 240 <= h || s == 1));
    let y1 = h * 4 / 100;
    let y2 = h * 9 / 100;
    let y3 = h * 16 / 100;
    assert(y1 + 8 * s <= a && y2 + 8 * (s * 2) <= a && y3 + 8 * s <= a) by (nonlinear_arith)
        requires h >= 128, 1 <= s, s * 240 <= h || s == 1, y1 == h * 4 / 100, y2 == h * 9 / 100, y3 == h * 16 / 100, a == h * 22 / 100;
    let t1 = centered_fills(w / 2, y1, "RED ENGINE 2"@, s, DIM@);
    let t2 = centered_fills(w / 2, y2, "CHOOSE YOUR CHARACTER"@, s * 2, TEXT@);
    let t3 = centered_fills(w / 2, y3, "MAP: "@ + map_upper, s, DIM@);
    lemma_centered_rows(w / 2, y1, "RED ENGINE 2"@, s, DIM@);
    lemma_rows_within_misses(t1, y1, y1 + 8 * s, a, b);
    lemma_centered_rows(w / 2, y2, "CHOOSE YOUR CHARACTER"@, s * 2, TEXT@);
    lemma_rows_within_misses(t2, y2, y2 + 8 * (s * 2), a, b);
    lemma_centered_rows(w / 2, y3, "MAP: "@ + map_upper, s, DIM@);
    lemma_rows_within_misses(t3, y3, y3 + 8 * s, a, b);
    lemma_misses_rows_append(t1, t2, a, b);
    lemma_misses_rows_append(t1 + t2, t3, a, b);
    assert(title_fills(w, h, map_upper) == t1 + t2 + t3);
}

/// Both cards lie below the band of rows between the title band and the cards.
#[verifier::spinoff_prover]
proof fn lemma_cards_miss_band(w: int, h: int, selected: Character)
    requires
        h >= 128,
    ensures
        misses_rows(cards_fills(w, h, selected), h * 22 / 100, h * 24 / 100),
{
    let c1 = card_fills(w, h, w / 4, "1  HUMAN"@, human_lines(), selected == Character::Human);
    let c2 = card_fills(w, h, w * 3 / 4, "2  CHEDDAR THE RAT"@, rat_lines(), selected == Character::Rat);
    lemma_card_rows(w, h, w / 4, "1  HUMAN"@, human_lines(), selected == Character::Human);
    lemma_card_rows(w, h, w * 3 / 4, "2  CHEDDAR THE RAT"@, rat_lines(), selected == Character::Rat);
    lemma_misses_rows_append(c1, c2, h * 22 / 100, h * 24 / 100);
}

/// The footer hint lies below the band of rows between the title band and the cards.
proof fn lemma_footer_misses_band(w: int, h: int)
    requires
        h >= 128,
    ensures
        misses_rows(footer_fills(w, h), h * 22 / 100, h * 24 / 100),
{
    let s = menu_scale(h);
    let a = h * 22 / 100;
    let b = h * 24 / 100;
    assert(1 <= s && (s * 240 <= h || s == 1));
    let yf = h - 7 * s - 3 * s;
    assert(yf >= b) by (nonlinear_arith)
        requires h >= 128, 1 <= s, s * 240 <= h || s == 1, yf == h - 7 * s - 3 * s, b == h * 24 / 100;
    let t = "CLICK A CHARACTER OR PRESS 1 / 2 TO PLAY  (ARROWS + ENTER WORK TOO)"@;
    lemma_centered_rows(w / 2, yf, t, s, DIM@);
    lemma_rows_within_misses(centered_fills(w / 2, yf, t, s, DIM@), yf, yf + 8 * s, a, b);
}

/// After the shade, nothing of the menu reaches into the band of rows between the title band
/// and the cards.
#[verifier::spinoff_prover]
proof fn lemma_band_untouched(w: int, h: int, selected: Character, map_upper: Seq<char>)
    requires
        h >= 128,
    ensures
        misses_rows(paint_fills(w, h, selected, map_upper).subrange(1, paint_fills(w, h, selected, map_upper).len() as int), h * 22 / 100, h * 24 / 100),
{
    let a = h * 22 / 100;
    let b = h * 24 / 100;
    let fs = paint_fills(w, h, selected, map_upper);
    let rest = fs.subrange(1, fs.len() as int);
    lemma_paint_fills_parts(w, h, selected, map_upper);
    let bf = backdrop_fills(w, h, selected);
    let bands = seq![bf[1], bf[2]];
    assert(misses_rows(bands, a, b));
    let t = title_fills(w, h, map_upper);
    let c = cards_fills(w, h, selected);
    let f = footer_fills(w, h);
    lemma_titles_miss_band(w, h, map_upper);
    lemma_cards_miss_band(w, h, selected);
    lemma_footer_misses_band(w, h);
    lemma_misses_rows_append(bands, t, a, b);
    lemma_misses_rows_append(bands + t, c, a, b);
    lemma_misses_rows_append(bands + t + c, f, a, b);
    assert(rest =~= bands + t + c + f);
}

/// The shade over a blank `w` x `h` image: the pixel at (`x`, `y`) is the shade colour where
/// the fill covers it and clear elsewhere.
proof fn lemma_shade_pixel(w: int, h: int, f: Fill, x: int, y: int)
    requires
        0 <= x < w,
        0 <= y < h,
        f.c == SHADE@,
    ensures
        4 * (y * w + x) + 4 <= blank_image(w, h).len(),
        fill_image(blank_image(w, h), w, f).subrange(4 * (y * w + x), 4 * (y * w + x) + 4) == if covers(f, x, y) {
            seq![6u8, 8u8, 14u8, 110u8]
        } else {
            seq![0u8, 0u8, 0u8, 0u8]
        },
{
    let blank = blank_image(w, h);
    assert(0 <= w * h) by (nonlinear_arith)
        requires 0 <= w, 0 <= h;
    assert(y * w + x < w * h) by (nonlinear_arith)
        requires 0 <= x < w, 0 <= y < h;
    let shaded = fill_image(blank, w, f);
    let p = y * w + x;
    lemma_pixel_position(p, w, x, y);
    let zero = blank.subrange(4 * p, 4 * p + 4);
    assert(zero =~= seq![0u8, 0u8, 0u8, 0u8]);
    let covered = covers(f, x, y);
    assert forall|k: int| 0 <= k < 4 implies #[trigger] shaded[4 * p + k] == (if covered {
        blended(zero, SHADE@)[k]
    } else {
        0u8
    }) by {
        lemma_byte_of_pixel(4 * p + k, p, k);
    };
    if covered {
        let c = SHADE@;
        assert(c[0] == 6 && c[1] == 8 && c[2] == 14 && c[3] == 110);
        lemma_shade_over_clear();
        assert(blended(zero, c) =~= seq![6u8, 8u8, 14u8, 110u8]);
        assert(shaded.subrange(4 * p, 4 * p + 4) =~= seq![6u8, 8u8, 14u8, 110u8]);
    } else {
        assert(shaded.subrange(4 * p, 4 * p + 4) =~= seq![0u8, 0u8, 0u8, 0u8]);
    }
}

/// The chosen character's half of the launch menu is clear and the other half is shaded: in the
/// band of rows between the title band and the cards (from 22 % to 24 % of the height), where
/// nothing else is drawn, a pixel is the shade colour `[6, 8, 14, 110]` exactly on the half of
/// the character that is not selected (the human's is the left half, the rat's the right), and
/// fully transparent on the selected character's half.
#[verifier::spinoff_prover]
pub proof fn lemma_unchosen_half_shaded(w: int, h: int, selected: Character, map_upper: Seq<char>, x: int, y: int)
    requires
        paint_fits(w, h, map_upper.len() as int),
        h >= 128,
        h * 22 / 100 <= y < h * 24 / 100,
        0 <= x < 2 * (w / 2),
    ensures
        paint_spec(w, h, selected, map_upper).subrange(4 * (y * w + x), 4 * (y * w + x) + 4) == if (x < w / 2) == (
        selected == Character::Rat) {
            seq![6u8, 8u8, 14u8, 110u8]
        } else {
            seq![0u8, 0u8, 0u8, 0u8]
        },
{
    let a = h * 22 / 100;
    let b = h * 24 / 100;
    let fs = paint_fills(w, h, selected, map_upper);
    let first = seq![fs[0]];
    let rest = fs.subrange(1, fs.len() as int);
    assert(first + rest =~= fs);
    lemma_band_untouched(w, h, selected, map_upper);
    assert forall|i: int| #![trigger rest[i]] 0 <= i < rest.len() implies rest[i].y1 <= y || rest[i].y0 > y by {
        assert(rest[i].y1 <= a || rest[i].y0 >= b);
    };
    let blank = blank_image(w, h);
    lemma_shade_pixel(w, h, fs[0], x, y);
    lemma_single_fill(blank, w, fs[0]);
    lemma_apply_fills_append(blank, w, first, rest);
    lemma_fills_keep_pixel(fill_image(blank, w, fs[0]), w, rest, x, y);
    assert(covers(fs[0], x, y) == ((x < w / 2) == (selected == Character::Rat)));
}

/// Every fill of `fs` that covers the pixel at (`x`, `y`) is gold.
spec fn keeps_gold(fs: Seq<Fill>, x: int, y: int) -> bool {
    forall|i: int| #![trigger fs[i]] 0 <= i < fs.len() ==> !covers(fs[i], x, y) || fs[i].c == GOLD@
}

proof fn lemma_keeps_gold_append(f: Seq<Fill>, g: Seq<Fill>, x: int, y: int)
    requires
        keeps_gold(f, x, y),
        keeps_gold(g, x, y),
    ensures
        keeps_gold(f + g, x, y),
{
    assert forall|i: int| #![trigger (f + g)[i]] 0 <= i < (f + g).len() implies !covers((f + g)[i], x, y) || (f + g)[i].c == GOLD@ by {
        if i < f.len() {
            assert((f + g)[i] == f[i]);
        } else {
            assert((f + g)[i] == g[i - f.len()]);
        }
    };
}

proof fn lemma_misses_keeps_gold(fs: Seq<Fill>, x: int, y: int)
    requires
        misses_rows(fs, y, y + 1),
    ensures
        keeps_gold(fs, x, y),
{
    assert forall|i: int| #![trigger fs[i]] 0 <= i < fs.len() implies !covers(fs[i], x, y) || fs[i].c == GOLD@ by {
        assert(fs[i].y1 <= y || fs[i].y0 >= y + 1);
    };
}

/// A pixel that a gold fill covers stays gold through later fills that are gold wherever they
/// cover it.
proof fn lemma_fills_end_gold(px: Seq<u8>, w: int, fs: Seq<Fill>, x: int, y: int)
    requires
        0 <= x < w,
        0 <= y,
        4 * (y * w + x) + 4 <= px.len(),
        fs.len() > 0,
        covers(fs[0], x, y),
        keeps_gold(fs, x, y),
    ensures
        apply_fills(px, w, fs).subrange(4 * (y * w + x), 4 * (y * w + x) + 4) == GOLD@,
    decreases fs.len(),
{
    let rest = fs.drop_last();
    let f = fs.last();
    let p = y * w + x;
    let prev = apply_fills(px, w, rest);
    lemma_apply_fills_len(px, w, rest);
    if fs.len() > 1 {
        assert forall|i: int| #![trigger rest[i]] 0 <= i < rest.len() implies !covers(rest[i], x, y) || rest[i].c == GOLD@ by {
            assert(rest[i] == fs[i]);
        };
        assert(rest[0] == fs[0]);
        lemma_fills_end_gold(px, w, rest, x, y);
    }
    lemma_pixel_position(p, w, x, y);
    let q = prev.subrange(4 * p, 4 * p + 4);
    assert(f == fs[fs.len() - 1]);
    assert(!covers(f, x, y) || f.c == GOLD@);
    let g = GOLD@;
    assert(g.len() == 4 && g[0] == 255 && g[1] == 210 && g[2] == 74 && g[3] == 255);
    if covers(f, x, y) {
        lemma_blend_opaque(q, g);
    }
    assert forall|k: int| 0 <= k < 4 implies #[trigger] fill_image(prev, w, f)[4 * p + k] == g[k] by {
        lemma_byte_of_pixel(4 * p + k, p, k);
        if !covers(f, x, y) {
            assert(fs.len() > 1);
            assert(prev[4 * p + k] == prev.subrange(4 * p, 4 * p + 4)[k]);
        }
    };
    assert(fill_image(prev, w, f).subrange(4 * p, 4 * p + 4) =~= g);
}

/// A card that is not selected (its title and lines) lies at or below 74 % of the height.
proof fn lemma_unpicked_card_misses(w: int, h: int, cx: int, title: Seq<char>, lines: Seq<Seq<char>>, a: int, b: int)
    requires
        h >= 0,
        b <= h * 74 / 100,
    ensures
        misses_rows(card_fills(w, h, cx, title, lines, false), a, b),
{
    let s = menu_scale(h);
    let top = h * 74 / 100;
    let t = centered_fills(cx, top, title, s * 2, TEXT@);
    let l = card_lines_fills(cx, top, lines, s, DIM@, 4);
    lemma_centered_rows(cx, top, title, s * 2, TEXT@);
    lemma_rows_within_misses(t, top, top + 8 * (s * 2), a, b);
    lemma_card_lines_rows(cx, top, lines, s, DIM@, 4, a, b);
    lemma_misses_rows_append(t, l, a, b);
    assert(card_fills(w, h, cx, title, lines, false) =~= t + l);
}

/// What follows the top edge of the selected card's frame keeps the pixels of that edge gold.
#[verifier::spinoff_prover]
proof fn lemma_after_frame_top(w: int, h: int, cx: int, title: Seq<char>, after: Seq<Fill>, x: int)
    requires
        h >= 22,
        misses_rows(after, h * 24 / 100, h * 24 / 100 + 1),
    ensures
        ({
            let s = menu_scale(h);
            let fr = frame_fills(cx - w / 4 + 3 * s, h * 24 / 100, cx + w / 4 - 3 * s, h * 71 / 100, if s / 2 > 2 { s / 2 } else { 2 }, GOLD@);
            keeps_gold(fr + centered_fills(cx, h * 71 / 100 - 9 * s, "< SELECTED >"@, s, GOLD@) + after, x, h * 24 / 100)
        }),
{
    let s = menu_scale(h);
    let y = h * 24 / 100;
    assert(1 <= s && (s * 240 <= h || s == 1));
    let fr = frame_fills(cx - w / 4 + 3 * s, y, cx + w / 4 - 3 * s, h * 71 / 100, if s / 2 > 2 { s / 2 } else { 2 }, GOLD@);
    assert(keeps_gold(fr, x, y));
    let my = h * 71 / 100 - 9 * s;
    assert(my >= y + 1) by (nonlinear_arith)
        requires h >= 22, 1 <= s, s * 240 <= h || s == 1, my == h * 71 / 100 - 9 * s, y == h * 24 / 100;
    let sel = centered_fills(cx, my, "< SELECTED >"@, s, GOLD@);
    lemma_centered_rows(cx, my, "< SELECTED >"@, s, GOLD@);
    lemma_rows_within_misses(sel, my, my + 8 * s, y, y + 1);
    lemma_misses_keeps_gold(sel, x, y);
    lemma_misses_keeps_gold(after, x, y);
    lemma_keeps_gold_append(fr, sel, x, y);
    lemma_keeps_gold_append(fr + sel, after, x, y);
}

/// The menu's fills split at the top edge of the selected card's frame: that edge covers
/// (`x`, 24 % of the height), and every later fill that covers the pixel is gold.
#[verifier::spinoff_prover]
proof fn lemma_split_at_frame_top(w: int, h: int, selected: Character, map_upper: Seq<char>, x: int) -> (r: (Seq<Fill>, Seq<Fill>))
    requires
        h >= 22,
        (if selected == Character::Human { w / 4 } else { w * 3 / 4 }) - w / 4 + 3 * menu_scale(h) <= x,
        x < (if selected == Character::Human { w / 4 } else { w * 3 / 4 }) + w / 4 - 3 * menu_scale(h),
    ensures
        paint_fills(w, h, selected, map_upper) == r.0 + r.1,
        r.1.len() > 0,
        covers(r.1[0], x, h * 24 / 100),
        keeps_gold(r.1, x, h * 24 / 100),
{
    let s = menu_scale(h);
    let y = h * 24 / 100;
    lemma_paint_fills_parts(w, h, selected, map_upper);
    let bk = backdrop_fills(w, h, selected);
    let ti = title_fills(w, h, map_upper);
    let ft = footer_fills(w, h);
    lemma_footer_misses_row(w, h);
    let hc = card_fills(w, h, w / 4, "1  HUMAN"@, human_lines(), selected == Character::Human);
    let rc = card_fills(w, h, w * 3 / 4, "2  CHEDDAR THE RAT"@, rat_lines(), selected == Character::Rat);
    let (cx, title, lines) = if selected == Character::Human {
        (w / 4, "1  HUMAN"@, human_lines())
    } else {
        (w * 3 / 4, "2  CHEDDAR THE RAT"@, rat_lines())
    };
    let head = centered_fills(cx, h * 74 / 100, title, s * 2, GOLD@) + card_lines_fills(cx, h * 74 / 100, lines, s, TEXT@, 4);
    let fr = frame_fills(cx - w / 4 + 3 * s, y, cx + w / 4 - 3 * s, h * 71 / 100, if s / 2 > 2 { s / 2 } else { 2 }, GOLD@);
    let sel = centered_fills(cx, h * 71 / 100 - 9 * s, "< SELECTED >"@, s, GOLD@);
    let picked_card = head + (fr + sel);
    let pre;
    let after;
    if selected == Character::Human {
        assert(hc == picked_card);
        lemma_unpicked_card_misses(w, h, w * 3 / 4, "2  CHEDDAR THE RAT"@, rat_lines(), y, y + 1);
        lemma_misses_rows_append(rc, ft, y, y + 1);
        pre = bk + ti + head;
        after = rc + ft;
        lemma_regroup(bk + ti, head, fr + sel, rc, ft);
    } else {
        assert(rc == picked_card);
        pre = bk + ti + hc + head;
        after = ft;
        lemma_regroup(bk + ti + hc, head, fr + sel, Seq::empty(), ft);
        assert(hc + Seq::<Fill>::empty() =~= hc);
        assert(bk + ti + hc + Seq::<Fill>::empty() =~= bk + ti + hc);
    }
    lemma_after_frame_top(w, h, cx, title, after, x);
    let post = fr + sel + after;
    assert(post[0] == fr[0]);
    (pre, post)
}

/// `a + (b + c + d) + e` regrouped as `(a + b) + (c + (d + e))`.
proof fn lemma_regroup(a: Seq<Fill>, b: Seq<Fill>, c: Seq<Fill>, d: Seq<Fill>, e: Seq<Fill>)
    ensures
        a + (b + c) + d + e == (a + b) + (c + (d + e)),
{
    assert(a + (b + c) + d + e =~= (a + b) + (c + (d + e)));
}

/// The footer hint lies below the row at 24 % of the height.
proof fn lemma_footer_misses_row(w: int, h: int)
    requires
        h >= 22,
    ensures
        misses_rows(footer_fills(w, h), h * 24 / 100, h * 24 / 100 + 1),
        h * 74 / 100 >= h * 24 / 100 + 1,
{
    let s = menu_scale(h);
    let y = h * 24 / 100;
    assert(1 <= s && (s * 240 <= h || s == 1));
    let yf = h - 7 * s - 3 * s;
    assert(yf >= y + 1 && h * 74 / 100 >= y + 1) by (nonlinear_arith)
        requires h >= 22, 1 <= s, s * 240 <= h || s == 1, yf == h - 7 * s - 3 * s, y == h * 24 / 100;
    let txt = "CLICK A CHARACTER OR PRESS 1 / 2 TO PLAY  (ARROWS + ENTER WORK TOO)"@;
    lemma_centered_rows(w / 2, yf, txt, s, DIM@);
    lemma_rows_within_misses(centered_fills(w / 2, yf, txt, s, DIM@), yf, yf + 8 * s, y, y + 1);
}

/// The selected character's card is framed in gold: along the top edge of its frame, at 24 % of
/// the window's height and from three font pixels inside the card's left edge to three inside its
/// right edge (the card being the left half for the human and the right half for the rat), every
/// pixel is exactly gold `[255, 210, 74, 255]`.
pub proof fn lemma_selected_card_framed_in_gold(w: int, h: int, selected: Character, map_upper: Seq<char>, x: int)
    requires
        paint_fits(w, h, map_upper.len() as int),
        h >= 22,
        (if selected == Character::Human { w / 4 } else { w * 3 / 4 }) - w / 4 + 3 * menu_scale(h) <= x,
        x < (if selected == Character::Human { w / 4 } else { w * 3 / 4 }) + w / 4 - 3 * menu_scale(h),
    ensures
        paint_spec(w, h, selected, map_upper).subrange(4 * (h * 24 / 100 * w + x), 4 * (h * 24 / 100 * w + x) + 4)
            == seq![255u8, 210u8, 74u8, 255u8],
{
    let y = h * 24 / 100;
    let (pre, post) = lemma_split_at_frame_top(w, h, selected, map_upper, x);
    let blank = blank_image(w, h);
    assert(0 <= w * h) by (nonlinear_arith)
        requires 0 <= w, 0 <= h;
    assert(0 <= x < w);
    assert(0 <= y < h);
    assert(y * w + x < w * h) by (nonlinear_arith)
        requires 0 <= x < w, 0 <= y < h;
    lemma_apply_fills_append(blank, w, pre, post);
    lemma_apply_fills_len(blank, w, pre);
    lemma_fills_end_gold(apply_fills(blank, w, pre), w, post, x, y);
    let g = GOLD@;
    assert(g =~= seq![255u8, 210u8, 74u8, 255u8]);
}

} // verus!
