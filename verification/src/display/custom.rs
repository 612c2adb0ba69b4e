//! Custom layout renderer. [`draw_custom_layout`] walks the user's saved layout and dispatches each
//! element on its numeric type tag `t`, reusing the board's primitives. Data-bound elements
//! (station, departure fields) honour the same settings as the built-in board, so a custom board
//! stays in lock-step with it. Font upscaling (`k` in 1..=3) goes through [`blit_scaled_text`],
//! which enlarges the font's own glyphs pixel by pixel. Everything is defensive: out-of-range
//! fields are clamped, so no layout can stop the render task.

use vstd::prelude::*;
use vstd::string::StrSliceExecFns;

use crate::display::draw::{
    blit_bitmap, blit_tones, character_size, city, draw_train_front_scaled, fill_rect, fmt_minutes,
    lemma_cell, lemma_minutes_text, marquee_offset, rasterise, Font, ACCENT, AMBER, ARROW_GLYPH,
    DIM, MARQUEE_GAP, OFF, TEXT_LIMIT, Z_GLYPH,
};
use crate::display::draw::{
    bitmap_layer, minutes_text, scroll, shown_name, text_raster, train_layer,
};
use crate::display::panel::{
    fill_span, lemma_paint_nothing, lemma_paint_over, lemma_paint_same, max, min, rgb, Color,
    Panel, COLS,
};
use crate::display::panel::{block, clear, over, same, Layer};
use crate::localtime::{lemma_date_of, local_parts};
use crate::localtime::{date_of, swiss_offset};
use crate::model::{clamp, Departure, Element, Layout, Weather};
use crate::model::{between, departures_wf, whole_degrees};
use crate::shared::{line_badges_enabled, now_unix, strip_city_enabled, weather, Shared};
use crate::shared::{datable, recent_weather, unix_at, Settings, State};
use crate::text::{
    char_count, decimal, lemma_ascii_len, lemma_dec, lemma_dec_value, lemma_pad2_value,
    lemma_signed_dec_value, lemma_utf8_len_bounds, lemma_utf8_len_concat, padded, put,
    signed_decimal,
};
use crate::text::{cat_all, dec, pad2, signed_dec, utf8_len};

verus! {

/// What the elements of a layout read besides the departures: the settings, the Unix time once it
/// is known, and the weather while it is recent.
pub struct Scene {
    pub settings: Settings,
    pub unix: Option<int>,
    pub weather: Option<Weather>,
}

/// The scene that the shared state gives at tick `now`, weather being recent for `stale` ticks.
pub open spec fn scene_of(st: State, now: int, stale: int) -> Scene {
    Scene {
        settings: st.settings,
        unix: unix_at(st, now),
        weather: recent_weather(st, now, stale),
    }
}

/// The elements see the live settings, the time that the clock has run to, and the weather while it
/// is less than `stale` ticks old.
pub proof fn lemma_scene(st: State, now: int, stale: int)
    ensures
        scene_of(st, now, stale).settings == st.settings,
        st.clock is None ==> scene_of(st, now, stale).unix is None,
        st.clock matches Some(base) ==> scene_of(st, now, stale).unix == Some(
            base + now / 1_000_000,
        ),
        st.weather is None ==> scene_of(st, now, stale).weather is None,
        st.weather matches Some((w, at)) ==> scene_of(st, now, stale).weather == (if now - at < stale {
            Some(w)
        } else {
            None
        }),
{
}

/// An element's colour: an explicit `0xRRGGBB` overrides the preset index.
pub open spec fn color_of(el: Element) -> Color {
    match el.col {
        Some(hex) => rgb(hex),
        None => if el.c == 1 {
            rgb(ACCENT)
        } else if el.c == 2 {
            rgb(DIM)
        } else {
            rgb(AMBER)
        },
    }
}

/// Resolve an element's colour: an explicit 24-bit `col` (`0xRRGGBB`) overrides the preset index
/// `c` (0 = amber, 1 = accent, 2 = dim). The result is still scaled at draw time like every other
/// colour, so custom colours dim with the panel.
pub fn elem_color(el: &Element) -> (r: Color)
    ensures
        r == color_of(*el),
{
    match el.col {
        Some(hex) => rgb(hex),
        None => match el.c {
            1 => rgb(ACCENT),
            2 => rgb(DIM),
            _ => rgb(AMBER),
        },
    }
}

/// The font for an element's `s` selector: `1` = 6×10, anything else = 5×7.
pub fn font_for(s: u8) -> (r: Font)
    ensures
        r == (if s == 1 {
            Font::Medium
        } else {
            Font::Small
        }),
{
    if s == 1 {
        Font::Medium
    } else {
        Font::Small
    }
}

/// Width of a character cell.
pub open spec fn cell_w(medium: bool) -> int {
    if medium {
        6
    } else {
        5
    }
}

/// Height of a character cell.
pub open spec fn cell_h(medium: bool) -> int {
    if medium {
        10
    } else {
        7
    }
}

/// Font, integer upscale factor and colour of a piece of scaled custom text.
#[derive(Clone, Copy)]
pub struct GlyphStyle {
    pub medium: bool,
    pub k: i32,
    pub color: Color,
}

/// The columns `start..end`.
#[derive(Clone, Copy)]
pub struct Columns {
    pub start: i32,
    pub end: i32,
}

/// The character cell in the top-left corner of a picture of the panel's size, enlarged `k` times,
/// its own top-left corner at `(x, y)`, within the columns of `cols`. Each pixel of the cell
/// becomes a `k`×`k` block.
pub open spec fn cell_layer(
    st: GlyphStyle,
    picture: Seq<u8>,
    x: int,
    y: int,
    cols: Columns,
) -> Layer {
    |px: int, py: int|
        {
            let gx = (px - x) / st.k as int;
            let gy = (py - y) / st.k as int;
            if 0 <= gx < cell_w(st.medium) && 0 <= gy < cell_h(st.medium) && picture[gy * 64 + gx]
                != 0 && cols.start <= px < cols.end {
                Some(st.color)
            } else {
                None
            }
        }
}

/// One character enlarged `k` times, its top-left corner at `(x, y)`, within the columns of
/// `cols`. Each pixel of the font's own glyph becomes a `k`×`k` block.
pub open spec fn glyph_layer(st: GlyphStyle, c: char, x: int, y: int, cols: Columns) -> Layer {
    cell_layer(st, text_raster(st.medium, seq![c], 0, 0), x, y, cols)
}

/// The first `n` characters of a text enlarged `k` times and set side by side from `(x, y)` on.
pub open spec fn scaled_text_layer(
    st: GlyphStyle,
    s: Seq<char>,
    n: int,
    x: int,
    y: int,
    cols: Columns,
) -> Layer
    decreases n,
{
    if n <= 0 {
        clear()
    } else {
        over(
            glyph_layer(st, s[n - 1], x + (n - 1) * (cell_w(st.medium) * st.k), y, cols),
            scaled_text_layer(st, s, n - 1, x, y, cols),
        )
    }
}

/// The pixels of a character cell before pixel `(j, i)`, in reading order.
spec fn cell_before(
    st: GlyphStyle,
    picture: Seq<u8>,
    x: int,
    y: int,
    cols: Columns,
    j: int,
    i: int,
) -> Layer {
    |px: int, py: int|
        {
            let gx = (px - x) / st.k as int;
            let gy = (py - y) / st.k as int;
            if gy < i || (gy == i && gx < j) {
                cell_layer(st, picture, x, y, cols)(px, py)
            } else {
                None
            }
        }
}

/// Blit one cell of a glyph as a `k`×`k` block with its top-left at `(x, y)`, restricted to the
/// columns of `cols`.
pub fn blit_cell(fb: &mut Panel, x: i32, y: i32, k: i32, color: Color, cols: &Columns)
    requires
        old(fb).wf(),
        1 <= k <= 3,
        x <= i32::MAX - 3,
        y <= i32::MAX - 3,
    ensures
        final(fb).painted(
            *old(fb),
            crate::display::panel::clip(
                block(x as int, y as int, k as int, k as int, color),
                cols.start as int,
                y as int,
                cols.end as int,
                y + k,
            ),
        ),
{
    let ghost f0 = *fb;
    let x0: i32 = max(x, cols.start);
    let x1: i32 = min(x + k, cols.end);
    fill_span(fb, x0, y, x1, y + k, color);
    proof {
        lemma_paint_same(
            f0,
            *fb,
            block(x0 as int, y as int, x1 - x0, k as int, color),
            crate::display::panel::clip(
                block(x as int, y as int, k as int, k as int, color),
                cols.start as int,
                y as int,
                cols.end as int,
                y + k,
            ),
        );
    }
}

/// Draw the character cell in the top-left corner of `picture` enlarged, its own top-left corner at
/// `(x, y)`.
pub fn blit_picture(
    fb: &mut Panel,
    picture: &Vec<u8>,
    x: i32,
    y: i32,
    st: &GlyphStyle,
    cols: &Columns,
)
    requires
        old(fb).wf(),
        picture@.len() == 4096,
        1 <= st.k <= 3,
        x <= i32::MAX - 64,
        y <= i32::MAX - 64,
    ensures
        final(fb).painted(*old(fb), cell_layer(*st, picture@, x as int, y as int, *cols)),
{
    let ghost f0 = *fb;
    let ghost p = picture@;
    let ghost (xi, yi, ki) = (x as int, y as int, st.k as int);
    let k: i32 = st.k;
    let (cw, ch): (u32, u32) = character_size(st.medium);
    proof {
        lemma_paint_nothing(f0, cell_before(*st, p, xi, yi, *cols, 0, 0));
    }
    let mut gy: u32 = 0;
    while gy < ch
        invariant
            f0.wf(),
            1 <= k <= 3,
            k == st.k,
            x <= i32::MAX - 64,
            y <= i32::MAX - 64,
            xi == x && yi == y && ki == k,
            cw == cell_w(st.medium) && ch == cell_h(st.medium),
            picture@.len() == 4096,
            p == picture@,
            0 <= gy <= ch,
            fb.painted(f0, cell_before(*st, p, xi, yi, *cols, 0, gy as int)),
        decreases ch - gy,
    {
        let mut gx: u32 = 0;
        while gx < cw
            invariant
                f0.wf(),
                1 <= k <= 3,
                k == st.k,
                x <= i32::MAX - 64,
                y <= i32::MAX - 64,
                xi == x && yi == y && ki == k,
                cw == cell_w(st.medium) && ch == cell_h(st.medium),
                picture@.len() == 4096,
                p == picture@,
                0 <= gy < ch,
                0 <= gx <= cw,
                fb.painted(f0, cell_before(*st, p, xi, yi, *cols, gx as int, gy as int)),
            decreases cw - gx,
        {
            let ghost f1 = *fb;
            let ghost done = cell_before(*st, p, xi, yi, *cols, gx as int, gy as int);
            let ghost next = cell_before(*st, p, xi, yi, *cols, gx + 1, gy as int);
            let i: usize = gy as usize * 64 + gx as usize;
            assert(0 <= gx * k <= 18 && 0 <= gy * k <= 30) by (nonlinear_arith)
                requires
                    0 <= gx <= 6,
                    0 <= gy <= 10,
                    1 <= k <= 3,
            ;
            assert forall|px: int, py: int| true implies (#[trigger] done(px, py) == next(px, py)
                || (xi + gx * k <= px < xi + gx * k + k && yi + gy * k <= py < yi + gy * k + k))
                && (xi + gx * k <= px < xi + gx * k + k && yi + gy * k <= py < yi + gy * k + k
                ==> done(px, py) is None && next(px, py) == (if p[gy * 64 + gx] != 0 && cols.start
                <= px < cols.end {
                Some(st.color)
            } else {
                None
            })) by {
                lemma_cell(px - xi, ki, gx as int);
                lemma_cell(py - yi, ki, gy as int);
            }
            if picture[i] != 0 {
                let cx: i32 = x + gx as i32 * k;
                let cy: i32 = y + gy as i32 * k;
                blit_cell(fb, cx, cy, k, st.color, cols);
                proof {
                    let cell = crate::display::panel::clip(
                        block(cx as int, cy as int, k as int, k as int, st.color),
                        cols.start as int,
                        cy as int,
                        cols.end as int,
                        cy + k,
                    );
                    lemma_paint_over(f0, f1, *fb, done, cell);
                    assert forall|px: int, py: int| true implies #[trigger] over(cell, done)(px, py)
                        == next(px, py) by {
                        assert(done(px, py) == done(px, py));
                    }
                    lemma_paint_same(f0, *fb, over(cell, done), next);
                }
            } else {
                proof {
                    assert forall|px: int, py: int| true implies #[trigger] done(px, py) == next(
                        px,
                        py,
                    ) by {}
                    lemma_paint_same(f0, *fb, done, next);
                }
            }
            gx = gx + 1;
        }
        proof {
            let done = cell_before(*st, p, xi, yi, *cols, cw as int, gy as int);
            let next = cell_before(*st, p, xi, yi, *cols, 0, gy + 1);
            assert(same(done, next));
            lemma_paint_same(f0, *fb, done, next);
        }
        gy = gy + 1;
    }
    proof {
        let done = cell_before(*st, p, xi, yi, *cols, 0, ch as int);
        let whole = cell_layer(*st, p, xi, yi, *cols);
        assert(same(done, whole));
        lemma_paint_same(f0, *fb, done, whole);
    }
}

/// Draw the one-character text `s` enlarged, its top-left corner at `(x, y)`.
fn blit_glyph(fb: &mut Panel, s: &str, x: i32, y: i32, st: &GlyphStyle, cols: &Columns)
    requires
        old(fb).wf(),
        s@.len() == 1,
        1 <= st.k <= 3,
        x <= i32::MAX - 64,
        y <= i32::MAX - 64,
    ensures
        final(fb).painted(*old(fb), glyph_layer(*st, s@[0], x as int, y as int, *cols)),
{
    assert(s@ =~= seq![s@[0]]);
    let picture = rasterise(st.medium, s, 0, 0);
    blit_picture(fb, &picture, x, y, st, cols);
}

/// A glyph lies between its corner and the next glyph's.
proof fn lemma_glyph_extent(st: GlyphStyle, c: char, x: int, y: int, cols: Columns)
    requires
        1 <= st.k <= 3,
    ensures
        forall|px: int, py: int|
            (#[trigger] glyph_layer(st, c, x, y, cols)(px, py)) is Some ==> x <= px < x + cell_w(
                st.medium,
            ) * st.k && cols.start <= px < cols.end,
{
    assert forall|px: int, py: int|
        (#[trigger] glyph_layer(st, c, x, y, cols)(px, py)) is Some implies x <= px < x + cell_w(
        st.medium,
    ) * st.k && cols.start <= px < cols.end by {
        let d = px - x;
        if st.k == 1 {
            assert(d / 1 == d);
        } else if st.k == 2 {
            assert(0 <= d / 2 < cell_w(st.medium));
        } else {
            assert(0 <= d / 3 < cell_w(st.medium));
        }
    }
}

/// Draw `text` at baseline-top `(x0, y)` in `style` (each source glyph pixel becomes a `k`×`k`
/// block), clipped to the horizontal band of columns `clip`. Advance per glyph is the cell width
/// times `k`. Glyphs fully outside the clip are skipped.
pub fn blit_scaled_text(
    fb: &mut Panel,
    text: &str,
    x0: i32,
    y: i32,
    style: &GlyphStyle,
    clip: &Columns,
)
    requires
        old(fb).wf(),
        1 <= style.k <= 3,
        text@.len() <= TEXT_LIMIT,
        -1_000_000_000 <= x0 <= 1_000_000_000,
        -1_000_000_000 <= y <= 1_000_000_000,
    ensures
        final(fb).painted(
            *old(fb),
            scaled_text_layer(*style, text@, text@.len() as int, x0 as int, y as int, *clip),
        ),
{
    let ghost f0 = *fb;
    let n: usize = text.unicode_len();
    let (cw, ch): (u32, u32) = character_size(style.medium);
    assert(5 <= cw * style.k <= 18) by (nonlinear_arith)
        requires
            5 <= cw <= 6,
            1 <= style.k <= 3,
    ;
    let advance: i32 = cw as i32 * style.k;
    let ghost adv = cell_w(style.medium) * style.k;
    let mut x: i32 = x0;
    let mut i: usize = 0;
    proof {
        lemma_paint_nothing(
            f0,
            scaled_text_layer(*style, text@, 0, x0 as int, y as int, *clip),
        );
    }
    while i < n
        invariant
            f0.wf(),
            1 <= style.k <= 3,
            n == text@.len(),
            n <= TEXT_LIMIT,
            0 <= i <= n,
            -1_000_000_000 <= x0 <= 1_000_000_000,
            -1_000_000_000 <= y <= 1_000_000_000,
            cw == cell_w(style.medium),
            adv == cell_w(style.medium) * style.k,
            advance == adv,
            5 <= adv <= 18,
            x == x0 + i * adv,
            fb.painted(
                f0,
                scaled_text_layer(*style, text@, i as int, x0 as int, y as int, *clip),
            ),
        decreases n - i,
    {
        let ghost f1 = *fb;
        let ghost done = scaled_text_layer(*style, text@, i as int, x0 as int, y as int, *clip);
        let ghost glyph = glyph_layer(*style, text@[i as int], x as int, y as int, *clip);
        assert(0 <= i * adv && i * adv + adv <= 50_000_000 * 18) by (nonlinear_arith)
            requires
                0 <= i,
                i + 1 <= 50_000_000,
                5 <= adv <= 18,
        ;
        // Only rasterise glyphs that overlap the clip band.
        if x + advance > clip.start && x < clip.end {
            let s = text.substring_char(i, i + 1);
            blit_glyph(fb, s, x, y, style, clip);
        } else {
            proof {
                lemma_glyph_extent(*style, text@[i as int], x as int, y as int, *clip);
                assert(same(glyph, clear()));
                lemma_paint_nothing(f1, glyph);
            }
        }
        proof {
            lemma_paint_over(f0, f1, *fb, done, glyph);
            assert((i + 1) * adv == i * adv + adv) by (nonlinear_arith);
        }
        x = x + advance;
        i = i + 1;
    }
}

/// The characters of an enlarged text stand side by side: in the cell of the `i`-th, the text shows
/// that character and nothing else, and it paints nothing outside the columns of `cols`.
pub proof fn lemma_scaled_text(
    st: GlyphStyle,
    s: Seq<char>,
    n: int,
    x: int,
    y: int,
    cols: Columns,
    i: int,
    px: int,
    py: int,
)
    requires
        1 <= st.k <= 3,
        0 <= n <= s.len(),
    ensures
        ({
            let advance = cell_w(st.medium) * st.k;
            let shown = scaled_text_layer(st, s, n, x, y, cols)(px, py);
            &&& 0 <= i < n && x + i * advance <= px < x + (i + 1) * advance ==> shown == glyph_layer(
                st,
                s[i],
                x + i * advance,
                y,
                cols,
            )(px, py)
            &&& shown is Some ==> x <= px < x + n * advance && cols.start <= px < cols.end
            &&& shown is Some ==> shown == Some(st.color)
        }),
    decreases n,
{
    let advance = cell_w(st.medium) * st.k;
    if n > 0 {
        lemma_scaled_text(st, s, n - 1, x, y, cols, i, px, py);
        lemma_glyph_extent(st, s[n - 1], x + (n - 1) * advance, y, cols);
        let last = glyph_layer(st, s[n - 1], x + (n - 1) * advance, y, cols);
        assert(last(px, py) is Some ==> x + (n - 1) * advance <= px < x + (n - 1) * advance
            + advance);
        assert(n * advance == (n - 1) * advance + advance) by (nonlinear_arith);
        assert(0 <= (n - 1) * advance) by (nonlinear_arith)
            requires
                n >= 1,
                advance >= 0,
        ;
        assert(0 <= i < n - 1 ==> (i + 1) * advance <= (n - 1) * advance) by (nonlinear_arith)
            requires
                advance >= 0,
        ;
    }
}

/// A glyph is the font's own picture of the character, every pixel of it a block of `k` by `k`.
pub proof fn lemma_glyph(st: GlyphStyle, c: char, x: int, y: int, gx: int, gy: int, px: int, py: int)
    requires
        1 <= st.k <= 3,
        0 <= gx < cell_w(st.medium),
        0 <= gy < cell_h(st.medium),
        x + gx * st.k <= px < x + gx * st.k + st.k,
        y + gy * st.k <= py < y + gy * st.k + st.k,
    ensures
        ({
            let all = Columns { start: i32::MIN, end: i32::MAX };
            i32::MIN <= px < i32::MAX ==> (glyph_layer(st, c, x, y, all)(px, py) == (if text_raster(
                st.medium,
                seq![c],
                0,
                0,
            )[gy * 64 + gx] != 0 {
                Some(st.color)
            } else {
                None
            }))
        }),
{
    lemma_cell(px - x, st.k as int, gx);
    lemma_cell(py - y, st.k as int, gy);
}

/// A text-bearing element's style.
pub open spec fn style_of(el: Element) -> GlyphStyle {
    GlyphStyle { medium: el.s == 1, k: between(el.k, 1, 3) as i32, color: color_of(el) }
}

/// The width of a text set in an element's style.
pub open spec fn text_width(el: Element, s: Seq<char>) -> int {
    s.len() * (cell_w(el.s == 1) * between(el.k, 1, 3))
}

/// The width of an element's box: its own, or that of its text.
pub open spec fn box_width(el: Element, s: Seq<char>) -> int {
    if el.w > 0 {
        el.w as int
    } else {
        text_width(el, s)
    }
}

/// Whether an element's text is too wide for its box and may scroll.
pub open spec fn place_scrolls(el: Element, s: Seq<char>, allow_marquee: bool) -> bool {
    allow_marquee && text_width(el, s) > box_width(el, s)
}

/// The columns of an element's box.
pub open spec fn box_columns(el: Element) -> Columns {
    if el.w > 0 {
        Columns { start: el.x as i32, end: (el.x + el.w) as i32 }
    } else {
        Columns { start: i32::MIN, end: i32::MAX }
    }
}

/// Where a text starts within an element's box: aligned where it fits, else at the left edge.
pub open spec fn align_offset(el: Element, s: Seq<char>) -> int {
    let spare = box_width(el, s) - text_width(el, s);
    if spare < 0 {
        0
    } else if el.a == 1 {
        spare / 2
    } else if el.a == 2 {
        spare
    } else {
        0
    }
}

/// The layer of a text-bearing element that shows `s`.
pub open spec fn place_layer(
    el: Element,
    s: Seq<char>,
    allow_marquee: bool,
    frame: int,
) -> Layer {
    let st = style_of(el);
    let n = s.len() as int;
    let cols = box_columns(el);
    if place_scrolls(el, s, allow_marquee) {
        let period = text_width(el, s) + 14;
        let x = el.x - scroll(period, frame);
        over(
            scaled_text_layer(st, s, n, x + period, el.y as int, cols),
            scaled_text_layer(st, s, n, x, el.y as int, cols),
        )
    } else {
        scaled_text_layer(st, s, n, el.x + align_offset(el, s), el.y as int, cols)
    }
}

/// A text that fits its box stands inside it: at its left edge, at its right edge, or with the same
/// space on both sides but for an odd pixel. One that does not fit starts at the left edge.
pub proof fn lemma_alignment(el: Element, s: Seq<char>)
    ensures
        ({
            let width = text_width(el, s);
            let room = if el.w > 0 {
                el.w as int
            } else {
                width
            };
            let before = align_offset(el, s);
            let after = room - width - before;
            &&& width <= room ==> 0 <= before && 0 <= after
            &&& width <= room && el.a == 1 ==> 0 <= after - before <= 1
            &&& width <= room && el.a == 2 ==> after == 0
            &&& el.a != 1 && el.a != 2 ==> before == 0
            &&& width > room ==> before == 0
            &&& width == s.len() * ((if el.s == 1 {
                6int
            } else {
                5int
            }) * (if el.k < 1 {
                1int
            } else if el.k > 3 {
                3int
            } else {
                el.k as int
            }))
        }),
{
}

/// An element's text stays in its box, and one that does not scroll looks the same at every frame.
pub proof fn lemma_text_stays_in_its_box(
    el: Element,
    s: Seq<char>,
    allow_marquee: bool,
    frame: int,
    other: int,
    px: int,
    py: int,
)
    ensures
        el.w > 0 && !(el.x <= px < el.x + el.w) ==> place_layer(el, s, allow_marquee, frame)(
            px,
            py,
        ) is None,
        !allow_marquee || el.w == 0 ==> !place_scrolls(el, s, allow_marquee),
        !place_scrolls(el, s, allow_marquee) ==> place_layer(el, s, allow_marquee, frame)(px, py)
            == place_layer(el, s, allow_marquee, other)(px, py),
        place_layer(el, s, allow_marquee, frame)(px, py) is Some ==> place_layer(
            el,
            s,
            allow_marquee,
            frame,
        )(px, py) == Some(color_of(el)),
{
    let st = style_of(el);
    let n = s.len() as int;
    let cols = box_columns(el);
    let period = text_width(el, s) + 14;
    let x = el.x - scroll(period, frame);
    lemma_scaled_text(st, s, n, x + period, el.y as int, cols, 0, px, py);
    lemma_scaled_text(st, s, n, x, el.y as int, cols, 0, px, py);
    lemma_scaled_text(st, s, n, el.x + align_offset(el, s), el.y as int, cols, 0, px, py);
}

/// The `i`-th character of a text that does not scroll stands `i` character widths behind the
/// text's start, in the element's own row.
pub proof fn lemma_text_is_placed(
    el: Element,
    s: Seq<char>,
    allow_marquee: bool,
    frame: int,
    i: int,
    px: int,
    py: int,
)
    requires
        !place_scrolls(el, s, allow_marquee),
        0 <= i < s.len(),
        ({
            let advance = cell_w(el.s == 1) * style_of(el).k;
            let start = el.x + align_offset(el, s) + i * advance;
            start <= px < start + advance
        }),
    ensures
        place_layer(el, s, allow_marquee, frame)(px, py) == glyph_layer(
            style_of(el),
            s[i],
            el.x + align_offset(el, s) + i * (cell_w(el.s == 1) * style_of(el).k),
            el.y as int,
            box_columns(el),
        )(px, py),
{
    let advance = cell_w(el.s == 1) * style_of(el).k;
    assert((i + 1) * advance == i * advance + advance) by (nonlinear_arith);
    lemma_scaled_text(
        style_of(el),
        s,
        s.len() as int,
        el.x + align_offset(el, s),
        el.y as int,
        box_columns(el),
        i,
        px,
        py,
    );
}

/// An explicit colour is taken as it is; else the three presets are three different colours.
pub proof fn lemma_element_colors(el: Element, r: u8, g: u8, b: u8)
    ensures
        el.col == Some((r * 65_536 + g * 256 + b) as u32) ==> color_of(el) == (Color { r, g, b }),
        el.col is None ==> (color_of(el) == rgb(ACCENT) <==> el.c == 1),
        el.col is None ==> (color_of(el) == rgb(DIM) <==> el.c == 2),
        el.col is None ==> (color_of(el) == rgb(AMBER) <==> el.c != 1 && el.c != 2),
{
}

/// Draw a text-bearing element's `text` at its own `x,y`, respecting its font `s`, scale `k`,
/// alignment `a`, colour and box width `w`. If it fits within `w` (or `w == 0`, natural width) it
/// sits flush, aligned within the box; otherwise, when `allow_marquee`, it scrolls as a marquee
/// (same cadence as the board) clipped to `[x, x+w)`. Returns `true` while it is scrolling.
pub fn place_text(fb: &mut Panel, text: &str, el: &Element, allow_marquee: bool, frame: u32) -> (r:
    bool)
    requires
        old(fb).wf(),
        text@.len() <= TEXT_LIMIT,
    ensures
        r == place_scrolls(*el, text@, allow_marquee),
        final(fb).painted(*old(fb), place_layer(*el, text@, allow_marquee, frame as int)),
{
    let ghost f0 = *fb;
    let k: i32 = clamp(el.k, 1, 3) as i32;
    let medium: bool = match font_for(el.s) {
        Font::Medium => true,
        Font::Small => false,
    };
    let style = GlyphStyle { medium, k, color: elem_color(el) };
    let x: i32 = el.x as i32;
    let y: i32 = el.y as i32;
    let (cw, ch): (u32, u32) = character_size(medium);
    let n: i32 = char_count(text) as i32;
    assert(0 <= cw * k <= 18) by (nonlinear_arith)
        requires
            5 <= cw <= 6,
            1 <= k <= 3,
    ;
    let advance: i32 = cw as i32 * k;
    assert(0 <= n * advance <= 50_000_000 * 18) by (nonlinear_arith)
        requires
            0 <= n <= 50_000_000,
            0 <= advance <= 18,
    ;
    let text_w: i32 = n * advance;
    let avail: i32 = if el.w > 0 {
        el.w as i32
    } else {
        text_w
    };
    let clip: Columns = if el.w > 0 {
        Columns { start: x, end: x + avail }
    } else {
        Columns { start: i32::MIN, end: i32::MAX }
    };
    let fits: bool = text_w <= avail;
    if fits || !allow_marquee {
        // Flush: align within the box when it fits, else pin left and clip.
        let off: i32 = if fits {
            match el.a {
                1 => (avail - text_w) / 2,
                2 => avail - text_w,
                _ => 0,
            }
        } else {
            0
        };
        blit_scaled_text(fb, text, x + off, y, &style, &clip);
        false
    } else {
        let period: i32 = text_w + MARQUEE_GAP;
        let offset: i32 = marquee_offset(period, frame);
        blit_scaled_text(fb, text, x - offset, y, &style, &clip);
        let ghost f1 = *fb;
        blit_scaled_text(fb, text, x - offset + period, y, &style, &clip);
        proof {
            lemma_paint_over(
                f0,
                f1,
                *fb,
                scaled_text_layer(style, text@, n as int, x - offset, y as int, clip),
                scaled_text_layer(style, text@, n as int, x - offset + period, y as int, clip),
            );
        }
        true
    }
}

/// A line label as a filled badge with the digits cut out, upscaled by the element's `k`.
pub open spec fn badge_scaled_layer(line: Seq<char>, el: Element, fill: Color) -> Layer {
    let k = between(el.k, 1, 3) as int;
    over(
        scaled_text_layer(
            GlyphStyle { medium: true, k: k as i32, color: rgb(OFF) },
            line,
            line.len() as int,
            el.x + 3 * k,
            el.y + k,
            Columns { start: i32::MIN, end: i32::MAX },
        ),
        block(el.x as int, el.y as int, (line.len() * 6 + 5) * k, 11 * k, fill),
    )
}

/// Draw the line label as a filled badge with the digits cut out (unlit), upscaled by the
/// element's `k`. At `k=1` the metrics are those of the board's badge (6×10 label, 11 px tall).
pub fn draw_badge_scaled(fb: &mut Panel, line: &str, el: &Element, fill: Color)
    requires
        old(fb).wf(),
        line@.len() <= 1_000_000,
    ensures
        final(fb).painted(*old(fb), badge_scaled_layer(line@, *el, fill)),
{
    let ghost f0 = *fb;
    let k: i32 = clamp(el.k, 1, 3) as i32;
    let (x, y): (i32, i32) = (el.x as i32, el.y as i32);
    let n: i32 = char_count(line) as i32;
    assert(0 <= (n * 6 + 5) * k <= 6_000_005 * 3) by (nonlinear_arith)
        requires
            0 <= n <= 1_000_000,
            1 <= k <= 3,
    ;
    let w: i32 = (n * 6 + 5) * k;
    fill_rect(fb, x, y, w, 11 * k, fill);
    let ghost f1 = *fb;
    let style = GlyphStyle { medium: true, k, color: rgb(OFF) };
    let clip = Columns { start: i32::MIN, end: i32::MAX };
    blit_scaled_text(fb, line, x + 3 * k, y + k, &style, &clip);
    proof {
        lemma_paint_over(
            f0,
            f1,
            *fb,
            block(x as int, y as int, w as int, 11 * k, fill),
            scaled_text_layer(style, line@, line@.len() as int, x + 3 * k, y + k, clip),
        );
    }
}

/// The departure an element shows, if there is one in its slot.
pub open spec fn slot_of(el: Element, deps: Seq<Departure>) -> Option<Departure> {
    let i = if el.di > 2 {
        2
    } else {
        el.di as int
    };
    if i < deps.len() {
        Some(deps[i])
    } else {
        None
    }
}

/// The layer of a departure field.
pub open spec fn dep_field_layer(
    st: Settings,
    el: Element,
    deps: Seq<Departure>,
    frame: int,
) -> Layer {
    match slot_of(el, deps) {
        None => clear(),
        Some(dep) => if el.fk == 0 {
            if el.f != 1 && st.show_line_badges {
                badge_scaled_layer(dep.line@, el, color_of(el))
            } else {
                place_layer(el, dep.line@, false, frame)
            }
        } else if el.fk == 1 {
            place_layer(el, shown_name(st.strip_city, dep.destination@), true, frame)
        } else if dep.minutes == Some(0u16) {
            train_layer(el.x as int, el.y as int, between(el.k, 1, 3) as int, color_of(el))
        } else {
            place_layer(el, minutes_text(dep.minutes), false, frame)
        },
    }
}

/// Whether a departure field scrolls: only the direction does.
pub open spec fn dep_field_scrolls(st: Settings, el: Element, deps: Seq<Departure>) -> bool {
    match slot_of(el, deps) {
        None => false,
        Some(dep) => el.fk == 1 && place_scrolls(
            el,
            shown_name(st.strip_city, dep.destination@),
            true,
        ),
    }
}

/// A departure field shows the departure in its slot, counted from the soonest: a field for slot
/// `di` shows what a field for the first slot would show if that departure were the only one.
/// Departures in other slots make no difference, and a field whose slot is empty shows nothing.
/// Slots beyond the third count as the third.
pub proof fn lemma_field_shows_its_slot(
    st: Settings,
    el: Element,
    deps: Seq<Departure>,
    frame: int,
    other: int,
    stranger: Departure,
)
    requires
        el.di <= 2,
    ensures
        el.di < deps.len() ==> slot_of(el, deps) == Some(deps[el.di as int]),
        el.di < deps.len() ==> dep_field_layer(st, el, deps, frame) == dep_field_layer(
            st,
            Element { di: 0, ..el },
            seq![deps[el.di as int]],
            frame,
        ),
        0 <= other < deps.len() && other != el.di ==> dep_field_layer(
            st,
            el,
            deps.update(other, stranger),
            frame,
        ) == dep_field_layer(st, el, deps, frame),
        el.di >= deps.len() ==> forall|x: int, y: int|
            (#[trigger] dep_field_layer(st, el, deps, frame)(x, y)) is None,
        el.di == 2 ==> forall|di: u8|
            di >= 2 ==> #[trigger] slot_of((Element { di, ..el }), deps) == slot_of(el, deps),
{
    if el.di < deps.len() {
        let one = seq![deps[el.di as int]];
        let first = Element { di: 0, ..el };
        assert(slot_of(first, one) == slot_of(el, deps));
        lemma_place_ignores_slot(el, 0);
        let layer = dep_field_layer(st, el, deps, frame);
        assert(dep_field_layer(st, first, one, frame) == layer);
    }
}

/// How an element places its text does not depend on its slot.
proof fn lemma_place_ignores_slot(el: Element, di: u8)
    ensures
        forall|s: Seq<char>, marquee: bool, frame: int|
            #[trigger] place_layer(Element { di, ..el }, s, marquee, frame) == place_layer(
                el,
                s,
                marquee,
                frame,
            ),
        color_of(Element { di, ..el }) == color_of(el),
        forall|line: Seq<char>, fill: Color|
            #[trigger] badge_scaled_layer(line, Element { di, ..el }, fill) == badge_scaled_layer(
                line,
                el,
                fill,
            ),
{
    let moved = Element { di, ..el };
    assert(style_of(moved) == style_of(el));
    assert(box_columns(moved) == box_columns(el));
    assert forall|s: Seq<char>, marquee: bool, frame: int|
        #[trigger] place_layer(moved, s, marquee, frame) == place_layer(el, s, marquee, frame) by {
        assert(text_width(moved, s) == text_width(el, s));
        assert(align_offset(moved, s) == align_offset(el, s));
    }
}

/// What a departure field shows of its departure: the line, the destination, or the minutes. The
/// line is a badge where badges are on and the field does not ask for plain text; a departure
/// leaving now shows the tram front for its minutes; only the destination scrolls.
pub proof fn lemma_field_contents(
    st: Settings,
    el: Element,
    deps: Seq<Departure>,
    frame: int,
    x: int,
    y: int,
)
    requires
        el.di <= 2,
        el.di < deps.len(),
    ensures
        ({
            let dep = deps[el.di as int];
            let shown = dep_field_layer(st, el, deps, frame)(x, y);
            let k = if el.k < 1 {
                1int
            } else if el.k > 3 {
                3int
            } else {
                el.k as int
            };
            let field = el.x <= x < el.x + (3 + 6 * dep.line@.len() + 2) * k && el.y <= y < el.y + 11
                * k;
            &&& el.fk == 0 && (el.f == 1 || !st.show_line_badges) ==> shown == place_layer(
                el,
                dep.line@,
                false,
                0,
            )(x, y)
            &&& el.fk == 0 && el.f != 1 && st.show_line_badges && !field ==> shown is None || shown
                == Some(rgb(OFF))
            &&& el.fk == 0 && el.f != 1 && st.show_line_badges && field ==> shown == Some(rgb(OFF))
                || shown == Some(color_of(el))
            &&& el.fk == 1 && !st.strip_city ==> shown == place_layer(
                el,
                dep.destination@,
                true,
                frame,
            )(x, y)
            &&& el.fk == 1 ==> shown == place_layer(
                el,
                shown_name(st.strip_city, dep.destination@),
                true,
                frame,
            )(x, y)
            &&& el.fk == 2 && dep.minutes == Some(0u16) ==> shown == train_layer(
                el.x as int,
                el.y as int,
                k,
                color_of(el),
            )(x, y)
            &&& el.fk == 2 && dep.minutes != Some(0u16) ==> shown == place_layer(
                el,
                minutes_text(dep.minutes),
                false,
                0,
            )(x, y)
            &&& dep_field_scrolls(st, el, deps) ==> el.fk == 1
        }),
{
    let dep = deps[el.di as int];
    let k = between(el.k, 1, 3) as int;
    let off = GlyphStyle { medium: true, k: k as i32, color: rgb(OFF) };
    let all = Columns { start: i32::MIN, end: i32::MAX };
    lemma_scaled_text(
        off,
        dep.line@,
        dep.line@.len() as int,
        el.x + 3 * k,
        el.y + k,
        all,
        0,
        x,
        y,
    );
    lemma_text_stays_in_its_box(el, dep.line@, false, frame, 0, x, y);
    lemma_text_stays_in_its_box(el, minutes_text(dep.minutes), false, frame, 0, x, y);
}

/// Render one live departure field: look up the departure at slot `di` (soonest-first) and draw
/// its `fk` field (badge / direction / time) at the element's own `x,y`. A missing slot (fewer
/// live departures than `di+1`) draws nothing. Mirrors the built-in board's per-field logic (badge
/// honours the line-badges setting; direction is city-stripped; time shows the "now" tram
/// pictogram). Returns `true` while the direction field is mid-scroll; the line and the time are
/// clipped instead.
pub fn draw_dep_field(
    fb: &mut Panel,
    shared: &Shared,
    el: &Element,
    deps: &Vec<Departure>,
    frame: u32,
) -> (r: bool)
    requires
        old(fb).wf(),
        departures_wf(deps@),
    ensures
        r == dep_field_scrolls(shared@.settings, *el, deps@),
        final(fb).painted(
            *old(fb),
            dep_field_layer(shared@.settings, *el, deps@, frame as int),
        ),
{
    let slot: usize = if el.di > 2 {
        2
    } else {
        el.di as usize
    };
    if slot >= deps.len() {
        proof {
            lemma_paint_nothing(*fb, clear());
        }
        return false;  // slot absent: draw nothing
    }
    let dep = &deps[slot];
    proof {
        assert(dep.wf());
        lemma_utf8_len_bounds(dep.line@);
        lemma_utf8_len_bounds(dep.destination@);
        lemma_minutes_text(dep.minutes);
    }
    let color = elem_color(el);
    match el.fk {
        // Badge, per its style `f`: 0 = a filled badge (scaled by `k`) when line badges are on,
        // else plain text; 1 = minimal, always the line as plain (scalable) text, no box.
        0 => {
            if el.f != 1 && line_badges_enabled(shared) {
                draw_badge_scaled(fb, dep.line.as_str(), el, color);
                false
            } else {
                place_text(fb, dep.line.as_str(), el, false, frame)
            }
        },
        // Direction: the destination, city-stripped, as a marquee clipped to `w`.
        1 => {
            let name = city(strip_city_enabled(shared), dep.destination.as_str());
            place_text(fb, name, el, true, frame)
        },
        // Time: the "now" tram pictogram (scaled by `k`) when leaving now, else the text.
        _ => {
            let now: bool = match dep.minutes {
                Some(m) => m == 0,
                None => false,
            };
            if now {
                let k: i32 = clamp(el.k, 1, 3) as i32;
                draw_train_front_scaled(fb, el.x as i32, el.y as i32, k, color);
                false
            } else {
                let mins = fmt_minutes(dep.minutes);
                place_text(fb, mins.as_str(), el, false, frame)
            }
        },
    }
}

/// The local time as a clock element shows it: `HH:MM`, or `H:MM` for format 1.
pub open spec fn clock_text(unix: int, f: u8) -> Seq<char> {
    let local = unix + swiss_offset(unix);
    let h = (local % 86_400 / 3600) as nat;
    let m = (local % 3600 / 60) as nat;
    (if f == 1 {
        dec(h)
    } else {
        pad2(h)
    }) + ":"@ + pad2(m)
}

/// The local date as a date element shows it: `DD.MM.`, or `DD.MM.YYYY` for format 1. The text
/// holds 16 bytes; a year whose digits do not fit behind the month is left out.
pub open spec fn date_text(unix: int, f: u8) -> Seq<char> {
    let local = unix + swiss_offset(unix);
    let (y, m, d) = date_of(local / 86_400);
    let day_month = pad2(d as nat) + "."@ + pad2(m as nat) + "."@;
    if f == 1 {
        cat_all(
            16,
            day_month,
            if y < 0 {
                seq!["-"@, dec((-y) as nat)]
            } else {
                seq![dec(y as nat)]
            },
        )
    } else {
        day_month
    }
}

/// A two-digit number is two ASCII characters.
proof fn lemma_pad2(n: nat)
    requires
        n < 100,
    ensures
        pad2(n).len() == 2,
        utf8_len(pad2(n)) == 2,
{
    reveal_with_fuel(crate::text::pow10, 3);
    lemma_dec(n, 2);
    if n < 10 {
        assert(n < crate::text::pow10(1));
        lemma_dec(n, 1);
    } else {
        assert(dec(n).len() == dec(n / 10).len() + 1);
        assert(n / 10 < crate::text::pow10(1));
        lemma_dec(n / 10, 1);
    }
    lemma_ascii_len(pad2(n));
}

/// The clock can be read back: the number in front of the colon and the two digits behind it give
/// the minute of the local day. The hours have two digits, or as many as they need for format 1.
pub proof fn lemma_clock_reads_back(unix: int, f: u8)
    ensures
        ({
            let text = clock_text(unix, f);
            let colon = text.len() - 3;
            let hours = crate::text::value(text.take(colon));
            let minutes = crate::text::value(text.skip(colon + 1));
            let local = unix + swiss_offset(unix);
            &&& 1 <= colon <= 2
            &&& text[colon] == ':'
            &&& f != 1 ==> colon == 2
            &&& f == 1 ==> (colon == 2 <==> hours >= 10)
            &&& 0 <= hours < 24
            &&& 0 <= minutes < 60
            &&& 60 * hours + minutes == local % 86_400 / 60
        }),
{
    let at = unix + swiss_offset(unix);
    let hour = (at % 86_400 / 3600) as nat;
    let minute = (at % 3600 / 60) as nat;
    reveal_strlit(":");
    lemma_pad2_value(hour);
    lemma_pad2_value(minute);
    lemma_dec_value(hour);
    reveal_with_fuel(dec, 3);
    let text = clock_text(unix, f);
    let colon = text.len() - 3;
    let hours = if f == 1 {
        dec(hour)
    } else {
        pad2(hour)
    };
    assert(text.take(colon) =~= hours);
    assert(text.skip(colon + 1) =~= pad2(minute));
    crate::localtime::lemma_hours_and_minutes(unix);
}

/// Two instants that show the same time are the same minute of a local day.
pub proof fn lemma_clocks_differ(one: int, two: int, f: u8)
    requires
        clock_text(one, f) == clock_text(two, f),
    ensures
        (one + swiss_offset(one)) % 86_400 / 60 == (two + swiss_offset(two)) % 86_400 / 60,
{
    lemma_clock_reads_back(one, f);
    lemma_clock_reads_back(two, f);
}

/// The date can be read back: two digits for the day, two for the month, each with a dot behind it,
/// and for format 1 the year, as long as that is at most ten characters.
pub proof fn lemma_date_reads_back(unix: int, f: u8, y: int, m: int, d: int)
    requires
        crate::localtime::valid_date(y, m, d),
        crate::localtime::day_number(y, m, d) == (unix + swiss_offset(unix)) / 86_400,
    ensures
        ({
            let text = date_text(unix, f);
            &&& text.len() >= 6
            &&& crate::text::value(text.subrange(0, 2)) == d
            &&& text[2] == '.'
            &&& crate::text::value(text.subrange(3, 5)) == m
            &&& text[5] == '.'
            &&& f != 1 ==> text.len() == 6
            &&& f == 1 && 0 <= y < 10_000_000_000 ==> crate::text::value(text.skip(6)) == y
                && text.len() >= 7
        }),
{
    lemma_date_of(y, m, d);
    reveal_strlit(".");
    reveal_strlit("-");
    lemma_ascii_len("."@);
    lemma_ascii_len("-"@);
    lemma_pad2_value(d as nat);
    lemma_pad2_value(m as nat);
    lemma_pad2(d as nat);
    lemma_pad2(m as nat);
    let day_month = pad2(d as nat) + "."@ + pad2(m as nat) + "."@;
    lemma_utf8_len_concat(pad2(d as nat), "."@);
    lemma_utf8_len_concat(pad2(d as nat) + "."@, pad2(m as nat));
    lemma_utf8_len_concat(pad2(d as nat) + "."@ + pad2(m as nat), "."@);
    assert(utf8_len(day_month) == 6);
    let text = date_text(unix, f);
    if f == 1 {
        reveal_with_fuel(cat_all, 3);
        if y < 0 {
            let pieces = seq!["-"@, dec((-y) as nat)];
            assert(pieces.drop_first() =~= seq![dec((-y) as nat)]);
            assert(pieces.drop_first().drop_first() =~= seq![]);
            lemma_utf8_len_concat(day_month, "-"@);
        } else {
            let pieces = seq![dec(y as nat)];
            assert(pieces.drop_first() =~= seq![]);
            if y < 10_000_000_000 {
                reveal_with_fuel(crate::text::pow10, 11);
                lemma_dec(y as nat, 10);
                lemma_dec_value(y as nat);
                assert(text == day_month + dec(y as nat));
                assert(text.skip(6) =~= dec(y as nat));
            }
        }
    }
    assert(text.subrange(0, 2) =~= pad2(d as nat)) by {
        assert(text.subrange(0, 6) =~= day_month);
        assert(text.subrange(0, 6).subrange(0, 2) =~= text.subrange(0, 2));
    }
    assert(text.subrange(3, 5) =~= pad2(m as nat)) by {
        assert(text.subrange(0, 6) =~= day_month);
        assert(text.subrange(0, 6).subrange(3, 5) =~= text.subrange(3, 5));
    }
    assert(text[2] == day_month[2] && text[5] == day_month[5]) by {
        assert(text.subrange(0, 6) =~= day_month);
        assert(text.subrange(0, 6)[2] == text[2] && text.subrange(0, 6)[5] == text[5]);
    }
}

/// Format the local time for a clock element.
pub fn format_clock(unix: i64, f: u8) -> (r: String)
    requires
        -crate::localtime::UNIX_LIMIT <= unix <= crate::localtime::UNIX_LIMIT,
    ensures
        r@ == clock_text(unix as int, f),
        r@.len() <= 5,
{
    let (y, mo, d, hh, mm): (i64, u32, u32, u32, u32) = local_parts(unix);
    proof {
        reveal_strlit(":");
        lemma_ascii_len(":"@);
        lemma_ascii_len(Seq::<char>::empty());
        lemma_pad2(hh as nat);
        lemma_pad2(mm as nat);
        reveal_with_fuel(crate::text::pow10, 3);
        lemma_dec(hh as nat, 2);
    }
    let hours = if f == 1 {
        decimal(hh as u64)
    } else {
        padded(hh)
    };
    let minutes = padded(mm);
    let mut s = String::new();
    let ghost t0 = s@;
    let _ = put::<16>(&mut s, hours.as_str());
    let ghost t1 = s@;
    proof {
        lemma_utf8_len_concat(t0, hours@);
        lemma_utf8_len_concat(t1, ":"@);
    }
    let _ = put::<16>(&mut s, ":");
    let _ = put::<16>(&mut s, minutes.as_str());
    assert(s@ =~= clock_text(unix as int, f));
    s
}

/// Format the local date for a date element.
pub fn format_date(unix: i64, f: u8) -> (r: String)
    requires
        -crate::localtime::UNIX_LIMIT <= unix <= crate::localtime::UNIX_LIMIT,
    ensures
        r@ == date_text(unix as int, f),
        r@.len() <= 16,
{
    let (y, mo, d, hh, mm): (i64, u32, u32, u32, u32) = local_parts(unix);
    proof {
        lemma_date_of(y as int, mo as int, d as int);
        reveal_strlit(".");
        reveal_strlit("-");
        lemma_ascii_len("."@);
        lemma_ascii_len("-"@);
        lemma_ascii_len(Seq::<char>::empty());
        lemma_pad2(d as nat);
        lemma_pad2(mo as nat);
    }
    let day = padded(d);
    let month = padded(mo);
    let mut s = String::new();
    let ghost t0 = s@;
    let _ = put::<16>(&mut s, day.as_str());
    let ghost t1 = s@;
    proof {
        lemma_utf8_len_concat(t0, day@);
        lemma_utf8_len_concat(t1, "."@);
    }
    let _ = put::<16>(&mut s, ".");
    let ghost t2 = s@;
    proof {
        lemma_utf8_len_concat(t2, month@);
    }
    let _ = put::<16>(&mut s, month.as_str());
    let ghost t3 = s@;
    proof {
        lemma_utf8_len_concat(t3, "."@);
    }
    let _ = put::<16>(&mut s, ".");
    let ghost day_month = pad2(d as nat) + "."@ + pad2(mo as nat) + "."@;
    assert(s@ =~= day_month);
    if f == 1 {
        proof {
            reveal_with_fuel(cat_all, 3);
        }
        if y < 0 {
            let digits = decimal((-(y as i128)) as u64);
            let ghost pieces = seq!["-"@, dec((-y) as nat)];
            proof {
                assert(pieces.drop_first() =~= seq![dec((-y) as nat)]);
                assert(pieces.drop_first().drop_first() =~= seq![]);
                lemma_utf8_len_concat(day_month, "-"@);
            }
            let _ = put::<16>(&mut s, "-");
            let _ = put::<16>(&mut s, digits.as_str());
        } else {
            let digits = decimal(y as u64);
            let ghost pieces = seq![dec(y as nat)];
            proof {
                assert(pieces.drop_first() =~= seq![]);
            }
            let _ = put::<16>(&mut s, digits.as_str());
        }
    }
    proof {
        lemma_utf8_len_bounds(s@);
    }
    s
}

/// The layer of a divider: a bar of length `w`, or to the panel's edge where `w` is 0.
pub open spec fn divider_layer(el: Element) -> Layer {
    block(
        el.x as int,
        el.y as int,
        if el.w > 0 {
            el.w as int
        } else {
            64 - el.x
        },
        between(el.th, 1, 2) as int,
        color_of(el),
    )
}

/// Divider element: a horizontal bar at `y`, length `w` (or to the panel edge when `w=0`),
/// thickness `th` (1..=2).
pub fn draw_divider(fb: &mut Panel, el: &Element)
    requires
        old(fb).wf(),
    ensures
        final(fb).painted(*old(fb), divider_layer(*el)),
{
    let len: i32 = if el.w > 0 {
        el.w as i32
    } else {
        COLS as i32 - el.x as i32
    };
    let th: i32 = clamp(el.th, 1, 2) as i32;
    fill_rect(fb, el.x as i32, el.y as i32, len, th, elem_color(el));
}

/// The layer of an icon.
pub open spec fn icon_layer(el: Element) -> Layer {
    let k = between(el.k, 1, 3) as int;
    if el.g == 1 {
        bitmap_layer(Z_GLYPH, el.x as int, el.y as int, k, color_of(el), None)
    } else if el.g == 2 {
        bitmap_layer(ARROW_GLYPH, el.x as int, el.y as int, k, color_of(el), None)
    } else {
        train_layer(el.x as int, el.y as int, k, color_of(el))
    }
}

/// Icon element: glyph `g` (0 = tram-front, 1 = Z-blind, 2 = arrow), scaled by `k`.
pub fn draw_icon(fb: &mut Panel, el: &Element)
    requires
        old(fb).wf(),
    ensures
        final(fb).painted(*old(fb), icon_layer(*el)),
{
    let k: i32 = clamp(el.k, 1, 3) as i32;
    let (x, y): (i32, i32) = (el.x as i32, el.y as i32);
    let color = elem_color(el);
    match el.g {
        1 => blit_bitmap(fb, &Z_GLYPH, x, y, k, color),
        2 => blit_bitmap(fb, &ARROW_GLYPH, x, y, k, color),
        _ => draw_train_front_scaled(fb, x, y, k, color),
    }
}

// Weather condition glyphs (8×7, row-major, two-tone: 0 = unlit, 1 = primary, 2 = accent), one per
// bucket of WMO weather codes. The accent cells mark the detail part of a condition (the sun
// behind the partly-cloudy cloud, rain drops, snow flakes, the thunder bolt); in the
// single-colour icon mode both tones draw in the element colour, in the colourful mode they take
// a fixed pair of colours.
pub const SUN_GLYPH: [[u8; 8]; 7] = [
    [0, 0, 0, 1, 0, 0, 0, 0],
    [0, 1, 0, 1, 0, 1, 0, 0],
    [0, 0, 1, 1, 1, 0, 0, 0],
    [1, 1, 1, 1, 1, 1, 1, 0],
    [0, 0, 1, 1, 1, 0, 0, 0],
    [0, 1, 0, 1, 0, 1, 0, 0],
    [0, 0, 0, 1, 0, 0, 0, 0],
];

pub const PARTLY_CLOUDY_GLYPH: [[u8; 8]; 7] = [
    [0, 0, 0, 0, 0, 2, 2, 0],
    [0, 0, 0, 0, 0, 2, 2, 2],
    [0, 0, 1, 1, 1, 0, 0, 0],
    [0, 1, 1, 1, 1, 1, 1, 0],
    [1, 1, 1, 1, 1, 1, 1, 1],
    [1, 1, 1, 1, 1, 1, 1, 1],
    [0, 0, 0, 0, 0, 0, 0, 0],
];

pub const CLOUD_GLYPH: [[u8; 8]; 7] = [
    [0, 0, 0, 0, 0, 0, 0, 0],
    [0, 0, 1, 1, 1, 0, 0, 0],
    [0, 1, 1, 1, 1, 1, 1, 0],
    [1, 1, 1, 1, 1, 1, 1, 1],
    [1, 1, 1, 1, 1, 1, 1, 1],
    [0, 0, 0, 0, 0, 0, 0, 0],
    [0, 0, 0, 0, 0, 0, 0, 0],
];

pub const FOG_GLYPH: [[u8; 8]; 7] = [
    [0, 0, 0, 0, 0, 0, 0, 0],
    [1, 1, 1, 1, 1, 1, 1, 0],
    [0, 0, 0, 0, 0, 0, 0, 0],
    [0, 1, 1, 1, 1, 1, 1, 1],
    [0, 0, 0, 0, 0, 0, 0, 0],
    [1, 1, 1, 1, 1, 1, 0, 0],
    [0, 0, 0, 0, 0, 0, 0, 0],
];

pub const RAIN_GLYPH: [[u8; 8]; 7] = [
    [0, 0, 1, 1, 1, 0, 0, 0],
    [0, 1, 1, 1, 1, 1, 1, 0],
    [1, 1, 1, 1, 1, 1, 1, 1],
    [1, 1, 1, 1, 1, 1, 1, 1],
    [0, 0, 0, 0, 0, 0, 0, 0],
    [0, 2, 0, 0, 2, 0, 0, 2],
    [2, 0, 0, 2, 0, 0, 2, 0],
];

pub const SNOW_GLYPH: [[u8; 8]; 7] = [
    [0, 0, 1, 1, 1, 0, 0, 0],
    [0, 1, 1, 1, 1, 1, 1, 0],
    [1, 1, 1, 1, 1, 1, 1, 1],
    [1, 1, 1, 1, 1, 1, 1, 1],
    [0, 0, 0, 0, 0, 0, 0, 0],
    [2, 0, 0, 2, 0, 0, 2, 0],
    [0, 0, 2, 0, 0, 2, 0, 0],
];

pub const THUNDER_GLYPH: [[u8; 8]; 7] = [
    [0, 0, 1, 1, 1, 0, 0, 0],
    [0, 1, 1, 1, 1, 1, 1, 0],
    [1, 1, 1, 1, 1, 1, 1, 1],
    [1, 1, 1, 1, 1, 1, 1, 1],
    [0, 0, 0, 2, 2, 0, 0, 0],
    [0, 0, 2, 2, 0, 0, 0, 0],
    [0, 2, 2, 0, 0, 0, 0, 0],
];

/// Horizontal advance from a weather icon to the temperature next to it, in unscaled LEDs (the
/// 8-column glyph plus a 1-LED gap).
pub const WEATHER_ICON_ADVANCE: u8 = 9;

// Fixed palette for the colourful icon mode. Whites/blues wash toward white on the panel, which is
// fine here: clouds and snow should read white; the sun and the thunder bolt stay red-weighted
// enough to hold their yellow.
pub const WEATHER_SUN_YELLOW: u32 = 0xFFD400;

pub const WEATHER_CLOUD_WHITE: u32 = 0xE8E8E8;

pub const WEATHER_CLOUD_GRAY: u32 = 0x8A8A8A;

pub const WEATHER_FOG_GRAY: u32 = 0xB4B4B4;

pub const WEATHER_RAIN_BLUE: u32 = 0x4A90E2;

/// The conditions a WMO weather code can stand for.
#[derive(Clone, Copy, Debug, PartialEq, Eq, Structural)]
pub enum Condition {
    Clear,
    PartlyCloudy,
    Overcast,
    Fog,
    Rain,
    Snow,
    Thunder,
}

/// The condition of a WMO weather interpretation code: clear (0–1), partly cloudy (2), overcast
/// (3), fog (45/48), rain incl. drizzle and showers (51–67, 80–82), snow (71–77, 85–86),
/// thunderstorm (95–99). Unknown codes read as overcast.
pub open spec fn condition_of(code: int) -> Condition {
    if code == 0 || code == 1 {
        Condition::Clear
    } else if code == 2 {
        Condition::PartlyCloudy
    } else if code == 45 || code == 48 {
        Condition::Fog
    } else if 51 <= code <= 67 || 80 <= code <= 82 {
        Condition::Rain
    } else if 71 <= code <= 77 || code == 85 || code == 86 {
        Condition::Snow
    } else if 95 <= code <= 99 {
        Condition::Thunder
    } else {
        Condition::Overcast
    }
}

/// The condition of a WMO weather interpretation code.
pub fn condition(code: u8) -> (r: Condition)
    ensures
        r == condition_of(code as int),
{
    if code <= 1 {
        Condition::Clear
    } else if code == 2 {
        Condition::PartlyCloudy
    } else if code == 45 || code == 48 {
        Condition::Fog
    } else if (code >= 51 && code <= 67) || (code >= 80 && code <= 82) {
        Condition::Rain
    } else if (code >= 71 && code <= 77) || code == 85 || code == 86 {
        Condition::Snow
    } else if code >= 95 && code <= 99 {
        Condition::Thunder
    } else {
        Condition::Overcast
    }
}

/// The two tones of a condition's icon in the colourful mode: yellow sun; white cloud (yellow sun
/// accent when partly cloudy); gray cloud with blue rain, white snow, or a yellow bolt; gray fog.
pub open spec fn palette_of(c: Condition) -> (u32, u32) {
    match c {
        Condition::Clear => (WEATHER_SUN_YELLOW, WEATHER_SUN_YELLOW),
        Condition::PartlyCloudy => (WEATHER_CLOUD_WHITE, WEATHER_SUN_YELLOW),
        Condition::Fog => (WEATHER_FOG_GRAY, WEATHER_FOG_GRAY),
        Condition::Rain => (WEATHER_CLOUD_GRAY, WEATHER_RAIN_BLUE),
        Condition::Snow => (WEATHER_CLOUD_GRAY, WEATHER_CLOUD_WHITE),
        Condition::Thunder => (WEATHER_CLOUD_GRAY, WEATHER_SUN_YELLOW),
        Condition::Overcast => (WEATHER_CLOUD_WHITE, WEATHER_CLOUD_WHITE),
    }
}

/// The colourful mode's `(primary, accent)` pair for a WMO weather code.
pub fn colorful_weather_palette(code: u8) -> (r: (Color, Color))
    ensures
        r.0 == rgb(palette_of(condition_of(code as int)).0),
        r.1 == rgb(palette_of(condition_of(code as int)).1),
{
    match condition(code) {
        Condition::Clear => (rgb(WEATHER_SUN_YELLOW), rgb(WEATHER_SUN_YELLOW)),
        Condition::PartlyCloudy => (rgb(WEATHER_CLOUD_WHITE), rgb(WEATHER_SUN_YELLOW)),
        Condition::Fog => (rgb(WEATHER_FOG_GRAY), rgb(WEATHER_FOG_GRAY)),
        Condition::Rain => (rgb(WEATHER_CLOUD_GRAY), rgb(WEATHER_RAIN_BLUE)),
        Condition::Snow => (rgb(WEATHER_CLOUD_GRAY), rgb(WEATHER_CLOUD_WHITE)),
        Condition::Thunder => (rgb(WEATHER_CLOUD_GRAY), rgb(WEATHER_SUN_YELLOW)),
        Condition::Overcast => (rgb(WEATHER_CLOUD_WHITE), rgb(WEATHER_CLOUD_WHITE)),
    }
}

/// A condition's icon.
pub open spec fn glyph_of(c: Condition) -> [[u8; 8]; 7] {
    match c {
        Condition::Clear => SUN_GLYPH,
        Condition::PartlyCloudy => PARTLY_CLOUDY_GLYPH,
        Condition::Overcast => CLOUD_GLYPH,
        Condition::Fog => FOG_GLYPH,
        Condition::Rain => RAIN_GLYPH,
        Condition::Snow => SNOW_GLYPH,
        Condition::Thunder => THUNDER_GLYPH,
    }
}

/// The condition glyph for a WMO weather interpretation code.
pub fn weather_condition_glyph(code: u8) -> (r: [[u8; 8]; 7])
    ensures
        r == glyph_of(condition_of(code as int)),
{
    match condition(code) {
        Condition::Clear => SUN_GLYPH,
        Condition::PartlyCloudy => PARTLY_CLOUDY_GLYPH,
        Condition::Overcast => CLOUD_GLYPH,
        Condition::Fog => FOG_GLYPH,
        Condition::Rain => RAIN_GLYPH,
        Condition::Snow => SNOW_GLYPH,
        Condition::Thunder => THUNDER_GLYPH,
    }
}

/// A temperature as the panel writes it.
pub open spec fn temperature_text(w: Weather) -> Seq<char> {
    signed_dec(whole_degrees(w.deci_celsius as int)) + "°"@
}

/// The temperature can be read back: a `-` exactly below -0.9 degrees, the number of whole degrees,
/// and the degree sign. The tenths are cut off towards zero.
pub proof fn lemma_temperature_reads_back(w: Weather)
    ensures
        ({
            let text = temperature_text(w);
            let digits = text.drop_last();
            let tenths = w.deci_celsius as int;
            &&& text.last() == '°'
            &&& digits.len() >= 1
            &&& tenths <= -10 <==> digits[0] == '-'
            &&& tenths >= 0 ==> 10 * crate::text::value(digits) <= tenths < 10 * crate::text::value(
                digits,
            ) + 10
            &&& tenths <= -10 ==> 10 * crate::text::value(digits.drop_first()) <= -tenths < 10
                * crate::text::value(digits.drop_first()) + 10
            &&& -10 < tenths < 0 ==> crate::text::value(digits) == 0
        }),
{
    reveal_strlit("°");
    let n = whole_degrees(w.deci_celsius as int);
    lemma_signed_dec_value(n);
    assert(temperature_text(w).drop_last() =~= signed_dec(n));
}

/// The temperature in whole degrees, with a degree sign.
pub fn format_temperature(w: &Weather) -> (r: String)
    ensures
        r@ == temperature_text(*w),
        r@.len() <= 6,
{
    let whole: i64 = w.whole_celsius() as i64;
    let digits = signed_decimal(whole);
    proof {
        reveal_strlit("°");
        let n = whole as int;
        let magnitude = if n < 0 {
            (-n) as nat
        } else {
            n as nat
        };
        reveal_with_fuel(crate::text::pow10, 5);
        lemma_dec(magnitude, 4);
        assert(vstd::utf8::is_ascii_chars(digits@)) by {
            if n < 0 {
                assert(digits@ == seq!['-'] + dec(magnitude));
            }
        }
        lemma_ascii_len(digits@);
        lemma_ascii_len(Seq::<char>::empty());
        let sign = "°"@;
        assert(sign =~= seq!['°']);
        assert(sign.drop_first() =~= Seq::<char>::empty());
        reveal_with_fuel(vstd::utf8::encode_utf8, 2);
        assert(utf8_len(sign) <= 4) by {
            lemma_utf8_len_bounds(sign);
        }
        assert('°' as u32 == 0xB0);
        assert(utf8_len(sign) == 2);
        lemma_utf8_len_concat(Seq::<char>::empty(), digits@);
    }
    let mut s = String::new();
    let _ = put::<8>(&mut s, digits.as_str()) && put::<8>(&mut s, "°");
    assert(s@ =~= temperature_text(*w));
    s
}

/// The icon of a weather element.
pub open spec fn weather_icon_layer(el: Element, w: Weather) -> Layer {
    let c = condition_of(w.code as int);
    let (primary, accent) = if el.g == 1 {
        (rgb(palette_of(c).0), rgb(palette_of(c).1))
    } else {
        (color_of(el), color_of(el))
    };
    bitmap_layer(
        glyph_of(c),
        el.x as int,
        el.y as int,
        between(el.k, 1, 3) as int,
        primary,
        Some(accent),
    )
}

/// The element whose text is a weather element's temperature: moved past the icon where there is
/// one, in a box of the text's own width.
pub open spec fn temperature_element(el: Element) -> Element {
    let x = el.x + 9 * between(el.k, 1, 3);
    Element {
        x: if el.f == 1 {
            el.x
        } else if x > 255 {
            255
        } else {
            x as u8
        },
        w: 0,
        a: 0,
        ..el
    }
}

/// The layer of a weather element: icon and temperature, temperature only for format 1, icon only
/// for format 2; nothing while there is no recent weather.
pub open spec fn weather_layer(el: Element, weather: Option<Weather>) -> Layer {
    match weather {
        None => clear(),
        Some(w) => over(
            if el.f != 2 {
                place_layer(temperature_element(el), temperature_text(w), false, 0)
            } else {
                clear()
            },
            if el.f != 1 {
                weather_icon_layer(el, w)
            } else {
                clear()
            },
        ),
    }
}

/// A weather element shows the temperature, the icon, or both, as its format says: the icon in the
/// element's corner, the temperature beside it, nine enlarged pixels on, or in its place where there
/// is no icon. Without recent weather it shows nothing, and it never scrolls.
pub proof fn lemma_weather_element(el: Element, w: Weather, x: int, y: int)
    requires
        el.x <= 64,
        1 <= el.k <= 3,
    ensures
        ({
            let shown = weather_layer(el, Some(w))(x, y);
            let icon = weather_icon_layer(el, w)(x, y);
            let beside = place_layer(
                Element { x: (el.x + 9 * el.k) as u8, w: 0, a: 0, ..el },
                temperature_text(w),
                false,
                0,
            )(x, y);
            let alone = place_layer(
                Element { w: 0, a: 0, ..el },
                temperature_text(w),
                false,
                0,
            )(x, y);
            &&& el.f == 0 && beside is Some ==> shown == beside
            &&& el.f == 0 && beside is None ==> shown == icon
            &&& el.f == 1 ==> shown == alone
            &&& el.f == 2 ==> shown == icon
            &&& weather_layer(el, None)(x, y) is None
        }),
{
    if el.f != 1 {
        assert(temperature_element(el) == (Element { x: (el.x + 9 * el.k) as u8, w: 0, a: 0, ..el }));
    } else {
        assert(temperature_element(el) == (Element { w: 0, a: 0, ..el }));
    }
}

/// The icon is the picture of the code's condition: where its cell is lit, in the element's own
/// colour, or in the condition's pair of colours where the element is colourful. Codes of one kind
/// of weather have the same picture.
pub proof fn lemma_weather_icon(el: Element, w: Weather, j: int, i: int)
    requires
        el.k == 1,
        0 <= j < 8,
        0 <= i < 7,
    ensures
        ({
            let c = condition_of(w.code as int);
            let cell = glyph_of(c)@[i]@[j];
            let shown = weather_icon_layer(el, w)(el.x + j, el.y + i);
            &&& cell == 0 ==> shown is None
            &&& cell == 1 && el.g != 1 ==> shown == Some(color_of(el))
            &&& cell == 2 && el.g != 1 ==> shown == Some(color_of(el))
            &&& cell == 1 && el.g == 1 ==> shown == Some(rgb(palette_of(c).0))
            &&& cell == 2 && el.g == 1 ==> shown == Some(rgb(palette_of(c).1))
            &&& w.code == 0 || w.code == 1 <==> c == Condition::Clear
            &&& w.code == 2 <==> c == Condition::PartlyCloudy
            &&& w.code == 45 || w.code == 48 <==> c == Condition::Fog
            &&& (w.code / 10 == 5 && w.code != 50) || (w.code / 10 == 6 && w.code <= 67) || (80
                <= w.code <= 82) <==> c == Condition::Rain
            &&& (71 <= w.code <= 77) || w.code == 85 || w.code == 86 <==> c == Condition::Snow
            &&& (w.code / 10 == 9 && w.code >= 95) <==> c == Condition::Thunder
        }),
{
    assert(j / 1 == j && i / 1 == i);
    assert((el.x + j - el.x) / 1 == j && (el.y + i - el.y) / 1 == i);
}

/// Weather element: the current conditions at the tracked stop, per its format `f` (0 = icon +
/// temperature, 1 = temperature only, 2 = icon only). The icon draws per its palette mode `g`: 0 =
/// the element colour, 1 = colourful; the temperature always uses the element colour. Draws
/// nothing until there is a recent sample, the same as an absent departure slot. Static text,
/// never a marquee.
pub fn draw_weather(fb: &mut Panel, el: &Element, sample: Option<Weather>)
    requires
        old(fb).wf(),
    ensures
        final(fb).painted(*old(fb), weather_layer(*el, sample)),
{
    let ghost f0 = *fb;
    let w: Weather = match sample {
        Some(w) => w,
        None => {
            proof {
                lemma_paint_nothing(*fb, clear());
            }
            return ;
        },
    };
    let k: u8 = clamp(el.k, 1, 3);
    let show_icon: bool = el.f != 1;
    let show_temp: bool = el.f != 2;
    if show_icon {
        let (primary, accent): (Color, Color) = if el.g == 1 {
            colorful_weather_palette(w.code)
        } else {
            let c = elem_color(el);
            (c, c)
        };
        let glyph = weather_condition_glyph(w.code);
        blit_tones(fb, &glyph, el.x as i32, el.y as i32, k as i32, primary, Some(accent));
    } else {
        proof {
            lemma_paint_nothing(*fb, clear());
        }
    }
    let ghost f1 = *fb;
    if show_temp {
        let s = format_temperature(&w);
        // A shifted copy of the element: natural width, pinned left (alignment has nothing to
        // align against without a box).
        let mut text_el = el.clone();
        if show_icon {
            let shift: u8 = WEATHER_ICON_ADVANCE * k;
            text_el.x = if el.x as u16 + shift as u16 > 255 {
                255
            } else {
                el.x + shift
            };
        }
        text_el.w = 0;
        text_el.a = 0;
        assert(text_el == temperature_element(*el));
        let _ = place_text(fb, s.as_str(), &text_el, false, 0);
    } else {
        proof {
            lemma_paint_nothing(*fb, clear());
        }
    }
    proof {
        let icon = if el.f != 1 {
            weather_icon_layer(*el, w)
        } else {
            clear()
        };
        let temp = if el.f != 2 {
            place_layer(temperature_element(*el), temperature_text(w), false, 0)
        } else {
            clear()
        };
        lemma_paint_over(f0, f1, *fb, icon, temp);
    }
}

/// The layer of one element.
pub open spec fn element_layer(
    sc: Scene,
    el: Element,
    station: Seq<char>,
    deps: Seq<Departure>,
    frame: int,
) -> Layer {
    if el.t == 0 {
        place_layer(el, el.v@, true, frame)
    } else if el.t == 1 {
        dep_field_layer(sc.settings, el, deps, frame)
    } else if el.t == 2 {
        place_layer(el, shown_name(sc.settings.strip_city, station), true, frame)
    } else if el.t == 3 {
        match sc.unix {
            Some(unix) => place_layer(el, clock_text(unix, el.f), false, 0),
            None => clear(),
        }
    } else if el.t == 4 {
        match sc.unix {
            Some(unix) => place_layer(el, date_text(unix, el.f), false, 0),
            None => clear(),
        }
    } else if el.t == 5 {
        divider_layer(el)
    } else if el.t == 6 {
        icon_layer(el)
    } else if el.t == 7 {
        weather_layer(el, sc.weather)
    } else {
        clear()
    }
}

/// Whether an element scrolls.
pub open spec fn element_scrolls(
    sc: Scene,
    el: Element,
    station: Seq<char>,
    deps: Seq<Departure>,
) -> bool {
    if el.t == 0 {
        place_scrolls(el, el.v@, true)
    } else if el.t == 1 {
        dep_field_scrolls(sc.settings, el, deps)
    } else if el.t == 2 {
        place_scrolls(el, shown_name(sc.settings.strip_city, station), true)
    } else {
        false
    }
}

/// Draw one element. Returns `true` while it is mid-marquee. An unknown type is ignored.
fn draw_element(
    fb: &mut Panel,
    shared: &Shared,
    el: &Element,
    station: &str,
    deps: &Vec<Departure>,
    now: u64,
    stale: u64,
    frame: u32,
) -> (r: bool)
    requires
        old(fb).wf(),
        shared.wf(),
        datable(shared@, now as int),
        el.wf(),
        utf8_len(station@) <= 64,
        departures_wf(deps@),
    ensures
        r == element_scrolls(scene_of(shared@, now as int, stale as int), *el, station@, deps@),
        final(fb).painted(
            *old(fb),
            element_layer(
                scene_of(shared@, now as int, stale as int),
                *el,
                station@,
                deps@,
                frame as int,
            ),
        ),
{
    proof {
        lemma_utf8_len_bounds(el.v@);
        lemma_utf8_len_bounds(station@);
        lemma_paint_nothing(*fb, clear());
    }
    match el.t {
        0 => place_text(fb, el.v.as_str(), el, true, frame),  // static Text
        1 => draw_dep_field(fb, shared, el, deps, frame),  // live Departure field
        2 => {
            let name = city(strip_city_enabled(shared), station);
            place_text(fb, name, el, true, frame)  // Station name

        },
        // Clock and Date are static text (no marquee: both refresh on the periodic redraw of a
        // static screen). Nothing is drawn before the clock has been set.
        3 => {
            match now_unix(shared, now) {
                Some(unix) => {
                    let s = format_clock(unix, el.f);
                    place_text(fb, s.as_str(), el, false, 0)
                },
                None => false,
            }
        },
        4 => {
            match now_unix(shared, now) {
                Some(unix) => {
                    let s = format_date(unix, el.f);
                    place_text(fb, s.as_str(), el, false, 0)
                },
                None => false,
            }
        },
        5 => {
            draw_divider(fb, el);
            false
        },
        6 => {
            draw_icon(fb, el);
            false
        },
        7 => {
            draw_weather(fb, el, weather(shared, now, stale));
            false
        },
        _ => false,
    }
}

/// The first `n` elements of a layout, later on top.
pub open spec fn elements_layer(
    sc: Scene,
    els: Seq<Element>,
    n: int,
    station: Seq<char>,
    deps: Seq<Departure>,
    frame: int,
) -> Layer
    decreases n,
{
    if n <= 0 {
        clear()
    } else {
        over(
            element_layer(sc, els[n - 1], station, deps, frame),
            elements_layer(sc, els, n - 1, station, deps, frame),
        )
    }
}

/// Whether any element of a layout scrolls.
pub open spec fn layout_scrolls(
    sc: Scene,
    els: Seq<Element>,
    station: Seq<char>,
    deps: Seq<Departure>,
) -> bool {
    exists|i: int|
        0 <= i < els.len() && element_scrolls(sc, #[trigger] els[i], station, deps)
}

/// Every element of a layout is drawn, later ones on top: what one paints is seen wherever no later
/// one paints, and where none paints nothing is seen.
pub proof fn lemma_every_element_is_drawn(
    sc: Scene,
    els: Seq<Element>,
    n: int,
    station: Seq<char>,
    deps: Seq<Departure>,
    frame: int,
    i: int,
    x: int,
    y: int,
)
    requires
        0 <= n <= els.len(),
        -1 <= i < n,
        forall|j: int|
            i < j < n ==> element_layer(sc, #[trigger] els[j], station, deps, frame)(x, y) is None,
    ensures
        i >= 0 && element_layer(sc, els[i], station, deps, frame)(x, y) is Some ==> elements_layer(
            sc,
            els,
            n,
            station,
            deps,
            frame,
        )(x, y) == element_layer(sc, els[i], station, deps, frame)(x, y),
        i == -1 ==> elements_layer(sc, els, n, station, deps, frame)(x, y) is None,
    decreases n,
{
    if n > 0 && i < n - 1 {
        lemma_every_element_is_drawn(sc, els, n - 1, station, deps, frame, i, x, y);
        assert(element_layer(sc, els[n - 1], station, deps, frame)(x, y) is None);
    }
}

/// What an element shows by its type: its own text, a field of a departure, the stop's name, the
/// local time, the local date, a bar, an icon, or the weather; one of an unknown type shows nothing,
/// and the time and the date show nothing before the clock is set.
pub proof fn lemma_element_types(
    sc: Scene,
    el: Element,
    station: Seq<char>,
    deps: Seq<Departure>,
    frame: int,
    x: int,
    y: int,
)
    ensures
        ({
            let shown = element_layer(sc, el, station, deps, frame)(x, y);
            let length = if el.w > 0 {
                el.w as int
            } else {
                64 - el.x
            };
            let thick = if el.th <= 1 {
                1int
            } else {
                2int
            };
            &&& el.t == 0 ==> shown == place_layer(el, el.v@, true, frame)(x, y)
            &&& el.t == 1 ==> shown == dep_field_layer(sc.settings, el, deps, frame)(x, y)
            &&& el.t == 2 ==> shown == place_layer(
                el,
                shown_name(sc.settings.strip_city, station),
                true,
                frame,
            )(x, y)
            &&& (el.t == 3 || el.t == 4) && sc.unix is None ==> shown is None
            &&& el.t == 3 && sc.unix is Some ==> shown == place_layer(
                el,
                clock_text(sc.unix->0, el.f),
                false,
                0,
            )(x, y)
            &&& el.t == 4 && sc.unix is Some ==> shown == place_layer(
                el,
                date_text(sc.unix->0, el.f),
                false,
                0,
            )(x, y)
            &&& el.t == 5 ==> shown == (if el.x <= x < el.x + length && el.y <= y < el.y + thick {
                Some(color_of(el))
            } else {
                None
            })
            &&& el.t == 6 && el.g == 1 && el.k == 1 ==> shown == bitmap_layer(
                Z_GLYPH,
                el.x as int,
                el.y as int,
                1,
                color_of(el),
                None,
            )(x, y)
            &&& el.t == 6 && el.g == 2 && el.k == 1 ==> shown == bitmap_layer(
                ARROW_GLYPH,
                el.x as int,
                el.y as int,
                1,
                color_of(el),
                None,
            )(x, y)
            &&& el.t == 6 && el.g == 0 && el.k == 1 ==> shown == train_layer(
                el.x as int,
                el.y as int,
                1,
                color_of(el),
            )(x, y)
            &&& el.t == 7 ==> shown == weather_layer(el, sc.weather)(x, y)
            &&& el.t > 7 ==> shown is None
        }),
{
}

/// A layout in which nothing scrolls looks the same at every frame.
pub proof fn lemma_layout_stands_still(
    sc: Scene,
    els: Seq<Element>,
    n: int,
    station: Seq<char>,
    deps: Seq<Departure>,
    first: int,
    second: int,
    x: int,
    y: int,
)
    requires
        0 <= n <= els.len(),
        !layout_scrolls(sc, els, station, deps),
    ensures
        elements_layer(sc, els, n, station, deps, first)(x, y) == elements_layer(
            sc,
            els,
            n,
            station,
            deps,
            second,
        )(x, y),
    decreases n,
{
    if n > 0 {
        let el = els[n - 1];
        lemma_layout_stands_still(sc, els, n - 1, station, deps, first, second, x, y);
        assert(!element_scrolls(sc, el, station, deps));
        if let Some(dep) = slot_of(el, deps) {
            lemma_text_stays_in_its_box(el, dep.line@, false, first, second, x, y);
            lemma_text_stays_in_its_box(el, minutes_text(dep.minutes), false, first, second, x, y);
        }
    }
}

/// Render the user's custom layout: iterate elements in draw order (later = on top) and dispatch
/// on the numeric type tag `t`. Returns `true` while any element is mid-marquee so the render loop
/// keeps ticking frames. An unknown `t` is ignored (forward-compat).
pub fn draw_custom_layout(
    fb: &mut Panel,
    shared: &Shared,
    layout: &Layout,
    station: &str,
    deps: &Vec<Departure>,
    now: u64,
    stale: u64,
    frame: u32,
) -> (r: bool)
    requires
        old(fb).wf(),
        shared.wf(),
        datable(shared@, now as int),
        layout.wf(),
        utf8_len(station@) <= 64,
        departures_wf(deps@),
    ensures
        r == layout_scrolls(
            scene_of(shared@, now as int, stale as int),
            layout.e@,
            station@,
            deps@,
        ),
        final(fb).painted(
            *old(fb),
            elements_layer(
                scene_of(shared@, now as int, stale as int),
                layout.e@,
                layout.e@.len() as int,
                station@,
                deps@,
                frame as int,
            ),
        ),
{
    let ghost f0 = *fb;
    let ghost sc = scene_of(shared@, now as int, stale as int);
    let mut animating: bool = false;
    let mut i: usize = 0;
    proof {
        lemma_paint_nothing(
            f0,
            elements_layer(sc, layout.e@, 0, station@, deps@, frame as int),
        );
    }
    while i < layout.e.len()
        invariant
            f0.wf(),
            shared.wf(),
            datable(shared@, now as int),
            layout.wf(),
            utf8_len(station@) <= 64,
            departures_wf(deps@),
            sc == scene_of(shared@, now as int, stale as int),
            0 <= i <= layout.e@.len(),
            fb.painted(
                f0,
                elements_layer(sc, layout.e@, i as int, station@, deps@, frame as int),
            ),
            animating == exists|j: int|
                0 <= j < i && element_scrolls(sc, #[trigger] layout.e@[j], station@, deps@),
        decreases layout.e@.len() - i,
    {
        let ghost f1 = *fb;
        let ghost was = animating;
        let el = &layout.e[i];
        let moving = draw_element(fb, shared, el, station, deps, now, stale, frame);
        proof {
            lemma_paint_over(
                f0,
                f1,
                *fb,
                elements_layer(sc, layout.e@, i as int, station@, deps@, frame as int),
                element_layer(sc, *el, station@, deps@, frame as int),
            );
        }
        animating = animating || moving;
        i = i + 1;
        proof {
            assert(moving == element_scrolls(sc, layout.e@[i - 1], station@, deps@));
            if was {
                let j = choose|j: int|
                    0 <= j < i - 1 && element_scrolls(sc, #[trigger] layout.e@[j], station@, deps@);
                assert(0 <= j < i && element_scrolls(sc, layout.e@[j], station@, deps@));
            }
        }
    }
    animating
}

} // verus!
