//! Shared drawing primitives: text (flush, centred, marquee), badges, rules, and the small
//! pixel-art glyphs (tram front, Z-blind, arrow). Everything is written through the panel, which
//! applies the frame's brightness, so the whole palette dims uniformly. Used by both the built-in
//! screens and the custom layout renderer.

use embedded_graphics::framebuffer::Framebuffer;
use embedded_graphics::mono_font::iso_8859_1::{FONT_5X7, FONT_6X10};
use embedded_graphics::mono_font::MonoTextStyle;
use embedded_graphics::pixelcolor::raw::{LittleEndian, RawU8};
use embedded_graphics::pixelcolor::{Gray8, GrayColor};
use embedded_graphics::prelude::{Drawable, Point, Primitive};
use embedded_graphics::primitives::{Line, PrimitiveStyle};
use embedded_graphics::text::{Baseline, Text};
use vstd::prelude::*;
use vstd::string::StrSliceExecFns;

use crate::display::panel::{
    fill_span, lemma_paint_nothing, lemma_paint_over, lemma_paint_same, max, rgb, stamp, Color, Panel,
    COLS,
};
use crate::display::panel::{block, clear, clip, over, same, stencil, Layer};
use crate::text::{char_count, decimal, put};
use crate::text::dec;

verus! {

/// Coordinates that drawing computes with: whatever is added to them stays inside `i32`.
pub const COORD_LIMIT: i32 = 500_000_000;

/// The longest text, in characters, that drawing computes with.
pub const TEXT_LIMIT: usize = 50_000_000;

// The palette, as `0xRRGGBB` at full strength.
/// Departure-board amber: primary readable text.
pub const AMBER: u32 = 0xFFA800;

/// Deep copper: primary accent / structure. Kept dark and low-blue on purpose: on the panel any
/// colour with the blue/green channels riding high washes out to white.
pub const ACCENT: u32 = 0xAA4A10;

/// Muted copper: secondary text / labels.
pub const DIM: u32 = 0x744A1E;

/// Fully unlit: the LEDs stay dark (e.g. badge digit cut-outs).
pub const OFF: u32 = 0x000000;

/// The pause (about 5 s) before each round of a scrolling text, in frames.
pub const HOLD_FRAMES: u32 = 100;

/// Blank space (px) between a marquee's text and its wrapped copy.
pub const MARQUEE_GAP: i32 = 14;

/// The panel's two fonts.
#[derive(Clone, Copy, Debug, PartialEq, Eq, Structural)]
pub enum Font {
    /// 5×7.
    Small,
    /// 6×10.
    Medium,
}

/// Font and colour of a piece of text.
#[derive(Clone, Copy, Debug, PartialEq, Eq, Structural)]
pub struct Style {
    pub font: Font,
    pub color: Color,
}

/// The picture of the text `s`: a byte per point of the panel, row by row, not zero where the
/// font lights it. `medium` selects the 6×10 font instead of the 5×7 one, and the top-left corner
/// of the first character is at `(x, y)`.
pub uninterp spec fn text_raster(medium: bool, s: Seq<char>, x: int, y: int) -> Seq<u8>;

/// Draws `s` with `embedded_graphics::text::Text` on an empty picture of the panel's size, in
/// white on a transparent background, with the text's top at `y` (`Baseline::Top`), in
/// `FONT_5X7` or, if `medium`, in `FONT_6X10`, and hands out the picture's 64 × 64 bytes. The
/// picture depends on the arguments alone.
#[verifier::external_body]
pub(crate) fn rasterise(medium: bool, s: &str, x: i32, y: i32) -> (r: Vec<u8>)
    requires
        -2 * COORD_LIMIT <= x <= 2 * COORD_LIMIT,
        -2 * COORD_LIMIT <= y <= 2 * COORD_LIMIT,
        s@.len() <= TEXT_LIMIT,
    ensures
        r@ == text_raster(medium, s@, x as int, y as int),
        r@.len() == 4096,
{
    let mut fb: Framebuffer<Gray8, RawU8, LittleEndian, 64, 64, 4096> = Framebuffer::new();
    let font = [&FONT_5X7, &FONT_6X10][medium as usize];
    let style = MonoTextStyle::new(font, Gray8::WHITE);
    let _ = Text::with_baseline(s, Point::new(x, y), style, Baseline::Top).draw(&mut fb);
    fb.data().to_vec()
}

/// The `character_size` of `embedded_graphics`' `FONT_5X7` or, if `medium`, of its `FONT_6X10`:
/// width and height of a character cell.
#[verifier::external_body]
pub(crate) fn character_size(medium: bool) -> (r: (u32, u32))
    ensures
        r == (if medium {
            (6u32, 10u32)
        } else {
            (5u32, 7u32)
        }),
{
    let font = [&FONT_5X7, &FONT_6X10][medium as usize];
    (font.character_size.width, font.character_size.height)
}

/// Draws the `embedded_graphics::primitives::Line` from `(0, y)` to `(63, y)`, one pixel wide and
/// white, on an empty picture of the panel's size, and hands out the picture's 64 × 64 bytes:
/// row `y` is lit from end to end, and nothing else.
#[verifier::external_body]
fn line_picture(y: i32) -> (r: Vec<u8>)
    requires
        -COORD_LIMIT <= y <= COORD_LIMIT,
    ensures
        r@.len() == 4096,
        forall|px: int, py: int|
            0 <= px < 64 && 0 <= py < 64 ==> (#[trigger] r@[py * 64 + px] != 0 <==> py == y),
{
    let mut fb: Framebuffer<Gray8, RawU8, LittleEndian, 64, 64, 4096> = Framebuffer::new();
    let line = Line::new(Point::new(0, y), Point::new(63, y));
    let _ = line.into_styled(PrimitiveStyle::with_stroke(Gray8::WHITE, 1)).draw(&mut fb);
    fb.data().to_vec()
}

/// Whether `v` is a coordinate that drawing computes with.
pub open spec fn coord(v: int) -> bool {
    -COORD_LIMIT <= v <= COORD_LIMIT
}

/// The layer of the text `s` with its top-left corner at `(x, y)`.
pub open spec fn text_layer(st: Style, s: Seq<char>, x: int, y: int) -> Layer {
    stencil(text_raster(st.font == Font::Medium, s, x, y), st.color)
}

/// A text lights exactly the points that its font lights, each in the text's colour.
pub proof fn lemma_text_points(st: Style, s: Seq<char>, x: int, y: int, px: int, py: int)
    ensures
        0 <= px < 64 && 0 <= py < 64 && text_raster(st.font == Font::Medium, s, x, y)[py * 64 + px]
            != 0 ==> text_layer(st, s, x, y)(px, py) == Some(st.color),
        0 <= px < 64 && 0 <= py < 64 && text_raster(st.font == Font::Medium, s, x, y)[py * 64 + px]
            == 0 ==> text_layer(st, s, x, y)(px, py) is None,
        !(0 <= px < 64 && 0 <= py < 64) ==> text_layer(st, s, x, y)(px, py) is None,
{
}

/// A text style.
pub fn style(font: Font, color: Color) -> (r: Style)
    ensures
        r == (Style { font, color }),
{
    Style { font, color }
}

/// Draw `s` within the columns `x0..x1` of the rows `y0..y1`, its top-left corner at `(x, y)`.
fn left_clipped(
    fb: &mut Panel,
    s: &str,
    x: i32,
    y: i32,
    st: Style,
    x0: i32,
    y0: i32,
    x1: i32,
    y1: i32,
)
    requires
        old(fb).wf(),
        -2 * COORD_LIMIT <= x <= 2 * COORD_LIMIT,
        coord(y as int),
        s@.len() <= TEXT_LIMIT,
    ensures
        final(fb).painted(
            *old(fb),
            clip(
                text_layer(st, s@, x as int, y as int),
                x0 as int,
                y0 as int,
                x1 as int,
                y1 as int,
            ),
        ),
{
    let medium: bool = st.font == Font::Medium;
    let picture = rasterise(medium, s, x, y);
    stamp(fb, &picture, x0, y0, x1, y1, st.color);
}

/// Draw `s` with its top-left corner at `(x, y)`.
pub fn left(fb: &mut Panel, s: &str, x: i32, y: i32, st: Style)
    requires
        old(fb).wf(),
        -2 * COORD_LIMIT <= x <= 2 * COORD_LIMIT,
        coord(y as int),
        s@.len() <= TEXT_LIMIT,
    ensures
        final(fb).painted(*old(fb), text_layer(st, s@, x as int, y as int)),
{
    let ghost f0 = *fb;
    left_clipped(fb, s, x, y, st, 0, 0, 64, 64);
    proof {
        lemma_paint_same(
            f0,
            *fb,
            clip(text_layer(st, s@, x as int, y as int), 0, 0, 64, 64),
            text_layer(st, s@, x as int, y as int),
        );
    }
}

/// The column at which a text of `n` characters starts when it is centred on the panel. An odd
/// remainder goes to the right of a text narrower than the panel, and to the left of a wider one.
pub open spec fn centre_x(n: int, char_w: int) -> int {
    if n * char_w <= 64 {
        (64 - n * char_w) / 2
    } else {
        -((n * char_w - 64) / 2)
    }
}

/// Draw `s` horizontally centred at baseline-top `y`. `char_w` is the font's per-character
/// advance (e.g. 5 for the 5×7 font, 6 for the 6×10 one).
pub fn centered(fb: &mut Panel, s: &str, y: i32, st: Style, char_w: i32)
    requires
        old(fb).wf(),
        coord(y as int),
        0 <= char_w <= 8,
        s@.len() <= TEXT_LIMIT,
    ensures
        final(fb).painted(
            *old(fb),
            text_layer(st, s@, centre_x(s@.len() as int, char_w as int), y as int),
        ),
{
    let n: i32 = char_count(s) as i32;
    assert(0 <= n * char_w <= 8 * TEXT_LIMIT) by (nonlinear_arith)
        requires
            0 <= n <= TEXT_LIMIT,
            0 <= char_w <= 8,
    ;
    let x: i32 = (COLS as i32 - n * char_w) / 2;
    left(fb, s, x, y, st);
}

/// Centring leaves the same space on both sides, but for an odd pixel.
pub proof fn lemma_centred(n: int, char_w: int)
    ensures
        ({
            let before = centre_x(n, char_w);
            let after = 64 - n * char_w - before;
            -1 <= before - after <= 1
        }),
{
    let w = n * char_w;
    assert(centre_x(n, char_w) == if w <= 64 {
        (64 - w) / 2
    } else {
        -((w - 64) / 2)
    });
}

/// Fill an axis-aligned rectangle in `c` (scaled to the active brightness like every other draw).
/// A negative width or height is an empty one.
pub fn fill_rect(fb: &mut Panel, x: i32, y: i32, w: i32, h: i32, c: Color)
    requires
        old(fb).wf(),
        coord(x as int),
        coord(y as int),
        w <= COORD_LIMIT,
        h <= COORD_LIMIT,
    ensures
        final(fb).painted(*old(fb), block(x as int, y as int, w as int, h as int, c)),
{
    let ghost f0 = *fb;
    let w1: i32 = max(w, 0);
    let h1: i32 = max(h, 0);
    fill_span(fb, x, y, x + w1, y + h1, c);
    proof {
        lemma_paint_same(
            f0,
            *fb,
            block(x as int, y as int, w1 as int, h1 as int, c),
            block(x as int, y as int, w as int, h as int, c),
        );
    }
}

/// A full-width rule at row `y` in `color`.
pub fn rule(fb: &mut Panel, y: i32, color: Color)
    requires
        old(fb).wf(),
        coord(y as int),
    ensures
        final(fb).painted(*old(fb), block(0, y as int, 64, 1, color)),
{
    let ghost f0 = *fb;
    let picture = line_picture(y);
    stamp(fb, &picture, 0, 0, 64, 64, color);
    proof {
        lemma_paint_same(
            f0,
            *fb,
            clip(stencil(picture@, color), 0, 0, 64, 64),
            block(0, y as int, 64, 1, color),
        );
    }
}

/// Whether a comma followed by a space stands at position `i` of `s`.
pub open spec fn comma_at(s: Seq<char>, i: int) -> bool {
    0 <= i && i + 1 < s.len() && s[i] == ',' && s[i + 1] == ' '
}

/// `s` without everything up to and including its first ", "; `s` itself where there is no ", "
/// or nothing behind it.
pub open spec fn strip_city(s: Seq<char>) -> Seq<char> {
    if exists|i: int| #[trigger] comma_at(s, i) && i + 2 < s.len() && forall|j: int|
        0 <= j < i ==> !#[trigger] comma_at(s, j) {
        let i = choose|i: int| #[trigger] comma_at(s, i) && i + 2 < s.len() && forall|j: int|
            0 <= j < i ==> !#[trigger] comma_at(s, j);
        s.subrange(i + 2, s.len() as int)
    } else {
        s
    }
}

/// A stop's name as the panel shows it, with its city hidden if `strip`.
pub open spec fn shown_name(strip: bool, s: Seq<char>) -> Seq<char> {
    if strip {
        strip_city(s)
    } else {
        s
    }
}

/// The first ", " of a name, if it has one.
proof fn lemma_strip_city(s: Seq<char>, i: int)
    requires
        comma_at(s, i),
        forall|j: int| 0 <= j < i ==> !#[trigger] comma_at(s, j),
    ensures
        strip_city(s) == (if i + 2 < s.len() {
            s.subrange(i + 2, s.len() as int)
        } else {
            s
        }),
{
    if exists|k: int| #[trigger] comma_at(s, k) && k + 2 < s.len() && forall|j: int|
        0 <= j < k ==> !#[trigger] comma_at(s, j) {
        let k = choose|k: int| #[trigger] comma_at(s, k) && k + 2 < s.len() && forall|j: int|
            0 <= j < k ==> !#[trigger] comma_at(s, j);
        assert(k == i) by {
            assert(i < k ==> !comma_at(s, i));
            assert(k < i ==> !comma_at(s, k));
        }
    }
}

/// Hiding the city leaves what stands behind the first ", ": of `city, place` the place, also where
/// the place has a ", " of its own. A name without a ", " stays, and so does every name while cities
/// are not hidden.
pub proof fn lemma_hidden_city(town: Seq<char>, place: Seq<char>, plain: Seq<char>)
    requires
        forall|i: int| 0 <= i < town.len() - 1 ==> !(#[trigger] town[i] == ',' && town[i + 1] == ' '),
        place.len() > 0,
        forall|i: int| 0 <= i < plain.len() - 1 ==> !(#[trigger] plain[i] == ',' && plain[i + 1] == ' '),
    ensures
        shown_name(true, town + seq![',', ' '] + place) == place,
        shown_name(true, plain) == plain,
        shown_name(true, town + seq![',', ' ']) == town + seq![',', ' '],
        shown_name(false, town + seq![',', ' '] + place) == town + seq![',', ' '] + place,
        shown_name(false, plain) == plain,
{
    let name = town + seq![',', ' '] + place;
    let n = town.len() as int;
    assert(name[n] == ',' && name[n + 1] == ' ');
    assert forall|j: int| 0 <= j < n implies !#[trigger] comma_at(name, j) by {
        assert(name[j] == town[j]);
        if j < n - 1 {
            assert(name[j + 1] == town[j + 1]);
        }
    }
    assert(comma_at(name, n));
    lemma_strip_city(name, n);
    assert(name.subrange(n + 2, name.len() as int) =~= place);
    assert forall|j: int| !#[trigger] comma_at(plain, j) by {
        if 0 <= j && j + 1 < plain.len() {
            assert(!(plain[j] == ',' && plain[j + 1] == ' '));
        }
    }
    let bare = town + seq![',', ' '];
    assert forall|j: int| 0 <= j < n implies !#[trigger] comma_at(bare, j) by {
        assert(bare[j] == town[j]);
        if j < n - 1 {
            assert(bare[j + 1] == town[j + 1]);
        }
    }
    assert(comma_at(bare, n));
    lemma_strip_city(bare, n);
}

/// Apply the user's "hide city names" setting: when enabled, drop a leading "City, " prefix so
/// only the place name shows (e.g. "Zürich, Klusplatz" becomes "Klusplatz"); otherwise pass
/// through.
pub fn city<'a>(strip: bool, name: &'a str) -> (r: &'a str)
    ensures
        r@ == shown_name(strip, name@),
{
    if !strip {
        return name;
    }
    let n: usize = name.unicode_len();
    let mut i: usize = 0;
    while i < n
        invariant
            strip,
            i <= n,
            n == name@.len(),
            forall|j: int| 0 <= j < i ==> !#[trigger] comma_at(name@, j),
        decreases n - i,
    {
        if i + 1 < n && name.get_char(i) == ',' && name.get_char(i + 1) == ' ' {
            proof {
                lemma_strip_city(name@, i as int);
            }
            if i + 2 < n {
                return name.substring_char(i + 2, n);
            }
            return name;
        }
        i = i + 1;
    }
    name
}

/// Minutes-to-departure as the panel writes them.
pub open spec fn minutes_text(minutes: Option<u16>) -> Seq<char> {
    match minutes {
        None => "--"@,
        Some(m) => if m == 0 {
            "now"@
        } else {
            dec(m as nat) + "'"@
        },
    }
}

/// The written minutes are at most six characters.
pub proof fn lemma_minutes_text(minutes: Option<u16>)
    ensures
        1 <= minutes_text(minutes).len() <= 6,
{
    reveal_strlit("--");
    reveal_strlit("now");
    reveal_strlit("'");
    if let Some(m) = minutes {
        reveal_with_fuel(crate::text::pow10, 6);
        crate::text::lemma_dec(m as nat, 5);
    }
}

/// The minutes can be read off what is written: the number in front of the apostrophe. Different
/// counts are written differently, and so are a departure leaving now and one without a time.
pub proof fn lemma_minutes_read_back(one: Option<u16>, two: Option<u16>)
    ensures
        one matches Some(m) ==> (m > 0 ==> minutes_text(one).last() == '\'' && crate::text::value(
            minutes_text(one).drop_last(),
        ) == m),
        one is None ==> minutes_text(one) == seq!['-', '-'],
        minutes_text(one) == minutes_text(two) ==> one == two,
{
    reveal_strlit("--");
    reveal_strlit("now");
    reveal_strlit("'");
    assert("--"@ =~= seq!['-', '-']);
    if let Some(m) = one {
        crate::text::lemma_dec_value(m as nat);
        if m > 0 {
            assert(minutes_text(one).drop_last() =~= dec(m as nat));
        }
    }
    if let Some(m) = two {
        crate::text::lemma_dec_value(m as nat);
        if m > 0 {
            assert(minutes_text(two).drop_last() =~= dec(m as nat));
        }
    }
    assert("--"@.last() == '-' && "now"@.last() == 'w');
}

/// Format minutes-to-departure as text: `--` (no service) or `N'`. The `Some(0)` "now" case is
/// drawn by the caller as a [`draw_train_front`] pictogram, not text, so it never reaches here in
/// practice; it still maps to `now` as a harmless fallback.
pub fn fmt_minutes(minutes: Option<u16>) -> (r: String)
    ensures
        r@ == minutes_text(minutes),
{
    proof {
        lemma_minutes_text(minutes);
        reveal_strlit("--");
        reveal_strlit("now");
        reveal_strlit("'");
        crate::text::lemma_ascii_len("--"@);
        crate::text::lemma_ascii_len("now"@);
        crate::text::lemma_ascii_len("'"@);
        crate::text::lemma_ascii_len(Seq::<char>::empty());
    }
    let mut t = String::new();
    match minutes {
        None => {
            let _ = put::<8>(&mut t, "--");
        },
        Some(m) => {
            if m == 0 {
                let _ = put::<8>(&mut t, "now");
            } else {
                let digits = decimal(m as u64);
                proof {
                    reveal_with_fuel(crate::text::pow10, 6);
                    crate::text::lemma_dec(m as nat, 5);
                    crate::text::lemma_utf8_len_concat(t@, digits@);
                }
                let _ = put::<8>(&mut t, digits.as_str()) && put::<8>(&mut t, "'");
            }
        },
    }
    assert(t@ =~= minutes_text(minutes));
    t
}

/// Scroll offset (px) of a marquee at `frame`.
pub open spec fn scroll(period: int, frame: int) -> int {
    let phase = frame % (100 + period);
    if phase < 100 {
        0
    } else {
        phase - 100
    }
}

/// Scroll offset (px) of a marquee at `frame`: held at 0 for the initial [`HOLD_FRAMES`] pause,
/// then 1 px per frame through one full `period` (content width + [`MARQUEE_GAP`]), then repeats.
/// The single cadence shared by every scrolling drawer, so all marquees move in lock-step.
pub fn marquee_offset(period: i32, frame: u32) -> (r: i32)
    requires
        0 < period,
    ensures
        r == scroll(period as int, frame as int),
        0 <= r < period,
{
    let phase: u32 = frame % (HOLD_FRAMES + period as u32);
    if phase < HOLD_FRAMES {
        0
    } else {
        (phase - HOLD_FRAMES) as i32
    }
}

/// A marquee waits at 0, then moves one pixel per frame through its period, and starts over.
pub proof fn lemma_scroll_cadence(period: int, frame: int)
    requires
        0 < period,
        0 <= frame,
    ensures
        frame % (100 + period) <= 100 ==> scroll(period, frame) == 0,
        100 <= frame % (100 + period) < 99 + period ==> scroll(period, frame + 1) == scroll(
            period,
            frame,
        ) + 1,
        scroll(period, frame + 100 + period) == scroll(period, frame),
{
    let n = 100 + period;
    vstd::arithmetic::div_mod::lemma_mod_multiples_vanish(1, frame, n);
    if frame % n < n - 1 {
        vstd::arithmetic::div_mod::lemma_fundamental_div_mod(frame, n);
        vstd::arithmetic::div_mod::lemma_fundamental_div_mod_converse(
            frame + 1,
            n,
            frame / n,
            frame % n + 1,
        );
    }
}

/// The layer of `s` in a space of `avail` pixels from `(x0, y)`: flush where it fits, else
/// scrolling, with a second copy following the first.
pub open spec fn marquee_layer(
    st: Style,
    s: Seq<char>,
    x0: int,
    y: int,
    avail: int,
    char_w: int,
    frame: int,
) -> Layer {
    let width = s.len() * char_w;
    if width <= avail {
        text_layer(st, s, x0, y)
    } else {
        let x = x0 - scroll(width + 14, frame);
        over(text_layer(st, s, x + width + 14, y), text_layer(st, s, x, y))
    }
}

/// A text that fits stands still at the start of its space. One that does not is drawn twice, the
/// copies one text and a gap of 14 pixels apart, the first of them moved left by the scroll offset:
/// at the start of each round it begins where a text that fits would. A round repeats for ever.
pub proof fn lemma_marquee(
    st: Style,
    s: Seq<char>,
    x0: int,
    y: int,
    avail: int,
    char_w: int,
    frame: int,
    px: int,
    py: int,
)
    requires
        0 <= frame,
        0 <= avail,
    ensures
        ({
            let width = s.len() * char_w;
            let shown = marquee_layer(st, s, x0, y, avail, char_w, frame)(px, py);
            let moved = scroll(width + 14, frame);
            let first = text_layer(st, s, x0 - moved, y)(px, py);
            let second = text_layer(st, s, x0 - moved + width + 14, y)(px, py);
            &&& width <= avail ==> shown == text_layer(st, s, x0, y)(px, py)
            &&& width > avail ==> shown == first || shown == second
            &&& width > avail && first is None ==> shown == second
            &&& width > avail && second is None ==> shown == first
            &&& width > avail && frame % (114 + width) <= 100 ==> moved == 0
            &&& width > avail ==> marquee_layer(st, s, x0, y, avail, char_w, frame + 114 + width)(
                px,
                py,
            ) == shown
        }),
{
    let width = s.len() * char_w;
    if width > avail {
        lemma_scroll_cadence(width + 14, frame);
    }
}

/// Draw `text` at baseline-top `(x0, y)`. If it fits within `avail` pixels it sits flush at
/// `x0`; otherwise it scrolls as a seamless marquee: paused about 5 s at the start, then one full
/// round, repeat. Returns `true` when it is scrolling (so the caller keeps ticking frames).
pub fn draw_marquee(
    fb: &mut Panel,
    text: &str,
    x0: i32,
    y: i32,
    avail: i32,
    st: Style,
    char_w: i32,
    frame: u32,
) -> (r: bool)
    requires
        old(fb).wf(),
        coord(x0 as int),
        coord(y as int),
        0 <= char_w <= 8,
        text@.len() <= TEXT_LIMIT,
    ensures
        r == (text@.len() * char_w > avail),
        final(fb).painted(
            *old(fb),
            marquee_layer(
                st,
                text@,
                x0 as int,
                y as int,
                avail as int,
                char_w as int,
                frame as int,
            ),
        ),
{
    let ghost f0 = *fb;
    let n: i32 = char_count(text) as i32;
    assert(0 <= n * char_w <= 8 * TEXT_LIMIT) by (nonlinear_arith)
        requires
            0 <= n <= TEXT_LIMIT,
            0 <= char_w <= 8,
    ;
    let text_w: i32 = n * char_w;
    if text_w <= avail {
        left(fb, text, x0, y, st);
        return false;
    }
    let period: i32 = text_w + MARQUEE_GAP;
    let offset: i32 = marquee_offset(period, frame);
    left(fb, text, x0 - offset, y, st);
    let ghost f1 = *fb;
    left(fb, text, x0 - offset + period, y, st);
    proof {
        lemma_paint_over(
            f0,
            f1,
            *fb,
            text_layer(st, text@, x0 - offset, y as int),
            text_layer(st, text@, x0 - offset + period, y as int),
        );
    }
    true
}

/// Like [`draw_marquee`], but the text is clipped to the band `[x0, x0+avail) × [clip_top,
/// clip_top+clip_h)` so a scrolling label can't spill into neighbouring content (the badge to
/// its left or the time to its right). Returns `true` when it is scrolling.
pub fn draw_marquee_clipped(
    fb: &mut Panel,
    text: &str,
    x0: i32,
    y: i32,
    avail: i32,
    clip_top: i32,
    clip_h: i32,
    st: Style,
    char_w: i32,
    frame: u32,
) -> (r: bool)
    requires
        old(fb).wf(),
        coord(x0 as int),
        coord(y as int),
        0 <= avail <= COORD_LIMIT,
        coord(clip_top as int),
        0 <= clip_h <= COORD_LIMIT,
        0 <= char_w <= 8,
        text@.len() <= TEXT_LIMIT,
    ensures
        r == (text@.len() * char_w > avail),
        final(fb).painted(
            *old(fb),
            clip(
                marquee_layer(
                    st,
                    text@,
                    x0 as int,
                    y as int,
                    avail as int,
                    char_w as int,
                    frame as int,
                ),
                x0 as int,
                clip_top as int,
                x0 + avail,
                clip_top + clip_h,
            ),
        ),
{
    let ghost f0 = *fb;
    let n: i32 = char_count(text) as i32;
    assert(0 <= n * char_w <= 8 * TEXT_LIMIT) by (nonlinear_arith)
        requires
            0 <= n <= TEXT_LIMIT,
            0 <= char_w <= 8,
    ;
    let text_w: i32 = n * char_w;
    let right: i32 = x0 + avail;
    let bottom: i32 = clip_top + clip_h;
    if text_w <= avail {
        left_clipped(fb, text, x0, y, st, x0, clip_top, right, bottom);
        return false;
    }
    let period: i32 = text_w + MARQUEE_GAP;
    let offset: i32 = marquee_offset(period, frame);
    left_clipped(fb, text, x0 - offset, y, st, x0, clip_top, right, bottom);
    let ghost f1 = *fb;
    left_clipped(fb, text, x0 - offset + period, y, st, x0, clip_top, right, bottom);
    proof {
        let one = text_layer(st, text@, x0 - offset, y as int);
        let two = text_layer(st, text@, x0 - offset + period, y as int);
        let (l, t, r, b) = (x0 as int, clip_top as int, right as int, bottom as int);
        lemma_paint_over(f0, f1, *fb, clip(one, l, t, r, b), clip(two, l, t, r, b));
        lemma_paint_same(
            f0,
            *fb,
            over(clip(two, l, t, r, b), clip(one, l, t, r, b)),
            clip(over(two, one), l, t, r, b),
        );
    }
    true
}

/// A row of texts, each with its style.
pub open spec fn segs_view(segs: Seq<(&str, Style)>) -> Seq<(Seq<char>, Style)> {
    segs.map_values(|p: (&str, Style)| (p.0@, p.1))
}

/// Where the segment behind `segs` starts, counted from the row's start.
pub open spec fn segs_advance(segs: Seq<(Seq<char>, Style)>, char_w: int, space: int) -> int
    decreases segs.len(),
{
    if segs.len() == 0 {
        0
    } else {
        segs_advance(segs.drop_last(), char_w, space) + segs.last().0.len() * char_w + space
    }
}

/// The width of a row: its segments with one space between neighbours.
pub open spec fn segs_width(segs: Seq<(Seq<char>, Style)>, char_w: int, space: int) -> int {
    if segs.len() == 0 {
        0
    } else {
        segs_advance(segs, char_w, space) - space
    }
}

/// The layer of a row of segments that starts at `(x, y)`.
pub open spec fn segs_layer(
    segs: Seq<(Seq<char>, Style)>,
    x: int,
    y: int,
    char_w: int,
    space: int,
) -> Layer
    decreases segs.len(),
{
    if segs.len() == 0 {
        clear()
    } else {
        over(
            text_layer(
                segs.last().1,
                segs.last().0,
                x + segs_advance(segs.drop_last(), char_w, space),
                y,
            ),
            segs_layer(segs.drop_last(), x, y, char_w, space),
        )
    }
}

/// The layer of a row in a space of `avail` pixels: flush where it fits, else scrolling as one.
pub open spec fn segs_row_layer(
    segs: Seq<(Seq<char>, Style)>,
    x0: int,
    y: int,
    avail: int,
    char_w: int,
    space: int,
    frame: int,
) -> Layer {
    let width = segs_width(segs, char_w, space);
    if width <= avail {
        segs_layer(segs, x0, y, char_w, space)
    } else {
        let x = x0 - scroll(width + 14, frame);
        over(
            segs_layer(segs, x + width + 14, y, char_w, space),
            segs_layer(segs, x, y, char_w, space),
        )
    }
}

/// A longer row advances at least as far.
proof fn lemma_segs_advance(segs: Seq<(Seq<char>, Style)>, i: int, char_w: int, space: int)
    requires
        0 <= i <= segs.len(),
        0 <= char_w,
        0 <= space,
    ensures
        0 <= segs_advance(segs.take(i), char_w, space) <= segs_advance(segs, char_w, space),
        i < segs.len() ==> segs_advance(segs.take(i + 1), char_w, space) == segs_advance(
            segs.take(i),
            char_w,
            space,
        ) + segs[i].0.len() * char_w + space,
    decreases segs.len(),
{
    if i < segs.len() {
        assert(segs.take(i + 1).drop_last() =~= segs.take(i));
    }
    if segs.len() > 0 {
        let rest = segs.drop_last();
        assert(0 <= segs.last().0.len() * char_w) by (nonlinear_arith)
            requires
                0 <= char_w,
        ;
        if i == segs.len() {
            lemma_segs_advance(rest, i - 1, char_w, space);
            assert(segs.take(i) =~= segs);
            assert(rest.take(i - 1) =~= rest);
        } else {
            lemma_segs_advance(rest, i, char_w, space);
            assert(rest.take(i) =~= segs.take(i));
        }
    } else {
        assert(segs.take(i) =~= segs);
    }
}

/// The pieces of a row follow one another: each starts one space behind the end of the one before
/// it, and is seen wherever no later piece is painted over it.
pub proof fn lemma_segs_row(
    segs: Seq<(Seq<char>, Style)>,
    x: int,
    y: int,
    char_w: int,
    space: int,
    i: int,
    px: int,
    py: int,
)
    requires
        0 <= i < segs.len(),
        forall|j: int|
            i < j < segs.len() ==> text_layer(
                (#[trigger] segs[j]).1,
                segs[j].0,
                x + segs_advance(segs.take(j), char_w, space),
                y,
            )(px, py) is None,
    ensures
        ({
            let start = x + segs_advance(segs.take(i), char_w, space);
            let piece = text_layer(segs[i].1, segs[i].0, start, y)(px, py);
            &&& i == 0 ==> start == x
            &&& i > 0 ==> start == x + segs_advance(segs.take(i - 1), char_w, space)
                + segs[i - 1].0.len() * char_w + space
            &&& piece is Some ==> segs_layer(segs, x, y, char_w, space)(px, py) == piece
        }),
    decreases segs.len(),
{
    assert(segs.take(0) =~= Seq::empty());
    if i > 0 {
        assert(segs.take(i).drop_last() =~= segs.take(i - 1));
    }
    let rest = segs.drop_last();
    let last = segs.len() - 1;
    assert(segs.take(last) =~= rest);
    assert(segs[last] == segs.last());
    if i < last {
        assert forall|j: int| i < j < rest.len() implies text_layer(
            (#[trigger] rest[j]).1,
            rest[j].0,
            x + segs_advance(rest.take(j), char_w, space),
            y,
        )(px, py) is None by {
            assert(rest[j] == segs[j]);
            assert(rest.take(j) =~= segs.take(j));
        }
        lemma_segs_row(rest, x, y, char_w, space, i, px, py);
        assert(rest.take(i) =~= segs.take(i));
    }
}

/// Lay every segment out from `start`, advancing by its width plus one space.
fn draw_segments_at(
    fb: &mut Panel,
    segs: &[(&str, Style)],
    start: i32,
    y: i32,
    char_w: i32,
    space: i32,
)
    requires
        old(fb).wf(),
        -COORD_LIMIT - 400_000_014 <= start <= COORD_LIMIT + 14,
        coord(y as int),
        0 <= char_w <= 8,
        0 <= space <= 64,
        forall|i: int| 0 <= i < segs@.len() ==> (#[trigger] segs@[i]).0@.len() <= TEXT_LIMIT,
        segs_advance(segs_view(segs@), char_w as int, space as int) <= 400_000_000,
    ensures
        final(fb).painted(
            *old(fb),
            segs_layer(segs_view(segs@), start as int, y as int, char_w as int, space as int),
        ),
{
    let ghost f0 = *fb;
    let ghost view = segs_view(segs@);
    let ghost (cw, sp) = (char_w as int, space as int);
    let mut x: i32 = start;
    let mut i: usize = 0;
    proof {
        assert(view.take(0) =~= Seq::empty());
        lemma_paint_nothing(f0, segs_layer(view.take(0), start as int, y as int, cw, sp));
    }
    while i < segs.len()
        invariant
            f0.wf(),
            0 <= i <= segs@.len(),
            view == segs_view(segs@),
            cw == char_w && sp == space,
            0 <= char_w <= 8,
            0 <= space <= 64,
            -COORD_LIMIT - 400_000_014 <= start <= COORD_LIMIT + 14,
            coord(y as int),
            forall|j: int| 0 <= j < segs@.len() ==> (#[trigger] segs@[j]).0@.len() <= TEXT_LIMIT,
            segs_advance(view, cw, sp) <= 400_000_000,
            x == start + segs_advance(view.take(i as int), cw, sp),
            fb.painted(f0, segs_layer(view.take(i as int), start as int, y as int, cw, sp)),
        decreases segs@.len() - i,
    {
        let ghost f1 = *fb;
        let (s, st) = segs[i];
        proof {
            assert(view[i as int] == (s@, st));
            lemma_segs_advance(view, i as int, cw, sp);
            lemma_segs_advance(view, i + 1, cw, sp);
        }
        left(fb, s, x, y, st);
        proof {
            assert(view.take(i + 1).drop_last() =~= view.take(i as int));
            lemma_paint_over(
                f0,
                f1,
                *fb,
                segs_layer(view.take(i as int), start as int, y as int, cw, sp),
                text_layer(st, s@, x as int, y as int),
            );
        }
        let n: i32 = char_count(s) as i32;
        assert(0 <= n * char_w <= 8 * TEXT_LIMIT) by (nonlinear_arith)
            requires
                0 <= n <= TEXT_LIMIT,
                0 <= char_w <= 8,
        ;
        x = x + n * char_w + space;
        i = i + 1;
    }
    proof {
        assert(view.take(i as int) =~= view);
    }
}

/// The width of a row of segments.
fn segments_width(segs: &[(&str, Style)], char_w: i32, space: i32) -> (r: i32)
    requires
        0 <= char_w <= 8,
        0 <= space <= 64,
        forall|i: int| 0 <= i < segs@.len() ==> (#[trigger] segs@[i]).0@.len() <= TEXT_LIMIT,
        segs_advance(segs_view(segs@), char_w as int, space as int) <= 400_000_000,
    ensures
        r == segs_width(segs_view(segs@), char_w as int, space as int),
        0 <= r,
{
    let ghost view = segs_view(segs@);
    let ghost (cw, sp) = (char_w as int, space as int);
    let mut total: i32 = 0;
    let mut i: usize = 0;
    proof {
        assert(view.take(0) =~= Seq::empty());
    }
    while i < segs.len()
        invariant
            0 <= i <= segs@.len(),
            view == segs_view(segs@),
            cw == char_w && sp == space,
            0 <= char_w <= 8,
            0 <= space <= 64,
            forall|j: int| 0 <= j < segs@.len() ==> (#[trigger] segs@[j]).0@.len() <= TEXT_LIMIT,
            segs_advance(view, cw, sp) <= 400_000_000,
            total == segs_advance(view.take(i as int), cw, sp),
        decreases segs@.len() - i,
    {
        let (s, st) = segs[i];
        proof {
            assert(view[i as int] == (s@, st));
            lemma_segs_advance(view, i as int, cw, sp);
            lemma_segs_advance(view, i + 1, cw, sp);
        }
        let n: i32 = char_count(s) as i32;
        assert(0 <= n * char_w <= 8 * TEXT_LIMIT) by (nonlinear_arith)
            requires
                0 <= n <= TEXT_LIMIT,
                0 <= char_w <= 8,
        ;
        total = total + n * char_w + space;
        i = i + 1;
    }
    proof {
        assert(view.take(i as int) =~= view);
        if i > 0 {
            lemma_segs_advance(view, i - 1, cw, sp);
            assert(0 <= view[i - 1].0.len() * cw) by (nonlinear_arith)
                requires
                    0 <= cw,
            ;
        }
    }
    if segs.len() == 0 {
        0
    } else {
        total - space
    }
}

/// Draw a row of coloured text segments on one baseline at `(x0, y)`, separated by `space` px
/// between adjacent segments. If the assembled row fits within `avail` it sits flush at `x0`;
/// otherwise the whole row scrolls together as a single marquee (same cadence as
/// [`draw_marquee`]). Returns `true` while it is scrolling.
pub fn draw_segments_row(
    fb: &mut Panel,
    segs: &[(&str, Style)],
    x0: i32,
    y: i32,
    avail: i32,
    char_w: i32,
    space: i32,
    frame: u32,
) -> (r: bool)
    requires
        old(fb).wf(),
        coord(x0 as int),
        coord(y as int),
        0 <= char_w <= 8,
        0 <= space <= 64,
        forall|i: int| 0 <= i < segs@.len() ==> (#[trigger] segs@[i]).0@.len() <= TEXT_LIMIT,
        segs_advance(segs_view(segs@), char_w as int, space as int) <= 400_000_000,
        x0 + segs_width(segs_view(segs@), char_w as int, space as int) <= COORD_LIMIT,
    ensures
        r == (segs_width(segs_view(segs@), char_w as int, space as int) > avail),
        final(fb).painted(
            *old(fb),
            segs_row_layer(
                segs_view(segs@),
                x0 as int,
                y as int,
                avail as int,
                char_w as int,
                space as int,
                frame as int,
            ),
        ),
{
    let ghost f0 = *fb;
    let ghost view = segs_view(segs@);
    let total: i32 = segments_width(segs, char_w, space);
    if total <= avail {
        draw_segments_at(fb, segs, x0, y, char_w, space);
        return false;
    }
    let period: i32 = total + MARQUEE_GAP;
    let offset: i32 = marquee_offset(period, frame);
    proof {
        lemma_segs_advance(view, view.len() as int, char_w as int, space as int);
    }
    draw_segments_at(fb, segs, x0 - offset, y, char_w, space);
    let ghost f1 = *fb;
    draw_segments_at(fb, segs, x0 - offset + period, y, char_w, space);
    proof {
        lemma_paint_over(
            f0,
            f1,
            *fb,
            segs_layer(view, x0 - offset, y as int, char_w as int, space as int),
            segs_layer(view, x0 - offset + period, y as int, char_w as int, space as int),
        );
    }
    true
}

/// The layer of a filled badge holding a line label.
pub open spec fn badge_layer(line: Seq<char>, x: int, y: int, fill: Color, text: Color) -> Layer {
    over(
        text_layer(Style { font: Font::Medium, color: text }, line, x + 3, y + 1),
        block(x, y, line.len() as int * 6 + 5, 11, fill),
    )
}

/// Draw a filled badge holding the line label, top-left at `(x, y)`: `fill` background with
/// `text` colour. Sized to the label so any length fits. Returns the x just past the badge.
pub fn draw_badge(fb: &mut Panel, line: &str, x: i32, y: i32, fill: Color, text: Color) -> (r: i32)
    requires
        old(fb).wf(),
        coord(x as int),
        coord(y + 1),
        coord(y as int),
        line@.len() <= TEXT_LIMIT,
    ensures
        r == x + line@.len() * 6 + 5,
        final(fb).painted(*old(fb), badge_layer(line@, x as int, y as int, fill, text)),
{
    let ghost f0 = *fb;
    let w: i32 = char_count(line) as i32 * 6 + 5;
    fill_rect(fb, x, y, w, 11, fill);
    let ghost f1 = *fb;
    left(fb, line, x + 3, y + 1, style(Font::Medium, text));
    proof {
        lemma_paint_over(
            f0,
            f1,
            *fb,
            block(x as int, y as int, w as int, 11, fill),
            text_layer(Style { font: Font::Medium, color: text }, line@, x + 3, y + 1),
        );
    }
    x + w
}

/// The layer of a departure's line label: a badge, or plain text in the badge's place.
pub open spec fn line_label_layer(badges: bool, line: Seq<char>, x: int, y: int) -> Layer {
    if badges {
        badge_layer(line, x, y, rgb(AMBER), rgb(OFF))
    } else {
        text_layer(Style { font: Font::Medium, color: rgb(AMBER) }, line, x, y + 1)
    }
}

/// The width of a departure's line label.
pub open spec fn line_label_width(badges: bool, line: Seq<char>) -> int {
    if badges {
        line.len() as int * 6 + 5
    } else {
        line.len() as int * 6
    }
}

/// A line label shows the line: as a badge, the line's text in unlit pixels on a lit field that
/// reaches three columns beyond it on the left and two on the right; without badges, the same text
/// lit, and nothing else.
pub proof fn lemma_line_label(line: Seq<char>, x: int, y: int, px: int, py: int)
    ensures
        ({
            let plain = text_layer(Style { font: Font::Medium, color: rgb(AMBER) }, line, x, y + 1);
            let cut = text_layer(Style { font: Font::Medium, color: rgb(OFF) }, line, x + 3, y + 1);
            let badge = line_label_layer(true, line, x, y)(px, py);
            let inside = x <= px < x + 3 + 6 * line.len() + 2 && y <= py < y + 11;
            &&& line_label_layer(false, line, x, y)(px, py) == plain(px, py)
            &&& cut(px, py) is Some ==> badge == Some(rgb(OFF))
            &&& cut(px, py) is None && inside ==> badge == Some(rgb(AMBER))
            &&& cut(px, py) is None && !inside ==> badge is None
            &&& line_label_width(true, line) == 3 + 6 * line.len() + 2
            &&& line_label_width(false, line) == 6 * line.len()
        }),
{
}

/// Draw a departure's line label at badge origin `(x, y)`, honouring the "line badges" setting:
/// a filled amber badge when badges are on, else plain amber text on the badge's own label
/// baseline (`y + 1`). Returns the x just past what was drawn.
pub fn draw_line_label(fb: &mut Panel, badges: bool, line: &str, x: i32, y: i32) -> (r: i32)
    requires
        old(fb).wf(),
        coord(x as int),
        coord(y + 1),
        coord(y as int),
        line@.len() <= TEXT_LIMIT,
    ensures
        r == x + line_label_width(badges, line@),
        final(fb).painted(*old(fb), line_label_layer(badges, line@, x as int, y as int)),
{
    if badges {
        draw_badge(fb, line, x, y, rgb(AMBER), rgb(OFF))
    } else {
        left(fb, line, x, y + 1, style(Font::Medium, rgb(AMBER)));
        x + char_count(line) as i32 * 6
    }
}

// Small pixel-art glyphs. The Z-blind doubles as the connecting-tram's route blind; the arrow
// points at the idle screen's call to action; the tram front is the "departing now" pictogram.
pub const Z_GLYPH: [[u8; 3]; 5] = [[1, 1, 1], [0, 0, 1], [0, 1, 0], [1, 0, 0], [1, 1, 1]];

pub const ARROW_GLYPH: [[u8; 7]; 5] = [
    [0, 0, 0, 0, 1, 0, 0],
    [0, 0, 0, 0, 0, 1, 0],
    [1, 1, 1, 1, 1, 1, 1],
    [0, 0, 0, 0, 0, 1, 0],
    [0, 0, 0, 0, 1, 0, 0],
];

/// Width of the [`draw_train_front`] pictogram, in pixels.
pub const TRAIN_W: i32 = 9;

/// Height of the [`draw_train_front`] pictogram, in pixels.
pub const TRAIN_H: i32 = 10;

/// The "departing now" front-of-tram pictogram (9×10): a rounded roof, a dark destination-blind
/// slot framed by a lit rim (the horizontal line above the windscreen that keeps it reading as a
/// tram front rather than a ghost), then two cab windows, the body, and two wheels.
pub const TRAIN_GLYPH: [[u8; 9]; 10] = [
    [0, 0, 1, 1, 1, 1, 1, 0, 0],  // rounded roof top
    [0, 1, 1, 1, 1, 1, 1, 1, 0],  // roof
    [1, 1, 1, 1, 1, 1, 1, 1, 1],  // roof front
    [1, 0, 0, 0, 0, 0, 0, 0, 1],  // destination-blind slot (the line above the windows)
    [1, 1, 1, 1, 1, 1, 1, 1, 1],  // lit rim under the blind
    [1, 0, 0, 0, 1, 0, 0, 0, 1],  // windows, split by the centre pillar
    [1, 0, 0, 0, 1, 0, 0, 0, 1],
    [1, 1, 1, 1, 1, 1, 1, 1, 1],  // body
    [1, 1, 1, 1, 1, 1, 1, 1, 1],
    [0, 1, 1, 0, 0, 0, 1, 1, 0],  // wheels
];

/// The layer of a bitmap with its top-left corner at `(x, y)`, each cell a `k`×`k` block: a cell
/// with `1` in `primary`, one with `2` in `accent`, any other unpainted.
pub open spec fn bitmap_layer<const W: usize, const H: usize>(
    glyph: [[u8; W]; H],
    x: int,
    y: int,
    k: int,
    primary: Color,
    accent: Option<Color>,
) -> Layer {
    |px: int, py: int|
        {
            let gx = (px - x) / k;
            let gy = (py - y) / k;
            if 0 <= gx < W && 0 <= gy < H {
                tone(glyph@[gy]@[gx], primary, accent)
            } else {
                None
            }
        }
}

/// The paint of a bitmap cell.
pub open spec fn tone(cell: u8, primary: Color, accent: Option<Color>) -> Option<Color> {
    if cell == 1 {
        Some(primary)
    } else if cell == 2 {
        accent
    } else {
        None
    }
}

/// Enlarging a bitmap makes every cell a block of `k` by `k` pixels of the cell's own paint, and
/// paints nothing outside.
pub proof fn lemma_bitmap_enlarged<const W: usize, const H: usize>(
    glyph: [[u8; W]; H],
    x: int,
    y: int,
    k: int,
    primary: Color,
    accent: Option<Color>,
    j: int,
    i: int,
    px: int,
    py: int,
)
    requires
        1 <= k <= 3,
        x + j * k <= px < x + j * k + k,
        y + i * k <= py < y + i * k + k,
    ensures
        bitmap_layer(glyph, x, y, k, primary, accent)(px, py) == bitmap_layer(
            glyph,
            x,
            y,
            1,
            primary,
            accent,
        )(x + j, y + i),
        0 <= j < W && 0 <= i < H && glyph@[i]@[j] == 1 ==> bitmap_layer(
            glyph,
            x,
            y,
            k,
            primary,
            accent,
        )(px, py) == Some(primary),
        0 <= j < W && 0 <= i < H && glyph@[i]@[j] == 2 ==> bitmap_layer(
            glyph,
            x,
            y,
            k,
            primary,
            accent,
        )(px, py) == accent,
        !(0 <= j < W && 0 <= i < H) || glyph@[i]@[j] == 0 ==> bitmap_layer(
            glyph,
            x,
            y,
            k,
            primary,
            accent,
        )(px, py) is None,
{
    lemma_cell(px - x, k, j);
    lemma_cell(py - y, k, i);
    assert(j / 1 == j && i / 1 == i);
}

/// The cells of a bitmap before cell `(j, i)`, in reading order of the cells.
pub open spec fn cells_before<const W: usize, const H: usize>(
    glyph: [[u8; W]; H],
    x: int,
    y: int,
    k: int,
    primary: Color,
    accent: Option<Color>,
    j: int,
    i: int,
) -> Layer {
    |px: int, py: int|
        {
            let gx = (px - x) / k;
            let gy = (py - y) / k;
            if gy < i || (gy == i && gx < j) {
                bitmap_layer(glyph, x, y, k, primary, accent)(px, py)
            } else {
                None
            }
        }
}

/// Which cell a pixel falls in.
pub proof fn lemma_cell(d: int, k: int, j: int)
    requires
        1 <= k <= 3,
    ensures
        j * k <= d < j * k + k <==> d / k == j,
{
    if k == 1 {
        assert(d / 1 == d);
    } else if k == 2 {
        assert(j * k <= d < j * k + k <==> d / 2 == j);
    } else {
        assert(j * k <= d < j * k + k <==> d / 3 == j);
    }
}

/// Blit a small bitmap glyph with its top-left at `(x, y)`, each lit cell drawn as a `k`×`k`
/// block: `1` cells in `primary`, `2` cells in `accent`.
pub fn blit_tones<const W: usize, const H: usize>(
    fb: &mut Panel,
    glyph: &[[u8; W]; H],
    x: i32,
    y: i32,
    k: i32,
    primary: Color,
    accent: Option<Color>,
)
    requires
        old(fb).wf(),
        coord(x as int),
        coord(y as int),
        1 <= k <= 3,
        W <= 64,
        H <= 64,
    ensures
        final(fb).painted(
            *old(fb),
            bitmap_layer(*glyph, x as int, y as int, k as int, primary, accent),
        ),
{
    let ghost f0 = *fb;
    let ghost (xi, yi, ki) = (x as int, y as int, k as int);
    let ghost whole = bitmap_layer(*glyph, xi, yi, ki, primary, accent);
    proof {
        lemma_paint_nothing(f0, cells_before(*glyph, xi, yi, ki, primary, accent, 0, 0));
    }
    let mut i: usize = 0;
    while i < H
        invariant
            f0.wf(),
            0 <= i <= H,
            xi == x && yi == y && ki == k,
            coord(x as int),
            coord(y as int),
            1 <= k <= 3,
            W <= 64,
            H <= 64,
            fb.painted(f0, cells_before(*glyph, xi, yi, ki, primary, accent, 0, i as int)),
        decreases H - i,
    {
        let mut j: usize = 0;
        while j < W
            invariant
                f0.wf(),
                0 <= i < H,
                0 <= j <= W,
                xi == x && yi == y && ki == k,
                coord(x as int),
                coord(y as int),
                1 <= k <= 3,
                W <= 64,
                H <= 64,
                fb.painted(
                    f0,
                    cells_before(*glyph, xi, yi, ki, primary, accent, j as int, i as int),
                ),
            decreases W - j,
        {
            let ghost f1 = *fb;
            let ghost done = cells_before(*glyph, xi, yi, ki, primary, accent, j as int, i as int);
            let ghost next = cells_before(*glyph, xi, yi, ki, primary, accent, j + 1, i as int);
            let cell: u8 = glyph[i][j];
            let paint: Option<Color> = if cell == 1 {
                Some(primary)
            } else if cell == 2 {
                accent
            } else {
                None
            };
            assert(0 <= j * k <= 192 && 0 <= i * k <= 192) by (nonlinear_arith)
                requires
                    0 <= j <= 64,
                    0 <= i <= 64,
                    1 <= k <= 3,
            ;
            assert forall|px: int, py: int| true implies (#[trigger] done(px, py) == next(px, py)
                || (xi + j * k <= px < xi + j * k + k && yi + i * k <= py < yi + i * k + k)) && (xi
                + j * k <= px < xi + j * k + k && yi + i * k <= py < yi + i * k + k ==> next(px, py)
                == paint && done(px, py) is None) by {
                lemma_cell(px - xi, ki, j as int);
                lemma_cell(py - yi, ki, i as int);
            }
            match paint {
                Some(c) => {
                    let cx: i32 = x + j as i32 * k;
                    let cy: i32 = y + i as i32 * k;
                    fill_span(fb, cx, cy, cx + k, cy + k, c);
                    proof {
                        let cell_layer = block(cx as int, cy as int, k as int, k as int, c);
                        lemma_paint_over(f0, f1, *fb, done, cell_layer);
                        assert forall|px: int, py: int| true implies #[trigger] over(
                            cell_layer,
                            done,
                        )(px, py) == next(px, py) by {
                            assert(done(px, py) == done(px, py));
                        }
                        lemma_paint_same(f0, *fb, over(cell_layer, done), next);
                    }
                },
                None => {
                    proof {
                        lemma_paint_same(f0, *fb, done, next);
                    }
                },
            }
            j = j + 1;
        }
        proof {
            let done = cells_before(*glyph, xi, yi, ki, primary, accent, W as int, i as int);
            let next = cells_before(*glyph, xi, yi, ki, primary, accent, 0, i + 1);
            assert(same(done, next));
            lemma_paint_same(f0, *fb, done, next);
        }
        i = i + 1;
    }
    proof {
        let done = cells_before(*glyph, xi, yi, ki, primary, accent, 0, H as int);
        assert(same(done, whole));
        lemma_paint_same(f0, *fb, done, whole);
    }
}

/// Blit a small bitmap glyph with its top-left at `(x, y)`, each lit cell drawn as a `k`×`k`
/// block.
pub fn blit_bitmap<const W: usize, const H: usize>(
    fb: &mut Panel,
    glyph: &[[u8; W]; H],
    x: i32,
    y: i32,
    k: i32,
    color: Color,
)
    requires
        old(fb).wf(),
        coord(x as int),
        coord(y as int),
        1 <= k <= 3,
        W <= 64,
        H <= 64,
    ensures
        final(fb).painted(
            *old(fb),
            bitmap_layer(*glyph, x as int, y as int, k as int, color, None),
        ),
{
    blit_tones(fb, glyph, x, y, k, color, None);
}

/// The layer of the front-of-tram pictogram blown up by `scale`.
pub open spec fn train_layer(x: int, y: int, scale: int, c: Color) -> Layer {
    bitmap_layer(TRAIN_GLYPH, x, y, scale, c, None)
}

/// Draw the front-of-tram pictogram with its top-left at `(x, y)` in `c`.
pub fn draw_train_front(fb: &mut Panel, x: i32, y: i32, c: Color)
    requires
        old(fb).wf(),
        coord(x as int),
        coord(y as int),
    ensures
        final(fb).painted(*old(fb), train_layer(x as int, y as int, 1, c)),
{
    draw_train_front_scaled(fb, x, y, 1, c);
}

/// Draw the front-of-tram pictogram blown up by an integer `scale` (each lit cell becomes a
/// `scale`×`scale` block), top-left at `(x, y)`. `scale == 1` is the board's pictogram; the focus
/// view uses `2` for the large "departing now" state.
pub fn draw_train_front_scaled(fb: &mut Panel, x: i32, y: i32, scale: i32, c: Color)
    requires
        old(fb).wf(),
        coord(x as int),
        coord(y as int),
        1 <= scale <= 3,
    ensures
        final(fb).painted(*old(fb), train_layer(x as int, y as int, scale as int, c)),
{
    blit_bitmap(fb, &TRAIN_GLYPH, x, y, scale, c);
}

} // verus!
