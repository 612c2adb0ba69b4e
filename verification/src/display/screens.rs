//! The built-in screens, one drawer per display state plus the two departure views: provisioning,
//! the rolling-tram connecting/offline animation, the idle address screen, the three-row
//! departures board, and the single-departure focus view. Each drawer returns `true` while
//! anything on it is animating (a scrolling marquee, the tram) so the render loop keeps ticking
//! frames.

use vstd::prelude::*;
use vstd::string::StrSliceExecFns;

use crate::display::draw::{
    blit_bitmap, centered, city, draw_line_label, draw_marquee, draw_marquee_clipped,
    draw_segments_row, draw_train_front, draw_train_front_scaled, fill_rect, fmt_minutes, left,
    lemma_minutes_text, rule, style, Font, Style, ACCENT, AMBER, ARROW_GLYPH, DIM, TRAIN_H,
    TRAIN_W, Z_GLYPH,
};
use crate::display::draw::{
    bitmap_layer, centre_x, line_label_layer, line_label_width, marquee_layer, minutes_text,
    segs_advance, segs_row_layer, segs_view, segs_width, shown_name, text_layer, train_layer,
};
use crate::display::panel::{
    fill_span, lemma_paint_nothing, lemma_paint_over, lemma_paint_same, pset, rgb, Panel, COLS,
};
use crate::display::panel::{block, clear, clip, dot, over, same, Layer};
use crate::model::Departure;
use crate::model::departures_wf;
use crate::shared::{line_badges_enabled, strip_city_enabled, Shared};
use crate::shared::Settings;
use crate::text::{
    char_count, decimal, lemma_dec, lemma_dec_value, lemma_split, lemma_utf8_len_bounds, put,
};
use crate::text::{dec, utf8_len};

verus! {

// Tram palette: the same deep-copper + amber scheme as the rest of the panel. Copper for the
// bodywork/structure (low blue so it stays saturated, not white), amber for the lit elements
// (headlight, windows, the route-blind "Z").
/// Deep copper body.
pub const T_BODY: u32 = 0xBE5614;

/// Roof / highlight (lighter copper).
pub const T_HI: u32 = 0xDE741C;

/// Skirt shadow / pantograph.
pub const T_DK: u32 = 0x582608;

/// Headlight (warm amber).
pub const T_HEAD: u32 = 0xFFBE3C;

/// Headlight spill (amber).
pub const T_GLOW: u32 = 0xE08610;

/// Dark windows.
pub const T_GLASS: u32 = 0x100A05;

/// One lit window (amber).
pub const T_LITWIN: u32 = 0xF09C00;

/// Lit route-blind glyph (amber).
pub const T_BLIND: u32 = 0xFFA800;

/// Route-blind background.
pub const T_BLIND_BG: u32 = 0x0D0904;

/// Bogie wheels.
pub const T_WHEEL: u32 = 0x0A0603;

/// Catenary (deep copper).
pub const WIRE: u32 = 0x3E240A;

/// Running rail (copper).
pub const RAIL: u32 = 0x904E16;

/// Sleepers.
pub const SLEEP: u32 = 0x2C1606;

/// Tram length in LEDs.
pub const TW: i32 = 28;

/// Travel of one pass: fully off-left to fully off-right.
pub const CONNECT_SPAN: i32 = 92;

/// Frames for one full pass of the tram (about 2.4 s).
pub const CONNECT_CYCLE_FRAMES: u32 = 48;

/// Body-top row; wire sits above, rail below. The scene sits in the lower part of the panel,
/// leaving room for the label up top.
pub const TRAIN_TOP: i32 = 34;

/// Row of the catenary.
pub const WIRE_Y: i32 = 28;

/// Row of the running rail.
pub const RAIL_Y: i32 = 50;

/// A text style in one of the palette's colours.
pub open spec fn in_style(font: Font, hex: u32) -> Style {
    Style { font, color: rgb(hex) }
}

/// The provisioning screen.
pub open spec fn provisioning_layer(frame: int) -> Layer {
    over(
        marquee_layer(
            in_style(Font::Small, ACCENT),
            "zugli.local or 192.168.4.1"@,
            2,
            50,
            62,
            5,
            frame,
        ),
        over(
            text_layer(in_style(Font::Small, DIM), "then open:"@, 2, 42),
            over(
                text_layer(in_style(Font::Small, ACCENT), "Zugli-Setup"@, 2, 26),
                over(
                    text_layer(in_style(Font::Small, DIM), "Join WiFi:"@, 2, 18),
                    text_layer(in_style(Font::Medium, ACCENT), "Zugli"@, 2, 2),
                ),
            ),
        ),
    )
}

/// The provisioning screen names the network to join and where the portal is then found, the latter
/// in a line that scrolls on top of everything else.
pub proof fn lemma_provisioning_screen(frame: int, x: int, y: int)
    ensures
        ({
            let shown = provisioning_layer(frame)(x, y);
            let portal = marquee_layer(
                in_style(Font::Small, ACCENT),
                "zugli.local or 192.168.4.1"@,
                2,
                50,
                62,
                5,
                frame,
            )(x, y);
            let hint = text_layer(in_style(Font::Small, DIM), "then open:"@, 2, 42)(x, y);
            let network = text_layer(in_style(Font::Small, ACCENT), "Zugli-Setup"@, 2, 26)(x, y);
            let join = text_layer(in_style(Font::Small, DIM), "Join WiFi:"@, 2, 18)(x, y);
            let title = text_layer(in_style(Font::Medium, ACCENT), "Zugli"@, 2, 2)(x, y);
            &&& portal is Some ==> shown == portal
            &&& portal is None && hint is Some ==> shown == hint
            &&& portal is None && hint is None && network is Some ==> shown == network
            &&& portal is None && hint is None && network is None && join is Some ==> shown == join
            &&& portal is None && hint is None && network is None && join is None ==> shown == title
        }),
{
}

/// Title, then two label/value sections: join the SoftAP, open the portal. The portal is reachable
/// by the mDNS name (served on the SoftAP too) with the bare IP as a fallback, shown on one
/// scrolling line: it is always wider than the panel.
pub fn draw_provisioning(fb: &mut Panel, frame: u32) -> (r: bool)
    requires
        old(fb).wf(),
    ensures
        r,
        final(fb).painted(*old(fb), provisioning_layer(frame as int)),
{
    proof {
        reveal_strlit("Zugli");
        reveal_strlit("Join WiFi:");
        reveal_strlit("Zugli-Setup");
        reveal_strlit("then open:");
        reveal_strlit("zugli.local or 192.168.4.1");
    }
    let ghost f0 = *fb;
    let big = style(Font::Medium, rgb(ACCENT));
    let dim = style(Font::Small, rgb(DIM));
    let accent = style(Font::Small, rgb(ACCENT));
    left(fb, "Zugli", 2, 2, big);
    let ghost f1 = *fb;
    let ghost l1 = text_layer(big, "Zugli"@, 2, 2);
    left(fb, "Join WiFi:", 2, 18, dim);
    let ghost f2 = *fb;
    let ghost l2 = text_layer(dim, "Join WiFi:"@, 2, 18);
    left(fb, "Zugli-Setup", 2, 26, accent);
    let ghost f3 = *fb;
    let ghost l3 = text_layer(accent, "Zugli-Setup"@, 2, 26);
    left(fb, "then open:", 2, 42, dim);
    let ghost f4 = *fb;
    let ghost l4 = text_layer(dim, "then open:"@, 2, 42);
    let r = draw_marquee(
        fb,
        "zugli.local or 192.168.4.1",
        2,
        50,
        COLS as i32 - 2,
        accent,
        5,
        frame,
    );
    proof {
        let l5 = marquee_layer(
            accent,
            "zugli.local or 192.168.4.1"@,
            2,
            50,
            62,
            5,
            frame as int,
        );
        lemma_paint_over(f0, f1, f2, l1, l2);
        lemma_paint_over(f0, f2, f3, over(l2, l1), l3);
        lemma_paint_over(f0, f3, f4, over(l3, over(l2, l1)), l4);
        lemma_paint_over(f0, f4, *fb, over(l4, over(l3, over(l2, l1))), l5);
    }
    r
}

/// `true` once the connecting animation has completed at least one full pass (frame numbers
/// `0..CONNECT_CYCLE_FRAMES` make up one pass, so the last frame of it is one less).
pub fn connect_cycle_done(frame: u32) -> (r: bool)
    ensures
        r == (frame >= CONNECT_CYCLE_FRAMES - 1),
{
    frame >= CONNECT_CYCLE_FRAMES - 1
}

/// The tram, cell by cell: the colour at `lx` cells behind the nose and `dy` rows below the row
/// above the roof. The nose slopes over the first two cells; above the roof stands the pantograph,
/// below the body two bogies.
pub open spec fn tram_cell(lx: int, dy: int) -> Option<u32> {
    if (3 <= lx <= 7 || 18 <= lx <= 22) && dy == 12 {
        Some(T_DK)  // bogies

    } else if (lx == 4 || lx == 6 || lx == 19 || lx == 21) && (dy == 13 || dy == 14) {
        Some(T_WHEEL)
    } else if 17 <= lx <= 21 && dy == -2 || lx == 19 && dy == -1 {
        Some(T_DK)  // pantograph reaching up toward the wire

    } else if lx == 19 && dy == 0 {
        Some(T_HI)
    } else if lx == 0 && (dy == 8 || dy == 9) {
        Some(T_HEAD)  // headlight on the nose

    } else if lx == 0 && dy == 10 {
        Some(T_HI)
    } else if lx == 1 && dy == 9 {
        Some(T_GLOW)
    } else if 3 <= lx <= 5 && 3 <= dy <= 7 {
        if Z_GLYPH@[dy - 3]@[lx - 3] == 1 {
            Some(T_BLIND)  // front route blind

        } else {
            Some(T_BLIND_BG)
        }
    } else if 10 <= lx <= 11 && 3 <= dy <= 5 {
        Some(T_LITWIN)
    } else if 8 <= lx <= 25 && (lx - 8) % 3 != 2 && 3 <= dy <= 6 {
        Some(T_GLASS)  // windows with thin mullions

    } else if 1 <= lx <= 26 && dy == 11 {
        Some(T_DK)  // skirt shadow

    } else if 2 <= lx <= 26 && dy == 1 {
        Some(T_HI)  // roof highlight

    } else if 0 <= lx <= 27 && dy <= 11 && dy >= (if lx == 0 {
        4
    } else if lx == 1 {
        2
    } else {
        1int
    }) {
        Some(T_BODY)
    } else {
        None
    }
}

/// The tram whose left edge is at column `ox`, nose leading right.
pub open spec fn tram_layer(ox: int) -> Layer {
    |px: int, py: int|
        match tram_cell(ox + 27 - px, py - 34) {
            Some(hex) => Some(rgb(hex)),
            None => None,
        }
}

/// Catenary wire above, running rail with a sleeper every fifth column below.
pub open spec fn track_layer() -> Layer {
    |px: int, py: int|
        if py == 28 {
            Some(rgb(WIRE))
        } else if py == 50 {
            Some(rgb(RAIL))
        } else if py == 51 && px % 5 == 2 {
            Some(rgb(SLEEP))
        } else {
            None
        }
}

/// Column of the tram's left edge at `frame`: it enters from the left and exits on the right, one
/// pass per cycle.
pub open spec fn tram_x(frame: int) -> int {
    -28 + frame % 48 * 92 / 48
}

/// The rolling-tram scene.
pub open spec fn scene_layer(frame: int) -> Layer {
    over(tram_layer(tram_x(frame)), track_layer())
}

/// At the start of a pass the tram is out of sight on the left, it never leaves to the right
/// before the pass is over, and it never rolls back during one.
#[verifier::spinoff_prover]
pub proof fn lemma_tram_pass(frame: int)
    requires
        0 <= frame,
    ensures
        frame % 48 == 0 ==> tram_x(frame) == -28,
        -28 <= tram_x(frame) < 64,
        frame % 48 < 47 ==> tram_x(frame) <= tram_x(frame + 1),
        frame % 48 == 47 ==> tram_x(frame) == 62,
        tram_x(frame + 48) == tram_x(frame),
{
    let p = frame % 48;
    assert(p < 47 ==> (frame + 1) % 48 == p + 1);
    assert((frame + 48) % 48 == p);
    assert(0 <= p * 92 / 48 < 92 && p * 92 / 48 <= (p + 1) * 92 / 48);
}

/// The tram rolls as one piece: at another column it has the same picture, moved. It stands on the
/// rail, below the wire, and the track shows wherever the tram does not.
pub proof fn lemma_tram_is_rigid(ox: int, by: int, frame: int, x: int, y: int)
    ensures
        tram_layer(ox + by)(x + by, y) == tram_layer(ox)(x, y),
        tram_layer(ox)(x, y) is Some ==> ox <= x < ox + 28 && 32 <= y < 49,
        tram_layer(tram_x(frame))(x, y) is Some ==> scene_layer(frame)(x, y) == tram_layer(
            tram_x(frame),
        )(x, y),
        tram_layer(tram_x(frame))(x, y) is None && y == 28 ==> scene_layer(frame)(x, y) == Some(
            rgb(WIRE),
        ),
        tram_layer(tram_x(frame))(x, y) is None && y == 50 ==> scene_layer(frame)(x, y) == Some(
            rgb(RAIL),
        ),
        scene_layer(frame)(x, y) is Some ==> 28 <= y <= 51,
{
}

/// The cells `lx0..=lx1` of the tram in the rows `dy0..=dy1`, all in one colour.
spec fn tram_part(ox: int, lx0: int, lx1: int, dy0: int, dy1: int, hex: u32) -> Layer {
    |px: int, py: int|
        if lx0 <= ox + 27 - px <= lx1 && dy0 <= py - 34 <= dy1 {
            Some(rgb(hex))
        } else {
            None
        }
}

/// Paint the cells `lx0..=lx1` of the tram whose left edge is at column `ox`, in the rows
/// `dy0..=dy1`. The tram is modelled nose-first (local x=0 is the nose) and mirrored so the nose
/// leads right.
fn tram_rect(fb: &mut Panel, ox: i32, lx0: i32, lx1: i32, dy0: i32, dy1: i32, hex: u32)
    requires
        old(fb).wf(),
        -28 <= ox <= 64,
        0 <= lx0 <= lx1 <= 27,
        -2 <= dy0 <= dy1 <= 14,
    ensures
        final(fb).painted(
            *old(fb),
            tram_part(ox as int, lx0 as int, lx1 as int, dy0 as int, dy1 as int, hex),
        ),
{
    let ghost f0 = *fb;
    let x0: i32 = ox + (TW - 1 - lx1);
    let x1: i32 = ox + (TW - lx0);
    let y0: i32 = TRAIN_TOP + dy0;
    let y1: i32 = TRAIN_TOP + dy1 + 1;
    fill_span(fb, x0, y0, x1, y1, rgb(hex));
    proof {
        lemma_paint_same(
            f0,
            *fb,
            block(x0 as int, y0 as int, x1 - x0, y1 - y0, rgb(hex)),
            tram_part(ox as int, lx0 as int, lx1 as int, dy0 as int, dy1 as int, hex),
        );
    }
}

/// Body with its sloped nose, roof highlight and skirt shadow.
spec fn hull_layer(ox: int) -> Layer {
    |px: int, py: int|
        {
            let lx = ox + 27 - px;
            let dy = py - 34;
            if 1 <= lx <= 26 && dy == 11 {
                Some(rgb(T_DK))
            } else if 2 <= lx <= 26 && dy == 1 {
                Some(rgb(T_HI))
            } else if 0 <= lx <= 27 && dy <= 11 && dy >= (if lx == 0 {
                4
            } else if lx == 1 {
                2
            } else {
                1int
            }) {
                Some(rgb(T_BODY))
            } else {
                None
            }
        }
}

fn draw_hull(fb: &mut Panel, ox: i32)
    requires
        old(fb).wf(),
        -28 <= ox <= 64,
    ensures
        final(fb).painted(*old(fb), hull_layer(ox as int)),
{
    let ghost f0 = *fb;
    let ghost o = ox as int;
    tram_rect(fb, ox, 0, 0, 4, 11, T_BODY);
    let ghost f1 = *fb;
    let ghost l1 = tram_part(o, 0, 0, 4, 11, T_BODY);
    tram_rect(fb, ox, 1, 1, 2, 11, T_BODY);
    let ghost f2 = *fb;
    let ghost l2 = tram_part(o, 1, 1, 2, 11, T_BODY);
    tram_rect(fb, ox, 2, TW - 1, 1, 11, T_BODY);
    let ghost f3 = *fb;
    let ghost l3 = tram_part(o, 2, 27, 1, 11, T_BODY);
    tram_rect(fb, ox, 2, TW - 2, 1, 1, T_HI);  // roof highlight
    let ghost f4 = *fb;
    let ghost l4 = tram_part(o, 2, 26, 1, 1, T_HI);
    tram_rect(fb, ox, 1, TW - 2, 11, 11, T_DK);  // skirt shadow
    proof {
        let l5 = tram_part(o, 1, 26, 11, 11, T_DK);
        lemma_paint_over(f0, f1, f2, l1, l2);
        lemma_paint_over(f0, f2, f3, over(l2, l1), l3);
        lemma_paint_over(f0, f3, f4, over(l3, over(l2, l1)), l4);
        let stack = over(l5, over(l4, over(l3, over(l2, l1))));
        lemma_paint_over(f0, f4, *fb, over(l4, over(l3, over(l2, l1))), l5);
        assert(same(stack, hull_layer(o)));
        lemma_paint_same(f0, *fb, stack, hull_layer(o));
    }
}

/// Dark windows up to cell `end`, and the lit one once `lit` is set.
spec fn glass_layer(ox: int, end: int, lit: bool) -> Layer {
    |px: int, py: int|
        {
            let lx = ox + 27 - px;
            let dy = py - 34;
            if lit && 10 <= lx <= 11 && 3 <= dy <= 5 {
                Some(rgb(T_LITWIN))
            } else if 8 <= lx < end && (lx - 8) % 3 != 2 && 3 <= dy <= 6 {
                Some(rgb(T_GLASS))
            } else {
                None
            }
        }
}

fn draw_windows(fb: &mut Panel, ox: i32)
    requires
        old(fb).wf(),
        -28 <= ox <= 64,
    ensures
        final(fb).painted(*old(fb), glass_layer(ox as int, 26, true)),
{
    let ghost f0 = *fb;
    let ghost o = ox as int;
    proof {
        lemma_paint_nothing(f0, glass_layer(o, 8, false));
    }
    let mut lx: i32 = 8;
    while lx < TW - 2
        invariant
            f0.wf(),
            -28 <= ox <= 64,
            o == ox,
            8 <= lx <= 26,
            fb.painted(f0, glass_layer(o, lx as int, false)),
        decreases 26 - lx,
    {
        let ghost f1 = *fb;
        if (lx - 8) % 3 != 2 {
            tram_rect(fb, ox, lx, lx, 3, 6, T_GLASS);
            proof {
                let column = tram_part(o, lx as int, lx as int, 3, 6, T_GLASS);
                lemma_paint_over(f0, f1, *fb, glass_layer(o, lx as int, false), column);
                assert(same(
                    over(column, glass_layer(o, lx as int, false)),
                    glass_layer(o, lx + 1, false),
                ));
                lemma_paint_same(
                    f0,
                    *fb,
                    over(column, glass_layer(o, lx as int, false)),
                    glass_layer(o, lx + 1, false),
                );
            }
        } else {
            proof {
                assert(same(glass_layer(o, lx as int, false), glass_layer(o, lx + 1, false)));
                lemma_paint_same(
                    f0,
                    *fb,
                    glass_layer(o, lx as int, false),
                    glass_layer(o, lx + 1, false),
                );
            }
        }
        lx = lx + 1;
    }
    let ghost f2 = *fb;
    tram_rect(fb, ox, 10, 11, 3, 5, T_LITWIN);
    proof {
        let window = tram_part(o, 10, 11, 3, 5, T_LITWIN);
        lemma_paint_over(f0, f2, *fb, glass_layer(o, 26, false), window);
        assert(same(over(window, glass_layer(o, 26, false)), glass_layer(o, 26, true)));
        lemma_paint_same(
            f0,
            *fb,
            over(window, glass_layer(o, 26, false)),
            glass_layer(o, 26, true),
        );
    }
}

/// The cells of the route blind before cell `(j, i)`, in reading order: a lit "Z" on a dark sign.
spec fn blind_layer(ox: int, j: int, i: int) -> Layer {
    |px: int, py: int|
        {
            let gx = ox + 24 - px;
            let gy = py - 37;
            if 0 <= gx < 3 && 0 <= gy < 5 && (gy < i || gy == i && gx < j) {
                if Z_GLYPH@[gy]@[gx] == 1 {
                    Some(rgb(T_BLIND))
                } else {
                    Some(rgb(T_BLIND_BG))
                }
            } else {
                None
            }
        }
}

fn draw_blind(fb: &mut Panel, ox: i32)
    requires
        old(fb).wf(),
        -28 <= ox <= 64,
    ensures
        final(fb).painted(*old(fb), blind_layer(ox as int, 0, 5)),
{
    let ghost f0 = *fb;
    let ghost o = ox as int;
    proof {
        lemma_paint_nothing(f0, blind_layer(o, 0, 0));
    }
    let mut gy: i32 = 0;
    while gy < 5
        invariant
            f0.wf(),
            -28 <= ox <= 64,
            o == ox,
            0 <= gy <= 5,
            fb.painted(f0, blind_layer(o, 0, gy as int)),
        decreases 5 - gy,
    {
        let mut gx: i32 = 0;
        while gx < 3
            invariant
                f0.wf(),
                -28 <= ox <= 64,
                o == ox,
                0 <= gy < 5,
                0 <= gx <= 3,
                fb.painted(f0, blind_layer(o, gx as int, gy as int)),
            decreases 3 - gx,
        {
            let ghost f1 = *fb;
            let hex: u32 = if Z_GLYPH[gy as usize][gx as usize] == 1 {
                T_BLIND
            } else {
                T_BLIND_BG
            };
            tram_rect(fb, ox, 3 + gx, 3 + gx, 3 + gy, 3 + gy, hex);
            proof {
                let cell = tram_part(o, 3 + gx, 3 + gx, 3 + gy, 3 + gy, hex);
                let done = blind_layer(o, gx as int, gy as int);
                let next = blind_layer(o, gx + 1, gy as int);
                lemma_paint_over(f0, f1, *fb, done, cell);
                assert(same(over(cell, done), next));
                lemma_paint_same(f0, *fb, over(cell, done), next);
            }
            gx = gx + 1;
        }
        proof {
            assert(same(blind_layer(o, 3, gy as int), blind_layer(o, 0, gy + 1)));
            lemma_paint_same(f0, *fb, blind_layer(o, 3, gy as int), blind_layer(o, 0, gy + 1));
        }
        gy = gy + 1;
    }
}

/// Headlight, pantograph and bogies.
spec fn fittings_layer(ox: int) -> Layer {
    |px: int, py: int|
        {
            let lx = ox + 27 - px;
            let dy = py - 34;
            if (3 <= lx <= 7 || 18 <= lx <= 22) && dy == 12 {
                Some(rgb(T_DK))
            } else if (lx == 4 || lx == 6 || lx == 19 || lx == 21) && (dy == 13 || dy == 14) {
                Some(rgb(T_WHEEL))
            } else if 17 <= lx <= 21 && dy == -2 || lx == 19 && dy == -1 {
                Some(rgb(T_DK))
            } else if lx == 19 && dy == 0 {
                Some(rgb(T_HI))
            } else if lx == 0 && (dy == 8 || dy == 9) {
                Some(rgb(T_HEAD))
            } else if lx == 0 && dy == 10 {
                Some(rgb(T_HI))
            } else if lx == 1 && dy == 9 {
                Some(rgb(T_GLOW))
            } else {
                None
            }
        }
}

/// One bogie (truck) with two wheelsets, its first cell at tram-local `lx`.
spec fn bogie_layer(ox: int, lx: int) -> Layer {
    |px: int, py: int|
        {
            let i = ox + 27 - px - lx;
            if 0 <= i <= 4 && py == 46 {
                Some(rgb(T_DK))
            } else if (i == 1 || i == 3) && (py == 47 || py == 48) {
                Some(rgb(T_WHEEL))
            } else {
                None
            }
        }
}

fn bogie(fb: &mut Panel, ox: i32, lx: i32)
    requires
        old(fb).wf(),
        -28 <= ox <= 64,
        0 <= lx <= 23,
    ensures
        final(fb).painted(*old(fb), bogie_layer(ox as int, lx as int)),
{
    let ghost f0 = *fb;
    let ghost o = ox as int;
    tram_rect(fb, ox, lx, lx + 4, 12, 12, T_DK);
    let ghost f1 = *fb;
    let ghost l1 = tram_part(o, lx as int, lx + 4, 12, 12, T_DK);
    tram_rect(fb, ox, lx + 1, lx + 1, 13, 14, T_WHEEL);
    let ghost f2 = *fb;
    let ghost l2 = tram_part(o, lx + 1, lx + 1, 13, 14, T_WHEEL);
    tram_rect(fb, ox, lx + 3, lx + 3, 13, 14, T_WHEEL);
    proof {
        let l3 = tram_part(o, lx + 3, lx + 3, 13, 14, T_WHEEL);
        lemma_paint_over(f0, f1, f2, l1, l2);
        let stack = over(l3, over(l2, l1));
        lemma_paint_over(f0, f2, *fb, over(l2, l1), l3);
        assert(same(stack, bogie_layer(o, lx as int)));
        lemma_paint_same(f0, *fb, stack, bogie_layer(o, lx as int));
    }
}

fn draw_fittings(fb: &mut Panel, ox: i32)
    requires
        old(fb).wf(),
        -28 <= ox <= 64,
    ensures
        final(fb).painted(*old(fb), fittings_layer(ox as int)),
{
    let ghost f0 = *fb;
    let ghost o = ox as int;
    // Headlight on the nose.
    tram_rect(fb, ox, 0, 0, 8, 9, T_HEAD);
    let ghost f1 = *fb;
    let ghost l1 = tram_part(o, 0, 0, 8, 9, T_HEAD);
    tram_rect(fb, ox, 0, 0, 10, 10, T_HI);
    let ghost f2 = *fb;
    let ghost l2 = tram_part(o, 0, 0, 10, 10, T_HI);
    tram_rect(fb, ox, 1, 1, 9, 9, T_GLOW);
    let ghost f3 = *fb;
    let ghost l3 = tram_part(o, 1, 1, 9, 9, T_GLOW);
    // Pantograph reaching up toward the wire.
    tram_rect(fb, ox, TW - 9, TW - 9, 0, 0, T_HI);
    let ghost f4 = *fb;
    let ghost l4 = tram_part(o, 19, 19, 0, 0, T_HI);
    tram_rect(fb, ox, TW - 9, TW - 9, -1, -1, T_DK);
    let ghost f5 = *fb;
    let ghost l5 = tram_part(o, 19, 19, -1, -1, T_DK);
    tram_rect(fb, ox, TW - 11, TW - 7, -2, -2, T_DK);
    let ghost f6 = *fb;
    let ghost l6 = tram_part(o, 17, 21, -2, -2, T_DK);
    // Bogies.
    bogie(fb, ox, 3);
    let ghost f7 = *fb;
    let ghost l7 = bogie_layer(o, 3);
    bogie(fb, ox, 18);
    proof {
        let l8 = bogie_layer(o, 18);
        lemma_paint_over(f0, f1, f2, l1, l2);
        let s2 = over(l2, l1);
        lemma_paint_over(f0, f2, f3, s2, l3);
        let s3 = over(l3, s2);
        lemma_paint_over(f0, f3, f4, s3, l4);
        let s4 = over(l4, s3);
        lemma_paint_over(f0, f4, f5, s4, l5);
        let s5 = over(l5, s4);
        lemma_paint_over(f0, f5, f6, s5, l6);
        let s6 = over(l6, s5);
        lemma_paint_over(f0, f6, f7, s6, l7);
        let s7 = over(l7, s6);
        lemma_paint_over(f0, f7, *fb, s7, l8);
        assert(same(over(l8, s7), fittings_layer(o)));
        lemma_paint_same(f0, *fb, over(l8, s7), fittings_layer(o));
    }
}

fn draw_tram(fb: &mut Panel, ox: i32)
    requires
        old(fb).wf(),
        -28 <= ox <= 64,
    ensures
        final(fb).painted(*old(fb), tram_layer(ox as int)),
{
    let ghost f0 = *fb;
    let ghost o = ox as int;
    draw_hull(fb, ox);
    let ghost f1 = *fb;
    draw_windows(fb, ox);
    let ghost f2 = *fb;
    draw_blind(fb, ox);
    let ghost f3 = *fb;
    draw_fittings(fb, ox);
    proof {
        let l1 = hull_layer(o);
        let l2 = glass_layer(o, 26, true);
        let l3 = blind_layer(o, 0, 5);
        let l4 = fittings_layer(o);
        lemma_paint_over(f0, f1, f2, l1, l2);
        lemma_paint_over(f0, f2, f3, over(l2, l1), l3);
        let stack = over(l4, over(l3, over(l2, l1)));
        lemma_paint_over(f0, f3, *fb, over(l3, over(l2, l1)), l4);
        assert(same(stack, tram_layer(o)));
        lemma_paint_same(f0, *fb, stack, tram_layer(o));
    }
}

/// The sleepers left of column `end`.
spec fn sleepers_layer(end: int) -> Layer {
    |px: int, py: int|
        if py == 51 && px % 5 == 2 && 0 <= px < end {
            Some(rgb(SLEEP))
        } else {
            None
        }
}

fn draw_sleepers(fb: &mut Panel)
    requires
        old(fb).wf(),
    ensures
        final(fb).painted(*old(fb), sleepers_layer(64)),
{
    let ghost f0 = *fb;
    proof {
        lemma_paint_nothing(f0, sleepers_layer(2));
    }
    let mut sx: i32 = 2;
    while sx < COLS as i32
        invariant
            f0.wf(),
            2 <= sx <= 67,
            sx % 5 == 2,
            fb.painted(f0, sleepers_layer(sx as int)),
        decreases 67 - sx,
    {
        let ghost f1 = *fb;
        pset(fb, sx, RAIL_Y + 1, rgb(SLEEP));
        proof {
            let sleeper = dot(sx as int, 51, rgb(SLEEP));
            lemma_paint_over(f0, f1, *fb, sleepers_layer(sx as int), sleeper);
            assert(same(over(sleeper, sleepers_layer(sx as int)), sleepers_layer(sx + 5)));
            lemma_paint_same(
                f0,
                *fb,
                over(sleeper, sleepers_layer(sx as int)),
                sleepers_layer(sx + 5),
            );
        }
        sx = sx + 5;
    }
    proof {
        assert(same(sleepers_layer(sx as int), sleepers_layer(64)));
        lemma_paint_same(f0, *fb, sleepers_layer(sx as int), sleepers_layer(64));
    }
}

/// Draw one frame of the rolling-tram scene (catenary, rail, and the tram itself), shared by the
/// startup "connecting" screen and the offline/reconnecting fallback. The caller draws whatever
/// label sits above it.
pub fn draw_tram_scene(fb: &mut Panel, frame: u32)
    requires
        old(fb).wf(),
    ensures
        final(fb).painted(*old(fb), scene_layer(frame as int)),
{
    let ghost f0 = *fb;
    // Catenary wire above, running rail with sleepers below.
    rule(fb, WIRE_Y, rgb(WIRE));
    let ghost f1 = *fb;
    rule(fb, RAIL_Y, rgb(RAIL));
    let ghost f2 = *fb;
    draw_sleepers(fb);
    let ghost f3 = *fb;
    // Tram x: nose enters from the left, exits on the right; one pass per cycle.
    let phase: i32 = (frame % CONNECT_CYCLE_FRAMES) as i32;
    let ox: i32 = -TW + phase * CONNECT_SPAN / CONNECT_CYCLE_FRAMES as i32;
    draw_tram(fb, ox);
    proof {
        let l1 = block(0, 28, 64, 1, rgb(WIRE));
        let l2 = block(0, 50, 64, 1, rgb(RAIL));
        let l3 = sleepers_layer(64);
        lemma_paint_over(f0, f1, f2, l1, l2);
        lemma_paint_over(f0, f2, f3, over(l2, l1), l3);
        let track = over(l3, over(l2, l1));
        assert(same(track, track_layer()));
        lemma_paint_same(f0, f3, track, track_layer());
        lemma_paint_over(f0, f3, *fb, track_layer(), tram_layer(ox as int));
    }
}

/// The connecting screen.
pub open spec fn connecting_layer(frame: int) -> Layer {
    over(
        scene_layer(frame),
        text_layer(in_style(Font::Small, AMBER), "Connecting"@, centre_x(10, 5), 6),
    )
}

/// While connecting, the panel says so above the rolling tram, and when offline it says that.
pub proof fn lemma_tram_labels(frame: int, x: int, y: int)
    requires
        scene_layer(frame)(x, y) is None,
    ensures
        connecting_layer(frame)(x, y) == text_layer(
            in_style(Font::Small, AMBER),
            "Connecting"@,
            centre_x("Connecting"@.len() as int, 5),
            6,
        )(x, y),
        ({
            let upper = text_layer(
                in_style(Font::Small, AMBER),
                "offline"@,
                centre_x("offline"@.len() as int, 5),
                4,
            )(x, y);
            let lower = text_layer(
                in_style(Font::Small, AMBER),
                "reconnecting"@,
                centre_x("reconnecting"@.len() as int, 5),
                13,
            )(x, y);
            offline_layer(frame)(x, y) == (if lower is Some {
                lower
            } else {
                upper
            })
        }),
{
    reveal_strlit("Connecting");
    reveal_strlit("offline");
    reveal_strlit("reconnecting");
}

/// Draw one frame of the connecting animation. Always returns `true` (always animating).
pub fn draw_connecting(fb: &mut Panel, frame: u32) -> (r: bool)
    requires
        old(fb).wf(),
    ensures
        r,
        final(fb).painted(*old(fb), connecting_layer(frame as int)),
{
    proof {
        reveal_strlit("Connecting");
    }
    let ghost f0 = *fb;
    // Label at the top so the user knows what's happening while WiFi comes up.
    centered(fb, "Connecting", 6, style(Font::Small, rgb(AMBER)), 5);
    let ghost f1 = *fb;
    draw_tram_scene(fb, frame);
    proof {
        lemma_paint_over(
            f0,
            f1,
            *fb,
            text_layer(in_style(Font::Small, AMBER), "Connecting"@, centre_x(10, 5), 6),
            scene_layer(frame as int),
        );
    }
    true
}

/// The offline screen.
pub open spec fn offline_layer(frame: int) -> Layer {
    over(
        scene_layer(frame),
        over(
            text_layer(in_style(Font::Small, AMBER), "reconnecting"@, centre_x(12, 5), 13),
            text_layer(in_style(Font::Small, AMBER), "offline"@, centre_x(7, 5), 4),
        ),
    )
}

/// Offline fallback: the same rolling-tram scene as [`draw_connecting`], but labelled "offline /
/// reconnecting" on two lines while the poll task keeps retrying. Always animating.
pub fn draw_offline(fb: &mut Panel, frame: u32) -> (r: bool)
    requires
        old(fb).wf(),
    ensures
        r,
        final(fb).painted(*old(fb), offline_layer(frame as int)),
{
    proof {
        reveal_strlit("offline");
        reveal_strlit("reconnecting");
    }
    let ghost f0 = *fb;
    let label = style(Font::Small, rgb(AMBER));
    centered(fb, "offline", 4, label, 5);
    let ghost f1 = *fb;
    centered(fb, "reconnecting", 13, label, 5);
    let ghost f2 = *fb;
    draw_tram_scene(fb, frame);
    proof {
        let l1 = text_layer(label, "offline"@, centre_x(7, 5), 4);
        let l2 = text_layer(label, "reconnecting"@, centre_x(12, 5), 13);
        lemma_paint_over(f0, f1, f2, l1, l2);
        lemma_paint_over(f0, f2, *fb, over(l2, l1), scene_layer(frame as int));
    }
    true
}

/// An IPv4 address in dotted notation.
pub open spec fn dotted(o: Seq<u8>) -> Seq<char> {
    dec(o[0] as nat) + "."@ + dec(o[1] as nat) + "."@ + dec(o[2] as nat) + "."@ + dec(o[3] as nat)
}

/// The address line of the idle screen.
pub open spec fn address_text(o: Seq<u8>) -> Seq<char> {
    "zugli.local or "@ + dotted(o)
}

/// The address line of the idle screen: mDNS name first, IP as a fallback.
pub fn address_line(octets: [u8; 4]) -> (r: String)
    ensures
        r@ == address_text(octets@),
        22 <= r@.len() <= 30,
{
    proof {
        reveal_strlit("zugli.local or ");
        reveal_strlit(".");
        reveal_with_fuel(crate::text::pow10, 4);
        lemma_dec(octets@[0] as nat, 3);
        lemma_dec(octets@[1] as nat, 3);
        lemma_dec(octets@[2] as nat, 3);
        lemma_dec(octets@[3] as nat, 3);
        crate::text::lemma_ascii_len("zugli.local or "@);
        crate::text::lemma_ascii_len("."@);
        crate::text::lemma_ascii_len(Seq::<char>::empty());
    }
    let a = decimal(octets[0] as u64);
    let b = decimal(octets[1] as u64);
    let c = decimal(octets[2] as u64);
    let d = decimal(octets[3] as u64);
    let mut addr = String::new();
    let ghost t0 = addr@;
    let _ = put::<32>(&mut addr, "zugli.local or ");
    let ghost t1 = addr@;
    proof {
        crate::text::lemma_utf8_len_concat(t0, "zugli.local or "@);
    }
    let _ = put::<32>(&mut addr, a.as_str());
    let ghost t2 = addr@;
    proof {
        crate::text::lemma_utf8_len_concat(t1, a@);
    }
    let _ = put::<32>(&mut addr, ".");
    let ghost t3 = addr@;
    proof {
        crate::text::lemma_utf8_len_concat(t2, "."@);
    }
    let _ = put::<32>(&mut addr, b.as_str());
    let ghost t4 = addr@;
    proof {
        crate::text::lemma_utf8_len_concat(t3, b@);
    }
    let _ = put::<32>(&mut addr, ".");
    let ghost t5 = addr@;
    proof {
        crate::text::lemma_utf8_len_concat(t4, "."@);
    }
    let _ = put::<32>(&mut addr, c.as_str());
    let ghost t6 = addr@;
    proof {
        crate::text::lemma_utf8_len_concat(t5, c@);
    }
    let _ = put::<32>(&mut addr, ".");
    let ghost t7 = addr@;
    proof {
        crate::text::lemma_utf8_len_concat(t6, "."@);
    }
    let _ = put::<32>(&mut addr, d.as_str());
    assert(addr@ =~= address_text(octets@));
    addr
}

/// The address can be read off the idle screen: behind "zugli.local or " stand the four numbers in
/// their order, with a dot between neighbours.
pub proof fn lemma_address_reads_back(o: Seq<u8>) -> (dots: (int, int, int))
    requires
        o.len() == 4,
    ensures
        ({
            let t = address_text(o);
            let (d1, d2, d3) = dots;
            &&& t.subrange(0, 15) == "zugli.local or "@
            &&& 15 < d1 < d2 < d3 < t.len()
            &&& t[d1] == '.' && t[d2] == '.' && t[d3] == '.'
            &&& crate::text::value(t.subrange(15, d1)) == o[0]
            &&& crate::text::value(t.subrange(d1 + 1, d2)) == o[1]
            &&& crate::text::value(t.subrange(d2 + 1, d3)) == o[2]
            &&& crate::text::value(t.skip(d3 + 1)) == o[3]
        }),
{
    reveal_strlit("zugli.local or ");
    reveal_strlit(".");
    let (a, b, c, d) = (dec(o[0] as nat), dec(o[1] as nat), dec(o[2] as nat), dec(o[3] as nat));
    reveal_with_fuel(crate::text::pow10, 4);
    lemma_dec(o[0] as nat, 3);
    lemma_dec(o[1] as nat, 3);
    lemma_dec(o[2] as nat, 3);
    lemma_dec(o[3] as nat, 3);
    lemma_dec_value(o[0] as nat);
    lemma_dec_value(o[1] as nat);
    lemma_dec_value(o[2] as nat);
    lemma_dec_value(o[3] as nat);
    let t = address_text(o);
    let d1 = 15 + a.len() as int;
    let d2 = d1 + 1 + b.len() as int;
    let d3 = d2 + 1 + c.len() as int;
    assert(t.subrange(0, 15) =~= "zugli.local or "@);
    assert(t.subrange(15, d1) =~= a);
    assert(t.subrange(d1 + 1, d2) =~= b);
    assert(t.subrange(d2 + 1, d3) =~= c);
    assert(t.skip(d3 + 1) =~= d);
    (d1, d2, d3)
}

/// An octet and what follows its dot can be told apart.
proof fn lemma_octet(a: u8, rest_a: Seq<char>, b: u8, rest_b: Seq<char>)
    requires
        dec(a as nat) + ("."@ + rest_a) == dec(b as nat) + ("."@ + rest_b),
    ensures
        a == b,
        rest_a == rest_b,
{
    reveal_strlit(".");
    reveal_with_fuel(crate::text::pow10, 4);
    lemma_dec(a as nat, 3);
    lemma_dec(b as nat, 3);
    lemma_split(dec(a as nat), "."@ + rest_a, dec(b as nat), "."@ + rest_b, '.');
    lemma_dec_value(a as nat);
    lemma_dec_value(b as nat);
    assert(rest_a =~= ("."@ + rest_a).skip(1));
    assert(rest_b =~= ("."@ + rest_b).skip(1));
}

/// An address in dotted notation, octet by octet.
proof fn lemma_dotted(o: Seq<u8>)
    ensures
        dotted(o) == dec(o[0] as nat) + ("."@ + (dec(o[1] as nat) + ("."@ + (dec(o[2] as nat) + (
        "."@ + dec(o[3] as nat)))))),
{
    let (a, b, c, d) = (dec(o[0] as nat), dec(o[1] as nat), dec(o[2] as nat), dec(o[3] as nat));
    let dot = "."@;
    assert(a + dot + b + dot + c + dot + d =~= a + (dot + (b + (dot + (c + (dot + d))))));
}

/// The address can be read off the idle screen: two addresses are written differently.
pub proof fn lemma_addresses_differ(a: Seq<u8>, b: Seq<u8>)
    requires
        a.len() == 4,
        b.len() == 4,
        address_text(a) == address_text(b),
    ensures
        a == b,
{
    let n = "zugli.local or "@.len() as int;
    assert(address_text(a).skip(n) =~= dotted(a));
    assert(address_text(b).skip(n) =~= dotted(b));
    lemma_dotted(a);
    lemma_dotted(b);
    let (a3, b3) = (dec(a[3] as nat), dec(b[3] as nat));
    let (a2, b2) = (dec(a[2] as nat) + ("."@ + a3), dec(b[2] as nat) + ("."@ + b3));
    lemma_octet(
        a[0],
        dec(a[1] as nat) + ("."@ + a2),
        b[0],
        dec(b[1] as nat) + ("."@ + b2),
    );
    lemma_octet(a[1], a2, b[1], b2);
    lemma_octet(a[2], a3, b[2], b3);
    lemma_dec_value(a[3] as nat);
    lemma_dec_value(b[3] as nat);
    assert(a =~= b);
}

/// The idle screen.
pub open spec fn idle_layer(octets: Seq<u8>, frame: int) -> Layer {
    over(
        marquee_layer(
            in_style(Font::Small, ACCENT),
            address_text(octets),
            2,
            42,
            62,
            5,
            frame,
        ),
        over(
            text_layer(in_style(Font::Small, DIM), "Open:"@, 2, 32),
            over(
                bitmap_layer(ARROW_GLYPH, 54, 13, 1, rgb(ACCENT), None),
                over(
                    text_layer(in_style(Font::Small, AMBER), "connection"@, 2, 12),
                    text_layer(in_style(Font::Small, AMBER), "Choose a"@, 2, 2),
                ),
            ),
        ),
    )
}

/// The idle screen asks for a connection and gives the device's address, in a line that scrolls on
/// top of everything else.
pub proof fn lemma_idle_screen(octets: Seq<u8>, frame: int, x: int, y: int)
    ensures
        ({
            let shown = idle_layer(octets, frame)(x, y);
            let address = marquee_layer(
                in_style(Font::Small, ACCENT),
                address_text(octets),
                2,
                42,
                62,
                5,
                frame,
            )(x, y);
            let open = text_layer(in_style(Font::Small, DIM), "Open:"@, 2, 32)(x, y);
            let arrow = bitmap_layer(ARROW_GLYPH, 54, 13, 1, rgb(ACCENT), None)(x, y);
            let lower = text_layer(in_style(Font::Small, AMBER), "connection"@, 2, 12)(x, y);
            let upper = text_layer(in_style(Font::Small, AMBER), "Choose a"@, 2, 2)(x, y);
            &&& address is Some ==> shown == address
            &&& address is None && open is Some ==> shown == open
            &&& address is None && open is None && arrow is Some ==> shown == arrow
            &&& address is None && open is None && arrow is None && lower is Some ==> shown == lower
            &&& address is None && open is None && arrow is None && lower is None ==> shown == upper
        }),
{
}

/// The board is on WiFi but no connection is picked yet. Lead with the call to action (too wide
/// for one line at this font, so split over two with a right arrow), then how to reach the config
/// page on one scrolling line: it is always wider than the panel.
pub fn draw_idle(fb: &mut Panel, octets: [u8; 4], frame: u32) -> (r: bool)
    requires
        old(fb).wf(),
    ensures
        r,
        final(fb).painted(*old(fb), idle_layer(octets@, frame as int)),
{
    proof {
        reveal_strlit("Choose a");
        reveal_strlit("connection");
        reveal_strlit("Open:");
    }
    let ghost f0 = *fb;
    let accent = style(Font::Small, rgb(ACCENT));
    let amber = style(Font::Small, rgb(AMBER));
    let dim = style(Font::Small, rgb(DIM));
    left(fb, "Choose a", 2, 2, amber);
    let ghost f1 = *fb;
    left(fb, "connection", 2, 12, amber);
    let ghost f2 = *fb;
    blit_bitmap(fb, &ARROW_GLYPH, 54, 13, 1, rgb(ACCENT));
    let ghost f3 = *fb;
    left(fb, "Open:", 2, 32, dim);
    let ghost f4 = *fb;
    let addr = address_line(octets);
    let r = draw_marquee(fb, addr.as_str(), 2, 42, COLS as i32 - 2, accent, 5, frame);
    proof {
        let l1 = text_layer(amber, "Choose a"@, 2, 2);
        let l2 = text_layer(amber, "connection"@, 2, 12);
        let l3 = bitmap_layer(ARROW_GLYPH, 54, 13, 1, rgb(ACCENT), None);
        let l4 = text_layer(dim, "Open:"@, 2, 32);
        let l5 = marquee_layer(accent, addr@, 2, 42, 62, 5, frame as int);
        lemma_paint_over(f0, f1, f2, l1, l2);
        lemma_paint_over(f0, f2, f3, over(l2, l1), l3);
        lemma_paint_over(f0, f3, f4, over(l3, over(l2, l1)), l4);
        lemma_paint_over(f0, f4, *fb, over(l4, over(l3, over(l2, l1))), l5);
    }
    r
}

/// A departure's texts are short enough to draw.
proof fn lemma_departure_texts(dep: Departure)
    requires
        dep.wf(),
    ensures
        dep.line@.len() <= 16,
        dep.destination@.len() <= 48,
        forall|strip: bool| #[trigger] shown_name(strip, dep.destination@).len() <= 48,
{
    lemma_utf8_len_bounds(dep.line@);
    lemma_utf8_len_bounds(dep.destination@);
}

/// Left edge of a row's time: right-aligned text, or the pictogram of a departure leaving now,
/// which is centred over the first digit of the other rows' times.
pub open spec fn time_x(minutes: Option<u16>) -> int {
    if minutes == Some(0u16) {
        51
    } else {
        63 - minutes_text(minutes).len() * 5
    }
}

/// Width left for a row's destination, between the line label and the time.
pub open spec fn dest_room(badges: bool, dep: Departure) -> int {
    time_x(dep.minutes) - 2 - (1 + line_label_width(badges, dep.line@) + 2)
}

/// A row's time.
pub open spec fn time_layer(minutes: Option<u16>, ry: int) -> Layer {
    if minutes == Some(0u16) {
        train_layer(51, ry + 4, 1, rgb(ACCENT))
    } else {
        text_layer(
            in_style(Font::Small, ACCENT),
            minutes_text(minutes),
            time_x(minutes),
            ry + 6,
        )
    }
}

/// A row's destination, clipped to the row and to the gap between the line label and the time.
pub open spec fn dest_layer(st: Settings, dep: Departure, ry: int, frame: int) -> Layer {
    let room = dest_room(st.show_line_badges, dep);
    let x = 1 + line_label_width(st.show_line_badges, dep.line@) + 2;
    if room > 0 {
        clip(
            marquee_layer(
                in_style(Font::Small, AMBER),
                shown_name(st.strip_city, dep.destination@),
                x,
                ry + 6,
                room,
                5,
                frame,
            ),
            x,
            ry,
            x + room,
            ry + 17,
        )
    } else {
        clear()
    }
}

/// One row of the board, its top at row `ry`: line label on the left, destination in the middle,
/// time on the right.
pub open spec fn row_layer(st: Settings, dep: Departure, ry: int, frame: int) -> Layer {
    over(
        dest_layer(st, dep, ry, frame),
        over(
            line_label_layer(st.show_line_badges, dep.line@, 1, ry + 3),
            time_layer(dep.minutes, ry),
        ),
    )
}

/// Whether a row's destination scrolls.
pub open spec fn row_scrolls(st: Settings, dep: Departure) -> bool {
    let room = dest_room(st.show_line_badges, dep);
    room > 0 && shown_name(st.strip_city, dep.destination@).len() * 5 > room
}

/// The first `n` rows of the board, 17 pixels each, from row 12 down.
pub open spec fn rows_layer(st: Settings, deps: Seq<Departure>, n: int, frame: int) -> Layer
    decreases n,
{
    if n <= 0 {
        clear()
    } else {
        over(
            row_layer(st, deps[n - 1], 12 + (n - 1) * 17, frame),
            rows_layer(st, deps, n - 1, frame),
        )
    }
}

/// The departures board: the stop on top, a rule, then a row per departure.
pub open spec fn board_layer(
    st: Settings,
    station: Seq<char>,
    deps: Seq<Departure>,
    frame: int,
) -> Layer {
    over(
        if deps.len() == 0 {
            text_layer(in_style(Font::Small, DIM), "no service"@, centre_x(10, 5), 32)
        } else {
            rows_layer(st, deps, deps.len() as int, frame)
        },
        over(
            block(0, 11, 64, 1, rgb(ACCENT)),
            marquee_layer(
                in_style(Font::Medium, AMBER),
                shown_name(st.strip_city, station),
                1,
                0,
                62,
                6,
                frame,
            ),
        ),
    )
}

/// Whether anything on the board scrolls.
pub open spec fn board_scrolls(st: Settings, station: Seq<char>, deps: Seq<Departure>) -> bool {
    ||| shown_name(st.strip_city, station).len() * 6 > 62
    ||| exists|i: int| 0 <= i < deps.len() && row_scrolls(st, #[trigger] deps[i])
}

/// A row consists of a departure's destination, line and time, and paints nothing else: the
/// destination between the line label and the time, clipped to the row; the line at the left edge;
/// the time ending one pixel before the right edge, or a tram front where it leaves now.
pub proof fn lemma_row_parts(st: Settings, dep: Departure, top: int, frame: int, x: int, y: int)
    ensures
        ({
            let shown = row_layer(st, dep, top, frame)(x, y);
            let written = minutes_text(dep.minutes);
            let leaving = dep.minutes == Some(0u16);
            let time_left = if leaving {
                51
            } else {
                63 - 5 * written.len()
            };
            let time = if leaving {
                train_layer(time_left, top + 4, 1, rgb(ACCENT))
            } else {
                text_layer(in_style(Font::Small, ACCENT), written, time_left, top + 6)
            };
            let line = line_label_layer(st.show_line_badges, dep.line@, 1, top + 3);
            let name_left = 3 + line_label_width(st.show_line_badges, dep.line@);
            let name_right = time_left - 2;
            let name = marquee_layer(
                in_style(Font::Small, AMBER),
                shown_name(st.strip_city, dep.destination@),
                name_left,
                top + 6,
                name_right - name_left,
                5,
                frame,
            );
            let named = name_left <= x < name_right && top <= y < top + 17 && name(x, y) is Some;
            shown == (if named {
                name(x, y)
            } else if line(x, y) is Some {
                line(x, y)
            } else {
                time(x, y)
            })
        }),
{
}

/// What a row paints is seen unless a later row paints over it.
proof fn lemma_rows_on_top(
    st: Settings,
    deps: Seq<Departure>,
    n: int,
    frame: int,
    i: int,
    x: int,
    y: int,
)
    requires
        0 <= i < n <= deps.len(),
        forall|j: int|
            i < j < n ==> row_layer(st, #[trigger] deps[j], 12 + j * 17, frame)(x, y) is None,
        row_layer(st, deps[i], 12 + i * 17, frame)(x, y) is Some,
    ensures
        rows_layer(st, deps, n, frame)(x, y) == row_layer(st, deps[i], 12 + i * 17, frame)(x, y),
    decreases n,
{
    if i < n - 1 {
        lemma_rows_on_top(st, deps, n - 1, frame, i, x, y);
        assert(row_layer(st, deps[n - 1], 12 + (n - 1) * 17, frame)(x, y) is None);
    }
}

/// Every departure is on the board, the `i`-th (from 0) in the 17 pixels from row 12 + 17 i down:
/// its destination between the line label and the time, its line at the left edge, and its time
/// ending one pixel before the right edge (a tram front where it leaves now). Each is seen wherever
/// nothing that comes on top of it paints: the destination is on top of the line, the line on top
/// of the time, and a later row on top of an earlier one.
pub proof fn lemma_board_shows_every_departure(
    st: Settings,
    station: Seq<char>,
    deps: Seq<Departure>,
    frame: int,
    i: int,
    x: int,
    y: int,
)
    requires
        0 <= i < deps.len(),
        forall|j: int|
            i < j < deps.len() ==> row_layer(st, #[trigger] deps[j], 12 + j * 17, frame)(x, y) is None,
    ensures
        ({
            let dep = deps[i];
            let top = 12 + 17 * i;
            let shown = board_layer(st, station, deps, frame)(x, y);
            let written = minutes_text(dep.minutes);
            let leaving = dep.minutes == Some(0u16);
            let time_left = if leaving {
                51
            } else {
                63 - 5 * written.len()
            };
            let time = if leaving {
                train_layer(time_left, top + 4, 1, rgb(ACCENT))
            } else {
                text_layer(in_style(Font::Small, ACCENT), written, time_left, top + 6)
            };
            let line = line_label_layer(st.show_line_badges, dep.line@, 1, top + 3);
            let name_left = 3 + line_label_width(st.show_line_badges, dep.line@);
            let name_right = time_left - 2;
            let name = marquee_layer(
                in_style(Font::Small, AMBER),
                shown_name(st.strip_city, dep.destination@),
                name_left,
                top + 6,
                name_right - name_left,
                5,
                frame,
            );
            let in_gap = name_left <= x < name_right && top <= y < top + 17;
            let named = in_gap && name(x, y) is Some;
            &&& named ==> shown == name(x, y)
            &&& !named && line(x, y) is Some ==> shown == line(x, y)
            &&& !named && line(x, y) is None && time(x, y) is Some ==> shown == time(x, y)
        }),
{
    let row = row_layer(st, deps[i], 12 + i * 17, frame);
    if row(x, y) is Some {
        lemma_rows_on_top(st, deps, deps.len() as int, frame, i, x, y);
    }
}

/// Rows that paint nothing at a point leave it alone.
proof fn lemma_rows_leave(
    st: Settings,
    deps: Seq<Departure>,
    n: int,
    frame: int,
    x: int,
    y: int,
)
    requires
        0 <= n <= deps.len(),
        forall|j: int|
            0 <= j < n ==> row_layer(st, #[trigger] deps[j], 12 + j * 17, frame)(x, y) is None,
    ensures
        rows_layer(st, deps, n, frame)(x, y) is None,
    decreases n,
{
    if n > 0 {
        lemma_rows_leave(st, deps, n - 1, frame, x, y);
        assert(row_layer(st, deps[n - 1], 12 + (n - 1) * 17, frame)(x, y) is None);
    }
}

/// Above the rows the board shows the stop's name over a rule across the panel, and with no
/// departure it says so in the middle. Nothing else is painted.
pub proof fn lemma_board_heading(
    st: Settings,
    station: Seq<char>,
    deps: Seq<Departure>,
    frame: int,
    x: int,
    y: int,
)
    requires
        deps.len() > 0 ==> forall|j: int|
            0 <= j < deps.len() ==> row_layer(st, #[trigger] deps[j], 12 + j * 17, frame)(x, y) is None,
    ensures
        ({
            let shown = board_layer(st, station, deps, frame)(x, y);
            let notice = text_layer(
                in_style(Font::Small, DIM),
                "no service"@,
                centre_x(10, 5),
                32,
            )(x, y);
            let ruled = y == 11 && 0 <= x < 64;
            let heading = marquee_layer(
                in_style(Font::Medium, AMBER),
                shown_name(st.strip_city, station),
                1,
                0,
                62,
                6,
                frame,
            )(x, y);
            &&& deps.len() == 0 && notice is Some ==> shown == notice
            &&& (deps.len() > 0 || notice is None) && ruled ==> shown == Some(rgb(ACCENT))
            &&& (deps.len() > 0 || notice is None) && !ruled ==> shown == heading
        }),
{
    if deps.len() > 0 {
        lemma_rows_leave(st, deps, deps.len() as int, frame, x, y);
    }
}

/// Rows that agree at a point show the same there.
proof fn lemma_rows_agree(
    st: Settings,
    one: Seq<Departure>,
    two: Seq<Departure>,
    n: int,
    first: int,
    second: int,
    x: int,
    y: int,
)
    requires
        0 <= n <= one.len(),
        n <= two.len(),
        forall|j: int|
            0 <= j < n ==> row_layer(st, #[trigger] one[j], 12 + j * 17, first)(x, y) == row_layer(
                st,
                two[j],
                12 + j * 17,
                second,
            )(x, y),
    ensures
        rows_layer(st, one, n, first)(x, y) == rows_layer(st, two, n, second)(x, y),
    decreases n,
{
    if n > 0 {
        lemma_rows_agree(st, one, two, n - 1, first, second, x, y);
        assert(row_layer(st, one[n - 1], 12 + (n - 1) * 17, first)(x, y) == row_layer(
            st,
            two[n - 1],
            12 + (n - 1) * 17,
            second,
        )(x, y));
    }
}

/// A departure shows in its own row only: exchanging it for another changes nothing where neither
/// of the two rows paints, and one more departure changes nothing but its row.
pub proof fn lemma_board_rows_are_independent(
    st: Settings,
    station: Seq<char>,
    deps: Seq<Departure>,
    frame: int,
    i: int,
    other: Departure,
    x: int,
    y: int,
)
    requires
        0 <= i < deps.len(),
    ensures
        row_layer(st, deps[i], 12 + 17 * i, frame)(x, y) == row_layer(
            st,
            other,
            12 + 17 * i,
            frame,
        )(x, y) ==> board_layer(st, station, deps.update(i, other), frame)(x, y) == board_layer(
            st,
            station,
            deps,
            frame,
        )(x, y),
        row_layer(st, other, 12 + 17 * deps.len() as int, frame)(x, y) is None ==> board_layer(
            st,
            station,
            deps.push(other),
            frame,
        )(x, y) == board_layer(st, station, deps, frame)(x, y),
{
    let n = deps.len() as int;
    if row_layer(st, deps[i], 12 + 17 * i, frame)(x, y) == row_layer(st, other, 12 + 17 * i, frame)(
        x,
        y,
    ) {
        lemma_rows_agree(st, deps, deps.update(i, other), n, frame, frame, x, y);
    }
    lemma_rows_agree(st, deps, deps.push(other), n, frame, frame, x, y);
}

/// A board on which nothing scrolls looks the same at every frame.
pub proof fn lemma_board_stands_still(
    st: Settings,
    station: Seq<char>,
    deps: Seq<Departure>,
    first: int,
    second: int,
    x: int,
    y: int,
)
    requires
        !board_scrolls(st, station, deps),
    ensures
        board_layer(st, station, deps, first)(x, y) == board_layer(st, station, deps, second)(x, y),
{
    assert forall|j: int| 0 <= j < deps.len() implies row_layer(
        st,
        #[trigger] deps[j],
        12 + j * 17,
        first,
    )(x, y) == row_layer(st, deps[j], 12 + j * 17, second)(x, y) by {
        assert(!row_scrolls(st, deps[j]));
    }
    if deps.len() > 0 {
        lemma_rows_agree(st, deps, deps, deps.len() as int, first, second, x, y);
    }
}

/// The board scrolls exactly if the stop's name is wider than the panel leaves room for, or a
/// departure's destination is wider than the gap between its line and its time.
pub proof fn lemma_board_scrolls_when_too_wide(
    st: Settings,
    station: Seq<char>,
    deps: Seq<Departure>,
    i: int,
)
    requires
        0 <= i < deps.len(),
    ensures
        6 * shown_name(st.strip_city, station).len() > 62 ==> board_scrolls(st, station, deps),
        ({
            let dep = deps[i];
            let gap = (if dep.minutes == Some(0u16) {
                51
            } else {
                63 - 5 * minutes_text(dep.minutes).len()
            }) - 2 - (3 + line_label_width(st.show_line_badges, dep.line@));
            gap > 0 && 5 * shown_name(st.strip_city, dep.destination@).len() > gap
        }) ==> board_scrolls(st, station, deps),
        board_scrolls(st, station, deps) && 6 * shown_name(st.strip_city, station).len() <= 62
            ==> exists|j: int| 0 <= j < deps.len() && row_scrolls(st, #[trigger] deps[j]),
{
    if row_scrolls(st, deps[i]) {
        assert(board_scrolls(st, station, deps));
    }
}

/// Draw one row of the board, its top at row `ry`. Returns `true` while its destination scrolls.
fn draw_row(fb: &mut Panel, shared: &Shared, dep: &Departure, ry: i32, frame: u32) -> (r: bool)
    requires
        old(fb).wf(),
        dep.wf(),
        0 <= ry <= 64,
    ensures
        r == row_scrolls(shared@.settings, *dep),
        final(fb).painted(
            *old(fb),
            row_layer(shared@.settings, *dep, ry as int, frame as int),
        ),
{
    let ghost f0 = *fb;
    let ghost st = shared@.settings;
    proof {
        lemma_departure_texts(*dep);
        lemma_minutes_text(dep.minutes);
    }
    let badge_y: i32 = ry + 3;  // 11 px badge, vertically centred in the row
    let text_y: i32 = ry + 6;  // baseline-top, nudged down 1 px to sit on the badge number
    // Right: time-to-departure, right-aligned to the panel edge, in copper.
    let now: bool = match dep.minutes {
        Some(m) => m == 0,
        None => false,
    };
    let mins = fmt_minutes(dep.minutes);
    let left_edge: i32 = if now {
        // Centre the icon on the first glyph of a right-aligned single-digit time: that 5-px cell
        // starts 11 columns from the edge, so shift by half the width difference to the icon.
        COLS as i32 - 1 - 2 * 5 + (5 - TRAIN_W) / 2
    } else {
        COLS as i32 - 1 - char_count(mins.as_str()) as i32 * 5
    };
    if now {
        draw_train_front(fb, left_edge, ry + 4, rgb(ACCENT));
    } else {
        left(fb, mins.as_str(), left_edge, text_y, style(Font::Small, rgb(ACCENT)));
    }
    let ghost f1 = *fb;
    // Left: the line.
    let badges: bool = line_badges_enabled(shared);
    let badge_end: i32 = draw_line_label(fb, badges, dep.line.as_str(), 1, badge_y);
    let ghost f2 = *fb;
    proof {
        lemma_paint_over(
            f0,
            f1,
            f2,
            time_layer(dep.minutes, ry as int),
            line_label_layer(badges, dep.line@, 1, ry + 3),
        );
    }
    // Middle: destination, clipped to the gap between the badge and the time so a long name
    // scrolls behind the minutes rather than over them.
    let dest_x: i32 = badge_end + 2;
    let dest_avail: i32 = left_edge - 2 - dest_x;
    let mut scrolling: bool = false;
    if dest_avail > 0 {
        let name = city(strip_city_enabled(shared), dep.destination.as_str());
        scrolling = draw_marquee_clipped(
            fb,
            name,
            dest_x,
            text_y,
            dest_avail,
            ry,
            17,
            style(Font::Small, rgb(AMBER)),
            5,
            frame,
        );
    } else {
        proof {
            lemma_paint_nothing(f2, clear());
        }
    }
    proof {
        lemma_paint_over(
            f0,
            f2,
            *fb,
            over(
                line_label_layer(badges, dep.line@, 1, ry + 3),
                time_layer(dep.minutes, ry as int),
            ),
            dest_layer(st, *dep, ry as int, frame as int),
        );
    }
    scrolling
}

/// Runtime departures board: the watched stop on top, then up to three upcoming departures,
/// soonest first, one per row. Each row pins the line badge on the left, scrolls the destination
/// in the space up to the time, and right-aligns the minutes-to-departure. The "hide city names"
/// setting applies to both the stop and each destination, and the "line badges" setting switches
/// each line between a filled badge and plain text. A departure leaving now shows a front-of-tram
/// pictogram in place of the minutes. Returns `true` while anything (the stop heading or a
/// destination) is mid-scroll so the render loop keeps ticking.
pub fn draw_departures(
    fb: &mut Panel,
    shared: &Shared,
    station: &str,
    deps: &Vec<Departure>,
    frame: u32,
) -> (r: bool)
    requires
        old(fb).wf(),
        utf8_len(station@) <= 64,
        departures_wf(deps@),
    ensures
        r == board_scrolls(shared@.settings, station@, deps@),
        final(fb).painted(
            *old(fb),
            board_layer(shared@.settings, station@, deps@, frame as int),
        ),
{
    let ghost f0 = *fb;
    let ghost st = shared@.settings;
    proof {
        lemma_utf8_len_bounds(station@);
        reveal_strlit("no service");
    }
    // Top: the stop we're watching, scrolling if its full name is too wide.
    let heading = city(strip_city_enabled(shared), station);
    let scroll_station = draw_marquee(
        fb,
        heading,
        1,
        0,
        COLS as i32 - 2,
        style(Font::Medium, rgb(AMBER)),
        6,
        frame,
    );
    let ghost f1 = *fb;
    rule(fb, 11, rgb(ACCENT));
    let ghost f2 = *fb;
    let ghost head = over(
        block(0, 11, 64, 1, rgb(ACCENT)),
        marquee_layer(
            in_style(Font::Medium, AMBER),
            shown_name(st.strip_city, station@),
            1,
            0,
            62,
            6,
            frame as int,
        ),
    );
    proof {
        lemma_paint_over(
            f0,
            f1,
            f2,
            marquee_layer(
                in_style(Font::Medium, AMBER),
                shown_name(st.strip_city, station@),
                1,
                0,
                62,
                6,
                frame as int,
            ),
            block(0, 11, 64, 1, rgb(ACCENT)),
        );
    }
    if deps.len() == 0 {
        // Online, but nothing tracked is departing right now.
        centered(fb, "no service", 32, style(Font::Small, rgb(DIM)), 5);
        proof {
            lemma_paint_over(
                f0,
                f2,
                *fb,
                head,
                text_layer(in_style(Font::Small, DIM), "no service"@, centre_x(10, 5), 32),
            );
        }
        return scroll_station;
    }
    // Up to three departures fill the 52 px below the rule, one per row.
    let mut scrolling: bool = scroll_station;
    let mut i: usize = 0;
    proof {
        lemma_paint_nothing(f2, rows_layer(st, deps@, 0, frame as int));
    }
    while i < deps.len()
        invariant
            f2.wf(),
            0 <= i <= deps@.len() <= 3,
            departures_wf(deps@),
            st == shared@.settings,
            fb.painted(f2, rows_layer(st, deps@, i as int, frame as int)),
            scrolling == (scroll_station || exists|j: int|
                0 <= j < i && row_scrolls(st, #[trigger] deps@[j])),
        decreases deps@.len() - i,
    {
        let ghost f3 = *fb;
        let ghost was = scrolling;
        let ry: i32 = 12 + i as i32 * 17;
        let row_scrolling = draw_row(fb, shared, &deps[i], ry, frame);
        proof {
            lemma_paint_over(
                f2,
                f3,
                *fb,
                rows_layer(st, deps@, i as int, frame as int),
                row_layer(st, deps@[i as int], ry as int, frame as int),
            );
        }
        scrolling = scrolling || row_scrolling;
        i = i + 1;
        proof {
            assert(row_scrolling == row_scrolls(st, deps@[i - 1]));
            if was && !scroll_station {
                let j = choose|j: int| 0 <= j < i - 1 && row_scrolls(st, #[trigger] deps@[j]);
                assert(0 <= j < i && row_scrolls(st, deps@[j]));
            }
        }
    }
    proof {
        lemma_paint_over(
            f0,
            f2,
            *fb,
            head,
            rows_layer(st, deps@, deps@.len() as int, frame as int),
        );
    }
    scrolling
}

// Big-number geometry for the focus view's countdown.
/// 7-segment digit cell width.
pub const BIG_DW: i32 = 15;

/// Digit cell height.
pub const BIG_DH: i32 = 34;

/// Gap between digits.
pub const BIG_GAP: i32 = 4;

/// Whether digit `d` lights segment `seg`: 0 = top, 1 = top-right, 2 = bottom-right, 3 = bottom,
/// 4 = bottom-left, 5 = top-left, 6 = middle.
pub open spec fn segment_lit(d: int, seg: int) -> bool {
    if seg == 0 {
        d != 1 && d != 4
    } else if seg == 1 {
        d != 5 && d != 6
    } else if seg == 2 {
        d != 2
    } else if seg == 3 {
        d != 1 && d != 4 && d != 7
    } else if seg == 4 {
        d == 0 || d == 2 || d == 6 || d == 8
    } else if seg == 5 {
        d != 1 && d != 2 && d != 3 && d != 7
    } else {
        d != 0 && d != 1 && d != 7
    }
}

/// Whether the point `(x, y)` of a digit cell belongs to segment `seg`. Segments are 3 px thick;
/// the upright ones are half a cell high.
pub open spec fn in_segment(x: int, y: int, seg: int) -> bool {
    if seg == 0 {
        0 <= x < 15 && 0 <= y < 3
    } else if seg == 1 {
        12 <= x < 15 && 0 <= y < 17
    } else if seg == 2 {
        12 <= x < 15 && 17 <= y < 34
    } else if seg == 3 {
        0 <= x < 15 && 31 <= y < 34
    } else if seg == 4 {
        0 <= x < 3 && 17 <= y < 34
    } else if seg == 5 {
        0 <= x < 3 && 0 <= y < 17
    } else {
        0 <= x < 15 && 15 <= y < 18
    }
}

/// A 7-segment digit in the cell whose top-left corner is `(x, y)`.
pub open spec fn digit_layer(x: int, y: int, d: int, hex: u32) -> Layer {
    |px: int, py: int|
        if exists|seg: int|
            0 <= seg < 7 && segment_lit(d, seg) && #[trigger] in_segment(px - x, py - y, seg) {
            Some(rgb(hex))
        } else {
            None
        }
}

/// One segment of a digit, if it is lit.
spec fn segment_layer(x: int, y: int, seg: int, lit: bool, hex: u32) -> Layer {
    |px: int, py: int|
        if lit && in_segment(px - x, py - y, seg) {
            Some(rgb(hex))
        } else {
            None
        }
}

/// Fill the part of a digit cell that belongs to segment `seg`, if it is lit.
fn draw_segment(
    fb: &mut Panel,
    x: i32,
    y: i32,
    seg: u8,
    lit: bool,
    sx: i32,
    sy: i32,
    w: i32,
    h: i32,
    hex: u32,
)
    requires
        old(fb).wf(),
        -1000 <= x <= 1000,
        -1000 <= y <= 1000,
        0 <= sx <= 64 && 0 <= sy <= 64 && 0 <= w <= 64 && 0 <= h <= 64,
        forall|px: int, py: int|
            #[trigger] in_segment(px, py, seg as int) <==> sx <= px < sx + w && sy <= py < sy + h,
    ensures
        final(fb).painted(*old(fb), segment_layer(x as int, y as int, seg as int, lit, hex)),
{
    let ghost f0 = *fb;
    if lit {
        fill_rect(fb, x + sx, y + sy, w, h, rgb(hex));
        proof {
            lemma_paint_same(
                f0,
                *fb,
                block(x + sx, y + sy, w as int, h as int, rgb(hex)),
                segment_layer(x as int, y as int, seg as int, lit, hex),
            );
        }
    } else {
        proof {
            lemma_paint_nothing(f0, segment_layer(x as int, y as int, seg as int, lit, hex));
        }
    }
}

/// The segments of each digit, a bit per segment: top = 1, top-right = 2, bottom-right = 4,
/// bottom = 8, bottom-left = 16, top-left = 32, middle = 64.
pub const SEGMENTS: [u8; 10] = [63, 6, 91, 79, 102, 109, 125, 7, 127, 111];

/// Draw one 7-segment digit `d` (0–9) in cell `(x, y)` sized [`BIG_DW`]×[`BIG_DH`].
fn draw_seg_digit(fb: &mut Panel, x: i32, y: i32, d: u8, hex: u32)
    requires
        old(fb).wf(),
        -1000 <= x <= 1000,
        -1000 <= y <= 1000,
        d < 10,
    ensures
        final(fb).painted(*old(fb), digit_layer(x as int, y as int, d as int, hex)),
{
    let ghost f0 = *fb;
    let ghost (xi, yi) = (x as int, y as int);
    let m: u8 = SEGMENTS[d as usize];
    let (w, h): (i32, i32) = (BIG_DW, BIG_DH);
    let a: bool = m % 2 == 1;
    let b: bool = m / 2 % 2 == 1;
    let c: bool = m / 4 % 2 == 1;
    let dd: bool = m / 8 % 2 == 1;
    let e: bool = m / 16 % 2 == 1;
    let f: bool = m / 32 % 2 == 1;
    let g: bool = m / 64 % 2 == 1;
    assert(a == segment_lit(d as int, 0) && b == segment_lit(d as int, 1) && c == segment_lit(
        d as int,
        2,
    ) && dd == segment_lit(d as int, 3) && e == segment_lit(d as int, 4) && f == segment_lit(
        d as int,
        5,
    ) && g == segment_lit(d as int, 6)) by {
        let di = d as int;
        assert(di == 0 || di == 1 || di == 2 || di == 3 || di == 4 || di == 5 || di == 6 || di == 7
            || di == 8 || di == 9);
    }
    draw_segment(fb, x, y, 0, a, 0, 0, w, 3, hex);  // top
    let ghost f1 = *fb;
    draw_segment(fb, x, y, 6, g, 0, (h - 3) / 2, w, 3, hex);  // middle
    let ghost f2 = *fb;
    draw_segment(fb, x, y, 3, dd, 0, h - 3, w, 3, hex);  // bottom
    let ghost f3 = *fb;
    draw_segment(fb, x, y, 5, f, 0, 0, 3, h / 2, hex);  // top-left
    let ghost f4 = *fb;
    draw_segment(fb, x, y, 1, b, w - 3, 0, 3, h / 2, hex);  // top-right
    let ghost f5 = *fb;
    draw_segment(fb, x, y, 4, e, 0, h / 2, 3, h / 2, hex);  // bottom-left
    let ghost f6 = *fb;
    draw_segment(fb, x, y, 2, c, w - 3, h / 2, 3, h / 2, hex);  // bottom-right
    proof {
        let l1 = segment_layer(xi, yi, 0, a, hex);
        let l2 = segment_layer(xi, yi, 6, g, hex);
        let l3 = segment_layer(xi, yi, 3, dd, hex);
        let l4 = segment_layer(xi, yi, 5, f, hex);
        let l5 = segment_layer(xi, yi, 1, b, hex);
        let l6 = segment_layer(xi, yi, 4, e, hex);
        let l7 = segment_layer(xi, yi, 2, c, hex);
        lemma_paint_over(f0, f1, f2, l1, l2);
        let s2 = over(l2, l1);
        lemma_paint_over(f0, f2, f3, s2, l3);
        let s3 = over(l3, s2);
        lemma_paint_over(f0, f3, f4, s3, l4);
        let s4 = over(l4, s3);
        lemma_paint_over(f0, f4, f5, s4, l5);
        let s5 = over(l5, s4);
        lemma_paint_over(f0, f5, f6, s5, l6);
        let s6 = over(l6, s5);
        lemma_paint_over(f0, f6, *fb, s6, l7);
        let s7 = over(l7, s6);
        let whole = digit_layer(xi, yi, d as int, hex);
        assert forall|px: int, py: int| true implies #[trigger] s7(px, py) == whole(px, py) by {
            let (u, v) = (px - xi, py - yi);
            assert(in_segment(u, v, 0) ==> in_segment(u, v, 0));
            if s7(px, py) is Some {
                assert((segment_lit(d as int, 0) && in_segment(u, v, 0)) || (segment_lit(
                    d as int,
                    1,
                ) && in_segment(u, v, 1)) || (segment_lit(d as int, 2) && in_segment(u, v, 2)) || (
                segment_lit(d as int, 3) && in_segment(u, v, 3)) || (segment_lit(d as int, 4)
                    && in_segment(u, v, 4)) || (segment_lit(d as int, 5) && in_segment(u, v, 5))
                    || (segment_lit(d as int, 6) && in_segment(u, v, 6)));
            } else {
                assert forall|seg: int| 0 <= seg < 7 && segment_lit(d as int, seg) implies
                    !#[trigger] in_segment(u, v, seg) by {
                    assert(seg == 0 || seg == 1 || seg == 2 || seg == 3 || seg == 4 || seg == 5
                        || seg == 6);
                }
            }
        }
        lemma_paint_same(f0, *fb, s7, whole);
    }
}

/// Two different digits light different segments, so that no digit can be taken for another.
pub proof fn lemma_digits_differ(a: int, b: int) -> (seg: int)
    requires
        0 <= a < 10,
        0 <= b < 10,
        a != b,
    ensures
        0 <= seg < 7,
        segment_lit(a, seg) != segment_lit(b, seg),
{
    if segment_lit(a, 0) != segment_lit(b, 0) {
        0
    } else if segment_lit(a, 1) != segment_lit(b, 1) {
        1
    } else if segment_lit(a, 2) != segment_lit(b, 2) {
        2
    } else if segment_lit(a, 3) != segment_lit(b, 3) {
        3
    } else if segment_lit(a, 4) != segment_lit(b, 4) {
        4
    } else if segment_lit(a, 5) != segment_lit(b, 5) {
        5
    } else {
        assert(segment_lit(a, 6) != segment_lit(b, 6));
        6
    }
}

/// A point of each segment that belongs to no other.
pub open spec fn segment_point(seg: int) -> (int, int) {
    if seg == 0 {
        (7, 0)
    } else if seg == 1 {
        (14, 8)
    } else if seg == 2 {
        (14, 25)
    } else if seg == 3 {
        (7, 33)
    } else if seg == 4 {
        (0, 25)
    } else if seg == 5 {
        (0, 8)
    } else {
        (7, 16)
    }
}

/// A digit's cell shows which segments are lit.
proof fn lemma_digit_points(x: int, y: int, d: int, hex: u32, seg: int)
    requires
        0 <= seg < 7,
    ensures
        ({
            let (sx, sy) = segment_point(seg);
            digit_layer(x, y, d, hex)(x + sx, y + sy) == (if segment_lit(d, seg) {
                Some(rgb(hex))
            } else {
                None
            })
        }),
{
    let (sx, sy) = segment_point(seg);
    assert(in_segment(sx, sy, seg));
    assert(x + sx - x == sx && y + sy - y == sy);
    assert forall|other: int| 0 <= other < 7 && #[trigger] in_segment(sx, sy, other) implies other
        == seg by {
        assert(other == 0 || other == 1 || other == 2 || other == 3 || other == 4 || other == 5
            || other == 6);
    }
}

/// The column at which something `w` pixels wide starts when it is centred on the panel.
pub open spec fn centre_of(w: int) -> int {
    centre_x(w, 1)
}

/// The first `n` of a number's 7-segment digits, from column `x` on.
pub open spec fn digits_layer(s: Seq<char>, n: int, x: int, y: int) -> Layer
    decreases n,
{
    if n <= 0 {
        clear()
    } else {
        over(
            digit_layer(x + (n - 1) * 19, y, s[n - 1] as int - 48, AMBER),
            digits_layer(s, n - 1, x, y),
        )
    }
}

/// The large countdown: digits centred on the panel with an apostrophe hanging to their right, the
/// doubled tram front for a departure leaving now, or two bars where there is no service.
pub open spec fn big_minutes_layer(minutes: Option<u16>, cy: int) -> Layer {
    match minutes {
        None => over(
            block(34, cy - 2, 15, 4, rgb(DIM)),
            block(15, cy - 2, 15, 4, rgb(DIM)),
        ),
        Some(m) => if m == 0 {
            train_layer(23, cy - 10, 2, rgb(ACCENT))
        } else {
            let s = dec(m as nat);
            let n = s.len() as int;
            let x = centre_of(n * 15 + (n - 1) * 4);
            over(
                block(x + n * 19 - 1, cy - 17, 2, 6, rgb(AMBER)),
                digits_layer(s, n, x, cy - 17),
            )
        },
    }
}

/// Each digit of a number has a cell of its own.
proof fn lemma_digit_cell(s: Seq<char>, n: int, x: int, y: int, j: int, px: int, py: int)
    requires
        0 <= j < n <= s.len(),
        x + j * 19 <= px < x + j * 19 + 15,
    ensures
        digits_layer(s, n, x, y)(px, py) == digit_layer(x + j * 19, y, s[j] as int - 48, AMBER)(
            px,
            py,
        ),
    decreases n,
{
    let last = digit_layer(x + (n - 1) * 19, y, s[n - 1] as int - 48, AMBER);
    if j < n - 1 {
        lemma_digit_cell(s, n - 1, x, y, j, px, py);
        assert(last(px, py) is None) by {
            let u = px - (x + (n - 1) * 19);
            assert(u < 0);
            assert forall|seg: int| 0 <= seg < 7 implies !#[trigger] in_segment(
                u,
                py - y,
                seg,
            ) by {}
        }
    } else {
        lemma_digits_end(s, n - 1, x, y, px, py);
    }
}

/// Nothing is painted to the right of the digits.
proof fn lemma_digits_end(s: Seq<char>, n: int, x: int, y: int, px: int, py: int)
    requires
        0 <= n <= s.len(),
        px >= x + n * 19 - 4,
    ensures
        digits_layer(s, n, x, y)(px, py) is None,
    decreases n,
{
    if n > 0 {
        lemma_digits_end(s, n - 1, x, y, px, py);
        let u = px - (x + (n - 1) * 19);
        assert(u >= 15);
        assert forall|seg: int| 0 <= seg < 7 implies !#[trigger] in_segment(u, py - y, seg) by {}
    }
}

/// The large countdown can be read off the panel: it has as many digits as the minutes, centred,
/// and the `j`-th of them (from the left) lights exactly the segments of the minutes' `j`-th digit.
pub proof fn lemma_countdown_reads(m: u16, cy: int, j: int, seg: int)
    requires
        m > 0,
        0 <= j < dec(m as nat).len(),
        0 <= seg < 7,
    ensures
        ({
            let digits = dec(m as nat);
            let n = digits.len() as int;
            let width = 19 * n - 4;
            let start = centre_x(width, 1);
            let d = digits[j] as int - 48;
            let (sx, sy) = segment_point(seg);
            let shown = big_minutes_layer(Some(m), cy)(start + 19 * j + sx, cy - 17 + sy);
            &&& crate::text::value(digits) == m
            &&& 0 <= d < 10
            &&& shown == (if segment_lit(d, seg) {
                Some(rgb(AMBER))
            } else {
                None
            })
        }),
{
    let digits = dec(m as nat);
    let n = digits.len() as int;
    crate::text::lemma_dec_value(m as nat);
    reveal_with_fuel(crate::text::pow10, 6);
    lemma_dec(m as nat, 5);
    assert('0' <= digits[j] <= '9');
    let x = centre_of(n * 15 + (n - 1) * 4);
    let (sx, sy) = segment_point(seg);
    lemma_digit_cell(digits, n, x, cy - 17, j, x + j * 19 + sx, cy - 17 + sy);
    lemma_digit_points(x + j * 19, cy - 17, digits[j] as int - 48, AMBER, seg);
}

/// The digits of a number paint nothing outside their cells.
proof fn lemma_digits_extent(s: Seq<char>, n: int, x: int, y: int, px: int, py: int)
    requires
        0 <= n <= s.len(),
        digits_layer(s, n, x, y)(px, py) is Some,
    ensures
        x <= px < x + n * 19 - 4,
        (px - x) % 19 < 15,
        y <= py < y + 34,
        digits_layer(s, n, x, y)(px, py) == Some(rgb(AMBER)),
    decreases n,
{
    let last = digit_layer(x + (n - 1) * 19, y, s[n - 1] as int - 48, AMBER);
    if last(px, py) is Some {
        let (u, v) = (px - (x + (n - 1) * 19), py - y);
        let seg = choose|seg: int|
            0 <= seg < 7 && segment_lit(s[n - 1] as int - 48, seg) && #[trigger] in_segment(
                u,
                v,
                seg,
            );
        assert(0 <= u < 15 && 0 <= v < 34);
        vstd::arithmetic::div_mod::lemma_mod_multiples_vanish(n - 1, u, 19);
        assert(px - x == 19 * (n - 1) + u);
    } else {
        lemma_digits_extent(s, n - 1, x, y, px, py);
    }
}

/// The large countdown is nothing but its digits, in one row of cells four pixels apart, and the
/// apostrophe behind the last of them.
pub proof fn lemma_countdown_extent(m: u16, cy: int, x: int, y: int)
    requires
        m > 0,
        big_minutes_layer(Some(m), cy)(x, y) is Some,
    ensures
        ({
            let width = 19 * dec(m as nat).len() - 4;
            let start = centre_x(width, 1);
            let digit = start <= x < start + width && (x - start) % 19 < 15 && cy - 17 <= y < cy + 17;
            let apostrophe = start + width + 3 <= x < start + width + 5 && cy - 17 <= y < cy - 11;
            &&& digit || apostrophe
            &&& big_minutes_layer(Some(m), cy)(x, y) == Some(rgb(AMBER))
        }),
{
    let s = dec(m as nat);
    let n = s.len() as int;
    let start = centre_of(n * 15 + (n - 1) * 4);
    if digits_layer(s, n, start, cy - 17)(x, y) is Some {
        lemma_digits_extent(s, n, start, cy - 17, x, y);
    }
}

/// A departure leaving now shows the tram front, twice as large and in the middle; one without a
/// time shows two bars, one left and one right of the middle.
pub proof fn lemma_countdown_without_digits(cy: int, x: int, y: int)
    ensures
        big_minutes_layer(Some(0u16), cy)(x, y) == train_layer(
            centre_x(2 * TRAIN_W, 1),
            cy - TRAIN_H,
            2,
            rgb(ACCENT),
        )(x, y),
        big_minutes_layer(None, cy)(x, y) == big_minutes_layer(None, cy)(63 - x, y),
        big_minutes_layer(None, cy)(x, y) is Some <==> cy - 2 <= y < cy + 2 && (15 <= x < 30 || 34
            <= x < 49),
        big_minutes_layer(None, cy)(x, y) is Some ==> big_minutes_layer(None, cy)(x, y) == Some(
            rgb(DIM),
        ),
{
}

/// Draw the next departure's minutes as a large, centred 7-segment figure whose vertical centre is
/// panel row `cy`, the focal element of the focus view. `Some(0)` (leaving now) shows the
/// front-of-tram pictogram blown up; `None` (no service) shows two large dashes.
fn draw_big_minutes(fb: &mut Panel, minutes: Option<u16>, cy: i32)
    requires
        old(fb).wf(),
        0 <= cy <= 64,
    ensures
        final(fb).painted(*old(fb), big_minutes_layer(minutes, cy as int)),
{
    let ghost f0 = *fb;
    match minutes {
        None => {
            // The board's `--`, drawn big as two centred bars.
            let total: i32 = 2 * BIG_DW + BIG_GAP;
            let x: i32 = (COLS as i32 - total) / 2;
            let y: i32 = cy - 4 / 2;
            fill_rect(fb, x, y, BIG_DW, 4, rgb(DIM));
            let ghost f1 = *fb;
            fill_rect(fb, x + BIG_DW + BIG_GAP, y, BIG_DW, 4, rgb(DIM));
            proof {
                lemma_paint_over(
                    f0,
                    f1,
                    *fb,
                    block(15, cy - 2, 15, 4, rgb(DIM)),
                    block(34, cy - 2, 15, 4, rgb(DIM)),
                );
            }
        },
        Some(m) => {
            if m == 0 {
                // Departing now: the board's front-of-tram pictogram, doubled in size and centred.
                draw_train_front_scaled(
                    fb,
                    (COLS as i32 - TRAIN_W * 2) / 2,
                    cy - TRAIN_H,
                    2,
                    rgb(ACCENT),
                );
                return ;
            }
            let digits = decimal(m as u64);
            proof {
                reveal_with_fuel(crate::text::pow10, 6);
                lemma_dec(m as nat, 5);
            }
            let n: i32 = char_count(digits.as_str()) as i32;
            // Centre the digits themselves on the panel; the apostrophe is appended after (hanging
            // to the right), not folded into the centred width.
            let digits_w: i32 = n * BIG_DW + (n - 1) * BIG_GAP;
            let x: i32 = (COLS as i32 - digits_w) / 2;
            let y: i32 = cy - BIG_DH / 2;
            let mut i: i32 = 0;
            proof {
                lemma_paint_nothing(f0, digits_layer(digits@, 0, x as int, y as int));
            }
            while i < n
                invariant
                    f0.wf(),
                    0 <= i <= n <= 5,
                    n == digits@.len(),
                    digits@ == dec(m as nat),
                    forall|j: int| 0 <= j < digits@.len() ==> '0' <= #[trigger] digits@[j] <= '9',
                    -100 <= x <= 100,
                    -100 <= y <= 100,
                    fb.painted(f0, digits_layer(digits@, i as int, x as int, y as int)),
                decreases n - i,
            {
                let ghost f1 = *fb;
                let ch: char = digits.as_str().get_char(i as usize);
                let d: u8 = (ch as u32 - 48) as u8;
                draw_seg_digit(fb, x + i * (BIG_DW + BIG_GAP), y, d, AMBER);
                proof {
                    lemma_paint_over(
                        f0,
                        f1,
                        *fb,
                        digits_layer(digits@, i as int, x as int, y as int),
                        digit_layer(x + i * 19, y as int, digits@[i as int] as int - 48, AMBER),
                    );
                }
                i = i + 1;
            }
            let ghost f2 = *fb;
            // Trailing apostrophe high on the right, echoing the board's `N'`.
            fill_rect(fb, x + n * (BIG_DW + BIG_GAP) - BIG_GAP + 3, y, 2, 6, rgb(AMBER));
            proof {
                lemma_paint_over(
                    f0,
                    f2,
                    *fb,
                    digits_layer(digits@, n as int, x as int, y as int),
                    block(x + n * 19 - 1, y as int, 2, 6, rgb(AMBER)),
                );
            }
        },
    }
}

/// The footer of the focus view: the departure after the next one, "next <line> in <minutes>".
pub open spec fn footer_segs(after: Departure) -> Seq<(Seq<char>, Style)> {
    seq![
        ("next"@, in_style(Font::Small, DIM)),
        (after.line@, in_style(Font::Small, AMBER)),
        ("in"@, in_style(Font::Small, DIM)),
        (minutes_text(after.minutes), in_style(Font::Small, ACCENT)),
    ]
}

/// Width left for the destination in the focus view.
pub open spec fn focus_room(badges: bool, dep: Departure) -> int {
    63 - (1 + line_label_width(badges, dep.line@) + 2)
}

/// The destination beside the line label in the focus view.
pub open spec fn focus_dest_layer(st: Settings, dep: Departure, frame: int) -> Layer {
    let room = focus_room(st.show_line_badges, dep);
    let x = 1 + line_label_width(st.show_line_badges, dep.line@) + 2;
    if room > 0 {
        clip(
            marquee_layer(
                in_style(Font::Small, AMBER),
                shown_name(st.strip_city, dep.destination@),
                x,
                4,
                room,
                5,
                frame,
            ),
            x,
            1,
            x + room,
            12,
        )
    } else {
        clear()
    }
}

/// The focus view: the next departure's line and destination on top, its countdown in the middle,
/// the departure after it at the bottom.
pub open spec fn focus_layer(st: Settings, deps: Seq<Departure>, frame: int) -> Layer {
    if deps.len() == 0 {
        text_layer(in_style(Font::Small, DIM), "no service"@, centre_x(10, 5), 28)
    } else {
        over(
            if deps.len() > 1 {
                segs_row_layer(footer_segs(deps[1]), 1, 57, 62, 5, 4, frame)
            } else {
                clear()
            },
            over(
                big_minutes_layer(deps[0].minutes, 33),
                over(
                    focus_dest_layer(st, deps[0], frame),
                    line_label_layer(st.show_line_badges, deps[0].line@, 1, 1),
                ),
            ),
        )
    }
}

/// Whether anything in the focus view scrolls.
pub open spec fn focus_scrolls(st: Settings, deps: Seq<Departure>) -> bool {
    ||| deps.len() > 0 && focus_room(st.show_line_badges, deps[0]) > 0 && shown_name(
        st.strip_city,
        deps[0].destination@,
    ).len() * 5 > focus_room(st.show_line_badges, deps[0])
    ||| deps.len() > 1 && segs_width(footer_segs(deps[1]), 5, 4) > 62
}

/// The footer of the focus view paints nothing at a point.
pub open spec fn footer_clear(deps: Seq<Departure>, frame: int, x: int, y: int) -> bool {
    deps.len() > 1 ==> segs_row_layer(footer_segs(deps[1]), 1, 57, 62, 5, 4, frame)(x, y) is None
}

/// But for its footer, the focus view depends on the first departure only: its line and its
/// destination on top and its own minutes in the middle. Whatever departures follow it, nothing
/// changes outside the footers, and beyond the second nothing changes at all.
pub proof fn lemma_focus_is_on_the_first(
    st: Settings,
    one: Seq<Departure>,
    two: Seq<Departure>,
    frame: int,
    x: int,
    y: int,
)
    requires
        one.len() > 0,
        two.len() > 0,
        one[0] == two[0],
    ensures
        footer_clear(one, frame, x, y) && footer_clear(two, frame, x, y) ==> focus_layer(
            st,
            one,
            frame,
        )(x, y) == focus_layer(st, two, frame)(x, y),
        footer_clear(one, frame, x, y) ==> focus_layer(st, one, frame)(x, y) == focus_layer(
            st,
            seq![one[0]],
            frame,
        )(x, y),
        one.len() > 1 && two.len() > 1 && one[1] == two[1] ==> focus_layer(st, one, frame)(x, y)
            == focus_layer(st, two, frame)(x, y),
{
}

/// The focus view shows the next departure: its minutes in large in the middle (rows 16 to 49),
/// its line in the top left corner and its destination beside it. Each is seen wherever nothing
/// that comes on top of it paints: the countdown is on top of the destination, the destination on
/// top of the line.
pub proof fn lemma_focus_shows_the_next(
    st: Settings,
    deps: Seq<Departure>,
    frame: int,
    x: int,
    y: int,
)
    requires
        deps.len() > 0,
        footer_clear(deps, frame, x, y),
    ensures
        ({
            let next = deps[0];
            let shown = focus_layer(st, deps, frame)(x, y);
            let countdown = big_minutes_layer(next.minutes, 33)(x, y);
            let line = line_label_layer(st.show_line_badges, next.line@, 1, 1)(x, y);
            let name_left = 3 + line_label_width(st.show_line_badges, next.line@);
            let name = marquee_layer(
                in_style(Font::Small, AMBER),
                shown_name(st.strip_city, next.destination@),
                name_left,
                4,
                63 - name_left,
                5,
                frame,
            )(x, y);
            let named = name_left <= x < 63 && 1 <= y < 12 && name is Some;
            &&& countdown is Some ==> shown == countdown
            &&& countdown is None && named ==> shown == name
            &&& countdown is None && !named ==> shown == line
        }),
{
}

/// The footer names the departure after the next one: "next", its line, "in", its minutes, each one
/// space behind the piece before it, from column 1 of row 57 on while all of it fits.
pub proof fn lemma_focus_footer(
    st: Settings,
    deps: Seq<Departure>,
    frame: int,
    x: int,
    y: int,
)
    requires
        deps.len() > 1,
        5 * (4 + deps[1].line@.len() + 2 + minutes_text(deps[1].minutes).len()) + 3 * 4 <= 62,
    ensures
        ({
            let after = deps[1];
            let shown = focus_layer(st, deps, frame)(x, y);
            let line_left: int = 25;
            let in_left = line_left + 5 * after.line@.len() + 4;
            let time_left = in_left + 5 * 2 + 4;
            let next = text_layer(in_style(Font::Small, DIM), "next"@, 1, 57)(x, y);
            let line = text_layer(in_style(Font::Small, AMBER), after.line@, line_left, 57)(x, y);
            let inn = text_layer(in_style(Font::Small, DIM), "in"@, in_left, 57)(x, y);
            let time = text_layer(
                in_style(Font::Small, ACCENT),
                minutes_text(after.minutes),
                time_left,
                57,
            )(x, y);
            &&& time is Some ==> shown == time
            &&& time is None && inn is Some ==> shown == inn
            &&& time is None && inn is None && line is Some ==> shown == line
            &&& time is None && inn is None && line is None && next is Some ==> shown == next
        }),
{
    reveal_strlit("next");
    reveal_strlit("in");
    let segs = footer_segs(deps[1]);
    reveal_with_fuel(segs_advance, 5);
    reveal_with_fuel(crate::display::draw::segs_layer, 5);
    assert(segs.drop_last() =~= seq![segs[0], segs[1], segs[2]]);
    assert(segs.drop_last().drop_last() =~= seq![segs[0], segs[1]]);
    assert(segs.drop_last().drop_last().drop_last() =~= seq![segs[0]]);
    assert(segs.drop_last().drop_last().drop_last().drop_last() =~= seq![]);
}

/// With no departure the focus view says so in the middle, and paints nothing else.
pub proof fn lemma_focus_without_departures(st: Settings, frame: int, x: int, y: int)
    ensures
        focus_layer(st, seq![], frame)(x, y) == text_layer(
            in_style(Font::Small, DIM),
            "no service"@,
            centre_x(10, 5),
            28,
        )(x, y),
{
}

/// A focus view in which nothing scrolls looks the same at every frame.
pub proof fn lemma_focus_stands_still(
    st: Settings,
    deps: Seq<Departure>,
    first: int,
    second: int,
    x: int,
    y: int,
)
    requires
        !focus_scrolls(st, deps),
    ensures
        focus_layer(st, deps, first)(x, y) == focus_layer(st, deps, second)(x, y),
{
}

/// The footer is at most a few hundred pixels wide.
proof fn lemma_footer_width(after: Departure)
    requires
        after.wf(),
    ensures
        0 <= segs_width(footer_segs(after), 5, 4) <= segs_advance(footer_segs(after), 5, 4),
        segs_advance(footer_segs(after), 5, 4) == 5 * (6 + after.line@.len() + minutes_text(
            after.minutes,
        ).len()) + 16,
        after.line@.len() <= 16,
        minutes_text(after.minutes).len() <= 6,
{
    lemma_departure_texts(after);
    lemma_minutes_text(after.minutes);
    reveal_strlit("next");
    reveal_strlit("in");
    let segs = footer_segs(after);
    reveal_with_fuel(segs_advance, 5);
    assert(segs.drop_last() =~= seq![segs[0], segs[1], segs[2]]);
    assert(segs.drop_last().drop_last() =~= seq![segs[0], segs[1]]);
    assert(segs.drop_last().drop_last().drop_last() =~= seq![segs[0]]);
    assert(segs.drop_last().drop_last().drop_last().drop_last() =~= seq![]);
}

/// Single-departure focus view: instead of the three-row board, give the whole panel to the next
/// departure. This view intentionally omits the stop heading, so the top of the panel goes
/// straight to the next connection's line badge + destination, a large 7-segment countdown of its
/// minutes as the focal element, and a small footer for the departure after it. Returns `true`
/// while anything (the destination or the footer) is mid-scroll.
pub fn draw_focus(fb: &mut Panel, shared: &Shared, deps: &Vec<Departure>, frame: u32) -> (r: bool)
    requires
        old(fb).wf(),
        departures_wf(deps@),
    ensures
        r == focus_scrolls(shared@.settings, deps@),
        final(fb).painted(*old(fb), focus_layer(shared@.settings, deps@, frame as int)),
{
    let ghost f0 = *fb;
    let ghost st = shared@.settings;
    proof {
        reveal_strlit("no service");
    }
    if deps.len() == 0 {
        // Online, but nothing tracked is departing: same message as the board.
        centered(fb, "no service", 28, style(Font::Small, rgb(DIM)), 5);
        return false;
    }
    let next = &deps[0];
    proof {
        lemma_departure_texts(*next);
    }
    // Identity row at the very top: the next departure's line with its destination beside it.
    let badges: bool = line_badges_enabled(shared);
    let badge_end: i32 = draw_line_label(fb, badges, next.line.as_str(), 1, 1);
    let ghost f1 = *fb;
    let ghost label = line_label_layer(badges, next.line@, 1, 1);
    let dest_x: i32 = badge_end + 2;
    let dest_avail: i32 = COLS as i32 - 1 - dest_x;
    let mut scrolling: bool = false;
    if dest_avail > 0 {
        let name = city(strip_city_enabled(shared), next.destination.as_str());
        scrolling = draw_marquee_clipped(
            fb,
            name,
            dest_x,
            4,
            dest_avail,
            1,
            11,
            style(Font::Small, rgb(AMBER)),
            5,
            frame,
        );
    } else {
        proof {
            lemma_paint_nothing(f1, clear());
        }
    }
    let ghost f2 = *fb;
    // Centre: the big countdown for the next departure, the whole point of this view.
    draw_big_minutes(fb, next.minutes, 33);
    let ghost f3 = *fb;
    // Footer: the departure after the next one, small. Omitted when only one departure is
    // upcoming. The four coloured parts pack left-to-right with exactly one space between them,
    // and the whole row scrolls as one if it can't fit.
    if deps.len() > 1 {
        let after = &deps[1];
        let mins = fmt_minutes(after.minutes);
        let segs: [(&str, Style); 4] = [
            ("next", style(Font::Small, rgb(DIM))),
            (after.line.as_str(), style(Font::Small, rgb(AMBER))),
            ("in", style(Font::Small, rgb(DIM))),
            (mins.as_str(), style(Font::Small, rgb(ACCENT))),
        ];
        proof {
            reveal_strlit("next");
            reveal_strlit("in");
            lemma_footer_width(*after);
            assert(segs_view(segs@) =~= footer_segs(*after));
        }
        let footer = draw_segments_row(fb, &segs, 1, 57, COLS as i32 - 2, 5, 4, frame);
        scrolling = scrolling || footer;
    } else {
        proof {
            lemma_paint_nothing(f3, clear());
        }
    }
    proof {
        let dest = focus_dest_layer(st, *next, frame as int);
        let big = big_minutes_layer(next.minutes, 33);
        let footer = if deps@.len() > 1 {
            segs_row_layer(footer_segs(deps@[1]), 1, 57, 62, 5, 4, frame as int)
        } else {
            clear()
        };
        lemma_paint_over(f0, f1, f2, label, dest);
        lemma_paint_over(f0, f2, f3, over(dest, label), big);
        lemma_paint_over(f0, f3, *fb, over(big, over(dest, label)), footer);
    }
    scrolling
}

} // verus!
