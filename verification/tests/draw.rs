use embedded_graphics::framebuffer::Framebuffer;
use embedded_graphics::mono_font::iso_8859_1::{FONT_5X7, FONT_6X10};
use embedded_graphics::mono_font::MonoTextStyle;
use embedded_graphics::pixelcolor::raw::{LittleEndian, RawU8};
use embedded_graphics::pixelcolor::{Gray8, GrayColor};
use embedded_graphics::prelude::{Drawable, Point};
use embedded_graphics::text::{Baseline, Text};
use zugli::display::draw::{
    blit_bitmap, blit_tones, centered, city, draw_badge, draw_line_label, draw_marquee,
    draw_marquee_clipped, draw_segments_row, draw_train_front, draw_train_front_scaled, fill_rect,
    fmt_minutes, left, marquee_offset, rule, style, Font, ACCENT, AMBER, ARROW_GLYPH, DIM, OFF,
};
use zugli::display::panel::{fill_span, pset, rgb, scaled, Color, Panel};

/// The points of the panel that a text lights.
fn text_points(medium: bool, s: &str, x: i32, y: i32) -> Vec<(usize, usize)> {
    let mut fb: Framebuffer<Gray8, RawU8, LittleEndian, 64, 64, 4096> = Framebuffer::new();
    let font = if medium { &FONT_6X10 } else { &FONT_5X7 };
    let st = MonoTextStyle::new(font, Gray8::WHITE);
    let _ = Text::with_baseline(s, Point::new(x, y), st, Baseline::Top).draw(&mut fb);
    let mut points = Vec::new();
    for (i, b) in fb.data().iter().enumerate() {
        if *b != 0 {
            points.push((i % 64, i / 64));
        }
    }
    points
}

fn lit_in(fb: &Panel, c: Color) -> Vec<(usize, usize)> {
    let mut points = Vec::new();
    for y in 0..64 {
        for x in 0..64 {
            if fb.get(x, y) == c {
                points.push((x, y));
            }
        }
    }
    points
}

fn lit(fb: &Panel) -> Vec<(usize, usize)> {
    let mut points = Vec::new();
    for y in 0..64 {
        for x in 0..64 {
            if fb.get(x, y) != rgb(OFF) {
                points.push((x, y));
            }
        }
    }
    points
}

fn clipped(points: Vec<(usize, usize)>, x0: usize, y0: usize, x1: usize, y1: usize) -> Vec<(usize, usize)> {
    points.into_iter().filter(|p| p.0 >= x0 && p.0 < x1 && p.1 >= y0 && p.1 < y1).collect()
}

fn union(mut a: Vec<(usize, usize)>, b: Vec<(usize, usize)>) -> Vec<(usize, usize)> {
    a.extend(b);
    a.sort_by_key(|p| (p.1, p.0));
    a.dedup();
    a
}

#[test]
fn colours_scale_by_percent() {
    let c = Color { r: 255, g: 168, b: 1 };
    assert_eq!(scaled(c, 100), c);
    assert_eq!(scaled(c, 50), Color { r: 127, g: 84, b: 0 });
    assert_eq!(scaled(c, 0), Color { r: 0, g: 0, b: 0 });
    assert_eq!(rgb(0xFF_FF_A8_00), Color { r: 255, g: 168, b: 0 });
}

#[test]
fn a_panel_starts_unlit() {
    let fb = Panel::new(100);
    assert!(lit(&fb).is_empty());
}

#[test]
fn pixels_off_the_panel_are_dropped() {
    let mut fb = Panel::new(100);
    pset(&mut fb, -1, 0, rgb(AMBER));
    pset(&mut fb, 64, 0, rgb(AMBER));
    pset(&mut fb, 0, 64, rgb(AMBER));
    assert!(lit(&fb).is_empty());
    pset(&mut fb, 63, 63, rgb(AMBER));
    assert_eq!(lit(&fb), [(63, 63)]);
    fb.erase();
    assert!(lit(&fb).is_empty());
}

#[test]
fn brightness_applies_where_a_pixel_is_written() {
    let mut fb = Panel::new(100);
    pset(&mut fb, 1, 1, rgb(AMBER));
    fb.set_brightness(50);
    pset(&mut fb, 2, 1, rgb(AMBER));
    assert_eq!(fb.get(1, 1), rgb(AMBER));
    assert_eq!(fb.get(2, 1), Color { r: 127, g: 84, b: 0 });
}

#[test]
fn text_is_the_fonts_own() {
    for (medium, font) in [(false, Font::Small), (true, Font::Medium)] {
        for s in ["Zürich HB", "12'", "°", ""] {
            let mut fb = Panel::new(100);
            left(&mut fb, s, 3, 20, style(font, rgb(AMBER)));
            assert_eq!(lit_in(&fb, rgb(AMBER)), text_points(medium, s, 3, 20));
            assert_eq!(lit(&fb).len(), text_points(medium, s, 3, 20).len());
        }
    }
    assert!(!text_points(false, "Z", 0, 0).is_empty());
}

#[test]
fn text_may_hang_over_the_edge() {
    let mut fb = Panel::new(100);
    left(&mut fb, "Klusplatz", -7, 60, style(Font::Small, rgb(DIM)));
    assert_eq!(lit(&fb), text_points(false, "Klusplatz", -7, 60));
}

#[test]
fn text_is_centred() {
    let mut fb = Panel::new(100);
    centered(&mut fb, "Connecting", 6, style(Font::Small, rgb(AMBER)), 5);
    assert_eq!(lit(&fb), text_points(false, "Connecting", 7, 6));
    let mut fb = Panel::new(100);
    centered(&mut fb, "abcdefghijklmn", 6, style(Font::Small, rgb(AMBER)), 5);
    assert_eq!(lit(&fb), text_points(false, "abcdefghijklmn", -3, 6));
}

#[test]
fn rules_run_edge_to_edge() {
    let mut fb = Panel::new(100);
    rule(&mut fb, 11, rgb(ACCENT));
    let expected: Vec<(usize, usize)> = (0..64).map(|x| (x, 11)).collect();
    assert_eq!(lit_in(&fb, rgb(ACCENT)), expected);
    assert_eq!(lit(&fb), expected);
    let mut fb = Panel::new(100);
    rule(&mut fb, -1, rgb(ACCENT));
    rule(&mut fb, 64, rgb(ACCENT));
    assert!(lit(&fb).is_empty());
}

#[test]
fn rectangles_are_filled_and_clipped() {
    let mut fb = Panel::new(100);
    fill_rect(&mut fb, -2, 62, 4, 10, rgb(DIM));
    assert_eq!(lit(&fb), [(0, 62), (1, 62), (0, 63), (1, 63)]);
    let mut fb = Panel::new(100);
    fill_rect(&mut fb, 5, 5, -3, 4, rgb(DIM));
    fill_rect(&mut fb, 5, 5, 0, 4, rgb(DIM));
    assert!(lit(&fb).is_empty());
    fill_span(&mut fb, 3, 4, 5, 5, rgb(DIM));
    assert_eq!(lit(&fb), [(3, 4), (4, 4)]);
}

#[test]
fn cities_are_hidden_on_request() {
    assert_eq!(city(true, "Zürich, Klusplatz"), "Klusplatz");
    assert_eq!(city(false, "Zürich, Klusplatz"), "Zürich, Klusplatz");
    assert_eq!(city(true, "Bern"), "Bern");
    assert_eq!(city(true, "A, B, C"), "B, C");
    assert_eq!(city(true, "Zürich, "), "Zürich, ");
    assert_eq!(city(true, "a,b"), "a,b");
    assert_eq!(city(true, ""), "");
}

#[test]
fn minutes_as_text() {
    assert_eq!(fmt_minutes(None), "--");
    assert_eq!(fmt_minutes(Some(0)), "now");
    assert_eq!(fmt_minutes(Some(7)), "7'");
    assert_eq!(fmt_minutes(Some(65_535)), "65535'");
}

#[test]
fn marquees_hold_then_run() {
    assert_eq!(marquee_offset(40, 0), 0);
    assert_eq!(marquee_offset(40, 99), 0);
    assert_eq!(marquee_offset(40, 100), 0);
    assert_eq!(marquee_offset(40, 101), 1);
    assert_eq!(marquee_offset(40, 139), 39);
    assert_eq!(marquee_offset(40, 140), 0);
    assert_eq!(marquee_offset(40, 241), 1);
}

#[test]
fn short_text_does_not_scroll() {
    let mut fb = Panel::new(100);
    let st = style(Font::Small, rgb(AMBER));
    assert!(!draw_marquee(&mut fb, "Bern", 2, 10, 20, st, 5, 150));
    assert_eq!(lit(&fb), text_points(false, "Bern", 2, 10));
}

#[test]
fn long_text_scrolls_with_its_copy() {
    let st = style(Font::Small, rgb(AMBER));
    let mut fb = Panel::new(100);
    assert!(draw_marquee(&mut fb, "Bern", 2, 10, 19, st, 5, 0));
    let first = text_points(false, "Bern", 2, 10);
    assert_eq!(lit(&fb), union(first, text_points(false, "Bern", 36, 10)));
    let mut fb = Panel::new(100);
    assert!(draw_marquee(&mut fb, "Bern", 2, 10, 19, st, 5, 110));
    let first = text_points(false, "Bern", -8, 10);
    assert_eq!(lit(&fb), union(first, text_points(false, "Bern", 26, 10)));
}

#[test]
fn clipped_marquee_stays_in_its_band() {
    let st = style(Font::Small, rgb(AMBER));
    let mut fb = Panel::new(100);
    assert!(draw_marquee_clipped(&mut fb, "Klusplatz", 20, 10, 15, 9, 6, st, 5, 110));
    let both = union(
        text_points(false, "Klusplatz", 10, 10),
        text_points(false, "Klusplatz", 10 + 45 + 14, 10),
    );
    assert_eq!(lit(&fb), clipped(both, 20, 9, 35, 15));
    let mut fb = Panel::new(100);
    assert!(!draw_marquee_clipped(&mut fb, "Klus", 20, 10, 20, 12, 3, st, 5, 110));
    assert_eq!(lit(&fb), clipped(text_points(false, "Klus", 20, 10), 20, 12, 40, 15));
}

#[test]
fn segments_pack_with_one_space() {
    let dim = style(Font::Small, rgb(DIM));
    let amber = style(Font::Small, rgb(AMBER));
    let mut fb = Panel::new(100);
    assert!(!draw_segments_row(&mut fb, &[("next", dim), ("12", amber)], 1, 57, 34, 5, 4, 0));
    assert_eq!(lit_in(&fb, rgb(DIM)), text_points(false, "next", 1, 57));
    assert_eq!(lit_in(&fb, rgb(AMBER)), text_points(false, "12", 25, 57));
    // One pixel less room, and the row scrolls as one, 48 pixels to a round.
    let mut fb = Panel::new(100);
    assert!(draw_segments_row(&mut fb, &[("next", dim), ("12", amber)], 1, 57, 33, 5, 4, 105));
    assert_eq!(
        lit_in(&fb, rgb(DIM)),
        union(text_points(false, "next", -4, 57), text_points(false, "next", 44, 57))
    );
    assert_eq!(lit_in(&fb, rgb(AMBER)), text_points(false, "12", 20, 57));
    let mut fb = Panel::new(100);
    assert!(!draw_segments_row(&mut fb, &[], 1, 57, 0, 5, 4, 0));
    assert!(lit(&fb).is_empty());
}

#[test]
fn badges_fit_their_label() {
    let mut fb = Panel::new(100);
    assert_eq!(draw_badge(&mut fb, "12", 1, 3, rgb(AMBER), rgb(OFF)), 18);
    let digits = text_points(true, "12", 4, 4);
    for y in 0..64 {
        for x in 0..64 {
            let inside = x >= 1 && x < 18 && y >= 3 && y < 14;
            let expected = inside && !digits.contains(&(x, y));
            assert_eq!(fb.get(x, y) == rgb(AMBER), expected, "at {x},{y}");
        }
    }
}

#[test]
fn line_labels_follow_the_setting() {
    let mut fb = Panel::new(100);
    assert_eq!(draw_line_label(&mut fb, true, "S12", 1, 3), 24);
    assert_eq!(fb.get(1, 3), rgb(AMBER));
    let mut fb = Panel::new(100);
    assert_eq!(draw_line_label(&mut fb, false, "S12", 1, 3), 19);
    assert_eq!(lit(&fb), text_points(true, "S12", 1, 4));
}

#[test]
fn bitmaps_scale_in_blocks() {
    let glyph = [[1, 0], [2, 1]];
    let mut fb = Panel::new(100);
    blit_tones(&mut fb, &glyph, 10, 20, 2, rgb(AMBER), Some(rgb(DIM)));
    assert_eq!(
        lit_in(&fb, rgb(AMBER)),
        [(10, 20), (11, 20), (10, 21), (11, 21), (12, 22), (13, 22), (12, 23), (13, 23)]
    );
    assert_eq!(lit_in(&fb, rgb(DIM)), [(10, 22), (11, 22), (10, 23), (11, 23)]);
    let mut fb = Panel::new(100);
    blit_bitmap(&mut fb, &glyph, 10, 20, 1, rgb(AMBER));
    assert_eq!(lit(&fb), [(10, 20), (11, 21)]);
    let mut fb = Panel::new(100);
    blit_bitmap(&mut fb, &ARROW_GLYPH, -3, 0, 1, rgb(AMBER));
    assert_eq!(lit(&fb), [(1, 0), (2, 1), (0, 2), (1, 2), (2, 2), (3, 2), (2, 3), (1, 4)]);
}

#[test]
fn train_front_at_both_sizes() {
    let mut fb = Panel::new(100);
    draw_train_front(&mut fb, 51, 16, rgb(ACCENT));
    assert_eq!(fb.get(51, 16), rgb(OFF));
    assert_eq!(fb.get(53, 16), rgb(ACCENT));
    assert_eq!(fb.get(51, 18), rgb(ACCENT));
    assert_eq!(fb.get(52, 19), rgb(OFF));
    assert_eq!(fb.get(55, 21), rgb(ACCENT));
    let small = lit(&fb).len();
    let mut fb = Panel::new(100);
    draw_train_front_scaled(&mut fb, 23, 23, 2, rgb(ACCENT));
    assert_eq!(lit(&fb).len(), 4 * small);
}

#[test]
fn painting_twice_is_painting_once() {
    let mut once = Panel::new(100);
    let mut twice = Panel::new(100);
    let st = style(Font::Medium, rgb(AMBER));
    left(&mut once, "Bern", 0, 0, st);
    left(&mut twice, "Bern", 0, 0, st);
    left(&mut twice, "Bern", 0, 0, st);
    assert_eq!(lit(&once), lit(&twice));
}
