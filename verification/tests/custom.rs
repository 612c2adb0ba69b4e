use embedded_graphics::framebuffer::Framebuffer;
use embedded_graphics::mono_font::iso_8859_1::{FONT_5X7, FONT_6X10};
use embedded_graphics::mono_font::MonoTextStyle;
use embedded_graphics::pixelcolor::raw::{LittleEndian, RawU8};
use embedded_graphics::pixelcolor::{Gray8, GrayColor};
use embedded_graphics::prelude::{Drawable, Point};
use embedded_graphics::text::{Baseline, Text};
use zugli::display::custom::{
    blit_picture, blit_scaled_text, colorful_weather_palette, condition, draw_badge_scaled,
    draw_custom_layout, draw_dep_field, draw_divider, draw_icon, draw_weather, elem_color,
    font_for, format_clock, format_date, format_temperature, place_text, weather_condition_glyph,
    Columns, Condition, GlyphStyle, CLOUD_GLYPH, RAIN_GLYPH,
};
use zugli::display::draw::{Font, ACCENT, AMBER, DIM, OFF};
use zugli::display::panel::{rgb, Color, Panel};
use zugli::model::{Config, Departure, Element, Layout, Weather};
use zugli::shared::{apply_config, set_clock, set_weather, Shared};

fn text_points(medium: bool, s: &str, x: i32, y: i32) -> Vec<(usize, usize)> {
    let mut fb: Framebuffer<Gray8, RawU8, LittleEndian, 64, 64, 4096> = Framebuffer::new();
    let font = if medium { &FONT_6X10 } else { &FONT_5X7 };
    let st = MonoTextStyle::new(font, Gray8::WHITE);
    let _ = Text::with_baseline(s, Point::new(x, y), st, Baseline::Top).draw(&mut fb);
    let mut points = Vec::new();
    for (i, b) in fb.data().iter().enumerate() {
        if *b != 0 {
            points.push((i % 64, i / 64));
        }
    }
    points
}

/// The points of a text set at `(0, 0)`, enlarged `k` times and moved to `(x, y)`.
fn enlarged(medium: bool, s: &str, x: usize, y: usize, k: usize) -> Vec<(usize, usize)> {
    let mut points = Vec::new();
    for (px, py) in text_points(medium, s, 0, 0) {
        for dy in 0..k {
            for dx in 0..k {
                let p = (x + px * k + dx, y + py * k + dy);
                if p.0 < 64 && p.1 < 64 {
                    points.push(p);
                }
            }
        }
    }
    points.sort_by_key(|p| (p.1, p.0));
    points
}

fn points_in(fb: &Panel, hex: u32) -> Vec<(usize, usize)> {
    let mut points = Vec::new();
    for y in 0..64 {
        for x in 0..64 {
            if fb.get(x, y) == rgb(hex) {
                points.push((x, y));
            }
        }
    }
    points
}

fn el(t: u8, x: u8, y: u8) -> Element {
    Element {
        t,
        x,
        y,
        w: 0,
        s: 0,
        k: 1,
        c: 0,
        col: None,
        a: 0,
        v: String::new(),
        di: 0,
        fk: 0,
        sp: false,
        th: 1,
        f: 0,
        g: 0,
    }
}

fn dep(line: &str, destination: &str, minutes: Option<u16>) -> Departure {
    Departure {
        line: String::from(line),
        category: String::from("T"),
        destination: String::from(destination),
        minutes,
    }
}

#[test]
fn explicit_colour_wins() {
    let mut e = el(0, 0, 0);
    assert_eq!(elem_color(&e), rgb(AMBER));
    e.c = 1;
    assert_eq!(elem_color(&e), rgb(ACCENT));
    e.c = 2;
    assert_eq!(elem_color(&e), rgb(DIM));
    e.c = 9;
    assert_eq!(elem_color(&e), rgb(AMBER));
    e.col = Some(0x0A0B0C);
    assert_eq!(elem_color(&e), Color { r: 10, g: 11, b: 12 });
}

#[test]
fn two_fonts() {
    assert_eq!(font_for(0), Font::Small);
    assert_eq!(font_for(1), Font::Medium);
    assert_eq!(font_for(2), Font::Small);
}

#[test]
fn scaled_text_is_the_font_in_blocks() {
    for k in 1..=3i32 {
        for medium in [false, true] {
            let mut fb = Panel::new(100);
            let st = GlyphStyle { medium, k, color: rgb(AMBER) };
            let all = Columns { start: i32::MIN, end: i32::MAX };
            blit_scaled_text(&mut fb, "Zü1", 2, 5, &st, &all);
            assert_eq!(points_in(&fb, AMBER), enlarged(medium, "Zü1", 2, 5, k as usize));
        }
    }
}

#[test]
fn scaled_text_keeps_to_its_columns() {
    let mut fb = Panel::new(100);
    let st = GlyphStyle { medium: false, k: 2, color: rgb(AMBER) };
    blit_scaled_text(&mut fb, "MMM", 0, 0, &st, &Columns { start: 7, end: 15 });
    let expected: Vec<(usize, usize)> =
        enlarged(false, "MMM", 0, 0, 2).into_iter().filter(|p| p.0 >= 7 && p.0 < 15).collect();
    assert_eq!(points_in(&fb, AMBER), expected);
}

#[test]
fn one_cell_of_a_picture() {
    let mut picture = vec![0u8; 4096];
    picture[0] = 255;
    picture[64 + 4] = 1;
    picture[5] = 255;
    let mut fb = Panel::new(100);
    let st = GlyphStyle { medium: false, k: 1, color: rgb(AMBER) };
    blit_picture(&mut fb, &picture, 10, 10, &st, &Columns { start: 0, end: 64 });
    assert_eq!(points_in(&fb, AMBER), [(10, 10), (14, 11)]);
    let st = GlyphStyle { medium: true, ..st };
    blit_picture(&mut fb, &picture, 10, 10, &st, &Columns { start: 0, end: 64 });
    assert_eq!(points_in(&fb, AMBER), [(10, 10), (15, 10), (14, 11)]);
}

#[test]
fn text_is_aligned_in_its_box() {
    for (a, x) in [(0, 10), (1, 20), (2, 30), (7, 10)] {
        let mut fb = Panel::new(100);
        let mut e = el(0, 10, 3);
        e.w = 30;
        e.a = a;
        assert!(!place_text(&mut fb, "HB", &e, true, 150));
        assert_eq!(points_in(&fb, AMBER), text_points(false, "HB", x, 3));
    }
}

#[test]
fn wide_text_scrolls_or_is_clipped() {
    let mut e = el(0, 10, 3);
    e.w = 12;
    let mut fb = Panel::new(100);
    assert!(place_text(&mut fb, "Bern", &e, true, 105));
    let mut expected = text_points(false, "Bern", 5, 3);
    expected.extend(text_points(false, "Bern", 39, 3));
    expected.retain(|p| p.0 >= 10 && p.0 < 22);
    assert_eq!(points_in(&fb, AMBER), expected);
    let mut fb = Panel::new(100);
    e.a = 2;
    assert!(!place_text(&mut fb, "Bern", &e, false, 105));
    let mut expected = text_points(false, "Bern", 10, 3);
    expected.retain(|p| p.0 < 22);
    assert_eq!(points_in(&fb, AMBER), expected);
}

#[test]
fn text_without_a_box_never_scrolls() {
    let e = el(0, 50, 3);
    let mut fb = Panel::new(100);
    assert!(!place_text(&mut fb, "Klusplatz", &e, true, 300));
    assert_eq!(points_in(&fb, AMBER), text_points(false, "Klusplatz", 50, 3));
}

#[test]
fn scale_is_clamped() {
    for (k, used) in [(0, 1), (2, 2), (3, 3), (9, 3)] {
        let mut fb = Panel::new(100);
        let mut e = el(0, 1, 1);
        e.k = k;
        e.s = 1;
        let _ = place_text(&mut fb, "A", &e, true, 0);
        assert_eq!(points_in(&fb, AMBER), enlarged(true, "A", 1, 1, used));
    }
}

#[test]
fn badge_has_its_digits_cut_out() {
    let mut fb = Panel::new(100);
    let mut e = el(1, 2, 4);
    e.k = 2;
    draw_badge_scaled(&mut fb, "7", &e, rgb(DIM));
    let digit = enlarged(true, "7", 8, 6, 2);
    for y in 0..64 {
        for x in 0..64 {
            let inside = x >= 2 && x < 24 && y >= 4 && y < 26;
            let expected = inside && !digit.contains(&(x, y));
            assert_eq!(fb.get(x, y) == rgb(DIM), expected, "at {x},{y}");
        }
    }
}

#[test]
fn departure_fields() {
    let deps = vec![dep("2", "Zürich, Klus", Some(7)), dep("12", "Brugg", Some(0))];
    let mut shared = Shared::new();
    let mut e = el(1, 0, 0);
    let mut fb = Panel::new(100);
    // A badge by default, plain text in the minimal style or with badges off.
    assert!(!draw_dep_field(&mut fb, &shared, &e, &deps, 0));
    assert_eq!(fb.get(0, 0), rgb(AMBER));
    e.f = 1;
    let mut fb = Panel::new(100);
    assert!(!draw_dep_field(&mut fb, &shared, &e, &deps, 0));
    assert_eq!(points_in(&fb, AMBER), text_points(false, "2", 0, 0));
    e.f = 0;
    apply_config(&mut shared, &Config { show_line_badges: false, strip_city: true, ..Config::default() });
    let mut fb = Panel::new(100);
    assert!(!draw_dep_field(&mut fb, &shared, &e, &deps, 0));
    assert_eq!(points_in(&fb, AMBER), text_points(false, "2", 0, 0));
    // Direction, with the city hidden.
    e.fk = 1;
    let mut fb = Panel::new(100);
    assert!(!draw_dep_field(&mut fb, &shared, &e, &deps, 0));
    assert_eq!(points_in(&fb, AMBER), text_points(false, "Klus", 0, 0));
    // Time: text, or the pictogram.
    e.fk = 2;
    let mut fb = Panel::new(100);
    assert!(!draw_dep_field(&mut fb, &shared, &e, &deps, 0));
    assert_eq!(points_in(&fb, AMBER), text_points(false, "7'", 0, 0));
    e.di = 1;
    let mut fb = Panel::new(100);
    assert!(!draw_dep_field(&mut fb, &shared, &e, &deps, 0));
    assert_eq!(fb.get(2, 0), rgb(AMBER));
    assert_eq!(fb.get(1, 0), rgb(OFF));
}

#[test]
fn only_the_direction_scrolls() {
    let deps = vec![dep("S1234567", "Klusplatz", Some(12345))];
    let shared = Shared::new();
    let mut fb = Panel::new(100);
    let mut e = el(1, 0, 0);
    e.w = 10;
    e.f = 1;
    assert!(!draw_dep_field(&mut fb, &shared, &e, &deps, 0));
    e.fk = 1;
    assert!(draw_dep_field(&mut fb, &shared, &e, &deps, 0));
    e.fk = 2;
    assert!(!draw_dep_field(&mut fb, &shared, &e, &deps, 0));
}

#[test]
fn absent_departure_draws_nothing() {
    let deps = vec![dep("2", "Klus", Some(7))];
    let mut fb = Panel::new(100);
    let mut e = el(1, 0, 0);
    for di in 1..=5 {
        e.di = di;
        assert!(!draw_dep_field(&mut fb, &Shared::new(), &e, &deps, 0));
    }
    assert!(points_in(&fb, AMBER).is_empty());
}

#[test]
fn clock_in_local_time() {
    // 2024-01-15 07:05:00 UTC is 08:05 in Switzerland, 2024-07-15 10:05:00 UTC is 12:05.
    assert_eq!(format_clock(1_705_302_300, 0), "08:05");
    assert_eq!(format_clock(1_705_302_300, 1), "8:05");
    assert_eq!(format_clock(1_721_037_900, 0), "12:05");
    assert_eq!(format_clock(1_721_037_900, 1), "12:05");
}

#[test]
fn date_in_local_time() {
    // 2023-12-31 23:30:00 UTC is already the next year.
    assert_eq!(format_date(1_704_065_400, 0), "01.01.");
    assert_eq!(format_date(1_704_065_400, 1), "01.01.2024");
    assert_eq!(format_date(-62_200_000_000, 1), "17.12.-2");
}

#[test]
fn dividers() {
    let mut fb = Panel::new(100);
    let mut e = el(5, 60, 10);
    draw_divider(&mut fb, &e);
    assert_eq!(points_in(&fb, AMBER), [(60, 10), (61, 10), (62, 10), (63, 10)]);
    e.w = 2;
    e.th = 7;
    let mut fb = Panel::new(100);
    draw_divider(&mut fb, &e);
    assert_eq!(points_in(&fb, AMBER), [(60, 10), (61, 10), (60, 11), (61, 11)]);
    let mut fb = Panel::new(100);
    draw_divider(&mut fb, &el(5, 200, 10));
    assert!(points_in(&fb, AMBER).is_empty());
}

#[test]
fn icons() {
    let mut e = el(6, 10, 10);
    let count = |e: &Element| {
        let mut fb = Panel::new(100);
        draw_icon(&mut fb, e);
        points_in(&fb, AMBER).len()
    };
    let tram = count(&e);
    e.g = 1;
    assert_eq!(count(&e), 9);
    e.k = 2;
    assert_eq!(count(&e), 36);
    e.k = 1;
    e.g = 2;
    assert_eq!(count(&e), 11);
    e.g = 9;
    assert_eq!(count(&e), tram);
}

#[test]
fn weather_codes() {
    let table = [
        (0, Condition::Clear),
        (1, Condition::Clear),
        (2, Condition::PartlyCloudy),
        (3, Condition::Overcast),
        (45, Condition::Fog),
        (46, Condition::Overcast),
        (48, Condition::Fog),
        (51, Condition::Rain),
        (67, Condition::Rain),
        (68, Condition::Overcast),
        (71, Condition::Snow),
        (77, Condition::Snow),
        (80, Condition::Rain),
        (82, Condition::Rain),
        (85, Condition::Snow),
        (86, Condition::Snow),
        (95, Condition::Thunder),
        (99, Condition::Thunder),
        (100, Condition::Overcast),
        (255, Condition::Overcast),
    ];
    for (code, expected) in table {
        assert_eq!(condition(code), expected, "code {code}");
    }
    assert_eq!(weather_condition_glyph(61), RAIN_GLYPH);
    assert_eq!(weather_condition_glyph(3), CLOUD_GLYPH);
    assert_eq!(colorful_weather_palette(61), (rgb(0x8A8A8A), rgb(0x4A90E2)));
    assert_eq!(colorful_weather_palette(2), (rgb(0xE8E8E8), rgb(0xFFD400)));
}

#[test]
fn temperatures() {
    assert_eq!(format_temperature(&Weather { deci_celsius: 215, code: 0 }), "21°");
    assert_eq!(format_temperature(&Weather { deci_celsius: -35, code: 0 }), "-3°");
    assert_eq!(format_temperature(&Weather { deci_celsius: -5, code: 0 }), "0°");
    assert_eq!(format_temperature(&Weather { deci_celsius: i16::MIN, code: 0 }), "-3276°");
}

#[test]
fn weather_formats() {
    let rain = Some(Weather { deci_celsius: 52, code: 61 });
    let mut e = el(7, 1, 1);
    let mut fb = Panel::new(100);
    draw_weather(&mut fb, &e, None);
    assert!(points_in(&fb, AMBER).is_empty());
    e.f = 1;
    draw_weather(&mut fb, &e, rain);
    assert_eq!(points_in(&fb, AMBER), text_points(false, "5°", 1, 1));
    e.f = 2;
    let mut fb = Panel::new(100);
    draw_weather(&mut fb, &e, rain);
    assert_eq!(points_in(&fb, AMBER).len(), 31);
    e.g = 1;
    e.f = 0;
    let mut fb = Panel::new(100);
    draw_weather(&mut fb, &e, rain);
    assert_eq!(points_in(&fb, AMBER), text_points(false, "5°", 10, 1));
    assert_eq!(points_in(&fb, 0x8A8A8A).len(), 25);
    assert_eq!(points_in(&fb, 0x4A90E2).len(), 6);
}

#[test]
fn later_elements_are_on_top() {
    let mut under = el(5, 0, 10);
    under.c = 1;
    let mut top = el(5, 10, 10);
    top.w = 4;
    let layout = Layout { v: 1, e: vec![under, top] };
    let mut fb = Panel::new(100);
    let shared = Shared::new();
    assert!(!draw_custom_layout(&mut fb, &shared, &layout, "Bern", &vec![], 0, 0, 0));
    assert_eq!(points_in(&fb, AMBER), [(10, 10), (11, 10), (12, 10), (13, 10)]);
    assert_eq!(points_in(&fb, ACCENT).len(), 60);
}

#[test]
fn every_element_type() {
    let mut shared = Shared::new();
    let deps = vec![dep("2", "Klus", Some(7))];
    let draw = |shared: &Shared, e: Element, now: u64| {
        let mut fb = Panel::new(100);
        let layout = Layout { v: 1, e: vec![e] };
        let moving = draw_custom_layout(&mut fb, shared, &layout, "Bern", &deps, now, 10, 150);
        (points_in(&fb, AMBER), moving)
    };
    let mut text = el(0, 0, 0);
    text.v = String::from("hello");
    assert_eq!(draw(&shared, text.clone(), 0), (text_points(false, "hello", 0, 0), false));
    text.w = 10;
    assert!(draw(&shared, text, 0).1);
    let mut time = el(1, 0, 0);
    time.fk = 2;
    assert_eq!(draw(&shared, time, 0).0, text_points(false, "7'", 0, 0));
    assert_eq!(draw(&shared, el(2, 0, 0), 0).0, text_points(false, "Bern", 0, 0));
    // Nothing before the clock is set, or without recent weather.
    for t in [3, 4, 7, 8, 255] {
        assert!(draw(&shared, el(t, 0, 0), 0).0.is_empty());
    }
    set_clock(&mut shared, 1_705_302_300, 0);
    set_weather(&mut shared, Weather { deci_celsius: 52, code: 3 }, 100);
    assert_eq!(draw(&shared, el(3, 0, 0), 0).0, text_points(false, "08:05", 0, 0));
    assert_eq!(draw(&shared, el(4, 0, 0), 0).0, text_points(false, "15.01.", 0, 0));
    assert!(!draw(&shared, el(7, 0, 0), 109).0.is_empty());
    assert!(draw(&shared, el(7, 0, 0), 111).0.is_empty());
    assert_eq!(draw(&shared, el(5, 62, 3), 0).0, [(62, 3), (63, 3)]);
    assert!(!draw(&shared, el(6, 0, 0), 0).0.is_empty());
}
