use embedded_graphics::framebuffer::Framebuffer;
use embedded_graphics::mono_font::iso_8859_1::{FONT_5X7, FONT_6X10};
use embedded_graphics::mono_font::MonoTextStyle;
use embedded_graphics::pixelcolor::raw::{LittleEndian, RawU8};
use embedded_graphics::pixelcolor::{Gray8, GrayColor};
use embedded_graphics::prelude::{Drawable, Point};
use embedded_graphics::text::{Baseline, Text};
use zugli::display::draw::{ACCENT, AMBER, DIM, OFF};
use zugli::display::panel::{rgb, Panel};
use zugli::display::screens::{
    address_line, connect_cycle_done, draw_connecting, draw_departures, draw_focus, draw_idle,
    draw_offline, draw_provisioning, draw_tram_scene, RAIL, SLEEP, T_BODY, T_HEAD, T_HI, WIRE,
};
use zugli::model::{Config, Departure};
use zugli::shared::{apply_config, Shared};

fn text_points(medium: bool, s: &str, x: i32, y: i32) -> Vec<(usize, usize)> {
    let mut fb: Framebuffer<Gray8, RawU8, LittleEndian, 64, 64, 4096> = Framebuffer::new();
    let font = if medium { &FONT_6X10 } else { &FONT_5X7 };
    let st = MonoTextStyle::new(font, Gray8::WHITE);
    let _ = Text::with_baseline(s, Point::new(x, y), st, Baseline::Top).draw(&mut fb);
    let mut points = Vec::new();
    for (i, b) in fb.data().iter().enumerate() {
        if *b != 0 {
            points.push((i % 64, i / 64));
        }
    }
    points
}

fn points_in(fb: &Panel, hex: u32, rows: std::ops::Range<usize>) -> Vec<(usize, usize)> {
    let mut points = Vec::new();
    for y in rows {
        for x in 0..64 {
            if fb.get(x, y) == rgb(hex) {
                points.push((x, y));
            }
        }
    }
    points
}

fn dep(line: &str, destination: &str, minutes: Option<u16>) -> Departure {
    Departure {
        line: String::from(line),
        category: String::from("T"),
        destination: String::from(destination),
        minutes,
    }
}

#[test]
fn provisioning_names_the_access_point() {
    let mut fb = Panel::new(100);
    assert!(draw_provisioning(&mut fb, 0));
    assert_eq!(points_in(&fb, ACCENT, 0..17), text_points(true, "Zugli", 2, 2));
    assert_eq!(points_in(&fb, DIM, 17..26), text_points(false, "Join WiFi:", 2, 18));
    assert_eq!(points_in(&fb, ACCENT, 26..42), text_points(false, "Zugli-Setup", 2, 26));
    assert_eq!(points_in(&fb, DIM, 42..50), text_points(false, "then open:", 2, 42));
    assert_eq!(
        points_in(&fb, ACCENT, 50..64),
        text_points(false, "zugli.local or 192.168.4.1", 2, 50)
    );
}

#[test]
fn tram_enters_on_the_left() {
    let mut fb = Panel::new(100);
    draw_tram_scene(&mut fb, 0);
    assert_eq!(points_in(&fb, WIRE, 0..64), (0..64).map(|x| (x, 28)).collect::<Vec<_>>());
    assert_eq!(points_in(&fb, RAIL, 0..64), (0..64).map(|x| (x, 50)).collect::<Vec<_>>());
    assert_eq!(
        points_in(&fb, SLEEP, 0..64),
        (0..13).map(|i| (2 + 5 * i, 51)).collect::<Vec<_>>()
    );
    assert!(points_in(&fb, T_BODY, 0..64).is_empty());
}

#[test]
fn tram_rolls_nose_first() {
    // Frame 24 is half way: the left edge is at column -28 + 46.
    let mut fb = Panel::new(100);
    draw_tram_scene(&mut fb, 24);
    assert_eq!(points_in(&fb, T_HEAD, 0..64), [(45, 42), (45, 43)]);
    assert_eq!(fb.get(18, 40), rgb(T_BODY));
    assert_eq!(fb.get(17, 40), rgb(OFF));
    assert_eq!(fb.get(46, 40), rgb(OFF));
    assert_eq!(fb.get(30, 35), rgb(T_HI));
    let mut again = Panel::new(100);
    draw_tram_scene(&mut again, 24 + 48);
    assert_eq!(points_in(&again, T_HEAD, 0..64), [(45, 42), (45, 43)]);
}

#[test]
fn a_pass_takes_48_frames() {
    assert!(!connect_cycle_done(0));
    assert!(!connect_cycle_done(46));
    assert!(connect_cycle_done(47));
    assert!(connect_cycle_done(u32::MAX));
}

#[test]
fn connecting_and_offline_are_labelled() {
    let mut fb = Panel::new(100);
    assert!(draw_connecting(&mut fb, 0));
    assert_eq!(points_in(&fb, AMBER, 0..28), text_points(false, "Connecting", 7, 6));
    let mut fb = Panel::new(100);
    assert!(draw_offline(&mut fb, 0));
    assert_eq!(points_in(&fb, AMBER, 0..12), text_points(false, "offline", 14, 4));
    assert_eq!(points_in(&fb, AMBER, 12..28), text_points(false, "reconnecting", 2, 13));
    assert_eq!(points_in(&fb, WIRE, 28..29).len(), 64);
}

#[test]
fn address_follows_the_name() {
    assert_eq!(address_line([192, 168, 1, 42]), "zugli.local or 192.168.1.42");
    assert_eq!(address_line([255, 255, 255, 255]), "zugli.local or 255.255.255.255");
    assert_eq!(address_line([0, 0, 0, 0]), "zugli.local or 0.0.0.0");
}

#[test]
fn idle_screen_asks_for_a_connection() {
    let mut fb = Panel::new(100);
    assert!(draw_idle(&mut fb, [10, 0, 0, 7], 0));
    assert_eq!(points_in(&fb, AMBER, 0..12), text_points(false, "Choose a", 2, 2));
    assert_eq!(points_in(&fb, AMBER, 12..30), text_points(false, "connection", 2, 12));
    assert_eq!(points_in(&fb, DIM, 0..64), text_points(false, "Open:", 2, 32));
    assert_eq!(
        points_in(&fb, ACCENT, 40..64),
        text_points(false, "zugli.local or 10.0.0.7", 2, 42)
    );
    assert_eq!(fb.get(60, 15), rgb(ACCENT));
}

#[test]
fn board_without_departures() {
    let mut fb = Panel::new(100);
    assert!(!draw_departures(&mut fb, &Shared::new(), "Bern", &vec![], 0));
    assert_eq!(points_in(&fb, AMBER, 0..11), text_points(true, "Bern", 1, 0));
    assert_eq!(points_in(&fb, ACCENT, 0..64).len(), 64);
    assert_eq!(points_in(&fb, DIM, 0..64), text_points(false, "no service", 7, 32));
}

#[test]
fn board_row_by_row() {
    let mut shared = Shared::new();
    let cfg = Config { show_line_badges: false, strip_city: true, ..Config::default() };
    apply_config(&mut shared, &cfg);
    let deps = vec![dep("2", "Zürich, Klus", Some(7)), dep("S12", "Brugg", Some(0))];
    let mut fb = Panel::new(100);
    assert!(!draw_departures(&mut fb, &shared, "Zürich, HB", &deps, 0));
    assert_eq!(points_in(&fb, AMBER, 0..11), text_points(true, "HB", 1, 0));
    let mut row = text_points(true, "2", 1, 16);
    row.extend(text_points(false, "Klus", 9, 18));
    row.sort_by_key(|p| (p.1, p.0));
    assert_eq!(points_in(&fb, AMBER, 12..29), row);
    assert_eq!(points_in(&fb, ACCENT, 12..29), text_points(false, "7'", 53, 18));
    // The second row leaves now.
    assert_eq!(fb.get(53, 33), rgb(ACCENT));
    assert_eq!(fb.get(51, 35), rgb(ACCENT));
    assert_eq!(fb.get(50, 35), rgb(OFF));
}

#[test]
fn board_scrolls_what_is_too_wide() {
    let shared = Shared::new();
    let near = vec![dep("2", "Klus", Some(7))];
    let far = vec![dep("2", "Zürich, Klusplatz", Some(7))];
    let mut fb = Panel::new(100);
    assert!(!draw_departures(&mut fb, &shared, "Bern", &near, 0));
    assert!(draw_departures(&mut fb, &shared, "Bern", &far, 0));
    assert!(draw_departures(&mut fb, &shared, "Zürich, Stauffacher", &near, 0));
}

#[test]
fn board_destination_stays_in_its_gap() {
    let deps = vec![dep("2", "MMMMMMMMMMMMMMMM", Some(7))];
    for frame in [0, 120, 150] {
        let mut fb = Panel::new(100);
        assert!(draw_departures(&mut fb, &Shared::new(), "B", &deps, frame));
        // Badge to column 12, then a 2 px gap; the time starts at column 53, after another.
        for y in 12..29 {
            for x in [12, 13, 51, 52] {
                assert_eq!(fb.get(x, y), rgb(OFF), "at {x},{y}");
            }
        }
    }
}

#[test]
fn focus_view_without_departures() {
    let mut fb = Panel::new(100);
    assert!(!draw_focus(&mut fb, &Shared::new(), &vec![], 0));
    assert_eq!(points_in(&fb, DIM, 0..64), text_points(false, "no service", 7, 28));
}

#[test]
fn focus_view_counts_down_in_segments() {
    let mut fb = Panel::new(100);
    let deps = vec![dep("2", "Klus", Some(14))];
    assert!(!draw_focus(&mut fb, &Shared::new(), &deps, 0));
    // Two digits of 15 columns with a gap of 4, centred: from column 15, rows 16 to 50.
    let amber = |x: usize, y: usize| fb.get(x, y) == rgb(AMBER);
    assert!(amber(27, 16) && amber(29, 49), "the 1 is its right-hand strokes");
    assert!(!amber(15, 20) && !amber(20, 17) && !amber(20, 33));
    assert!(amber(34, 16) && amber(40, 32) && amber(48, 49), "the 4 has a middle");
    assert!(!amber(40, 17) && !amber(34, 40) && !amber(40, 48));
    assert!(amber(52, 16) && amber(53, 21) && !amber(52, 22), "an apostrophe follows");
    assert_eq!(points_in(&fb, DIM, 0..64).len(), 0, "no footer");
}

#[test]
fn focus_view_digits() {
    // Which of the seven segments (a to g) each digit lights.
    let lit = [
        "abcdef", "bc", "abdeg", "abcdg", "bcfg", "acdfg", "acdefg", "abc", "abcdefg", "abcdfg",
    ];
    // Points that belong to one segment only.
    let probe = [(7, 1), (13, 8), (13, 25), (7, 32), (1, 25), (1, 8), (7, 16)];
    for d in 1..10u16 {
        let mut fb = Panel::new(100);
        let _ = draw_focus(&mut fb, &Shared::new(), &vec![dep("2", "K", Some(d * 10))], 0);
        for (i, name) in ["a", "b", "c", "d", "e", "f", "g"].iter().enumerate() {
            let (x, y) = probe[i];
            let on = fb.get(15 + x, 16 + y) == rgb(AMBER);
            assert_eq!(on, lit[d as usize].contains(name), "segment {name} of {d}");
            let zero = fb.get(34 + x, 16 + y) == rgb(AMBER);
            assert_eq!(zero, lit[0].contains(name), "segment {name} of 0");
        }
    }
}

#[test]
fn focus_view_now_and_no_service() {
    let mut fb = Panel::new(100);
    let _ = draw_focus(&mut fb, &Shared::new(), &vec![dep("2", "K", Some(0))], 0);
    assert_eq!(fb.get(27, 23), rgb(ACCENT));
    assert_eq!(fb.get(26, 23), rgb(OFF));
    let mut fb = Panel::new(100);
    let _ = draw_focus(&mut fb, &Shared::new(), &vec![dep("2", "K", None)], 0);
    let mut bars = Vec::new();
    for y in 31..35 {
        bars.extend((15..30).map(|x| (x, y)));
        bars.extend((34..49).map(|x| (x, y)));
    }
    assert_eq!(points_in(&fb, DIM, 0..64), bars);
}

#[test]
fn focus_view_footer() {
    let deps = vec![dep("2", "K", Some(3)), dep("12", "L", Some(9))];
    let mut fb = Panel::new(100);
    assert!(!draw_focus(&mut fb, &Shared::new(), &deps, 0));
    let mut words = text_points(false, "next", 1, 57);
    words.extend(text_points(false, "in", 39, 57));
    words.sort_by_key(|p| (p.1, p.0));
    assert_eq!(points_in(&fb, DIM, 51..64), words);
    assert_eq!(points_in(&fb, AMBER, 51..64), text_points(false, "12", 25, 57));
    assert_eq!(points_in(&fb, ACCENT, 51..64), text_points(false, "9'", 53, 57));
    // 62 pixels fit: 4 more do not.
    let deps = vec![dep("2", "K", Some(3)), dep("12", "L", Some(99))];
    assert!(draw_focus(&mut fb, &Shared::new(), &deps, 0));
}
