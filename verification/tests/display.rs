use zugli::display::draw::OFF;
use zugli::display::panel::{rgb, Panel};
use zugli::display::{
    current_brightness, draw_state, layout_on_panel, Event, Renderer, Wait,
};
use zugli::model::{Config, Departure, DisplayState, Element, Layout};
use zugli::shared::{
    apply_config, apply_layout, end_preview, preview_deadline, set_clock, set_preview,
    take_redraw, Shared,
};

fn divider(y: u8) -> Element {
    Element {
        t: 5,
        x: 0,
        y,
        w: 0,
        s: 0,
        k: 1,
        c: 0,
        col: Some(0x00FF00),
        a: 0,
        v: String::new(),
        di: 0,
        fk: 0,
        sp: false,
        th: 1,
        f: 0,
        g: 0,
    }
}

fn layout(v: u8, y: u8) -> Layout {
    Layout { v, e: vec![divider(y)] }
}

fn board() -> DisplayState {
    DisplayState::Departures {
        station: String::from("Bern"),
        deps: vec![Departure {
            line: String::from("2"),
            category: String::from("T"),
            destination: String::from("Klus"),
            minutes: Some(7),
        }],
    }
}

fn mode(shared: &mut Shared, ui_mode: u8) {
    apply_config(shared, &Config { ui_mode, brightness: 10, ..Config::default() });
}

fn frame(shared: &Shared, state: &DisplayState, now: u64) -> Vec<(u8, u8, u8)> {
    let mut fb = Panel::new(100);
    let _ = draw_state(&mut fb, shared, state, now, 0, 0);
    let mut points = Vec::new();
    for y in 0..64 {
        for x in 0..64 {
            let c = fb.get(x, y);
            points.push((c.r, c.g, c.b));
        }
    }
    points
}

fn green_row(points: &Vec<(u8, u8, u8)>, y: usize) -> bool {
    (0..64).all(|x| points[y * 64 + x] == (0, 255, 0))
}

#[test]
fn brightness_is_manual_before_the_clock_is_set() {
    let mut s = Shared::new();
    assert_eq!(current_brightness(&s, 0), 60);
    for level in [1u8, 5, 10] {
        apply_config(&mut s, &Config { brightness: level, ..Config::default() });
        assert_eq!(current_brightness(&s, 0), level as u32 * 10);
    }
}

#[test]
fn brightness_drops_in_the_window() {
    let mut s = Shared::new();
    // 2024-01-15 18:59:00 UTC, 19:59 local; the window is 20:00 to 08:00.
    set_clock(&mut s, 1_705_345_140, 0);
    assert_eq!(current_brightness(&s, 0), 60);
    assert_eq!(current_brightness(&s, 60_000_000), 10);
    assert_eq!(current_brightness(&s, 12 * 3_600_000_000), 10);
    assert_eq!(current_brightness(&s, 12 * 3_600_000_000 + 60_000_000), 60);
    apply_config(&mut s, &Config { off_when_dimmed: true, ..Config::default() });
    assert_eq!(current_brightness(&s, 60_000_000), 0);
    apply_config(&mut s, &Config { auto_brightness: false, ..Config::default() });
    assert_eq!(current_brightness(&s, 60_000_000), 60);
}

#[test]
fn a_dark_panel_is_black() {
    let mut s = Shared::new();
    apply_config(
        &mut s,
        &Config { off_when_dimmed: true, reduced_start: 0, reduced_end: 1440, ..Config::default() },
    );
    set_clock(&mut s, 1_705_345_140, 0);
    assert_eq!(current_brightness(&s, 0), 0);
    assert!(frame(&s, &board(), 0).iter().all(|c| *c == (0, 0, 0)));
    assert!(frame(&s, &DisplayState::Connecting, 0).iter().all(|c| *c == (0, 0, 0)));
}

#[test]
fn each_mode_has_its_view() {
    let mut s = Shared::new();
    mode(&mut s, 0);
    let as_board = frame(&s, &board(), 0);
    mode(&mut s, 1);
    let as_focus = frame(&s, &board(), 0);
    assert_ne!(as_board, as_focus);
    // Without a layout the custom mode shows the board.
    mode(&mut s, 2);
    assert_eq!(frame(&s, &board(), 0), as_board);
    apply_layout(&mut s, Some(layout(1, 20)));
    assert!(green_row(&frame(&s, &board(), 0), 20));
    mode(&mut s, 0);
    assert_eq!(frame(&s, &board(), 0), as_board);
}

#[test]
fn a_layout_of_a_newer_version_is_no_layout() {
    let mut s = Shared::new();
    mode(&mut s, 2);
    let as_board = frame(&s, &board(), 0);
    apply_layout(&mut s, Some(layout(2, 20)));
    assert!(layout_on_panel(&s, 0).is_none());
    assert_eq!(frame(&s, &board(), 0), as_board);
}

#[test]
fn a_preview_overrides_every_mode() {
    let mut s = Shared::new();
    for m in 0..3 {
        mode(&mut s, m);
        apply_layout(&mut s, Some(layout(1, 20)));
        let without = frame(&s, &board(), 5);
        set_preview(&mut s, layout(1, 40), 0);
        assert!(green_row(&frame(&s, &board(), 5), 40));
        assert_eq!(layout_on_panel(&s, 5).unwrap().e[0].y, 40);
        // It ends by itself, or when told to.
        assert_eq!(frame(&s, &board(), 15_000_000), without);
        end_preview(&mut s);
        assert_eq!(frame(&s, &board(), 5), without);
    }
}

#[test]
fn an_empty_preview_shows_the_board() {
    let mut s = Shared::new();
    mode(&mut s, 0);
    let as_board = frame(&s, &board(), 0);
    mode(&mut s, 1);
    set_preview(&mut s, Layout { v: 1, e: vec![] }, 0);
    assert_eq!(frame(&s, &board(), 5), as_board);
}

#[test]
fn static_and_animated_screens() {
    let s = Shared::new();
    let mut fb = Panel::new(100);
    assert!(!draw_state(&mut fb, &s, &board(), 0, 0, 0));
    assert!(draw_state(&mut fb, &s, &DisplayState::Provisioning, 0, 0, 0));
    assert!(draw_state(&mut fb, &s, &DisplayState::Connecting, 0, 0, 0));
    assert!(draw_state(&mut fb, &s, &DisplayState::Offline, 0, 0, 0));
    let idle = DisplayState::IdleAddress { octets: [10, 0, 0, 1] };
    assert!(draw_state(&mut fb, &s, &idle, 0, 0, 0));
}

#[test]
fn a_frame_ends_an_expired_preview() {
    let mut s = Shared::new();
    mode(&mut s, 0);
    let _ = take_redraw(&mut s);
    let plain = frame(&s, &board(), 0);
    set_preview(&mut s, layout(1, 40), 0);
    let _ = take_redraw(&mut s);
    let r = Renderer::new(board());
    let mut fb = Panel::new(100);
    let _ = r.draw_frame(&mut fb, &mut s, 14_999_999, 0);
    assert_eq!(preview_deadline(&s), Some(15_000_000));
    assert!(!take_redraw(&mut s));
    let _ = r.draw_frame(&mut fb, &mut s, 15_000_000, 0);
    assert_eq!(preview_deadline(&s), None);
    assert!(take_redraw(&mut s));
    let mut points = Vec::new();
    for y in 0..64 {
        for x in 0..64 {
            let c = fb.get(x, y);
            points.push((c.r, c.g, c.b));
        }
    }
    assert_eq!(points, plain);
}

#[test]
fn each_frame_starts_unlit() {
    let mut s = Shared::new();
    let mut fb = Panel::new(100);
    let _ = Renderer::new(DisplayState::Connecting).draw_frame(&mut fb, &mut s, 0, 0);
    assert_ne!(fb.get(0, 28), rgb(OFF));
    let _ = Renderer::new(DisplayState::Provisioning).draw_frame(&mut fb, &mut s, 0, 0);
    assert_eq!(fb.get(0, 28), rgb(OFF));
}

#[test]
fn connecting_plays_a_full_pass() {
    let s = Shared::new();
    let mut r = Renderer::new(DisplayState::Connecting);
    for i in 0..10 {
        assert_eq!(r.frame, i);
        assert_eq!(r.after_frame(true, &s, 0), Some(Wait::Frame));
        r.on_event(true, Event::Timer);
    }
    r.on_event(true, Event::Display(DisplayState::Offline));
    r.on_event(true, Event::Display(board()));
    assert!(matches!(r.state, DisplayState::Connecting));
    while r.frame < 47 {
        assert_eq!(r.after_frame(true, &s, 0), Some(Wait::Frame));
        assert!(matches!(r.state, DisplayState::Connecting));
        r.on_event(true, Event::Timer);
    }
    // The pass is over: the newest state takes over and is drawn at once.
    assert_eq!(r.after_frame(true, &s, 0), None);
    assert!(matches!(r.state, DisplayState::Departures { .. }));
    assert_eq!(r.frame, 0);
    assert!(r.pending.is_none());
}

#[test]
fn other_screens_give_way_at_once() {
    let mut r = Renderer::new(DisplayState::Offline);
    r.on_event(true, Event::Timer);
    r.on_event(true, Event::Redraw);
    assert_eq!(r.frame, 1);
    r.on_event(true, Event::Display(board()));
    assert!(matches!(r.state, DisplayState::Departures { .. }));
    assert_eq!(r.frame, 0);
    let mut late = Renderer { state: DisplayState::Connecting, frame: 47, pending: None };
    late.on_event(true, Event::Display(board()));
    assert!(matches!(late.state, DisplayState::Departures { .. }));
}

#[test]
fn frame_numbers_wrap() {
    let mut r = Renderer { state: DisplayState::Offline, frame: u32::MAX, pending: None };
    r.on_event(true, Event::Timer);
    assert_eq!(r.frame, 0);
}

#[test]
fn static_screens_wake_for_brightness_or_the_preview() {
    let mut s = Shared::new();
    let mut r = Renderer::new(board());
    assert_eq!(r.after_frame(false, &s, 7), Some(Wait::Idle { until: 60_000_007 }));
    set_preview(&mut s, layout(1, 1), 7);
    assert_eq!(r.after_frame(false, &s, 8), Some(Wait::Idle { until: 15_000_007 }));
    r.on_event(false, Event::Timer);
    assert!(matches!(r.state, DisplayState::Departures { .. }));
    r.on_event(false, Event::Display(DisplayState::Offline));
    assert!(matches!(r.state, DisplayState::Offline));
}
