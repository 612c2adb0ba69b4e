use zugli::model::{Config, Element, Layout, UiMode, Weather};
use zugli::shared::{
    apply_config, apply_layout, auto_brightness_enabled, brightness_level, custom_layout,
    device_ip, end_preview, line_badges_enabled, now_unix, off_when_dimmed_enabled,
    preview_active, preview_deadline, preview_layout, reduced_end_min, reduced_start_min,
    set_clock, set_device_ip, set_preview, set_weather, strip_city_enabled, take_redraw, ui_mode,
    weather, Shared, PREVIEW_TTL, TICK_HZ,
};

fn layout(n: usize) -> Layout {
    let mut e = Vec::new();
    for i in 0..n {
        e.push(Element {
            t: 5,
            x: i as u8,
            y: 0,
            w: 0,
            s: 0,
            k: 1,
            c: 0,
            col: None,
            a: 0,
            v: String::new(),
            di: 0,
            fk: 0,
            sp: false,
            th: 1,
            f: 0,
            g: 0,
        });
    }
    Layout { v: 1, e }
}

#[test]
fn boot_state_has_default_settings() {
    let s = Shared::new();
    assert!(!strip_city_enabled(&s));
    assert!(line_badges_enabled(&s));
    assert_eq!(brightness_level(&s), 6);
    assert!(auto_brightness_enabled(&s));
    assert!(!off_when_dimmed_enabled(&s));
    assert_eq!((reduced_start_min(&s), reduced_end_min(&s)), (1200, 480));
    assert_eq!(ui_mode(&s), UiMode::Default);
    assert!(custom_layout(&s).is_none());
    assert!(now_unix(&s, 0).is_none());
    assert!(device_ip(&s).is_none());
}

#[test]
fn settings_are_mirrored() {
    let mut s = Shared::new();
    let cfg = Config {
        strip_city: true,
        show_line_badges: false,
        brightness: 3,
        auto_brightness: false,
        off_when_dimmed: true,
        reduced_start: 65_535,
        reduced_end: 1,
        ui_mode: 2,
        focus_view_legacy: false,
    };
    apply_config(&mut s, &cfg);
    assert!(strip_city_enabled(&s));
    assert!(!line_badges_enabled(&s));
    assert_eq!(brightness_level(&s), 3);
    assert!(!auto_brightness_enabled(&s));
    assert!(off_when_dimmed_enabled(&s));
    assert_eq!((reduced_start_min(&s), reduced_end_min(&s)), (65_535, 1));
    assert_eq!(ui_mode(&s), UiMode::Custom);
}

#[test]
fn brightness_is_clamped() {
    let mut s = Shared::new();
    apply_config(&mut s, &Config { brightness: 0, ..Config::default() });
    assert_eq!(brightness_level(&s), 1);
    apply_config(&mut s, &Config { brightness: 200, ..Config::default() });
    assert_eq!(brightness_level(&s), 10);
}

#[test]
fn unknown_mode_reads_as_default() {
    let mut s = Shared::new();
    apply_config(&mut s, &Config { ui_mode: 9, ..Config::default() });
    assert_eq!(ui_mode(&s), UiMode::Default);
}

#[test]
fn layout_mirror_asks_for_a_redraw() {
    let mut s = Shared::new();
    assert!(!take_redraw(&mut s));
    apply_layout(&mut s, Some(layout(2)));
    assert_eq!(custom_layout(&s).unwrap().e.len(), 2);
    assert!(take_redraw(&mut s));
    assert!(!take_redraw(&mut s));
    apply_layout(&mut s, None);
    assert!(custom_layout(&s).is_none());
}

#[test]
fn preview_lasts_until_its_deadline() {
    let mut s = Shared::new();
    let now = 7_000_000;
    set_preview(&mut s, layout(3), now);
    assert_eq!(preview_deadline(&s), Some(now + PREVIEW_TTL));
    assert!(preview_active(&s, now));
    assert_eq!(preview_layout(&s, now + PREVIEW_TTL - 1).unwrap().e.len(), 3);
    assert!(preview_layout(&s, now + PREVIEW_TTL).is_none());
    assert!(!preview_active(&s, now + PREVIEW_TTL));
}

#[test]
fn a_push_rearms_the_preview() {
    let mut s = Shared::new();
    set_preview(&mut s, layout(1), 0);
    set_preview(&mut s, layout(2), 10_000_000);
    assert_eq!(preview_layout(&s, 20_000_000).unwrap().e.len(), 2);
    assert_eq!(preview_deadline(&s), Some(25_000_000));
}

#[test]
fn ending_a_preview_is_idempotent() {
    let mut s = Shared::new();
    apply_layout(&mut s, Some(layout(2)));
    set_preview(&mut s, layout(1), 0);
    end_preview(&mut s);
    assert!(preview_layout(&s, 1).is_none());
    assert_eq!(preview_deadline(&s), None);
    assert_eq!(custom_layout(&s).unwrap().e.len(), 2);
    end_preview(&mut s);
    assert_eq!(preview_deadline(&s), None);
    assert!(take_redraw(&mut s));
}

#[test]
fn clock_runs_on_from_the_sample() {
    let mut s = Shared::new();
    set_clock(&mut s, 1_700_000_000, 5 * TICK_HZ + 999_999);
    assert_eq!(now_unix(&s, 5 * TICK_HZ + 999_999), Some(1_700_000_000));
    assert_eq!(now_unix(&s, 65 * TICK_HZ), Some(1_700_000_060));
}

#[test]
fn clock_takes_the_whole_range() {
    let mut s = Shared::new();
    set_clock(&mut s, i64::MAX, 3 * TICK_HZ);
    assert_eq!(now_unix(&s, 2 * TICK_HZ), Some(i64::MAX - 1));
    assert_eq!(now_unix(&s, 3 * TICK_HZ), Some(i64::MAX));
    set_clock(&mut s, i64::MIN + 3, 3 * TICK_HZ);
    assert_eq!(now_unix(&s, 0), Some(i64::MIN));
    assert_eq!(now_unix(&s, 5 * TICK_HZ), Some(i64::MIN + 5));
}

#[test]
fn clock_at_the_epoch_counts_as_unset() {
    let mut s = Shared::new();
    set_clock(&mut s, 5, 5 * TICK_HZ);
    assert_eq!(now_unix(&s, 6 * TICK_HZ), None);
}

#[test]
fn device_ip_round_trips() {
    let mut s = Shared::new();
    set_device_ip(&mut s, [192, 168, 1, 42]);
    assert_eq!(device_ip(&s), Some([192, 168, 1, 42]));
    set_device_ip(&mut s, [0, 0, 0, 1]);
    assert_eq!(device_ip(&s), Some([0, 0, 0, 1]));
    set_device_ip(&mut s, [0, 0, 0, 0]);
    assert_eq!(device_ip(&s), None);
}

#[test]
fn weather_ages() {
    let mut s = Shared::new();
    assert_eq!(weather(&s, 0, 100), None);
    let w = Weather { deci_celsius: 123, code: 3 };
    set_weather(&mut s, w, 1000);
    assert_eq!(weather(&s, 1099, 100), Some(w));
    assert_eq!(weather(&s, 1100, 100), None);
}
