use zugli::model::{Config, Element, Layout, Weather};
use zugli::shared::{apply_config, apply_layout, set_preview, set_weather, Shared};
use zugli::weather::{weather_element_active, WeatherPoll};

fn layout(tags: &[u8], v: u8) -> Layout {
    let mut e = Vec::new();
    for t in tags {
        e.push(Element {
            t: *t,
            x: 0,
            y: 0,
            w: 0,
            s: 0,
            k: 1,
            c: 0,
            col: None,
            a: 0,
            v: String::new(),
            di: 0,
            fk: 0,
            sp: false,
            th: 1,
            f: 0,
            g: 0,
        });
    }
    Layout { v, e }
}

fn custom() -> Shared {
    let mut s = Shared::new();
    apply_config(&mut s, &Config { ui_mode: 2, ..Config::default() });
    apply_layout(&mut s, Some(layout(&[0, 7], 1)));
    s
}

#[test]
fn weather_counts_only_on_the_panel() {
    let mut s = custom();
    assert!(weather_element_active(&s, 0));
    apply_config(&mut s, &Config { ui_mode: 1, ..Config::default() });
    assert!(!weather_element_active(&s, 0));
    set_preview(&mut s, layout(&[7], 1), 0);
    assert!(weather_element_active(&s, 1));
    assert!(!weather_element_active(&s, 15_000_000));
    set_preview(&mut s, layout(&[7], 2), 20_000_000);
    assert!(!weather_element_active(&s, 20_000_001));
}

#[test]
fn weather_is_fetched_when_due() {
    let s = custom();
    let mut p = WeatherPoll::new();
    assert!(!p.refresh_if_due(&s, false, 0, 100, 10));
    assert!(p.refresh_if_due(&s, true, 0, 100, 10));
    assert_eq!(p.last_attempt, Some(0));
    assert!(!p.refresh_if_due(&s, true, 9, 100, 10));
    assert!(p.refresh_if_due(&s, true, 10, 100, 10));
    assert_eq!(p.last_attempt, Some(10));
}

#[test]
fn fresh_weather_is_not_fetched_again() {
    let mut s = custom();
    set_weather(&mut s, Weather { deci_celsius: 5, code: 1 }, 1000);
    let mut p = WeatherPoll::new();
    assert!(!p.refresh_if_due(&s, true, 1099, 100, 10));
    assert!(p.refresh_if_due(&s, true, 1100, 100, 10));
}

#[test]
fn no_weather_without_an_element() {
    let s = Shared::new();
    let mut p = WeatherPoll::new();
    assert!(!p.refresh_if_due(&s, true, 0, 100, 10));
    assert_eq!(p.last_attempt, None);
}
