use zugli::httpd::{config_json, html, json, ok, preview, set_config, set_layout, Rejected, ServerBuffers};
use zugli::model::{Config, Element, Layout, LAYOUT_MAX_BYTES};
use zugli::shared::{
    brightness_level, custom_layout, preview_deadline, preview_layout, set_preview, take_redraw,
    Shared,
};

fn layout(n: usize) -> Layout {
    let mut e = Vec::new();
    for _ in 0..n {
        e.push(Element {
            t: 0,
            x: 200,
            y: 0,
            w: 0,
            s: 0,
            k: 9,
            c: 0,
            col: None,
            a: 0,
            v: String::from("hi"),
            di: 0,
            fk: 0,
            sp: false,
            th: 1,
            f: 0,
            g: 0,
        });
    }
    Layout { v: 1, e }
}

#[test]
fn bodies_carry_their_type() {
    let page = html("<p>Zügli</p>");
    assert_eq!(page.content_type, "text/html; charset=utf-8");
    assert_eq!(page.body, "<p>Zügli</p>".as_bytes());
    let doc = json("{}");
    assert_eq!(doc.content_type, "application/json");
    assert_eq!(doc.body, b"{}");
    assert_eq!(ok().body, b"{\"ok\":true}");
    assert_eq!(ok().content_type, "application/json");
}

#[test]
fn server_buffers_start_cleared() {
    let b = ServerBuffers::new();
    assert!(b.tcp_rx.iter().all(|x| *x == 0));
    assert!(b.tcp_tx.iter().all(|x| *x == 0));
    assert!(b.http_buf.iter().all(|x| *x == 0));
}

#[test]
fn default_settings_in_json() {
    assert_eq!(
        config_json(&Shared::new()),
        "{\"stripCity\":false,\"showLineBadges\":true,\"brightness\":6,\"autoBrightness\":true,\
         \"offWhenDimmed\":false,\"reducedStart\":1200,\"reducedEnd\":480,\"uiMode\":0}"
    );
}

#[test]
fn posted_settings_are_read_back() {
    let mut s = Shared::new();
    let cfg = Config {
        strip_city: true,
        show_line_badges: false,
        brightness: 10,
        auto_brightness: false,
        off_when_dimmed: true,
        reduced_start: 0,
        reduced_end: 65_535,
        ui_mode: 2,
        focus_view_legacy: false,
    };
    assert_eq!(set_config(&mut s, &cfg).unwrap_or(json("?")).body, b"{\"ok\":true}");
    assert_eq!(
        config_json(&s),
        "{\"stripCity\":true,\"showLineBadges\":false,\"brightness\":10,\"autoBrightness\":false,\
         \"offWhenDimmed\":true,\"reducedStart\":0,\"reducedEnd\":65535,\"uiMode\":2}"
    );
}

#[test]
fn unknown_mode_is_refused() {
    let mut s = Shared::new();
    let cfg = Config { ui_mode: 3, brightness: 2, ..Config::default() };
    assert!(matches!(set_config(&mut s, &cfg), Err(Rejected::UnknownMode)));
    assert_eq!(brightness_level(&s), 6);
}

#[test]
fn saved_layout_is_clamped_and_live() {
    let mut s = Shared::new();
    set_preview(&mut s, layout(1), 0);
    assert!(set_layout(&mut s, layout(2), LAYOUT_MAX_BYTES).is_ok());
    let l = custom_layout(&s).unwrap();
    assert_eq!(l.e.len(), 2);
    assert_eq!((l.e[0].x, l.e[0].k), (64, 3));
    assert_eq!(l.e[0].v, "hi");
    assert_eq!(preview_deadline(&s), None);
    assert!(take_redraw(&mut s));
}

#[test]
fn empty_layout_clears_the_saved_one() {
    let mut s = Shared::new();
    assert!(set_layout(&mut s, layout(1), 10).is_ok());
    assert!(set_layout(&mut s, layout(0), 14).is_ok());
    assert!(custom_layout(&s).is_none());
}

#[test]
fn layout_over_budget_is_refused() {
    let mut s = Shared::new();
    assert!(set_layout(&mut s, layout(1), 10).is_ok());
    let too_much = LAYOUT_MAX_BYTES + 1;
    assert!(matches!(set_layout(&mut s, layout(2), too_much), Err(Rejected::TooLarge)));
    assert_eq!(custom_layout(&s).unwrap().e.len(), 1);
    assert!(matches!(preview(&mut s, layout(2), too_much, 5), Err(Rejected::TooLarge)));
    assert_eq!(preview_deadline(&s), None);
}

#[test]
fn preview_is_clamped_and_transient() {
    let mut s = Shared::new();
    assert!(preview(&mut s, layout(1), 100, 1_000_000).is_ok());
    assert_eq!(preview_layout(&s, 2_000_000).unwrap().e[0].k, 3);
    assert_eq!(preview_deadline(&s), Some(16_000_000));
    assert!(custom_layout(&s).is_none());
}
