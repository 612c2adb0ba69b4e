use zugli::model::{
    is_false, is_one_u8, is_zero_u8, one_u8, str_is_empty, version_default, Config, Element,
    Layout, UiMode, Weather,
};

fn element(t: u8) -> Element {
    Element {
        t,
        x: 0,
        y: 0,
        w: 0,
        s: 0,
        k: 1,
        c: 0,
        col: None,
        a: 0,
        v: String::new(),
        di: 0,
        fk: 0,
        sp: false,
        th: 1,
        f: 0,
        g: 0,
    }
}

#[test]
fn default_settings() {
    let c = Config::default();
    assert!(!c.strip_city);
    assert!(c.show_line_badges);
    assert_eq!(c.brightness, 6);
    assert!(c.auto_brightness);
    assert!(!c.off_when_dimmed);
    assert_eq!((c.reduced_start, c.reduced_end), (1200, 480));
    assert_eq!(c.ui_mode, 0);
}

#[test]
fn migration_folds_the_focus_view() {
    let mut c = Config { focus_view_legacy: true, ..Config::default() };
    c.migrate();
    assert_eq!(c.ui_mode, 1);
    assert!(!c.focus_view_legacy);
    let once = c;
    c.migrate();
    assert_eq!(c, once);
}

#[test]
fn migration_keeps_a_newer_mode() {
    let mut c = Config { focus_view_legacy: true, ui_mode: 2, ..Config::default() };
    c.migrate();
    assert_eq!(c.ui_mode, 2);
    let mut plain = Config::default();
    plain.migrate();
    assert_eq!(plain, Config::default());
}

#[test]
fn modes_from_numbers() {
    assert_eq!(UiMode::from_u8(0), UiMode::Default);
    assert_eq!(UiMode::from_u8(1), UiMode::Focus);
    assert_eq!(UiMode::from_u8(2), UiMode::Custom);
    assert_eq!(UiMode::from_u8(3), UiMode::Default);
    assert_eq!(UiMode::from_u8(255), UiMode::Default);
}

#[test]
fn sanitize_clamps_every_field() {
    let mut wild = element(1);
    wild.x = 200;
    wild.y = 65;
    wild.w = 255;
    wild.s = 9;
    wild.k = 0;
    wild.c = 7;
    wild.col = Some(0xFF12_3456);
    wild.a = 3;
    wild.v = String::from("Zürich");
    wild.di = 9;
    wild.fk = 9;
    wild.sp = true;
    wild.th = 0;
    wild.f = 5;
    wild.g = 77;
    let mut layout = Layout { v: 1, e: vec![wild, element(200)] };
    layout.sanitize();
    let el = &layout.e[0];
    assert_eq!((el.x, el.y, el.w, el.s, el.k, el.c, el.a), (64, 64, 64, 1, 1, 2, 2));
    assert_eq!((el.di, el.fk, el.th, el.f, el.g), (2, 2, 1, 1, 77));
    assert_eq!(el.col, Some(0x12_3456));
    assert_eq!(el.v, "Zürich");
    assert!(el.sp);
    assert_eq!(el.t, 1);
    assert_eq!(layout.e.len(), 2);
    assert_eq!(layout.e[1].t, 200);
}

#[test]
fn sanitize_is_idempotent() {
    let mut el = element(0);
    el.k = 9;
    el.th = 9;
    el.col = Some(u32::MAX);
    let mut layout = Layout { v: 1, e: vec![el] };
    layout.sanitize();
    let first = (layout.e[0].k, layout.e[0].th, layout.e[0].col);
    assert_eq!(first, (3, 2, Some(0xFF_FFFF)));
    layout.sanitize();
    assert_eq!((layout.e[0].k, layout.e[0].th, layout.e[0].col), first);
}

#[test]
fn default_layout_is_empty() {
    let l = Layout::default();
    assert_eq!(l.v, 1);
    assert!(l.e.is_empty());
}

#[test]
fn serialization_defaults() {
    assert!(is_zero_u8(&0) && !is_zero_u8(&1));
    assert!(is_one_u8(&1) && !is_one_u8(&0));
    assert!(is_false(&false) && !is_false(&true));
    assert!(str_is_empty("") && !str_is_empty("x"));
    assert_eq!(one_u8(), 1);
    assert_eq!(version_default(), 1);
}

#[test]
fn whole_degrees_cut_the_tenths() {
    let at = |deci: i16| Weather { deci_celsius: deci, code: 0 }.whole_celsius();
    assert_eq!(at(215), 21);
    assert_eq!(at(-5), 0);
    assert_eq!(at(-27), -2);
    assert_eq!(at(0), 0);
}
