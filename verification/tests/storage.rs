use zugli::model::{Config, Layout, Selection, WifiCreds};
use zugli::storage::{read_header, read_len, read_record, write_record, Persisted, MAX_PAYLOAD};

fn creds(ssid: &str) -> WifiCreds {
    WifiCreds { ssid: String::from(ssid), password: String::from("pw") }
}

fn selection(stop: &str) -> Selection {
    Selection {
        stop_id: String::from(stop),
        stop_name: String::from("Stop"),
        all_connections: true,
        connections: vec![],
    }
}

#[test]
fn record_is_framed_and_padded() {
    let r = write_record(b"{\"a\":1}").unwrap();
    assert_eq!(&r[..4], &[0x32, 0x4C, 0x47, 0x5A]);
    assert_eq!(&r[4..8], &[7, 0, 0, 0]);
    assert_eq!(&r[8..15], b"{\"a\":1}");
    assert_eq!(&r[15..], &[0]);
}

#[test]
fn record_reads_back() {
    for n in [1usize, 2, 3, 4, 255, 256, 1000, MAX_PAYLOAD] {
        let payload: Vec<u8> = (0..n).map(|i| (i * 7) as u8).collect();
        let mut sector = write_record(&payload).unwrap();
        assert_eq!(sector.len() % 4, 0);
        sector.resize(4096, 0xFF);
        assert_eq!(read_record(&sector), Some(payload));
    }
}

#[test]
fn oversized_payload_is_not_framed() {
    assert!(write_record(&vec![0u8; MAX_PAYLOAD]).is_some());
    assert!(write_record(&vec![0u8; MAX_PAYLOAD + 1]).is_none());
}

#[test]
fn erased_sector_is_empty() {
    assert_eq!(read_record(&vec![0xFFu8; 4096]), None);
    assert_eq!(read_record(&[]), None);
}

#[test]
fn headers_that_are_not_a_record() {
    assert_eq!(read_header(&[0x32, 0x4C, 0x47, 0x5A, 5, 0, 0, 0]), Some(5));
    assert_eq!(read_header(&[0x31, 0x4C, 0x47, 0x5A, 5, 0, 0, 0]), None);
    assert_eq!(read_header(&[0x32, 0x4C, 0x47, 0x5A, 0, 0, 0, 0]), None);
    assert_eq!(read_header(&[0x32, 0x4C, 0x47, 0x5A, 0, 12, 0, 0]), Some(3072));
    assert_eq!(read_header(&[0x32, 0x4C, 0x47, 0x5A, 1, 12, 0, 0]), None);
    assert_eq!(read_header(&[0x32, 0x4C, 0x47, 0x5A, 5, 0, 0, 1]), None);
}

#[test]
fn truncated_sector_is_empty() {
    let r = write_record(b"hello").unwrap();
    assert_eq!(read_record(&r[..12]), None);
    assert_eq!(read_record(&r[..13]), Some(b"hello".to_vec()));
}

#[test]
fn reads_are_whole_words() {
    assert_eq!(read_len(78), 80);
    assert_eq!(read_len(80), 80);
    assert_eq!(read_len(1), 4);
    assert_eq!(read_len(MAX_PAYLOAD), MAX_PAYLOAD);
}

#[test]
fn each_field_is_saved_on_its_own() {
    let mut p = Persisted::default();
    p.save_wifi(creds("home"));
    p.save_selection(selection("8591123"));
    p.save_config(&Config { brightness: 9, ..Config::default() });
    p.save_layout(Some(Layout::default()));
    p.save_wifi(creds("other"));
    let (wifi, sel, cfg, layout) = p.load_boot();
    assert_eq!(wifi.unwrap().ssid, "other");
    assert_eq!(sel.unwrap().stop_id, "8591123");
    assert_eq!(cfg.brightness, 9);
    assert!(layout.is_some());
}

#[test]
fn boot_migrates_the_settings() {
    let mut p = Persisted::default();
    p.save_config(&Config { focus_view_legacy: true, ..Config::default() });
    let (_, _, cfg, _) = p.load_boot();
    assert_eq!(cfg.ui_mode, 1);
    assert!(!cfg.focus_view_legacy);
}

#[test]
fn reset_wipes_everything() {
    let mut p = Persisted::default();
    p.save_wifi(creds("home"));
    p.save_selection(selection("1"));
    p.save_config(&Config { ui_mode: 2, ..Config::default() });
    p.save_layout(Some(Layout::default()));
    p.clear_all();
    let (wifi, sel, cfg, layout) = p.load_boot();
    assert!(wifi.is_none() && sel.is_none() && layout.is_none());
    assert_eq!(cfg, Config::default());
}

#[test]
fn layout_can_be_cleared() {
    let mut p = Persisted::default();
    p.save_layout(Some(Layout::default()));
    p.save_layout(None);
    assert!(p.load_layout().is_none());
}

/// A record as it comes back from flash, where the flag for the focus view is not written.
fn reread(mut p: Persisted) -> Persisted {
    p.config.focus_view_legacy = false;
    p
}

/// An older record with the focus view on.
fn older() -> Persisted {
    let mut p = Persisted::default();
    p.save_wifi(creds("home"));
    p.save_selection(selection("1"));
    p.save_layout(Some(Layout::default()));
    p.config = Config { brightness: 3, focus_view_legacy: true, ..Config::default() };
    p
}

#[test]
fn saving_credentials_keeps_the_focus_view() {
    let mut p = older();
    p.save_wifi(creds("other"));
    assert_eq!(p.config.ui_mode, 1);
    let (wifi, sel, cfg, layout) = reread(p).load_boot();
    assert_eq!(wifi.unwrap().ssid, "other");
    assert_eq!(sel.unwrap().stop_id, "1");
    assert_eq!(cfg, Config { brightness: 3, ui_mode: 1, ..Config::default() });
    assert!(layout.is_some());
}

#[test]
fn saving_a_selection_keeps_the_focus_view() {
    let mut p = older();
    p.save_selection(selection("2"));
    let (wifi, sel, cfg, layout) = reread(p).load_boot();
    assert_eq!(wifi.unwrap().ssid, "home");
    assert_eq!(sel.unwrap().stop_id, "2");
    assert_eq!(cfg, Config { brightness: 3, ui_mode: 1, ..Config::default() });
    assert!(layout.is_some());
}

#[test]
fn saving_a_layout_keeps_the_focus_view() {
    let mut p = older();
    p.save_layout(None);
    let (wifi, sel, cfg, layout) = reread(p).load_boot();
    assert_eq!(wifi.unwrap().ssid, "home");
    assert_eq!(sel.unwrap().stop_id, "1");
    assert_eq!(cfg, Config { brightness: 3, ui_mode: 1, ..Config::default() });
    assert!(layout.is_none());
}

#[test]
fn saving_settings_replaces_those_of_an_older_record() {
    let mut p = older();
    p.save_config(&Config { brightness: 7, ..Config::default() });
    let (_, _, cfg, _) = reread(p).load_boot();
    assert_eq!(cfg, Config { brightness: 7, ..Config::default() });
}
