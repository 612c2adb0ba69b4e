use zugli::boot::{boot_mode, network_up, BootMode, Button, HOLD};
use zugli::model::{DisplayState, WifiCreds};

#[test]
fn portal_until_there_are_credentials() {
    assert_eq!(boot_mode(&None), BootMode::Portal);
    let creds = WifiCreds { ssid: String::from("home"), password: String::new() };
    assert_eq!(boot_mode(&Some(creds)), BootMode::Station);
}

#[test]
fn address_is_shown_while_nothing_is_selected() {
    assert!(network_up([10, 0, 0, 2], true).is_none());
    assert!(matches!(
        network_up([10, 0, 0, 2], false),
        Some(DisplayState::IdleAddress { octets: [10, 0, 0, 2] })
    ));
}

#[test]
fn three_seconds_of_holding_reset() {
    let mut b = Button::new();
    assert!(!b.poll(true, 1000));
    assert!(!b.poll(true, 1000 + HOLD - 1));
    assert!(b.poll(true, 1000 + HOLD));
}

#[test]
fn letting_go_starts_over() {
    let mut b = Button::new();
    assert!(!b.poll(true, 0));
    assert!(!b.poll(false, HOLD));
    assert!(!b.poll(true, HOLD + 10));
    assert!(!b.poll(true, 2 * HOLD));
    assert!(b.poll(true, 2 * HOLD + 10));
}
