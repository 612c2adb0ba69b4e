use zugli::wifi::{link_step, LinkAction, LinkEvent, HOSTNAME, SETUP_SSID};

#[test]
fn a_lost_link_is_reconnected() {
    assert_eq!(link_step(LinkEvent::Up), LinkAction::Look { after: 5 });
    assert_eq!(link_step(LinkEvent::Down), LinkAction::Connect);
    assert_eq!(link_step(LinkEvent::Connected), LinkAction::Look { after: 0 });
    assert_eq!(link_step(LinkEvent::Refused), LinkAction::Look { after: 5 });
}

#[test]
fn names_of_the_device() {
    assert_eq!(SETUP_SSID, "Zügli-Setup");
    assert_eq!(HOSTNAME, "zugli");
}
