use edge_dhcp::{Ipv4Addr, Options, Packet};
use zugli::dhcp::{broadcast, dhcp_reply, dhcp_server, CLOCK_MAX};

fn discover(mac: [u8; 6], xid: u32) -> Vec<u8> {
    let mut options = Options::buf();
    let packet =
        Packet::new_request(mac, xid, 0, None, true, Options::discover(None, &mut options));
    let mut buf = [0u8; 1024];
    packet.encode(&mut buf).unwrap().to_vec()
}

fn request(mac: [u8; 6], xid: u32, ip: Ipv4Addr) -> Vec<u8> {
    let mut options = Options::buf();
    let packet = Packet::new_request(mac, xid, 0, None, true, Options::request(ip, &mut options));
    let mut buf = [0u8; 1024];
    packet.encode(&mut buf).unwrap().to_vec()
}

#[test]
fn discover_gets_an_offer() {
    let mut server = dhcp_server();
    let packet = discover([1, 2, 3, 4, 5, 6], 0xDEAD_BEEF);
    let out = dhcp_reply(&mut server, 1000, &packet).unwrap();
    assert_eq!(out.address, [255, 255, 255, 255]);
    assert_eq!(out.port, 68);
    assert_eq!(out.bytes[0], 2);
    assert_eq!(&out.bytes[4..8], &[0xDE, 0xAD, 0xBE, 0xEF]);
    assert_eq!(&out.bytes[28..34], &[1, 2, 3, 4, 5, 6]);
    let reply = Packet::decode(&out.bytes).unwrap();
    assert!(reply.reply);
    assert_eq!(reply.yiaddr, Ipv4Addr::new(192, 168, 4, 50));
}

#[test]
fn leases_are_kept() {
    let mut server = dhcp_server();
    let ip = Ipv4Addr::new(192, 168, 4, 50);
    assert!(dhcp_reply(&mut server, 1000, &request([1; 6], 1, ip)).is_some());
    let out = dhcp_reply(&mut server, 1000, &discover([2; 6], 2)).unwrap();
    assert_eq!(Packet::decode(&out.bytes).unwrap().yiaddr, Ipv4Addr::new(192, 168, 4, 51));
    let again = dhcp_reply(&mut server, 1000, &discover([1; 6], 3)).unwrap();
    assert_eq!(Packet::decode(&again.bytes).unwrap().yiaddr, ip);
}

#[test]
fn what_is_no_request_gets_no_reply() {
    let mut server = dhcp_server();
    assert!(dhcp_reply(&mut server, 1000, &[]).is_none());
    assert!(dhcp_reply(&mut server, 1000, &[0u8; 300]).is_none());
    let mut packet = discover([1, 2, 3, 4, 5, 6], 7);
    let offer = dhcp_reply(&mut server, 1000, &packet).unwrap();
    assert!(dhcp_reply(&mut server, 1000, &offer.bytes).is_none());
    packet[2] = 5;
    assert!(dhcp_reply(&mut server, 1000, &packet).is_none());
    packet[2] = 6;
    packet[236] = 0;
    assert!(dhcp_reply(&mut server, 1000, &packet).is_none());
}

#[test]
fn replies_are_broadcast_to_clients() {
    assert!(broadcast(None).is_none());
    let out = broadcast(Some(vec![1, 2, 3])).unwrap();
    assert_eq!(out.bytes, vec![1, 2, 3]);
    assert_eq!((out.address, out.port), ([255; 4], 68));
}

/// A datagram with the given options, from the client with the given hardware address.
fn datagram(mac: u8, options: &[u8]) -> Vec<u8> {
    let mut packet = vec![0u8; 240];
    packet[0] = 1;
    packet[1] = 1;
    packet[2] = 6;
    packet[4..8].copy_from_slice(&[9, 8, 7, mac]);
    packet[28..34].copy_from_slice(&[mac; 6]);
    packet[236..240].copy_from_slice(&[99, 130, 83, 99]);
    packet.extend_from_slice(options);
    packet
}

fn plain_discover(mac: u8) -> Vec<u8> {
    datagram(mac, &[53, 1, 1, 255])
}

fn plain_request(mac: u8, last: u8) -> Vec<u8> {
    datagram(mac, &[53, 1, 3, 50, 4, 192, 168, 4, last, 255])
}

/// The message type and the address of a reply.
fn granted(bytes: &[u8]) -> (u8, [u8; 4]) {
    (bytes[242], [bytes[16], bytes[17], bytes[18], bytes[19]])
}

#[test]
fn a_reply_has_its_shape() {
    let mut server = dhcp_server();
    let packet = plain_discover(7);
    let b = dhcp_reply(&mut server, 0, &packet).unwrap().bytes;
    assert_eq!(b.len(), 272);
    assert_eq!(b[0..4], [2, 1, 6, 0]);
    assert_eq!(b[4..8], [9, 8, 7, 7]);
    assert_eq!(b[28..44], packet[28..44]);
    assert_eq!(b[236..243], [99, 130, 83, 99, 53, 1, 2]);
    assert_eq!(b[243..249], [54, 4, 192, 168, 4, 1]);
    assert_eq!(b[249..255], [51, 4, 0, 0, 28, 32]);
}

#[test]
fn an_address_that_is_free_is_offered_as_asked() {
    let mut server = dhcp_server();
    let asks = datagram(7, &[53, 1, 1, 50, 4, 192, 168, 4, 99, 255]);
    let out = dhcp_reply(&mut server, 5, &asks).unwrap();
    assert_eq!(granted(&out.bytes), (2, [192, 168, 4, 99]));
    let foreign = datagram(7, &[53, 1, 1, 50, 4, 10, 0, 0, 99, 255]);
    let out = dhcp_reply(&mut server, 5, &foreign).unwrap();
    assert_eq!(granted(&out.bytes), (2, [192, 168, 4, 50]));
    assert!(dhcp_reply(&mut server, 5, &plain_request(8, 99)).is_some());
    let out = dhcp_reply(&mut server, 5, &asks).unwrap();
    assert_eq!(granted(&out.bytes), (2, [192, 168, 4, 50]));
}

#[test]
fn requests_are_granted_or_denied() {
    let mut server = dhcp_server();
    let out = dhcp_reply(&mut server, 0, &plain_request(1, 200)).unwrap();
    assert_eq!(granted(&out.bytes), (5, [192, 168, 4, 200]));
    let out = dhcp_reply(&mut server, 0, &plain_request(2, 200)).unwrap();
    assert_eq!(granted(&out.bytes), (6, [0, 0, 0, 0]));
    let out = dhcp_reply(&mut server, 0, &plain_request(2, 201)).unwrap();
    assert_eq!(granted(&out.bytes), (6, [0, 0, 0, 0]));
    let out = dhcp_reply(&mut server, 0, &plain_request(2, 49)).unwrap();
    assert_eq!(granted(&out.bytes), (6, [0, 0, 0, 0]));
    let out = dhcp_reply(&mut server, CLOCK_MAX, &plain_request(2, 50)).unwrap();
    assert_eq!(granted(&out.bytes), (5, [192, 168, 4, 50]));
}

#[test]
fn a_lease_lasts_two_hours() {
    let mut server = dhcp_server();
    assert!(dhcp_reply(&mut server, 100, &plain_request(1, 60)).is_some());
    let out = dhcp_reply(&mut server, 7300, &plain_request(2, 60)).unwrap();
    assert_eq!(granted(&out.bytes).0, 6);
    let out = dhcp_reply(&mut server, 7301, &plain_request(2, 60)).unwrap();
    assert_eq!(granted(&out.bytes), (5, [192, 168, 4, 60]));
}

#[test]
fn a_client_has_one_lease() {
    let mut server = dhcp_server();
    assert!(dhcp_reply(&mut server, 0, &plain_request(1, 50)).is_some());
    assert!(dhcp_reply(&mut server, 0, &plain_request(1, 51)).is_some());
    let out = dhcp_reply(&mut server, 0, &plain_discover(2)).unwrap();
    assert_eq!(granted(&out.bytes), (2, [192, 168, 4, 50]));
    let out = dhcp_reply(&mut server, 0, &plain_discover(1)).unwrap();
    assert_eq!(granted(&out.bytes), (2, [192, 168, 4, 51]));
}

#[test]
fn leases_are_given_back() {
    let mut server = dhcp_server();
    for kind in [7u8, 4u8] {
        assert!(dhcp_reply(&mut server, 0, &plain_request(1, 50)).is_some());
        let elsewhere = datagram(1, &[53, 1, kind, 54, 4, 192, 168, 4, 2, 255]);
        assert!(dhcp_reply(&mut server, 0, &elsewhere).is_none());
        let out = dhcp_reply(&mut server, 0, &plain_discover(2)).unwrap();
        assert_eq!(granted(&out.bytes), (2, [192, 168, 4, 51]));
        let back = datagram(1, &[53, 1, kind, 54, 4, 192, 168, 4, 1, 255]);
        assert!(dhcp_reply(&mut server, 0, &back).is_none());
        let out = dhcp_reply(&mut server, 0, &plain_discover(2)).unwrap();
        assert_eq!(granted(&out.bytes), (2, [192, 168, 4, 50]));
    }
}

#[test]
fn sixteen_leases_at_most() {
    let mut server = dhcp_server();
    for mac in 1..17u8 {
        let out = dhcp_reply(&mut server, 0, &plain_request(mac, 49 + mac)).unwrap();
        assert_eq!(granted(&out.bytes), (5, [192, 168, 4, 49 + mac]));
    }
    let out = dhcp_reply(&mut server, 0, &plain_request(17, 66)).unwrap();
    assert_eq!(granted(&out.bytes), (6, [0, 0, 0, 0]));
    let out = dhcp_reply(&mut server, 0, &plain_discover(17)).unwrap();
    assert_eq!(granted(&out.bytes), (2, [192, 168, 4, 66]));
    let out = dhcp_reply(&mut server, 0, &plain_request(3, 80)).unwrap();
    assert_eq!(granted(&out.bytes), (5, [192, 168, 4, 80]));
    let out = dhcp_reply(&mut server, 7201, &plain_request(17, 50)).unwrap();
    assert_eq!(granted(&out.bytes), (5, [192, 168, 4, 50]));
}
