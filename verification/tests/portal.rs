use zugli::portal::{
    dns_response, join_auth, refresh_scan, scan_json, Found, Join, JoinStep, NetInfo,
};
use zugli::model::WifiCreds;
use zugli::wifi::{is_secure, sta_auth, Auth};

fn ap(ssid: &str, rssi: i8, auth: Option<Auth>) -> Found {
    Found { ssid: String::from(ssid), signal_strength: rssi, channel: 6, auth_method: auth }
}

fn names(cache: &Vec<NetInfo>) -> Vec<&str> {
    cache.iter().map(|n| n.ssid.as_str()).collect()
}

#[test]
fn dns_answers_with_the_portal() {
    let mut q = vec![0xAB, 0xCD, 1, 0, 0, 1, 0, 0, 0, 0, 0, 0];
    q.extend_from_slice(b"\x07example\x03com\x00\x00\x01\x00\x01");
    let r = dns_response(&q).unwrap();
    assert_eq!(&r[..12], &[0xAB, 0xCD, 0x81, 0x80, 0, 1, 0, 1, 0, 0, 0, 0]);
    assert_eq!(&r[12..q.len()], &q[12..]);
    assert_eq!(
        &r[q.len()..],
        &[0xC0, 0x0C, 0, 1, 0, 1, 0, 0, 0, 60, 0, 4, 192, 168, 4, 1]
    );
}

#[test]
fn dns_drops_what_follows_the_question() {
    let mut q = vec![0u8; 12];
    q.extend_from_slice(b"\x01a\x00\x00\x01\x00\x01rest");
    let r = dns_response(&q).unwrap();
    assert_eq!(r.len(), 19 + 16);
}

#[test]
fn dns_ignores_what_is_not_a_question() {
    assert!(dns_response(&[0u8; 11]).is_none());
    assert!(dns_response(&[0u8; 16]).is_none());
    assert!(dns_response(&[0u8; 17]).is_some());
    assert!(dns_response(&[1u8; 100]).is_none());
}

#[test]
fn dns_reply_has_to_fit() {
    let mut q = vec![1u8; 491];
    q.extend_from_slice(&[0, 0, 1, 0, 1]);
    assert_eq!(q.len(), 496);
    assert_eq!(dns_response(&q).unwrap().len(), 512);
    let mut q = vec![1u8; 492];
    q.extend_from_slice(&[0, 0, 1, 0, 1]);
    assert!(dns_response(&q).is_none());
}

#[test]
fn scan_adds_and_updates() {
    let mut cache = Vec::new();
    refresh_scan(
        &mut cache,
        &vec![ap("home", -50, Some(Auth::Wpa2Personal)), ap("cafe", -70, None)],
    );
    assert_eq!(names(&cache), ["home", "cafe"]);
    assert!(cache[0].secure && !cache[1].secure);
    refresh_scan(&mut cache, &vec![ap("cafe", -40, Some(Auth::Open)), ap("new", -80, None)]);
    assert_eq!(names(&cache), ["home", "cafe", "new"]);
    assert_eq!(cache[1].rssi, -40);
    assert_eq!(cache[1].auth, Some(Auth::Open));
    assert!(!cache[1].secure);
}

#[test]
fn scan_never_drops_or_repeats() {
    let mut cache = Vec::new();
    refresh_scan(&mut cache, &vec![ap("a", 0, None), ap("a", -1, None), ap("b", -2, None)]);
    assert_eq!(names(&cache), ["a", "b"]);
    assert_eq!(cache[0].rssi, -1);
    refresh_scan(&mut cache, &vec![]);
    assert_eq!(names(&cache), ["a", "b"]);
}

#[test]
fn scan_skips_nameless_networks() {
    let mut cache = Vec::new();
    let long = "x".repeat(33);
    let full = "y".repeat(32);
    refresh_scan(&mut cache, &vec![ap("", 0, None), ap(&long, 0, None), ap(&full, 0, None)]);
    assert_eq!(names(&cache), [full.as_str()]);
}

#[test]
fn scan_remembers_sixteen() {
    let mut cache = Vec::new();
    let many: Vec<Found> = (0..20).map(|i| ap(&format!("net{i}"), 0, None)).collect();
    refresh_scan(&mut cache, &many);
    assert_eq!(cache.len(), 16);
    assert_eq!(cache[15].ssid, "net15");
    refresh_scan(&mut cache, &vec![ap("net3", -9, None), ap("other", 0, None)]);
    assert_eq!(cache.len(), 16);
    assert_eq!(cache[3].rssi, -9);
}

#[test]
fn join_uses_the_advertised_auth() {
    let mut cache = Vec::new();
    refresh_scan(&mut cache, &vec![ap("home", 0, Some(Auth::Wpa3Personal)), ap("cafe", 0, None)]);
    assert_eq!(join_auth(&cache, &String::from("home")), Auth::Wpa3Personal);
    assert_eq!(join_auth(&cache, &String::from("cafe")), Auth::Wpa2Personal);
    assert_eq!(join_auth(&cache, &String::from("nowhere")), Auth::Wpa2Personal);
}

#[test]
fn empty_password_means_open() {
    let mut creds = WifiCreds { ssid: String::from("x"), password: String::new() };
    assert_eq!(sta_auth(&creds, Auth::Wpa2Personal), Auth::Open);
    creds.password = String::from("secret");
    assert_eq!(sta_auth(&creds, Auth::Wpa2Personal), Auth::Wpa2Personal);
    assert!(is_secure(Some(Auth::Wep)) && !is_secure(Some(Auth::Open)) && !is_secure(None));
}

#[test]
fn four_attempts_to_join() {
    let mut j = Join::new();
    assert_eq!(j.attempted(false), JoinStep::Again);
    assert_eq!(j.attempted(false), JoinStep::Again);
    assert_eq!(j.attempted(false), JoinStep::Again);
    assert_eq!(j.attempted(false), JoinStep::Readvertise);
    let mut j = Join::new();
    assert_eq!(j.attempted(false), JoinStep::Again);
    assert_eq!(j.attempted(true), JoinStep::Save);
}

#[test]
fn scan_list_is_json() {
    let mut cache = Vec::new();
    assert_eq!(scan_json(&cache), "[]");
    refresh_scan(
        &mut cache,
        &vec![ap("Zügli \"1\" \\", -61, Some(Auth::Wpa2Personal)), ap("b", 0, None)],
    );
    assert_eq!(
        scan_json(&cache),
        "[{\"ssid\":\"Zügli \\\"1\\\" \\\\\",\"rssi\":-61,\"secure\":true},\
         {\"ssid\":\"b\",\"rssi\":0,\"secure\":false}]"
    );
}

#[test]
fn full_scan_list_is_cut_cleanly() {
    let mut cache = Vec::new();
    let many: Vec<Found> =
        (0..16).map(|i| ap(&format!("{}{:02}", "n".repeat(30), i), -100, None)).collect();
    refresh_scan(&mut cache, &many);
    let text = scan_json(&cache);
    // 1 + 10 entries of 70 bytes with their separators, and the closing bracket.
    assert_eq!(text.len(), 1 + 10 * 70 + 9 + 1);
    assert!(text.starts_with("[{\"ssid\":\"n"));
    assert!(text.ends_with("09\",\"rssi\":-100,\"secure\":false}]"));
}

#[test]
fn queries_of_any_length_are_read() {
    let mut q = vec![0u8; 100_000];
    q[12] = 1;
    assert_eq!(dns_response(&q).unwrap().len(), 34);
    assert!(dns_response(&vec![1u8; 100_000]).is_none());
}
