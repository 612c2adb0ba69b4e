use zugli::sntp::{parse_reply, request, ClockSync};

#[test]
fn request_is_a_client_packet() {
    let r = request();
    assert_eq!(r[0], 0x1B);
    assert!(r[1..].iter().all(|b| *b == 0));
}

#[test]
fn reply_gives_unix_time() {
    let mut resp = [0u8; 48];
    // 2_208_988_800 + 1_700_000_000 = 3_908_988_800 = 0xE8FE_6F80.
    resp[40] = 0xE8;
    resp[41] = 0xFE;
    resp[42] = 0x6F;
    resp[43] = 0x80;
    assert_eq!(parse_reply(&resp, 48), Some(1_700_000_000));
}

#[test]
fn zero_timestamp_is_1900() {
    assert_eq!(parse_reply(&[0u8; 48], 48), Some(-2_208_988_800));
}

#[test]
fn short_reply_is_none() {
    assert_eq!(parse_reply(&[0xFFu8; 48], 47), None);
    assert_eq!(parse_reply(&[0xFFu8; 48], 0), None);
}

#[test]
fn first_sample_is_retried_until_it_lands() {
    let mut sync = ClockSync::new();
    assert_eq!(sync.exchanged(false), (false, 10));
    assert_eq!(sync.exchanged(false), (false, 10));
    assert_eq!(sync.exchanged(true), (true, 3600));
    assert_eq!(sync.exchanged(false), (false, 3600));
    assert_eq!(sync.exchanged(true), (false, 3600));
}
