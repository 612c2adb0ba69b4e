use zugli::text::{append, char_count, decimal, padded, put, signed_decimal};

#[test]
fn decimal_numbers() {
    assert_eq!(decimal(0), "0");
    assert_eq!(decimal(7), "7");
    assert_eq!(decimal(10), "10");
    assert_eq!(decimal(65_535), "65535");
    assert_eq!(decimal(u64::MAX), "18446744073709551615");
}

#[test]
fn signed_numbers() {
    assert_eq!(signed_decimal(-1), "-1");
    assert_eq!(signed_decimal(0), "0");
    assert_eq!(signed_decimal(i64::MIN), "-9223372036854775808");
    assert_eq!(signed_decimal(42), "42");
}

#[test]
fn padded_numbers() {
    assert_eq!(padded(3), "03");
    assert_eq!(padded(0), "00");
    assert_eq!(padded(12), "12");
    assert_eq!(padded(123), "123");
}

#[test]
fn decimal_reads_back() {
    for n in [0u64, 9, 10, 99, 12_345, 4_294_967_296] {
        assert_eq!(decimal(n).parse::<u64>().unwrap(), n);
    }
}

#[test]
fn bounded_text_takes_what_fits() {
    let mut s = String::from("foo");
    assert!(put::<8>(&mut s, "bar"));
    assert_eq!(s, "foobar");
    assert!(!put::<8>(&mut s, "tender"));
    assert_eq!(s, "foobar");
    assert!(put::<8>(&mut s, "ab"));
    assert_eq!(s, "foobarab");
    assert!(put::<8>(&mut s, ""));
    assert!(!put::<8>(&mut s, "x"));
}

#[test]
fn bounded_text_counts_bytes() {
    let mut s = String::new();
    assert!(put::<3>(&mut s, "ü"));
    assert!(!put::<3>(&mut s, "ö"));
    assert!(put::<3>(&mut s, "o"));
    assert_eq!(s, "üo");
}

#[test]
fn append_joins_texts() {
    let mut s = String::from("Zü");
    append::<16>(&mut s, "gli");
    assert_eq!(s, "Zügli");
    assert_eq!(char_count(&s), 5);
}
