use zugli::localtime::{
    civil_from_days, days_from_civil, in_window, last_sunday_0100_utc, local_minutes, local_parts,
    swiss_offset_seconds,
};

#[test]
fn civil_dates_of_known_days() {
    assert_eq!(civil_from_days(0), (1970, 1, 1));
    assert_eq!(civil_from_days(-1), (1969, 12, 31));
    assert_eq!(civil_from_days(11_016), (2000, 2, 29));
    assert_eq!(civil_from_days(19_782), (2024, 2, 29));
    assert_eq!(civil_from_days(19_783), (2024, 3, 1));
    assert_eq!(civil_from_days(-719_468), (0, 3, 1));
    assert_eq!(civil_from_days(-719_469), (0, 2, 29));
}

#[test]
fn days_of_known_dates() {
    assert_eq!(days_from_civil(1970, 1, 1), 0);
    assert_eq!(days_from_civil(1969, 12, 31), -1);
    assert_eq!(days_from_civil(2000, 2, 29), 11_016);
    assert_eq!(days_from_civil(2024, 12, 31), 20_088);
    assert_eq!(days_from_civil(1900, 3, 1), -25_508);
}

#[test]
fn days_and_dates_undo_each_other() {
    let mut day: i64 = -800_000;
    while day < 800_000 {
        let (y, m, d) = civil_from_days(day);
        assert_eq!(days_from_civil(y, m, d), day);
        assert!((1..=12).contains(&m) && (1..=31).contains(&d));
        day += 97;
    }
}

#[test]
fn switch_instants_of_2024() {
    // 31 March and 27 October 2024, 01:00 UTC.
    assert_eq!(last_sunday_0100_utc(2024, 3), 1_711_846_800);
    assert_eq!(last_sunday_0100_utc(2024, 10), 1_729_990_800);
}

#[test]
fn offset_changes_at_the_switch_instants() {
    assert_eq!(swiss_offset_seconds(1_711_846_799), 3600);
    assert_eq!(swiss_offset_seconds(1_711_846_800), 7200);
    assert_eq!(swiss_offset_seconds(1_729_990_799), 7200);
    assert_eq!(swiss_offset_seconds(1_729_990_800), 3600);
    assert_eq!(swiss_offset_seconds(0), 3600);
    assert_eq!(swiss_offset_seconds(-1), 3600);
}

#[test]
fn local_parts_in_winter_and_summer() {
    // 15 January 2024 12:34:56 UTC.
    assert_eq!(local_parts(1_705_322_096), (2024, 1, 15, 13, 34));
    // 15 July 2024 22:30:00 UTC is already the 16th in Switzerland.
    assert_eq!(local_parts(1_721_082_600), (2024, 7, 16, 0, 30));
    assert_eq!(local_parts(0), (1970, 1, 1, 1, 0));
}

#[test]
fn local_minutes_agree_with_local_parts() {
    let mut unix: i64 = 1_700_000_000;
    while unix < 1_740_000_000 {
        let (_, _, _, h, m) = local_parts(unix);
        assert_eq!(local_minutes(unix) as u32, 60 * h + m);
        unix += 1_234_567;
    }
    assert_eq!(local_minutes(1_705_322_096), 13 * 60 + 34);
}

#[test]
fn window_within_a_day() {
    assert!(in_window(600, 540, 660));
    assert!(in_window(540, 540, 660));
    assert!(!in_window(660, 540, 660));
    assert!(!in_window(539, 540, 660));
}

#[test]
fn window_past_midnight() {
    assert!(in_window(1300, 1200, 480));
    assert!(in_window(0, 1200, 480));
    assert!(in_window(1200, 1200, 480));
    assert!(!in_window(480, 1200, 480));
    assert!(!in_window(720, 1200, 480));
}

#[test]
fn empty_window_never_matches() {
    for now in 0..1440u16 {
        assert!(!in_window(now, 600, 600));
    }
}

#[test]
fn swapped_window_is_the_complement() {
    for now in 0..1440u16 {
        assert_ne!(in_window(now, 1200, 480), in_window(now, 480, 1200));
    }
}
