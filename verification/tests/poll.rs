use zugli::model::{Conn, Departure, DisplayState, Selection};
use zugli::poll::{
    is_tracked, minutes_until, offline_if_persistent, select_departures, stationboard_url, str_to,
    Entry, Poll,
};

fn conn(line: &str, destination: &str) -> Conn {
    Conn {
        line: String::from(line),
        category: String::from("T"),
        destination: String::from(destination),
    }
}

fn selection(all: bool, connections: Vec<Conn>) -> Selection {
    Selection {
        stop_id: String::from("8591123"),
        stop_name: String::from("Zürich, Central"),
        all_connections: all,
        connections,
    }
}

fn entry(number: &str, to: &str, ts: i64) -> Entry {
    Entry {
        category: Some(String::from("T")),
        number: Some(String::from(number)),
        name: Some(String::from("name")),
        to: Some(String::from(to)),
        departure_timestamp: Some(ts),
    }
}

fn lines(deps: &Vec<Departure>) -> Vec<&str> {
    deps.iter().map(|d| d.line.as_str()).collect()
}

#[test]
fn url_asks_for_the_five_fields() {
    let url = stationboard_url(&selection(true, vec![])).unwrap();
    assert_eq!(
        url,
        "https://transport.opendata.ch/v1/stationboard?id=8591123&limit=16\
         &fields%5B%5D=stationboard/number\
         &fields%5B%5D=stationboard/name\
         &fields%5B%5D=stationboard/category\
         &fields%5B%5D=stationboard/to\
         &fields%5B%5D=stationboard/stop/departureTimestamp"
    );
}

#[test]
fn url_that_does_not_fit_is_none() {
    let mut sel = selection(true, vec![]);
    sel.stop_id = "9".repeat(84);
    assert_eq!(stationboard_url(&sel).unwrap().len(), 320);
    sel.stop_id = "9".repeat(85);
    assert!(stationboard_url(&sel).is_none());
}

#[test]
fn picked_connections_are_tracked() {
    let sel = selection(false, vec![conn("2", "Schlieren"), conn("S12", "Brugg")]);
    assert!(is_tracked(&sel, "2", "Schlieren"));
    assert!(is_tracked(&sel, "S12", "Brugg"));
    assert!(!is_tracked(&sel, "2", "Brugg"));
    assert!(!is_tracked(&sel, "2", "schlieren"));
    assert!(!is_tracked(&selection(false, vec![]), "2", "Schlieren"));
    assert!(is_tracked(&selection(true, vec![]), "anything", ""));
}

#[test]
fn minutes_are_rounded() {
    assert_eq!(minutes_until(1000, 1000), 0);
    assert_eq!(minutes_until(999, 1000), 0);
    assert_eq!(minutes_until(1029, 1000), 0);
    assert_eq!(minutes_until(1030, 1000), 1);
    assert_eq!(minutes_until(1089, 1000), 1);
    assert_eq!(minutes_until(1090, 1000), 2);
    assert_eq!(minutes_until(1_000_000_000_000, 0), 65_535);
}

#[test]
fn texts_are_cut_at_whole_characters() {
    assert_eq!(str_to::<16>("Klusplatz"), "Klusplatz");
    assert_eq!(str_to::<5>("Klusplatz"), "Klusp");
    assert_eq!(str_to::<4>("Zürich"), "Zür");
    assert_eq!(str_to::<2>("Zürich"), "Z");
    assert_eq!(str_to::<3>("Zürich"), "Zü");
    assert_eq!(str_to::<0>("Zürich"), "");
}

#[test]
fn soonest_three_are_shown_in_order() {
    let entries = vec![
        entry("4", "D", 4000),
        entry("1", "A", 1000),
        entry("3", "C", 3000),
        entry("5", "E", 5000),
        entry("2", "B", 2000),
    ];
    let deps = select_departures(&entries, &selection(true, vec![]), Some(880));
    assert_eq!(lines(&deps), ["1", "2", "3"]);
    assert_eq!(deps[0].minutes, Some(2));
    assert_eq!(deps[1].minutes, Some(19));
    assert_eq!(deps[0].destination, "A");
    assert_eq!(deps[0].category, "T");
}

#[test]
fn equal_times_keep_the_board_order() {
    let entries = vec![entry("b", "X", 100), entry("a", "X", 100), entry("c", "X", 50)];
    let deps = select_departures(&entries, &selection(true, vec![]), None);
    assert_eq!(lines(&deps), ["c", "b", "a"]);
    assert_eq!(deps[0].minutes, None);
}

#[test]
fn only_tracked_departures_are_shown() {
    let entries = vec![entry("2", "Schlieren", 100), entry("2", "Tiefenbrunnen", 50)];
    let sel = selection(false, vec![conn("2", "Schlieren")]);
    let deps = select_departures(&entries, &sel, Some(0));
    assert_eq!(lines(&deps), ["2"]);
    assert_eq!(deps[0].destination, "Schlieren");
}

#[test]
fn nothing_matching_gives_an_empty_board() {
    let sel = selection(false, vec![conn("9", "Nowhere")]);
    assert!(select_departures(&vec![entry("2", "X", 1)], &sel, Some(0)).is_empty());
    assert!(select_departures(&vec![], &selection(true, vec![]), None).is_empty());
}

#[test]
fn entries_without_a_time_are_left_out() {
    let mut e = entry("2", "X", 1);
    e.departure_timestamp = None;
    assert!(select_departures(&vec![e], &selection(true, vec![]), None).is_empty());
}

#[test]
fn name_stands_in_for_a_missing_number() {
    let mut without = entry("", "X", 1);
    let mut none = entry("", "Y", 2);
    none.number = None;
    let mut neither = entry("", "Z", 3);
    neither.number = None;
    neither.name = None;
    without.name = Some(String::from("T 2"));
    let deps = select_departures(
        &vec![without, none, neither],
        &selection(true, vec![]),
        None,
    );
    assert_eq!(lines(&deps), ["T 2", "name", ""]);
}

#[test]
fn long_fields_are_cut_to_the_panel() {
    let mut e = entry("12345678901234567890", "X", 1);
    e.category = Some(String::from("Standseilbahn"));
    e.to = Some("D".repeat(60));
    let deps = select_departures(&vec![e], &selection(true, vec![]), None);
    assert_eq!(deps[0].line, "1234567890123456");
    assert_eq!(deps[0].category, "Standseilbah");
    assert_eq!(deps[0].destination.len(), 48);
}

#[test]
fn no_selection_shows_the_address() {
    let mut p = Poll::new();
    let _ = p.failed(10, 100);
    let (show, delay) = p.idle(Some([192, 168, 1, 5]));
    assert!(matches!(show, Some(DisplayState::IdleAddress { octets: [192, 168, 1, 5] })));
    assert_eq!(delay, 30);
    assert_eq!(p.failing_since, None);
    assert!(p.idle(None).0.is_none());
}

#[test]
fn success_shows_the_board() {
    let mut p = Poll::new();
    let sel = selection(true, vec![]);
    let deps = select_departures(&vec![entry("2", "X", 1)], &sel, None);
    let (show, delay) = p.succeeded(&sel, deps);
    assert_eq!(delay, 30);
    match show {
        DisplayState::Departures { station, deps } => {
            assert_eq!(station, "Zürich, Central");
            assert_eq!(deps.len(), 1);
        }
        _ => panic!("not a board"),
    }
}

#[test]
fn offline_only_after_a_persistent_run_of_failures() {
    let mut p = Poll::new();
    let after = 60_000_000;
    let (show, delay) = p.failed(1_000_000, after);
    assert!(show.is_none());
    assert_eq!(delay, 5);
    assert!(p.failed(60_999_999, after).0.is_none());
    assert!(matches!(p.failed(61_000_000, after).0, Some(DisplayState::Offline)));
    assert_eq!(p.failing_since, Some(1_000_000));
}

#[test]
fn a_good_poll_ends_the_run_of_failures() {
    let mut p = Poll::new();
    let sel = selection(true, vec![]);
    let _ = p.failed(0, 50);
    let _ = p.succeeded(&sel, vec![]);
    assert_eq!(p.failing_since, None);
    assert!(p.failed(100, 50).0.is_none());
    assert_eq!(p.failing_since, Some(100));
}

#[test]
fn failure_streak_starts_once() {
    let mut since = None;
    assert!(!offline_if_persistent(&mut since, 5, 10));
    assert_eq!(since, Some(5));
    assert!(!offline_if_persistent(&mut since, 14, 10));
    assert!(offline_if_persistent(&mut since, 15, 10));
    assert_eq!(since, Some(5));
    let mut none = None;
    assert!(offline_if_persistent(&mut none, 5, 0));
}
