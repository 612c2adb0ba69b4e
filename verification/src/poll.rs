//! Runtime poll: which stationboard entries the panel shows, and what the poll loop does next.
//!
//! Every 30 s (or immediately when the selection changes) the saved stop's stationboard is
//! fetched and filtered to the tracked connections (every departure in all-connections mode, or
//! just the user's picks otherwise); the next three departures by time are shown with their
//! minutes.

use vstd::prelude::*;
use vstd::string::StrSliceExecFns;

use crate::model::{Departure, Departures, DisplayState, Selection};
use crate::model::{departures_wf, Conn};
use crate::text::{lemma_utf8_len_concat, put};
use crate::text::utf8_len;

verus! {

/// Runtime poll cadence, in seconds.
pub const POLL_INTERVAL_SECS: u64 = 30;

/// Shorter retry cadence after a failed poll, so a transient network hiccup recovers fast.
pub const POLL_RETRY_SECS: u64 = 5;

/// Most entries a stationboard is read with.
pub const MAX_ENTRIES: usize = 20;

/// One entry of a stationboard.
#[derive(Debug)]
pub struct Entry {
    pub category: Option<String>,
    pub number: Option<String>,
    pub name: Option<String>,
    pub to: Option<String>,
    /// Unix time of the departure.
    pub departure_timestamp: Option<i64>,
}

/// The address that a stop's stationboard is fetched from. Only the fields that are read are asked
/// for.
pub open spec fn url_of(stop_id: Seq<char>) -> Seq<char> {
    "https://transport.opendata.ch/v1/stationboard?id="@ + stop_id
        + "&limit=16&fields%5B%5D=stationboard/number&fields%5B%5D=stationboard/name&fields%5B%5D=stationboard/category&fields%5B%5D=stationboard/to&fields%5B%5D=stationboard/stop/departureTimestamp"@
}

/// The address to fetch the stationboard of `sel` from. The buffer holds 320 bytes; `None` where
/// the address does not fit.
pub fn stationboard_url(sel: &Selection) -> (r: Option<String>)
    ensures
        match r {
            Some(url) => url@ == url_of(sel.stop_id@) && utf8_len(url@) <= 320,
            None => utf8_len(url_of(sel.stop_id@)) > 320,
        },
        sel.wf() ==> r is Some,
{
    let prefix = "https://transport.opendata.ch/v1/stationboard?id=";
    let suffix =
        "&limit=16&fields%5B%5D=stationboard/number&fields%5B%5D=stationboard/name&fields%5B%5D=stationboard/category&fields%5B%5D=stationboard/to&fields%5B%5D=stationboard/stop/departureTimestamp";
    proof {
        reveal_strlit("https://transport.opendata.ch/v1/stationboard?id=");
        reveal_strlit(
            "&limit=16&fields%5B%5D=stationboard/number&fields%5B%5D=stationboard/name&fields%5B%5D=stationboard/category&fields%5B%5D=stationboard/to&fields%5B%5D=stationboard/stop/departureTimestamp",
        );
        crate::text::lemma_ascii_len(prefix@);
        crate::text::lemma_ascii_len(suffix@);
        crate::text::lemma_ascii_len(Seq::<char>::empty());
        lemma_utf8_len_concat(prefix@, sel.stop_id@);
        lemma_utf8_len_concat(prefix@ + sel.stop_id@, suffix@);
        assert(Seq::<char>::empty() + prefix@ =~= prefix@);
    }
    let mut url = String::new();
    if put::<320>(&mut url, prefix) && put::<320>(&mut url, sel.stop_id.as_str()) && put::<320>(
        &mut url,
        suffix,
    ) {
        Some(url)
    } else {
        None
    }
}

/// Whether a departure of `line` to `to` is one the user picked, or every departure counts.
pub open spec fn tracks(sel: Selection, line: Seq<char>, to: Seq<char>) -> bool {
    sel.all_connections || exists|i: int|
        0 <= i < sel.connections@.len() && (#[trigger] sel.connections@[i]).line@ == line
            && sel.connections@[i].destination@ == to
}

/// Whether two texts are the same.
fn same_text(a: &str, b: &str) -> (r: bool)
    ensures
        r == (a@ == b@),
{
    let n: usize = a.unicode_len();
    if n != b.unicode_len() {
        return false;
    }
    let mut i: usize = 0;
    while i < n
        invariant
            0 <= i <= n,
            n == a@.len() == b@.len(),
            forall|j: int| 0 <= j < i ==> a@[j] == b@[j],
        decreases n - i,
    {
        if a.get_char(i) != b.get_char(i) {
            return false;
        }
        i = i + 1;
    }
    assert(a@ =~= b@);
    true
}

/// Whether a board entry's `(line, destination)` is one the panel should show: any departure in
/// all-connections mode, otherwise only the connections the user explicitly picked.
pub fn is_tracked(sel: &Selection, line: &str, to: &str) -> (r: bool)
    ensures
        r == tracks(*sel, line@, to@),
{
    if sel.all_connections {
        return true;
    }
    let mut i: usize = 0;
    while i < sel.connections.len()
        invariant
            0 <= i <= sel.connections@.len(),
            forall|j: int|
                0 <= j < i ==> !((#[trigger] sel.connections@[j]).line@ == line@
                    && sel.connections@[j].destination@ == to@),
        decreases sel.connections@.len() - i,
    {
        let c: &Conn = &sel.connections[i];
        if same_text(c.line.as_str(), line) && same_text(c.destination.as_str(), to) {
            return true;
        }
        i = i + 1;
    }
    false
}

/// Minutes from `now` to `departure`, rounded to the nearest minute (half a minute up), 0 once the
/// departure has passed, and at most what `u16` holds.
pub open spec fn minutes_to(departure: int, now: int) -> int {
    if departure <= now {
        0
    } else if (departure - now + 30) / 60 > 65_535 {
        65_535
    } else {
        (departure - now + 30) / 60
    }
}

/// Whether the minutes between two Unix times can be computed in `i64`.
pub open spec fn times_ok(departure: int, now: int) -> bool {
    i64::MIN <= departure - now <= i64::MAX - 30
}

/// Minutes from `now` to `departure`.
pub fn minutes_until(departure: i64, now: i64) -> (r: u16)
    requires
        times_ok(departure as int, now as int),
    ensures
        r == minutes_to(departure as int, now as int),
{
    let diff: i64 = departure - now;
    if diff <= 0 {
        0
    } else {
        let minutes: i64 = (diff + 30) / 60;
        if minutes > 65_535 {
            65_535
        } else {
            minutes as u16
        }
    }
}

/// The minutes shown are the whole number of minutes nearest to the time that is left, half a minute
/// counting as one more; a departure that has left shows 0, and what does not fit shows the largest
/// count.
pub proof fn lemma_minutes_are_nearest(departure: int, now: int)
    ensures
        ({
            let m = minutes_to(departure, now);
            &&& 0 <= m <= 65_535
            &&& departure <= now ==> m == 0
            &&& departure > now && m < 65_535 ==> 60 * m - 30 <= departure - now < 60 * m + 30
            &&& m == 65_535 ==> departure - now >= 60 * 65_535 - 30
        }),
{
}

/// A later departure never shows fewer minutes, and the minutes never grow as time passes. Only the
/// time that is left counts, and a minute later there is one minute less to go.
pub proof fn lemma_minutes_count_down(departure: int, later: int, now: int, wait: int)
    requires
        departure <= later,
        0 <= wait,
    ensures
        minutes_to(departure, now) <= minutes_to(later, now),
        minutes_to(departure, now + wait) <= minutes_to(departure, now),
        minutes_to(departure + wait, now + wait) == minutes_to(departure, now),
        departure - now > 60 && minutes_to(departure, now) < 65_535 ==> minutes_to(
            departure,
            now + 60,
        ) == minutes_to(departure, now) - 1,
{
}

/// The longest prefix of `s` that takes at most `cap` bytes.
pub open spec fn truncated(cap: nat, s: Seq<char>) -> Seq<char>
    decreases s.len(),
{
    if utf8_len(s) <= cap || s.len() == 0 {
        s
    } else {
        truncated(cap, s.drop_last())
    }
}

/// Longer prefixes take more bytes.
proof fn lemma_prefix_len(s: Seq<char>, i: int)
    requires
        0 <= i <= s.len(),
    ensures
        utf8_len(s.take(i)) <= utf8_len(s),
{
    assert(s =~= s.take(i) + s.skip(i));
    lemma_utf8_len_concat(s.take(i), s.skip(i));
}

/// A prefix that fits while one more character does not is the longest that fits.
proof fn lemma_truncated(cap: nat, s: Seq<char>, i: int)
    requires
        0 <= i <= s.len(),
        utf8_len(s.take(i)) <= cap,
        i < s.len() ==> utf8_len(s.take(i + 1)) > cap,
    ensures
        truncated(cap, s) == s.take(i),
    decreases s.len(),
{
    if i == s.len() {
        assert(s.take(i) =~= s);
    } else {
        lemma_prefix_len(s, i + 1);
        let t = s.drop_last();
        assert(t.take(i) =~= s.take(i));
        if i + 1 <= t.len() {
            assert(t.take(i + 1) =~= s.take(i + 1));
        }
        lemma_truncated(cap, t, i);
    }
}

/// What `truncated` keeps fits, is a prefix, and is everything where everything fits.
pub proof fn lemma_truncated_fits(cap: nat, s: Seq<char>)
    ensures
        utf8_len(truncated(cap, s)) <= cap,
        truncated(cap, s).len() <= s.len(),
        truncated(cap, s) == s.take(truncated(cap, s).len() as int),
        utf8_len(s) <= cap ==> truncated(cap, s) == s,
    decreases s.len(),
{
    if s.len() == 0 {
        assert(utf8_len(s) == 0);
        assert(s.take(0) =~= s);
    } else if utf8_len(s) > cap {
        lemma_truncated_fits(cap, s.drop_last());
        let n = truncated(cap, s).len() as int;
        assert(s.drop_last().take(n) =~= s.take(n));
    } else {
        assert(s.take(s.len() as int) =~= s);
    }
}

/// Copy `s` into a text of at most `N` bytes, cutting it off at the last character that fits.
pub fn str_to<const N: usize>(s: &str) -> (r: String)
    ensures
        r@ == truncated(N as nat, s@),
        utf8_len(r@) <= N,
{
    let mut out = String::new();
    let n: usize = s.unicode_len();
    let mut i: usize = 0;
    proof {
        assert(utf8_len(Seq::<char>::empty()) == 0);
        assert(s@.take(0) =~= Seq::<char>::empty());
    }
    while i < n
        invariant
            0 <= i <= n,
            n == s@.len(),
            out@ == s@.take(i as int),
            utf8_len(out@) <= N,
        decreases n - i,
    {
        let c = s.substring_char(i, i + 1);
        proof {
            assert(s@.take(i + 1) =~= s@.take(i as int) + c@);
            lemma_utf8_len_concat(s@.take(i as int), c@);
        }
        if !put::<N>(&mut out, c) {
            proof {
                lemma_truncated(N as nat, s@, i as int);
            }
            return out;
        }
        i = i + 1;
    }
    proof {
        lemma_truncated(N as nat, s@, n as int);
    }
    out
}

/// The text of an optional field.
pub open spec fn text_or_empty(t: Option<String>) -> Seq<char> {
    match t {
        Some(s) => s@,
        None => Seq::empty(),
    }
}

/// An entry's line: its number, or its name where the number is missing or empty.
pub open spec fn entry_line(e: Entry) -> Seq<char> {
    match e.number {
        Some(s) => if s@.len() > 0 {
            s@
        } else {
            text_or_empty(e.name)
        },
        None => text_or_empty(e.name),
    }
}

/// A departure as the panel reads it.
pub struct DepartureText {
    pub line: Seq<char>,
    pub category: Seq<char>,
    pub destination: Seq<char>,
    pub minutes: Option<u16>,
}

impl View for Departure {
    type V = DepartureText;

    open spec fn view(&self) -> DepartureText {
        DepartureText {
            line: self.line@,
            category: self.category@,
            destination: self.destination@,
            minutes: self.minutes,
        }
    }
}

/// Whether the panel may show an entry: it is tracked and has a departure time.
pub open spec fn kept(sel: Selection, e: Entry) -> bool {
    tracks(sel, entry_line(e), text_or_empty(e.to)) && e.departure_timestamp is Some
}

/// The departure of an entry, its texts cut to the panel's capacities.
pub open spec fn departure_of(e: Entry, now: Option<i64>) -> DepartureText {
    DepartureText {
        line: truncated(16, entry_line(e)),
        category: truncated(12, text_or_empty(e.category)),
        destination: truncated(48, text_or_empty(e.to)),
        minutes: match now {
            Some(n) => Some(minutes_to(e.departure_timestamp->0 as int, n as int) as u16),
            None => None,
        },
    }
}

/// `s`, ordered by time, with `d` put behind everything that leaves no later.
pub open spec fn insert_by_time(s: Seq<(int, DepartureText)>, d: (int, DepartureText)) -> Seq<
    (int, DepartureText),
>
    decreases s.len(),
{
    if s.len() == 0 || s.last().0 <= d.0 {
        s.push(d)
    } else {
        insert_by_time(s.drop_last(), d).push(s.last())
    }
}

/// The departures of the first `n` entries that the panel may show, soonest first; of departures
/// at the same time, the one earlier on the board comes first.
pub open spec fn board(sel: Selection, entries: Seq<Entry>, now: Option<i64>, n: int) -> Seq<
    (int, DepartureText),
>
    decreases n,
{
    if n <= 0 {
        Seq::empty()
    } else {
        let rest = board(sel, entries, now, n - 1);
        let e = entries[n - 1];
        if kept(sel, e) {
            insert_by_time(rest, (e.departure_timestamp->0 as int, departure_of(e, now)))
        } else {
            rest
        }
    }
}

/// The first three departures of a board.
pub open spec fn soonest(b: Seq<(int, DepartureText)>) -> Seq<DepartureText> {
    b.take(if b.len() < 3 {
        b.len() as int
    } else {
        3
    }).map_values(|p: (int, DepartureText)| p.1)
}

/// Whether a board is ordered by time.
pub open spec fn ordered(s: Seq<(int, DepartureText)>) -> bool {
    forall|i: int, j: int| 0 <= i <= j < s.len() ==> (#[trigger] s[i]).0 <= (#[trigger] s[j]).0
}

/// Inserting keeps the order and adds exactly one departure.
pub proof fn lemma_insert_by_time(s: Seq<(int, DepartureText)>, d: (int, DepartureText))
    requires
        ordered(s),
    ensures
        ordered(insert_by_time(s, d)),
        insert_by_time(s, d).to_multiset() =~= s.to_multiset().insert(d),
        insert_by_time(s, d).len() == s.len() + 1,
        insert_by_time(s, d).last().0 == (if s.len() == 0 || s.last().0 <= d.0 {
            d.0
        } else {
            s.last().0
        }),
    decreases s.len(),
{
    broadcast use vstd::seq_lib::group_to_multiset_ensures;

    if s.len() == 0 || s.last().0 <= d.0 {
    } else {
        let t = s.drop_last();
        lemma_insert_by_time(t, d);
        let r = insert_by_time(t, d);
        assert(s =~= t.push(s.last()));
        assert(ordered(r.push(s.last()))) by {
            assert forall|i: int, j: int|
                0 <= i <= j < r.push(s.last()).len() implies (#[trigger] r.push(s.last())[i]).0 <= (
            #[trigger] r.push(s.last())[j]).0 by {
                assert(r.last().0 <= s.last().0);
                if i < r.len() {
                    assert(r[i].0 <= r.last().0);
                }
            }
        }
    }
}

/// A board is ordered by time, and holds one departure for each entry that the panel may show.
pub proof fn lemma_board(sel: Selection, entries: Seq<Entry>, now: Option<i64>, n: int)
    requires
        0 <= n <= entries.len(),
    ensures
        ordered(board(sel, entries, now, n)),
        board(sel, entries, now, n).len() == entries.take(n).filter(|e: Entry| kept(sel, e)).len(),
        board(sel, entries, now, n).len() <= n,
    decreases n,
{
    if n > 0 {
        lemma_board(sel, entries, now, n - 1);
        let rest = board(sel, entries, now, n - 1);
        let e = entries[n - 1];
        assert(entries.take(n).drop_last() =~= entries.take(n - 1));
        reveal(Seq::filter);
        if kept(sel, e) {
            lemma_insert_by_time(
                rest,
                (e.departure_timestamp->0 as int, departure_of(e, now)),
            );
        }
    } else {
        reveal(Seq::filter);
    }
}

/// What is in a board after an insertion was in it before, or is what was inserted.
proof fn lemma_insert_members(s: Seq<(int, DepartureText)>, d: (int, DepartureText), i: int)
    requires
        0 <= i < insert_by_time(s, d).len(),
    ensures
        insert_by_time(s, d)[i] == d || s.contains(insert_by_time(s, d)[i]),
    decreases s.len(),
{
    if s.len() == 0 || s.last().0 <= d.0 {
        if i < s.len() {
            assert(s[i] == s.push(d)[i]);
        }
    } else {
        let t = s.drop_last();
        let r = insert_by_time(t, d);
        if i < r.len() {
            lemma_insert_members(t, d, i);
            if r[i] != d {
                let k = choose|k: int| 0 <= k < t.len() && t[k] == r[i];
                assert(s[k] == r[i]);
            }
        } else {
            assert(s[s.len() - 1] == r.push(s.last())[i]);
        }
    }
}

/// Whether a timed departure is that of one of the first `n` entries, and one the panel may show.
pub open spec fn from_entry(
    sel: Selection,
    entries: Seq<Entry>,
    now: Option<i64>,
    n: int,
    d: (int, DepartureText),
) -> bool {
    exists|j: int|
        0 <= j < n && kept(sel, #[trigger] entries[j]) && d == (
            entries[j].departure_timestamp->0 as int,
            departure_of(entries[j], now),
        )
}

/// Every departure of a board is that of an entry the panel may show.
pub proof fn lemma_board_members(
    sel: Selection,
    entries: Seq<Entry>,
    now: Option<i64>,
    n: int,
    i: int,
)
    requires
        0 <= n <= entries.len(),
        0 <= i < board(sel, entries, now, n).len(),
    ensures
        from_entry(sel, entries, now, n, board(sel, entries, now, n)[i]),
    decreases n,
{
    if n > 0 {
        let rest = board(sel, entries, now, n - 1);
        let e = entries[n - 1];
        let b = board(sel, entries, now, n);
        if kept(sel, e) {
            let d = (e.departure_timestamp->0 as int, departure_of(e, now));
            lemma_insert_members(rest, d, i);
            if b[i] != d {
                let k = choose|k: int| 0 <= k < rest.len() && rest[k] == b[i];
                lemma_board_members(sel, entries, now, n - 1, k);
            }
        } else {
            lemma_board_members(sel, entries, now, n - 1, i);
        }
    }
}

/// The departures shown are the soonest: none that is left out leaves before one that is shown.
pub proof fn lemma_soonest(sel: Selection, entries: Seq<Entry>, now: Option<i64>, i: int, j: int)
    requires
        0 <= i < 3,
        3 <= j < board(sel, entries, now, entries.len() as int).len(),
    ensures
        board(sel, entries, now, entries.len() as int)[i].0 <= board(
            sel,
            entries,
            now,
            entries.len() as int,
        )[j].0,
        soonest(board(sel, entries, now, entries.len() as int)).len() == 3,
        soonest(board(sel, entries, now, entries.len() as int))[i] == board(
            sel,
            entries,
            now,
            entries.len() as int,
        )[i].1,
{
    lemma_board(sel, entries, now, entries.len() as int);
}

/// An entry counts for the panel exactly if it has a departure time and, unless every departure
/// counts, the user picked a connection with its line and its destination. Its line is its number,
/// or its name where the number is missing or empty.
pub proof fn lemma_kept(sel: Selection, e: Entry)
    ensures
        kept(sel, e) ==> e.departure_timestamp is Some,
        e.departure_timestamp is Some && sel.all_connections ==> kept(sel, e),
        forall|c: int|
            0 <= c < sel.connections@.len() && (#[trigger] sel.connections@[c]).line@ == entry_line(e)
                && e.to is Some && sel.connections@[c].destination@ == e.to->0@
                && e.departure_timestamp is Some ==> kept(sel, e),
        kept(sel, e) && !sel.all_connections ==> exists|c: int|
            0 <= c < sel.connections@.len() && (#[trigger] sel.connections@[c]).line@ == entry_line(e)
                && (sel.connections@[c].destination@.len() > 0 ==> e.to is Some
                && sel.connections@[c].destination@ == e.to->0@),
        e.number is Some && e.number->0@.len() > 0 ==> entry_line(e) == e.number->0@,
        (e.number is None || e.number->0@.len() == 0) && e.name is Some ==> entry_line(e)
            == e.name->0@,
        (e.number is None || e.number->0@.len() == 0) && e.name is None ==> entry_line(e).len()
            == 0,
{
}

/// How many of the first `n` entries that the panel may show leave before time `t`, or at time `t`
/// and stand before entry `j`.
pub open spec fn ahead(sel: Selection, entries: Seq<Entry>, n: int, j: int, t: int) -> int
    decreases n,
{
    if n <= 0 {
        0
    } else {
        let time = entries[n - 1].departure_timestamp->0 as int;
        ahead(sel, entries, n - 1, j, t) + (if kept(sel, entries[n - 1]) && (time < t || time == t
            && n - 1 < j) {
            1int
        } else {
            0int
        })
    }
}

/// Where `insert_by_time` puts a departure.
proof fn lemma_insert_position(s: Seq<(int, DepartureText)>, d: (int, DepartureText)) -> (p: int)
    requires
        ordered(s),
    ensures
        0 <= p <= s.len(),
        insert_by_time(s, d) == s.insert(p, d),
        forall|k: int| 0 <= k < p ==> (#[trigger] s[k]).0 <= d.0,
        forall|k: int| p <= k < s.len() ==> (#[trigger] s[k]).0 > d.0,
    decreases s.len(),
{
    if s.len() == 0 || s.last().0 <= d.0 {
        let p = s.len() as int;
        assert forall|k: int| 0 <= k < p implies (#[trigger] s[k]).0 <= d.0 by {
            assert(s[k].0 <= s[s.len() - 1].0);
        }
        assert(s.insert(p, d) =~= s.push(d));
        p
    } else {
        let t = s.drop_last();
        let p = lemma_insert_position(t, d);
        assert(t.insert(p, d).push(s.last()) =~= s.insert(p, d));
        assert forall|k: int| 0 <= k < p implies (#[trigger] s[k]).0 <= d.0 by {
            assert(t[k] == s[k]);
        }
        assert forall|k: int| p <= k < s.len() implies (#[trigger] s[k]).0 > d.0 by {
            if k < t.len() {
                assert(t[k] == s[k]);
            }
        }
        p
    }
}

/// The departures up to time `t` come first on a board, and are as many as the entries say.
proof fn lemma_ahead_splits(sel: Selection, entries: Seq<Entry>, now: Option<i64>, n: int, j: int, t: int)
    requires
        0 <= n <= entries.len(),
        n <= j,
    ensures
        0 <= ahead(sel, entries, n, j, t) <= board(sel, entries, now, n).len(),
        forall|k: int|
            0 <= k < ahead(sel, entries, n, j, t) ==> (#[trigger] board(sel, entries, now, n)[k]).0
                <= t,
        forall|k: int|
            ahead(sel, entries, n, j, t) <= k < board(sel, entries, now, n).len() ==> (
            #[trigger] board(sel, entries, now, n)[k]).0 > t,
    decreases n,
{
    if n > 0 {
        lemma_ahead_splits(sel, entries, now, n - 1, j, t);
        lemma_board(sel, entries, now, n - 1);
        let rest = board(sel, entries, now, n - 1);
        let e = entries[n - 1];
        if kept(sel, e) {
            let d = (e.departure_timestamp->0 as int, departure_of(e, now));
            let p = lemma_insert_position(rest, d);
            let b = board(sel, entries, now, n);
            let q = ahead(sel, entries, n - 1, j, t);
            assert(b == rest.insert(p, d));
            if d.0 <= t {
                assert(p <= q) by {
                    if q < p {
                        assert(rest[q].0 <= d.0);
                    }
                }
            } else {
                assert(q <= p) by {
                    if p < q {
                        assert(rest[p].0 <= t);
                    }
                }
            }
            assert forall|k: int| 0 <= k < ahead(sel, entries, n, j, t) implies (
            #[trigger] board(sel, entries, now, n)[k]).0 <= t by {
                if k < p {
                    assert(b[k] == rest[k]);
                } else if k > p {
                    assert(b[k] == rest[k - 1]);
                }
            }
            assert forall|k: int|
                ahead(sel, entries, n, j, t) <= k < b.len() implies (#[trigger] board(
                sel,
                entries,
                now,
                n,
            )[k]).0 > t by {
                if k < p {
                    assert(b[k] == rest[k]);
                } else if k > p {
                    assert(b[k] == rest[k - 1]);
                }
            }
        }
    }
}

/// An entry that the panel may show stands on the board behind exactly those that leave before it.
proof fn lemma_place_on_board(sel: Selection, entries: Seq<Entry>, now: Option<i64>, n: int, j: int)
    requires
        0 <= j < n <= entries.len(),
        kept(sel, entries[j]),
    ensures
        ({
            let t = entries[j].departure_timestamp->0 as int;
            let k = ahead(sel, entries, n, j, t);
            &&& 0 <= k < board(sel, entries, now, n).len()
            &&& board(sel, entries, now, n)[k] == (t, departure_of(entries[j], now))
        }),
    decreases n,
{
    let t = entries[j].departure_timestamp->0 as int;
    let rest = board(sel, entries, now, n - 1);
    let e = entries[n - 1];
    lemma_board(sel, entries, now, n - 1);
    if j == n - 1 {
        let d = (t, departure_of(e, now));
        let p = lemma_insert_position(rest, d);
        lemma_ahead_splits(sel, entries, now, n - 1, n - 1, t);
        let q = ahead(sel, entries, n - 1, n - 1, t);
        assert(p == q) by {
            if p < q {
                assert(rest[p].0 > t);
            }
            if q < p {
                assert(rest[q].0 <= t);
            }
        }
    } else {
        lemma_place_on_board(sel, entries, now, n - 1, j);
        if kept(sel, e) {
            let d = (e.departure_timestamp->0 as int, departure_of(e, now));
            let p = lemma_insert_position(rest, d);
            let q = ahead(sel, entries, n - 1, j, t);
            if d.0 < t {
                assert(p <= q) by {
                    if q < p {
                        assert(rest[q].0 <= d.0);
                    }
                }
            } else {
                assert(q < p) by {
                    if p <= q {
                        assert(rest[q].0 > d.0);
                    }
                }
            }
        }
    }
}

/// The panel shows the next three departures of those that count, in the order in which they leave:
/// an entry is shown in the place behind those that leave before it (or at the same time and stand
/// before it on the board), if fewer than three do. What is shown is its line, category and
/// destination, cut off only where they do not fit, and the minutes to it once the time is known.
pub proof fn lemma_next_three_are_shown(
    sel: Selection,
    entries: Seq<Entry>,
    now: Option<i64>,
    j: int,
)
    requires
        0 <= j < entries.len(),
        kept(sel, entries[j]),
    ensures
        ({
            let n = entries.len() as int;
            let e = entries[j];
            let t = e.departure_timestamp->0 as int;
            let place = ahead(sel, entries, n, j, t);
            let shown = soonest(board(sel, entries, now, n));
            place < 3 ==> {
                &&& 0 <= place < shown.len() <= 3
                &&& shown[place].line.is_prefix_of(entry_line(e))
                &&& utf8_len(entry_line(e)) <= 16 ==> shown[place].line == entry_line(e)
                &&& e.to matches Some(to) ==> shown[place].destination.is_prefix_of(to@) && (
                utf8_len(to@) <= 48 ==> shown[place].destination == to@)
                &&& e.category matches Some(c) ==> shown[place].category.is_prefix_of(c@) && (
                utf8_len(c@) <= 12 ==> shown[place].category == c@)
                &&& now is None ==> shown[place].minutes is None
                &&& now matches Some(now) ==> (shown[place].minutes matches Some(m) && (t <= now
                    ==> m == 0) && (t > now && m < 65_535 ==> 60 * m - 30 <= t - now < 60 * m + 30))
            }
        }),
{
    let n = entries.len() as int;
    let e = entries[j];
    lemma_place_on_board(sel, entries, now, n, j);
    lemma_truncated_fits(16, entry_line(e));
    lemma_truncated_fits(12, text_or_empty(e.category));
    lemma_truncated_fits(48, text_or_empty(e.to));
    if let Some(at) = now {
        lemma_minutes_are_nearest(e.departure_timestamp->0 as int, at as int);
    }
}

/// Nothing else is shown: each departure on the panel is that of an entry that counts, standing in
/// the place that its time gives it, and there are three unless fewer count.
pub proof fn lemma_only_tracked_are_shown(
    sel: Selection,
    entries: Seq<Entry>,
    now: Option<i64>,
    i: int,
) -> (j: int)
    requires
        0 <= i < soonest(board(sel, entries, now, entries.len() as int)).len(),
    ensures
        0 <= j < entries.len(),
        kept(sel, entries[j]),
        soonest(board(sel, entries, now, entries.len() as int))[i] == departure_of(
            entries[j],
            now,
        ),
        soonest(board(sel, entries, now, entries.len() as int)).len() == (if entries.filter(
            |e: Entry| kept(sel, e),
        ).len() < 3 {
            entries.filter(|e: Entry| kept(sel, e)).len() as int
        } else {
            3int
        }),
{
    let n = entries.len() as int;
    let b = board(sel, entries, now, n);
    lemma_board(sel, entries, now, n);
    assert(entries.take(n) =~= entries);
    lemma_board_members(sel, entries, now, n, i);
    assert(from_entry(sel, entries, now, n, b[i]));
    choose|j: int|
        0 <= j < n && kept(sel, #[trigger] entries[j]) && b[i] == (
            entries[j].departure_timestamp->0 as int,
            departure_of(entries[j], now),
        )
}

/// A text is cut off at the last character that fits: with one more it would be too long.
pub proof fn lemma_truncated_is_longest(cap: nat, s: Seq<char>, i: int)
    requires
        0 <= i <= s.len(),
        utf8_len(s.take(i)) <= cap,
    ensures
        i <= truncated(cap, s).len(),
    decreases s.len(),
{
    if utf8_len(s) > cap && s.len() > 0 {
        if i == s.len() {
            assert(s.take(i) =~= s);
        } else {
            assert(s.drop_last().take(i) =~= s.take(i));
            lemma_truncated_is_longest(cap, s.drop_last(), i);
        }
    }
}

/// Two stops have two addresses, and every address names its stop as its `id`.
pub proof fn lemma_url_names_the_stop(one: Seq<char>, two: Seq<char>)
    ensures
        url_of(one) == url_of(two) ==> one == two,
        url_of(one).subrange(49, 49 + one.len() as int) == one,
        url_of(one)[48] == '=',
        url_of(one)[46] == 'i' && url_of(one)[47] == 'd',
{
    reveal_strlit("https://transport.opendata.ch/v1/stationboard?id=");
    assert(url_of(one).subrange(49, 49 + one.len() as int) =~= one);
    assert(url_of(two).subrange(49, 49 + two.len() as int) =~= two);
    if url_of(one) == url_of(two) {
        assert(url_of(one).len() == url_of(two).len());
    }
}

/// Inserting at the right place is `insert_by_time`.
proof fn lemma_insert_at(s: Seq<(int, DepartureText)>, d: (int, DepartureText), pos: int)
    requires
        0 <= pos <= s.len(),
        pos > 0 ==> s[pos - 1].0 <= d.0,
        forall|j: int| pos <= j < s.len() ==> (#[trigger] s[j]).0 > d.0,
    ensures
        insert_by_time(s, d) == s.insert(pos, d),
    decreases s.len(),
{
    if pos == s.len() {
        assert(s.insert(pos, d) =~= s.push(d));
    } else {
        lemma_insert_at(s.drop_last(), d, pos);
        assert(s.drop_last().insert(pos, d).push(s.last()) =~= s.insert(pos, d));
    }
}

/// Timed departures as the panel reads them.
pub open spec fn timed_view(v: Seq<(i64, Departure)>) -> Seq<(int, DepartureText)> {
    v.map_values(|p: (i64, Departure)| (p.0 as int, p.1@))
}

/// The text of an optional field, or the empty text.
fn text_of(t: &Option<String>) -> (r: &str)
    ensures
        r@ == text_or_empty(*t),
{
    match t {
        Some(s) => s.as_str(),
        None => {
            proof {
                reveal_strlit("");
            }
            assert(""@ =~= Seq::<char>::empty());
            ""
        },
    }
}

/// An entry's line.
fn line_of(e: &Entry) -> (r: &str)
    ensures
        r@ == entry_line(*e),
{
    match &e.number {
        Some(s) => {
            if s.as_str().is_empty() {
                text_of(&e.name)
            } else {
                s.as_str()
            }
        },
        None => text_of(&e.name),
    }
}

/// Build the up-to-three soonest departures the panel should show: every connection in
/// all-connections mode, or only the user's picks otherwise. Empty when nothing matched: the panel
/// then renders the stop header with a "no service" note. Minutes are computed once the clock is
/// set (`now`).
pub fn select_departures(entries: &Vec<Entry>, sel: &Selection, now: Option<i64>) -> (r: Departures)
    requires
        entries@.len() <= MAX_ENTRIES,
        forall|i: int|
            0 <= i < entries@.len() && kept(*sel, #[trigger] entries@[i]) && now is Some
                ==> times_ok(
                entries@[i].departure_timestamp->0 as int,
                now->0 as int,
            ),
    ensures
        r@.map_values(|d: Departure| d@) == soonest(
            board(*sel, entries@, now, entries@.len() as int),
        ),
        departures_wf(r@),
{
    // Collect the departures the panel may show, ordered by time.
    let mut matches: Vec<(i64, Departure)> = Vec::new();
    let mut i: usize = 0;
    while i < entries.len()
        invariant
            0 <= i <= entries@.len() <= MAX_ENTRIES,
            forall|j: int|
                0 <= j < entries@.len() && kept(*sel, #[trigger] entries@[j]) && now is Some
                    ==> times_ok(
                    entries@[j].departure_timestamp->0 as int,
                    now->0 as int,
                ),
            timed_view(matches@) == board(*sel, entries@, now, i as int),
            matches@.len() <= i,
            forall|j: int| 0 <= j < matches@.len() ==> (#[trigger] matches@[j]).1.wf(),
        decreases entries@.len() - i,
    {
        let e = &entries[i];
        let line = line_of(e);
        let to = text_of(&e.to);
        if is_tracked(sel, line, to) {
            if let Some(ts) = e.departure_timestamp {
                assert(kept(*sel, entries@[i as int]));
                let minutes: Option<u16> = match now {
                    Some(n) => Some(minutes_until(ts, n)),
                    None => None,
                };
                let dep = Departure {
                    line: str_to::<16>(line),
                    category: str_to::<12>(text_of(&e.category)),
                    destination: str_to::<48>(to),
                    minutes,
                };
                let ghost before = matches@;
                let ghost d = (ts as int, dep@);
                let mut pos: usize = matches.len();
                while pos > 0 && matches[pos - 1].0 > ts
                    invariant
                        pos <= matches@.len(),
                        matches@ == before,
                        forall|j: int| pos <= j < before.len() ==> (#[trigger] before[j]).0 > ts,
                    decreases pos,
                {
                    pos = pos - 1;
                }
                proof {
                    let s = timed_view(before);
                    assert forall|j: int| pos <= j < s.len() implies (#[trigger] s[j]).0 > d.0 by {
                        assert(before[j].0 > ts);
                    }
                    lemma_insert_at(s, d, pos as int);
                    assert(timed_view(before.insert(pos as int, (ts, dep))) =~= s.insert(
                        pos as int,
                        d,
                    ));
                }
                matches.insert(pos, (ts, dep));
                proof {
                    assert forall|j: int| 0 <= j < matches@.len() implies (
                    #[trigger] matches@[j]).1.wf() by {
                        if j < pos {
                            assert(matches@[j] == before[j]);
                        } else if j > pos {
                            assert(matches@[j] == before[j - 1]);
                        }
                    }
                }
            }
        }
        i = i + 1;
    }
    // Up to three soonest departures.
    let ghost all = matches@;
    let mut out: Departures = Vec::new();
    while matches.len() > 0 && out.len() < 3
        invariant
            out@.len() <= 3,
            out@.len() + matches@.len() == all.len(),
            matches@ == all.skip(out@.len() as int),
            forall|j: int| 0 <= j < out@.len() ==> #[trigger] out@[j] == all[j].1,
            forall|j: int| 0 <= j < all.len() ==> (#[trigger] all[j]).1.wf(),
        decreases matches@.len(),
    {
        let ghost k = out@.len() as int;
        assert(matches@[0] == all[k]);
        let (_, dep) = matches.remove(0);
        out.push(dep);
        assert(matches@ =~= all.skip(k + 1));
    }
    proof {
        let b = timed_view(all);
        assert(out@.map_values(|d: Departure| d@) =~= soonest(b));
    }
    out
}

/// What the poll loop remembers between two polls: when the current unbroken run of failed polls
/// began (`None` once a poll succeeds), in ticks.
#[derive(Clone, Copy, Debug, PartialEq, Eq, Structural)]
pub struct Poll {
    pub failing_since: Option<u64>,
}

/// Whether failures since `start` have lasted long enough for the offline screen.
pub open spec fn persistent(start: int, now: int, offline_after: int) -> bool {
    now - start >= offline_after
}

/// A brief outage does not show: the offline screen comes exactly when the failures have lasted that
/// long, and stays while they go on.
pub proof fn lemma_offline_waits(start: int, lasted: int, more: int, offline_after: int)
    requires
        0 <= more,
    ensures
        lasted < offline_after ==> !persistent(start, start + lasted, offline_after),
        persistent(start, start + offline_after, offline_after),
        persistent(start, start + lasted, offline_after) ==> persistent(
            start,
            start + lasted + more,
            offline_after,
        ),
{
}

/// Handle a failed poll: record the start of the failure streak (if this is its first failure),
/// and tell whether the streak has lasted `offline_after` ticks. Below that nothing is shown, so
/// the last good board stays on the panel through a brief outage.
pub fn offline_if_persistent(failing_since: &mut Option<u64>, now: u64, offline_after: u64) -> (r:
    bool)
    requires
        *old(failing_since) matches Some(start) ==> start <= now,
    ensures
        *final(failing_since) == Some(match *old(failing_since) {
            Some(start) => start,
            None => now,
        }),
        r == (now - (*final(failing_since))->0 >= offline_after),
        r == persistent((*final(failing_since))->0 as int, now as int, offline_after as int),
{
    let start: u64 = match *failing_since {
        Some(start) => start,
        None => now,
    };
    *failing_since = Some(start);
    now - start >= offline_after
}

impl Poll {
    /// Nothing polled yet.
    pub fn new() -> (r: Poll)
        ensures
            r == (Poll { failing_since: None }),
    {
        Poll { failing_since: None }
    }

    /// No connection chosen yet: show the address screen, once there is an address. Not polling,
    /// so any earlier failure streak no longer applies. Returns what to show and how many seconds
    /// to wait before the next poll.
    pub fn idle(&mut self, ip: Option<[u8; 4]>) -> (r: (Option<DisplayState>, u64))
        ensures
            final(self).failing_since is None,
            r.0 == (match ip {
                Some(octets) => Some(DisplayState::IdleAddress { octets }),
                None => None,
            }),
            r.1 == POLL_INTERVAL_SECS,
    {
        self.failing_since = None;
        match ip {
            Some(octets) => (Some(DisplayState::IdleAddress { octets }), POLL_INTERVAL_SECS),
            None => (None, POLL_INTERVAL_SECS),
        }
    }

    /// A poll succeeded: show the stop and its departures. Returns what to show and how many
    /// seconds to wait before the next poll.
    pub fn succeeded(&mut self, sel: &Selection, deps: Departures) -> (r: (DisplayState, u64))
        requires
            sel.wf(),
            departures_wf(deps@),
        ensures
            final(self).failing_since is None,
            r.0 == (DisplayState::Departures { station: sel.stop_name, deps }),
            r.0.wf(),
            r.1 == POLL_INTERVAL_SECS,
            final(self).failing_since == streak(old(self).failing_since, seq![Outcome::Good]),
    {
        proof {
            lemma_streak_step(old(self).failing_since, Outcome::Good);
        }
        self.failing_since = None;
        (DisplayState::Departures { station: sel.stop_name.clone(), deps }, POLL_INTERVAL_SECS)
    }

    /// A poll failed or timed out at tick `now`: show the offline screen once the failures have
    /// lasted `offline_after` ticks. Returns what to show and how many seconds to wait before the
    /// next poll.
    pub fn failed(&mut self, now: u64, offline_after: u64) -> (r: (Option<DisplayState>, u64))
        requires
            old(self).failing_since matches Some(start) ==> start <= now,
        ensures
            final(self).failing_since == Some(match old(self).failing_since {
                Some(start) => start,
                None => now,
            }),
            r.0 == (if now - final(self).failing_since->0 >= offline_after {
                Some(DisplayState::Offline)
            } else {
                None
            }),
            r.1 == POLL_RETRY_SECS,
            final(self).failing_since == streak(old(self).failing_since, seq![Outcome::Bad(now)]),
    {
        proof {
            lemma_streak_step(old(self).failing_since, Outcome::Bad(now));
        }
        if offline_if_persistent(&mut self.failing_since, now, offline_after) {
            (Some(DisplayState::Offline), POLL_RETRY_SECS)
        } else {
            (None, POLL_RETRY_SECS)
        }
    }
}

/// The outcome of a poll, at the tick it came.
pub enum Outcome {
    Good,
    Bad(u64),
}

/// Since when polls have been failing after `outcomes`, starting from `since`.
pub open spec fn streak(since: Option<u64>, outcomes: Seq<Outcome>) -> Option<u64>
    decreases outcomes.len(),
{
    if outcomes.len() == 0 {
        since
    } else {
        let before = streak(since, outcomes.drop_last());
        match outcomes.last() {
            Outcome::Good => None,
            Outcome::Bad(now) => Some(match before {
                Some(start) => start,
                None => now,
            }),
        }
    }
}

/// One more poll.
proof fn lemma_streak_step(since: Option<u64>, o: Outcome)
    ensures
        streak(since, seq![o]) == (match o {
            Outcome::Good => None,
            Outcome::Bad(now) => Some(match since {
                Some(start) => start,
                None => now,
            }),
        }),
{
    assert(seq![o].drop_last() =~= Seq::<Outcome>::empty());
    assert(seq![o].last() == o);
    reveal_with_fuel(streak, 2);
}

/// Polls can be taken together or one after the other, a good one ends every streak, and failures
/// alone continue the one that is on.
pub proof fn lemma_streak_goes_on(since: Option<u64>, first: Seq<Outcome>, then: Seq<Outcome>)
    ensures
        streak(since, first + then) == streak(streak(since, first), then),
        streak(since, first.push(Outcome::Good)) is None,
        since is Some && (forall|i: int| 0 <= i < then.len() ==> (#[trigger] then[i]) is Bad)
            ==> streak(since, then) == since,
        60 == 2 * POLL_INTERVAL_SECS && 60 == 12 * POLL_RETRY_SECS,
    decreases then.len(),
{
    assert(first.push(Outcome::Good).drop_last() =~= first);
    if then.len() == 0 {
        assert(first + then =~= first);
    } else {
        let t = then.drop_last();
        assert((first + then).drop_last() =~= first + t);
        assert((first + then).last() == then.last());
        lemma_streak_goes_on(since, first, t);
        if forall|i: int| 0 <= i < then.len() ==> (#[trigger] then[i]) is Bad {
            assert forall|i: int| 0 <= i < t.len() implies (#[trigger] t[i]) is Bad by {
                assert(then[i] is Bad);
            }
            assert(then[then.len() - 1] is Bad);
        }
    }
}

/// A streak is measured from its first failure: after a good poll and then failures only, it began
/// with the first of them, however many there are.
pub proof fn lemma_streak(since: Option<u64>, outcomes: Seq<Outcome>, k: int)
    requires
        0 < k < outcomes.len(),
        outcomes[k - 1] is Good,
        forall|i: int| k <= i < outcomes.len() ==> (#[trigger] outcomes[i]) is Bad,
    ensures
        streak(since, outcomes) == Some(outcomes[k]->Bad_0),
    decreases outcomes.len(),
{
    let t = outcomes.drop_last();
    if k == outcomes.len() - 1 {
        assert(t.last() == outcomes[k - 1]);
    } else {
        assert(t[k - 1] == outcomes[k - 1]);
        assert forall|i: int| k <= i < t.len() implies (#[trigger] t[i]) is Bad by {
            assert(outcomes[i] is Bad);
        }
        lemma_streak(since, t, k);
    }
    assert(outcomes.last() == outcomes[outcomes.len() - 1]);
}

} // verus!
