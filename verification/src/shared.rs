//! State shared between the tasks: the live settings, the custom and preview layouts, the wall
//! clock, the device IP, and the latest weather.
//!
//! Times are ticks of the monotonic clock, [`TICK_HZ`] to the second, and are handed in by the
//! caller.

use vstd::prelude::*;

use crate::model::{Config, Layout, UiMode, Weather};
use crate::model::{default_config, ui_mode_of};

verus! {

/// Ticks of the monotonic clock in a second.
pub const TICK_HZ: u64 = 1_000_000;

/// How long a preview push keeps the panel on the draft before auto-reverting, in ticks (15 s).
/// Re-armed on every push, so it only fires when pushes stop (phone locked, WiFi dropped, tab
/// closed).
pub const PREVIEW_TTL: u64 = 15_000_000;

/// The shared state.
#[derive(Debug)]
pub struct Shared {
    strip_city: bool,
    show_line_badges: bool,
    brightness_level: u32,
    auto_brightness: bool,
    off_when_dimmed: bool,
    /// The reduced-brightness window, `start << 16 | end`.
    reduced_window: u32,
    ui_mode: u8,
    custom_layout: Option<Layout>,
    preview_layout: Option<Layout>,
    /// Expiry of the active preview in ticks, or `0` when no preview is active.
    preview_deadline: u64,
    /// Set to make the render task redraw the current screen immediately.
    redraw: bool,
    /// Unix time corresponding to tick zero, `0` = not yet synced.
    boot_unix: i64,
    /// Device IPv4 (packed big-endian), `0` = none yet.
    device_ip: u32,
    weather: Option<Weather>,
    /// Tick at which `weather` was taken.
    weather_at: u64,
}

/// The live settings, as the render task reads them.
pub struct Settings {
    pub strip_city: bool,
    pub show_line_badges: bool,
    /// Manual brightness level, 1–10.
    pub level: int,
    pub auto_brightness: bool,
    pub off_when_dimmed: bool,
    pub reduced_start: int,
    pub reduced_end: int,
    pub mode: UiMode,
}

/// What the shared state stands for.
pub struct State {
    pub settings: Settings,
    /// The saved custom layout.
    pub layout: Option<Layout>,
    /// The layout being previewed and the tick at which the preview ends.
    pub preview: Option<(Layout, int)>,
    /// Whether a redraw has been asked for and not yet taken up.
    pub redraw: bool,
    /// Unix time at tick zero, once known.
    pub clock: Option<int>,
    /// The device's IPv4 address, once known.
    pub ip: Option<Seq<u8>>,
    /// The latest weather and the tick at which it was taken.
    pub weather: Option<(Weather, int)>,
}

/// The level a configured brightness stands for: between 1 and 10.
pub open spec fn level_of(brightness: u8) -> int {
    if brightness < 1 {
        1
    } else if brightness > 10 {
        10
    } else {
        brightness as int
    }
}

/// The live settings of a [`Config`].
pub open spec fn settings_of(cfg: Config) -> Settings {
    Settings {
        strip_city: cfg.strip_city,
        show_line_badges: cfg.show_line_badges,
        level: level_of(cfg.brightness),
        auto_brightness: cfg.auto_brightness,
        off_when_dimmed: cfg.off_when_dimmed,
        reduced_start: cfg.reduced_start as int,
        reduced_end: cfg.reduced_end as int,
        mode: ui_mode_of(cfg.ui_mode),
    }
}

impl View for Shared {
    type V = State;

    closed spec fn view(&self) -> State {
        State {
            settings: Settings {
                strip_city: self.strip_city,
                show_line_badges: self.show_line_badges,
                level: self.brightness_level as int,
                auto_brightness: self.auto_brightness,
                off_when_dimmed: self.off_when_dimmed,
                reduced_start: self.reduced_window as int / 65_536,
                reduced_end: self.reduced_window as int % 65_536,
                mode: ui_mode_of(self.ui_mode),
            },
            layout: self.custom_layout,
            preview: if self.preview_deadline == 0 {
                None
            } else {
                Some((self.preview_layout->0, self.preview_deadline as int))
            },
            redraw: self.redraw,
            clock: if self.boot_unix == 0 {
                None
            } else {
                Some(self.boot_unix as int)
            },
            ip: if self.device_ip == 0 {
                None
            } else {
                Some(octets_of(self.device_ip))
            },
            weather: match self.weather {
                Some(w) => Some((w, self.weather_at as int)),
                None => None,
            },
        }
    }
}

/// The four bytes of a packed address, most significant first.
spec fn octets_of(v: u32) -> Seq<u8> {
    seq![
        (v / 16_777_216) as u8,
        (v / 65_536 % 256) as u8,
        (v / 256 % 256) as u8,
        (v % 256) as u8,
    ]
}

impl Shared {
    /// The layouts keep to their capacities, the brightness level is one of 1–10, and a
    /// preview is armed exactly while there is a layout to preview.
    pub closed spec fn wf(self) -> bool {
        &&& 1 <= self.brightness_level <= 10
        &&& self.custom_layout matches Some(l) ==> l.wf()
        &&& self.preview_layout matches Some(l) ==> l.wf()
        &&& self.preview_deadline != 0 <==> self.preview_layout is Some
    }

    /// The state at boot: default settings, no layouts, nothing synced.
    pub fn new() -> (r: Shared)
        ensures
            r.wf(),
            r@ == (State {
                settings: settings_of(default_config()),
                layout: None,
                preview: None,
                redraw: false,
                clock: None,
                ip: None,
                weather: None,
            }),
    {
        Shared {
            strip_city: false,
            show_line_badges: true,
            brightness_level: 6,
            auto_brightness: true,
            off_when_dimmed: false,
            reduced_window: 78_643_680,  // 20:00 to 08:00
            ui_mode: 0,
            custom_layout: None,
            preview_layout: None,
            preview_deadline: 0,
            redraw: false,
            boot_unix: 0,
            device_ip: 0,
            weather: None,
            weather_at: 0,
        }
    }
}

/// Well-formed state seen from outside.
pub proof fn lemma_shared_wf(s: &Shared)
    requires
        s.wf(),
    ensures
        1 <= s@.settings.level <= 10,
        0 <= s@.settings.reduced_start < 65_536,
        0 <= s@.settings.reduced_end < 65_536,
        s@.layout matches Some(l) ==> l.wf(),
        s@.preview matches Some((l, deadline)) ==> l.wf() && 0 < deadline <= u64::MAX,
        s@.clock matches Some(base) ==> base != 0 && i64::MIN <= base <= i64::MAX,
        s@.ip matches Some(o) ==> o.len() == 4,
{
}

/// Push a whole [`Config`] into the live mirror (boot load or a config-page change).
pub fn apply_config(s: &mut Shared, cfg: &Config)
    requires
        old(s).wf(),
    ensures
        final(s).wf(),
        final(s)@ == (State { settings: settings_of(*cfg), ..old(s)@ }),
{
    let start: u32 = cfg.reduced_start as u32;
    let end: u32 = cfg.reduced_end as u32;
    assert((start << 16) | end == start * 65_536 + end) by (bit_vector)
        requires
            start < 65_536,
            end < 65_536,
    ;
    s.strip_city = cfg.strip_city;
    s.show_line_badges = cfg.show_line_badges;
    s.brightness_level = crate::model::clamp(cfg.brightness, 1, 10) as u32;
    s.auto_brightness = cfg.auto_brightness;
    s.off_when_dimmed = cfg.off_when_dimmed;
    s.reduced_window = (start << 16) | end;
    s.ui_mode = cfg.ui_mode;
}

/// Replace the live custom-layout mirror (boot load from flash, or a new layout from the editor)
/// and ask for a redraw. Pass `None` to clear it.
pub fn apply_layout(s: &mut Shared, layout: Option<Layout>)
    requires
        old(s).wf(),
        layout matches Some(l) ==> l.wf(),
    ensures
        final(s).wf(),
        final(s)@ == (State { layout, redraw: true, ..old(s)@ }),
{
    s.custom_layout = layout;
    s.redraw = true;
}

/// The current custom layout, or `None` when no custom layout is saved.
pub fn custom_layout(s: &Shared) -> (r: Option<&Layout>)
    ensures
        r == (match s@.layout {
            Some(l) => Some(&l),
            None => None,
        }),
{
    match &s.custom_layout {
        Some(l) => Some(l),
        None => None,
    }
}

/// Push a transient preview layout to the panel and (re)arm the [`PREVIEW_TTL`] auto-revert
/// deadline. The render task is woken to draw it.
pub fn set_preview(s: &mut Shared, layout: Layout, now: u64)
    requires
        old(s).wf(),
        layout.wf(),
        now + PREVIEW_TTL <= u64::MAX,
    ensures
        final(s).wf(),
        final(s)@ == (State {
            preview: Some((layout, now + PREVIEW_TTL)),
            redraw: true,
            ..old(s)@
        }),
{
    s.preview_layout = Some(layout);
    s.preview_deadline = now + PREVIEW_TTL;
    s.redraw = true;
}

/// End the live preview: clear the deadline and drop the transient layout so the render task
/// reverts to the persisted UI mode + layout. Idempotent: called when the editor closes and by the
/// render loop when the deadline lapses. Wakes the render task to redraw.
pub fn end_preview(s: &mut Shared)
    requires
        old(s).wf(),
    ensures
        final(s).wf(),
        final(s)@ == (State { preview: None, redraw: true, ..old(s)@ }),
{
    s.preview_deadline = 0;
    s.preview_layout = None;
    s.redraw = true;
}

/// The layout being previewed at tick `now`: none once the deadline has come.
pub open spec fn live_preview(st: State, now: int) -> Option<Layout> {
    match st.preview {
        Some((l, deadline)) => if now < deadline {
            Some(l)
        } else {
            None
        },
        None => None,
    }
}

/// Whether a live preview is currently active and unexpired.
pub fn preview_active(s: &Shared, now: u64) -> (r: bool)
    ensures
        r == (live_preview(s@, now as int) is Some),
{
    s.preview_deadline != 0 && now < s.preview_deadline
}

/// The active preview layout for the render task, or `None` when no preview is active or it has
/// expired.
pub fn preview_layout(s: &Shared, now: u64) -> (r: Option<&Layout>)
    requires
        s.wf(),
    ensures
        r == (match live_preview(s@, now as int) {
            Some(l) => Some(&l),
            None => None,
        }),
{
    if !preview_active(s, now) {
        return None;
    }
    match &s.preview_layout {
        Some(l) => Some(l),
        None => None,
    }
}

/// The active preview's expiry, or `None` if none is armed. The render loop reads it both to bound
/// its idle sleep (so it wakes in time) and to auto-revert once the deadline has passed.
pub fn preview_deadline(s: &Shared) -> (r: Option<u64>)
    ensures
        match s@.preview {
            Some((_, deadline)) => r == Some(deadline as u64) && deadline == (deadline as u64),
            None => r is None,
        },
{
    if s.preview_deadline == 0 {
        None
    } else {
        Some(s.preview_deadline)
    }
}

/// A preview is seen until its deadline and never after it, and ending it twice is ending it once.
pub proof fn lemma_preview(st: State, layout: Layout, now: int, later: int)
    ensures
        ({
            let shown = State {
                preview: Some((layout, now + PREVIEW_TTL)),
                redraw: true,
                ..st
            };
            let ended = State { preview: None, redraw: true, ..shown };
            &&& later < now + PREVIEW_TTL ==> live_preview(shown, later) == Some(layout)
            &&& now + PREVIEW_TTL <= later ==> live_preview(shown, later) is None
            &&& live_preview(ended, later) is None
            &&& ended == (State { preview: None, redraw: true, ..ended })
            &&& ended.layout == st.layout && ended.settings == st.settings
        }),
{
}

/// Take up a pending request to redraw the current screen.
pub fn take_redraw(s: &mut Shared) -> (r: bool)
    requires
        old(s).wf(),
    ensures
        final(s).wf(),
        r == old(s)@.redraw,
        final(s)@ == (State { redraw: false, ..old(s)@ }),
{
    let r: bool = s.redraw;
    s.redraw = false;
    r
}

/// Whether the panel should drop the "City, " prefix from stop/destination names.
pub fn strip_city_enabled(s: &Shared) -> (r: bool)
    ensures
        r == s@.settings.strip_city,
{
    s.strip_city
}

/// Whether departure rows show the line as a filled badge (vs. plain text).
pub fn line_badges_enabled(s: &Shared) -> (r: bool)
    ensures
        r == s@.settings.show_line_badges,
{
    s.show_line_badges
}

/// Manual brightness level, 1–10 (× 10 % = panel brightness).
pub fn brightness_level(s: &Shared) -> (r: u8)
    requires
        s.wf(),
    ensures
        r == s@.settings.level,
        1 <= r <= 10,
{
    s.brightness_level as u8
}

/// Whether time-of-day auto-dimming is enabled.
pub fn auto_brightness_enabled(s: &Shared) -> (r: bool)
    ensures
        r == s@.settings.auto_brightness,
{
    s.auto_brightness
}

/// Whether the panel should turn fully off (rather than dim to 10 %) inside the reduced window.
pub fn off_when_dimmed_enabled(s: &Shared) -> (r: bool)
    ensures
        r == s@.settings.off_when_dimmed,
{
    s.off_when_dimmed
}

/// Which view the panel draws for the departures screen (Default / Focus / Custom).
pub fn ui_mode(s: &Shared) -> (r: UiMode)
    ensures
        r == s@.settings.mode,
{
    UiMode::from_u8(s.ui_mode)
}

/// Start of the reduced-brightness window, minutes since local midnight.
pub fn reduced_start_min(s: &Shared) -> (r: u16)
    ensures
        r == s@.settings.reduced_start,
{
    let w: u32 = s.reduced_window;
    assert(w >> 16 == w / 65_536) by (bit_vector);
    (w >> 16) as u16
}

/// End of the reduced-brightness window, minutes since local midnight.
pub fn reduced_end_min(s: &Shared) -> (r: u16)
    ensures
        r == s@.settings.reduced_end,
{
    let w: u32 = s.reduced_window;
    assert(w & 0xFFFF == w % 65_536) by (bit_vector);
    (w & 0xFFFF) as u16
}

/// Unix time at tick zero, as the clock keeps it: a base of 0 counts as not synced.
pub open spec fn clock_base(now_unix: int, now: int) -> Option<int> {
    if now_unix == now / 1_000_000 {
        None
    } else {
        Some(now_unix - now / 1_000_000)
    }
}

/// The Unix time at tick `now`, once the clock is set.
pub open spec fn unix_at(st: State, now: int) -> Option<int> {
    match st.clock {
        Some(base) => Some(base + now / 1_000_000),
        None => None,
    }
}

/// Whether the clock, once set, shows a time at tick `now` that has a local date.
pub open spec fn datable(st: State, now: int) -> bool {
    unix_at(st, now) matches Some(u) ==> -crate::localtime::UNIX_LIMIT <= u
        <= crate::localtime::UNIX_LIMIT
}

/// Record the wall clock from an SNTP sample taken at tick `now`.
pub fn set_clock(s: &mut Shared, now_unix: i64, now: u64)
    requires
        old(s).wf(),
        now_unix - now / TICK_HZ >= i64::MIN,
    ensures
        final(s).wf(),
        final(s)@ == (State { clock: clock_base(now_unix as int, now as int), ..old(s)@ }),
{
    s.boot_unix = now_unix - (now / TICK_HZ) as i64;
}

/// Current Unix time at tick `now`, or `None` if SNTP has not synced yet.
pub fn now_unix(s: &Shared, now: u64) -> (r: Option<i64>)
    requires
        unix_at(s@, now as int) matches Some(u) ==> u <= i64::MAX,
    ensures
        match unix_at(s@, now as int) {
            Some(u) => r == Some(u as i64) && u == (u as i64),
            None => r is None,
        },
{
    if s.boot_unix == 0 {
        None
    } else {
        Some(s.boot_unix + (now / TICK_HZ) as i64)
    }
}

/// Until it is set, the clock shows nothing. Once set, it shows the sample at the moment it was
/// taken, and from then on runs with the monotonic clock. (A sample that puts tick zero at the Unix
/// epoch counts as no sample.)
pub proof fn lemma_clock_runs(st: State, sample: int, at: int, later: int)
    requires
        sample != at / 1_000_000,
    ensures
        st.clock is None ==> unix_at(st, later) is None,
        ({
            let set = State { clock: clock_base(sample, at), ..st };
            &&& unix_at(set, at) == Some(sample)
            &&& unix_at(set, later) == Some(sample + later / 1_000_000 - at / 1_000_000)
        }),
{
}

/// Packing four bytes keeps each of them.
proof fn lemma_pack(o: Seq<u8>, v: u32)
    requires
        o.len() == 4,
        v == o[0] * 16_777_216 + o[1] * 65_536 + o[2] * 256 + o[3],
    ensures
        octets_of(v) == o,
        v == 0 <==> o == seq![0u8, 0u8, 0u8, 0u8],
{
    let (a, b, c, d) = (o[0], o[1], o[2], o[3]);
    assert(v / 16_777_216 == a && v / 65_536 % 256 == b && v / 256 % 256 == c && v % 256 == d)
        by (bit_vector)
        requires
            v == a * 16_777_216 + b * 65_536 + c * 256 + d,
    ;
    assert(octets_of(v) =~= o);
    if v == 0 {
        assert(o =~= seq![0u8, 0u8, 0u8, 0u8]);
    }
}

/// Store the device IPv4 address.
pub fn set_device_ip(s: &mut Shared, octets: [u8; 4])
    requires
        old(s).wf(),
    ensures
        final(s).wf(),
        final(s)@ == (State {
            ip: if octets@ == seq![0u8, 0u8, 0u8, 0u8] {
                None
            } else {
                Some(octets@)
            },
            ..old(s)@
        }),
{
    let packed: u32 = octets[0] as u32 * 16_777_216 + octets[1] as u32 * 65_536 + octets[2] as u32
        * 256 + octets[3] as u32;
    s.device_ip = packed;
    proof {
        lemma_pack(octets@, packed);
    }
}

/// Read the device IPv4 address, or `None` if not assigned.
pub fn device_ip(s: &Shared) -> (r: Option<[u8; 4]>)
    ensures
        match s@.ip {
            Some(o) => r matches Some(a) && a@ == o,
            None => r is None,
        },
{
    let v: u32 = s.device_ip;
    if v == 0 {
        None
    } else {
        let a: [u8; 4] = [
            (v / 16_777_216) as u8,
            (v / 65_536 % 256) as u8,
            (v / 256 % 256) as u8,
            (v % 256) as u8,
        ];
        assert(a@ =~= octets_of(v));
        Some(a)
    }
}

/// Record a weather sample taken at tick `now`.
pub fn set_weather(s: &mut Shared, w: Weather, now: u64)
    requires
        old(s).wf(),
    ensures
        final(s).wf(),
        final(s)@ == (State { weather: Some((w, now as int)), ..old(s)@ }),
{
    s.weather = Some(w);
    s.weather_at = now;
}

/// The latest weather at tick `now`, if it is less than `max_age` ticks old.
pub open spec fn recent_weather(st: State, now: int, max_age: int) -> Option<Weather> {
    match st.weather {
        Some((w, at)) => if now - at < max_age {
            Some(w)
        } else {
            None
        },
        None => None,
    }
}

/// The latest weather sample, or `None` before the first or once it is `max_age` ticks old.
pub fn weather(s: &Shared, now: u64, max_age: u64) -> (r: Option<Weather>)
    ensures
        r == recent_weather(s@, now as int, max_age as int),
{
    match s.weather {
        Some(w) => if now < s.weather_at || now - s.weather_at < max_age {
            Some(w)
        } else {
            None
        },
        None => None,
    }
}

/// A weather sample is seen from when it was taken until it is `max_age` ticks old, and a newer one
/// takes its place.
pub proof fn lemma_weather_ages(st: State, w: Weather, newer: Weather, at: int, again: int, now: int, max_age: int)
    requires
        at <= now,
        again <= now,
        0 < max_age,
    ensures
        ({
            let taken = State { weather: Some((w, at)), ..st };
            let retaken = State { weather: Some((newer, again)), ..taken };
            &&& now - at < max_age ==> recent_weather(taken, now, max_age) == Some(w)
            &&& now - at >= max_age ==> recent_weather(taken, now, max_age) is None
            &&& now - again < max_age ==> recent_weather(retaken, now, max_age) == Some(newer)
            &&& recent_weather(State { weather: None, ..st }, now, max_age) is None
        }),
{
}

/// Each setting takes effect as it was configured; the brightness is the level nearest to it of those
/// from 1 to 10, and an unknown view counts as the board.
pub proof fn lemma_settings(cfg: Config)
    ensures
        ({
            let s = settings_of(cfg);
            &&& s.strip_city == cfg.strip_city
            &&& s.show_line_badges == cfg.show_line_badges
            &&& s.auto_brightness == cfg.auto_brightness
            &&& s.off_when_dimmed == cfg.off_when_dimmed
            &&& s.reduced_start == cfg.reduced_start
            &&& s.reduced_end == cfg.reduced_end
            &&& 1 <= s.level <= 10
            &&& 1 <= cfg.brightness <= 10 ==> s.level == cfg.brightness
            &&& cfg.brightness == 0 ==> s.level == 1
            &&& cfg.brightness > 10 ==> s.level == 10
            &&& s.mode == UiMode::Focus <==> cfg.ui_mode == 1
            &&& s.mode == UiMode::Custom <==> cfg.ui_mode == 2
        }),
{
}

/// A preview lasts 15 seconds, and a tick is a millionth of a second.
pub proof fn lemma_preview_lasts()
    ensures
        PREVIEW_TTL == 15 * TICK_HZ,
        TICK_HZ == 1_000_000,
{
}

} // verus!
