//! Shared data types: the saved connection selection, WiFi credentials, board settings, the
//! custom layout, a single departure, and what the LED panel is currently showing.
//!
//! Every text and list here has a fixed capacity; `wf` says that a value keeps to it.

use vstd::prelude::*;

use crate::text::utf8_len;

verus! {

/// Largest number of specific connections the user can track at one stop. Bounded so the whole
/// [`Selection`] still fits the flash record.
pub const MAX_CONNS: usize = 6;

/// Largest number of elements a custom layout may hold. A secondary sanity bound; the
/// authoritative flash bound is [`LAYOUT_MAX_BYTES`].
pub const MAX_ELEMENTS: usize = 16;

/// Authoritative flash bound for a serialized custom layout, in bytes. A layout is valid only if
/// its serialized JSON is no longer than this.
pub const LAYOUT_MAX_BYTES: usize = 1536;

/// Capacity of a Text element's literal string, in bytes.
pub const MAX_TEXT_LEN: usize = 24;

/// Newest layout schema version that the renderer understands.
pub const LAYOUT_VERSION: u8 = 1;

/// One tracked connection: a line and where it's headed. Matched against the stationboard's
/// `(number, to)` at runtime, and carries the category for the panel badge.
#[derive(Debug)]
pub struct Conn {
    /// Line number/name, e.g. `2`, `S12`.
    pub line: String,
    /// Raw API `category` (kept for future badge styling).
    pub category: String,
    /// Final destination, e.g. `Schlieren`.
    pub destination: String,
}

/// The user's panel selection, persisted to flash and matched against the stationboard at
/// runtime. The panel always renders the stop's next departures as a board; `all_connections`
/// chooses which departures count:
/// - `false` (default): only the connections the user explicitly picked (`connections`).
/// - `true`: every connection departing the stop.
#[derive(Debug)]
pub struct Selection {
    /// API location `id` of the chosen stop.
    pub stop_id: String,
    /// Human-readable stop name (display/echo only).
    pub stop_name: String,
    /// When `true`, show every departure at the stop and ignore `connections`.
    pub all_connections: bool,
    /// The specific connections to track; empty in all-connections mode.
    pub connections: Vec<Conn>,
}

/// Home WiFi credentials entered during provisioning.
#[derive(Debug)]
pub struct WifiCreds {
    pub ssid: String,
    pub password: String,
}

/// User-tweakable board settings, edited from the config page's settings sheet and persisted to
/// flash.
#[derive(Clone, Copy, Debug, PartialEq, Eq, Structural)]
pub struct Config {
    /// When `true`, drop the leading "City, " prefix from stop/destination names on the panel.
    pub strip_city: bool,
    /// When `true` (default), each departure row shows its line as a filled badge; when `false`,
    /// the line is rendered as plain text, freeing the badge's padding for the destination.
    pub show_line_badges: bool,
    /// Manual brightness level, 1–10, mapping linearly to 10–100 % panel brightness.
    pub brightness: u8,
    /// When `true`, the panel auto-dims to 10 % during the reduced window (local time); otherwise
    /// it stays at the manual `brightness` level all day.
    pub auto_brightness: bool,
    /// When `true`, the panel turns fully off during the reduced window instead of dimming to
    /// 10 %. Only meaningful while `auto_brightness` is on.
    pub off_when_dimmed: bool,
    /// Start of the reduced-brightness window, as minutes since local midnight (e.g. 20:00 =
    /// 1200). The window wraps past midnight when `reduced_start > reduced_end`.
    pub reduced_start: u16,
    /// End of the reduced-brightness window.
    pub reduced_end: u16,
    /// Which view the panel draws for the departures screen, see [`UiMode`].
    pub ui_mode: u8,
    /// The focus view as older records stored it. Never written again: [`Config::migrate`] folds
    /// it into `ui_mode`.
    pub focus_view_legacy: bool,
}

/// The three-way departures view selected by [`Config`]'s `ui_mode`.
#[derive(Clone, Copy, Debug, PartialEq, Eq, Structural)]
pub enum UiMode {
    /// The built-in three-departure board (0).
    Default,
    /// The single-departure focus view (1).
    Focus,
    /// The user's custom layout (2). Falls back to the board when none is saved.
    Custom,
}

/// The view that a persisted `ui_mode` stands for.
pub open spec fn ui_mode_of(v: u8) -> UiMode {
    if v == 1 {
        UiMode::Focus
    } else if v == 2 {
        UiMode::Custom
    } else {
        UiMode::Default
    }
}

impl UiMode {
    /// Map the persisted `u8` to a mode; any unknown value falls back to `Default`.
    pub fn from_u8(v: u8) -> (r: Self)
        ensures
            r == ui_mode_of(v),
    {
        match v {
            1 => Self::Focus,
            2 => Self::Custom,
            _ => Self::Default,
        }
    }
}

/// The settings of a board that nobody has configured.
pub open spec fn default_config() -> Config {
    Config {
        strip_city: false,
        show_line_badges: true,
        brightness: 6,
        auto_brightness: true,
        off_when_dimmed: false,
        reduced_start: 1200,
        reduced_end: 480,
        ui_mode: 0,
        focus_view_legacy: false,
    }
}

/// Settings with an older record's focus view folded into `ui_mode`.
pub open spec fn migrated(c: Config) -> Config {
    Config {
        ui_mode: if c.ui_mode == 0 && c.focus_view_legacy {
            1
        } else {
            c.ui_mode
        },
        focus_view_legacy: false,
        ..c
    }
}

impl Config {
    /// Fold a legacy `focusView:true` record forward into `ui_mode = 1` (Focus). A no-op for
    /// records already carrying `uiMode`. Call once after loading from flash.
    pub fn migrate(&mut self)
        ensures
            *final(self) == migrated(*old(self)),
    {
        if self.ui_mode == 0 && self.focus_view_legacy {
            self.ui_mode = 1;
        }
        self.focus_view_legacy = false;
    }
}

/// Migrating twice is migrating once, and a record that never had the legacy flag is unchanged.
pub proof fn lemma_migrate_once(c: Config)
    ensures
        migrated(migrated(c)) == migrated(c),
        !c.focus_view_legacy ==> migrated(c) == c,
{
}

/// An older record with the focus view on comes back in that view, unless it names another one; the
/// flag is gone afterwards, and nothing else changes.
pub proof fn lemma_migrate(c: Config)
    ensures
        c.focus_view_legacy && c.ui_mode == 0 ==> migrated(c).ui_mode == 1,
        !c.focus_view_legacy || c.ui_mode != 0 ==> migrated(c).ui_mode == c.ui_mode,
        !migrated(c).focus_view_legacy,
        migrated(c) == (Config {
            ui_mode: migrated(c).ui_mode,
            focus_view_legacy: migrated(c).focus_view_legacy,
            ..c
        }),
{
}

impl Default for Config {
    fn default() -> (r: Self)
        ensures
            r == default_config(),
    {
        Config {
            strip_city: false,
            show_line_badges: true,  // badges on by default
            brightness: 6,  // 60 %
            auto_brightness: true,  // night dimming on
            off_when_dimmed: false,  // dim to 10 % by default, not fully off
            reduced_start: 20 * 60,  // 20:00
            reduced_end: 8 * 60,  // 08:00
            ui_mode: 0,  // the three-departure board
            focus_view_legacy: false,
        }
    }
}

/// Whether a serialized field may be left out because it is 0.
pub fn is_zero_u8(v: &u8) -> (r: bool)
    ensures
        r == (*v == 0),
{
    *v == 0
}

/// Whether a serialized field may be left out because it is 1.
pub fn is_one_u8(v: &u8) -> (r: bool)
    ensures
        r == (*v == 1),
{
    *v == 1
}

/// Whether a serialized field may be left out because it is `false`.
pub fn is_false(v: &bool) -> (r: bool)
    ensures
        r == !*v,
{
    !*v
}

/// Whether a serialized field may be left out because it is the empty text.
pub fn str_is_empty(v: &str) -> (r: bool)
    ensures
        r == (v@.len() == 0),
{
    v.is_empty()
}

/// The value of a left-out field whose default is 1.
pub fn one_u8() -> (r: u8)
    ensures
        r == 1,
{
    1
}

/// The schema version of a layout that does not name one.
pub fn version_default() -> (r: u8)
    ensures
        r == LAYOUT_VERSION,
{
    LAYOUT_VERSION
}

/// The custom board layout: a schema `v`ersion plus an ordered list of `e`lements (draw order =
/// list order, later = on top). An empty `e` means "no custom layout"; in Custom [`UiMode`] the
/// renderer then falls back to the built-in board.
#[derive(Debug)]
pub struct Layout {
    /// Schema version, currently `1`. A newer `v` than the renderer understands is treated as "no
    /// custom layout" rather than mis-rendered.
    pub v: u8,
    /// The elements, in draw order.
    pub e: Vec<Element>,
}

/// One layout element: a flat record with a numeric type tag `t`. Type-specific fields are
/// ignored by other types.
#[derive(Debug)]
pub struct Element {
    /// Type tag: 0=Text, 1=Departure field, 2=Station, 3=Clock, 4=Date, 5=Divider, 6=Icon,
    /// 7=Weather.
    pub t: u8,
    /// Top-left x (0..=63; baseline-top origin for text).
    pub x: u8,
    /// Top-left y (0..=63; the text baseline-top).
    pub y: u8,
    /// Clip/marquee width (text-bearing types) or length (divider). `0` = natural width.
    pub w: u8,
    /// Font: 0 = 5×7 (advance 5), 1 = 6×10 (advance 6).
    pub s: u8,
    /// Integer upscale factor, 1..=3 (each source glyph pixel becomes a `k`×`k` block).
    pub k: u8,
    /// Preset colour index: 0 = amber, 1 = accent (copper), 2 = dim. Overridden by `col`.
    pub c: u8,
    /// Optional custom colour `0xRRGGBB` (masked to 24 bits). When present, overrides `c`.
    pub col: Option<u32>,
    /// Alignment: 0 = left, 1 = centre, 2 = right.
    pub a: u8,
    /// Text literal (type 0 only).
    pub v: String,
    /// Departure slot 0..=2 (type 1 only): the permanent data binding, soonest-first.
    pub di: u8,
    /// Departure field 0=badge/1=direction/2=time (type 1 only).
    pub fk: u8,
    /// Split flag (type 1 only): editor grouping state. The renderer ignores it.
    pub sp: bool,
    /// Divider thickness, 1..=2 (type 5 only).
    pub th: u8,
    /// Format selector for Clock/Date (types 3/4); badge style for a Departure badge field
    /// (type 1, fk=0): 0 = filled badge box, 1 = minimal (line label only, no box); what a
    /// Weather element shows (type 7): 0 = icon and temperature, 1 = temperature, 2 = icon.
    pub f: u8,
    /// Icon glyph id (type 6): 0 = tram-front, 1 = Z-blind, 2 = arrow. Palette of a Weather icon
    /// (type 7): 0 = the element colour, 1 = colourful.
    pub g: u8,
}

impl Clone for Element {
    fn clone(&self) -> (r: Self)
        ensures
            r == *self,
    {
        Element {
            t: self.t,
            x: self.x,
            y: self.y,
            w: self.w,
            s: self.s,
            k: self.k,
            c: self.c,
            col: self.col,
            a: self.a,
            v: self.v.clone(),
            di: self.di,
            fk: self.fk,
            sp: self.sp,
            th: self.th,
            f: self.f,
            g: self.g,
        }
    }
}

impl Default for Layout {
    fn default() -> (r: Self)
        ensures
            r.v == LAYOUT_VERSION,
            r.e@ == Seq::<Element>::empty(),
    {
        Layout { v: 1, e: Vec::new() }
    }
}

/// `v`, but at most `hi`.
pub open spec fn at_most(v: u8, hi: u8) -> u8 {
    if v <= hi {
        v
    } else {
        hi
    }
}

/// `v`, but at least `lo` and at most `hi`.
pub open spec fn between(v: u8, lo: u8, hi: u8) -> u8 {
    if v < lo {
        lo
    } else if v > hi {
        hi
    } else {
        v
    }
}

/// `v`, but at most `hi`.
pub fn clamp_max(v: u8, hi: u8) -> (r: u8)
    ensures
        r == at_most(v, hi),
{
    if v <= hi {
        v
    } else {
        hi
    }
}

/// `v`, but at least `lo` and at most `hi`.
pub fn clamp(v: u8, lo: u8, hi: u8) -> (r: u8)
    ensures
        r == between(v, lo, hi),
{
    if v < lo {
        lo
    } else if v > hi {
        hi
    } else {
        v
    }
}

/// An element with every numeric field brought into its valid range, and nothing else changed.
pub open spec fn sanitized(el: Element) -> Element {
    Element {
        x: at_most(el.x, 64),
        y: at_most(el.y, 64),
        w: at_most(el.w, 64),
        s: at_most(el.s, 1),
        k: between(el.k, 1, 3),
        c: at_most(el.c, 2),
        a: at_most(el.a, 2),
        di: at_most(el.di, 2),
        fk: at_most(el.fk, 2),
        th: between(el.th, 1, 2),
        f: at_most(el.f, 1),
        col: match el.col {
            Some(rgb) => Some((rgb as int % 0x100_0000) as u32),
            None => None,
        },
        ..el
    }
}

/// Whether every numeric field of an element is in its valid range.
pub open spec fn in_range(el: Element) -> bool {
    &&& el.x <= 64
    &&& el.y <= 64
    &&& el.w <= 64
    &&& el.s <= 1
    &&& 1 <= el.k <= 3
    &&& el.c <= 2
    &&& el.a <= 2
    &&& el.di <= 2
    &&& el.fk <= 2
    &&& 1 <= el.th <= 2
    &&& el.f <= 1
    &&& el.col matches Some(rgb) ==> rgb < 0x100_0000
}

/// Sanitizing puts an element in range and leaves one that already is untouched, so sanitizing
/// twice is sanitizing once.
pub proof fn lemma_sanitize(el: Element)
    ensures
        in_range(sanitized(el)),
        in_range(el) ==> sanitized(el) == el,
        sanitized(sanitized(el)) == sanitized(el),
{
}

/// Each field of a sanitized element is the valid value nearest to what it was, and what has no range
/// stays: the type, the text, the grouping flag and the icon.
pub proof fn lemma_sanitize_is_nearest(el: Element)
    ensures
        ({
            let s = sanitized(el);
            &&& s.t == el.t && s.v == el.v && s.sp == el.sp && s.g == el.g
            &&& if el.x <= 64 {
                s.x == el.x
            } else {
                s.x == 64
            }
            &&& if el.y <= 64 {
                s.y == el.y
            } else {
                s.y == 64
            }
            &&& if el.w <= 64 {
                s.w == el.w
            } else {
                s.w == 64
            }
            &&& if 1 <= el.k <= 3 {
                s.k == el.k
            } else if el.k == 0 {
                s.k == 1
            } else {
                s.k == 3
            }
            &&& if el.di <= 2 {
                s.di == el.di
            } else {
                s.di == 2
            }
            &&& if el.fk <= 2 {
                s.fk == el.fk
            } else {
                s.fk == 2
            }
            &&& if el.s <= 1 {
                s.s == el.s
            } else {
                s.s == 1
            }
            &&& if el.c <= 2 {
                s.c == el.c
            } else {
                s.c == 2
            }
            &&& if el.a <= 2 {
                s.a == el.a
            } else {
                s.a == 2
            }
            &&& if 1 <= el.th <= 2 {
                s.th == el.th
            } else if el.th == 0 {
                s.th == 1
            } else {
                s.th == 2
            }
            &&& el.col is None <==> s.col is None
            &&& el.col matches Some(c) ==> (c < 0x100_0000 ==> s.col == Some(c))
        }),
{
}

/// One element with every numeric field brought into its valid range.
fn sanitize_element(el: &Element) -> (r: Element)
    ensures
        r == sanitized(*el),
{
    let col: Option<u32> = match el.col {
        Some(rgb) => {
            assert(rgb & 0x00FF_FFFF == rgb % 0x0100_0000) by (bit_vector);
            Some(rgb & 0x00FF_FFFF)
        },
        None => None,
    };
    let mut r = el.clone();
    r.x = clamp_max(el.x, 64);
    r.y = clamp_max(el.y, 64);
    r.w = clamp_max(el.w, 64);
    r.s = clamp_max(el.s, 1);
    r.k = clamp(el.k, 1, 3);
    r.c = clamp_max(el.c, 2);
    r.a = clamp_max(el.a, 2);
    r.di = clamp_max(el.di, 2);
    r.fk = clamp_max(el.fk, 2);
    r.th = clamp(el.th, 1, 2);
    r.f = clamp_max(el.f, 1);
    r.col = col;
    r
}

impl Element {
    /// Whether the element keeps to its capacity.
    pub open spec fn wf(self) -> bool {
        utf8_len(self.v@) <= MAX_TEXT_LEN
    }
}

impl Layout {
    /// Whether the layout and its elements keep to their capacities.
    pub open spec fn wf(self) -> bool {
        &&& self.e@.len() <= MAX_ELEMENTS
        &&& forall|i: int| 0 <= i < self.e@.len() ==> (#[trigger] self.e@[i]).wf()
    }

    /// Defensively clamp every numeric field into its valid range so a hand-crafted layout can
    /// never feed an out-of-range value to the renderer. Off-panel elements are left in place:
    /// this only normalizes, it does not drop elements.
    pub fn sanitize(&mut self)
        ensures
            final(self).v == old(self).v,
            final(self).e@ == old(self).e@.map_values(|el: Element| sanitized(el)),
            old(self).wf() ==> final(self).wf(),
    {
        let ghost before = self.e@;
        let mut i: usize = 0;
        while i < self.e.len()
            invariant
                self.v == old(self).v,
                before == old(self).e@,
                0 <= i <= self.e@.len(),
                self.e@.len() == before.len(),
                forall|j: int| 0 <= j < i ==> self.e@[j] == sanitized(before[j]),
                forall|j: int| i <= j < before.len() ==> self.e@[j] == before[j],
            decreases self.e@.len() - i,
        {
            let el = sanitize_element(&self.e[i]);
            self.e.set(i, el);
            i = i + 1;
        }
        assert(self.e@ =~= before.map_values(|el: Element| sanitized(el)));
        assert(old(self).wf() ==> self.wf()) by {
            assert forall|j: int| old(self).wf() && 0 <= j < self.e@.len() implies (
            #[trigger] self.e@[j]).wf() by {
                assert(before[j].wf());
            }
        }
    }
}

/// One upcoming departure of the saved connection, ready to render.
#[derive(Debug)]
pub struct Departure {
    pub line: String,
    pub category: String,
    pub destination: String,
    /// Minutes to departure. `None` renders as `--` (no service); `Some(0)` as `now`.
    pub minutes: Option<u16>,
}

/// Up to three departures, soonest first.
pub type Departures = Vec<Departure>;

/// The current conditions at the tracked stop.
#[derive(Clone, Copy, Debug, PartialEq, Eq, Structural)]
pub struct Weather {
    /// Temperature in tenths of a degree Celsius.
    pub deci_celsius: i16,
    /// WMO weather interpretation code, 0–99.
    pub code: u8,
}

/// The whole degrees of a temperature in tenths, the tenths cut off.
pub open spec fn whole_degrees(deci: int) -> int {
    if deci >= 0 {
        deci / 10
    } else {
        -((-deci) / 10)
    }
}

/// The tenths are cut off towards zero: the whole degrees are at most as far from zero as the
/// temperature, and less than a degree from it. Warmer is never shown as colder.
pub proof fn lemma_whole_degrees(deci: int, warmer: int)
    requires
        deci <= warmer,
    ensures
        deci >= 0 ==> 0 <= 10 * whole_degrees(deci) <= deci < 10 * whole_degrees(deci) + 10,
        deci <= 0 ==> 10 * whole_degrees(deci) - 10 < deci <= 10 * whole_degrees(deci) <= 0,
        whole_degrees(-deci) == -whole_degrees(deci),
        whole_degrees(deci) <= whole_degrees(warmer),
{
}

impl Weather {
    /// The temperature in whole degrees Celsius, the tenths cut off.
    pub fn whole_celsius(&self) -> (r: i16)
        ensures
            r == whole_degrees(self.deci_celsius as int),
    {
        self.deci_celsius / 10
    }
}

/// What the panel should be showing right now.
#[derive(Debug)]
pub enum DisplayState {
    /// No WiFi saved, captive portal is up.
    Provisioning,
    /// Startup/loading animation: a tram rolls across the panel while the board joins WiFi in the
    /// background. The render loop plays at least one full pass before cutting over to whatever
    /// comes next.
    Connecting,
    /// Joined WiFi but no connection selected yet: show the address so the user can reach the
    /// config page. `octets` is the device IPv4.
    IdleAddress { octets: [u8; 4] },
    /// Normal runtime: the saved stop's name plus its next departures, rendered as a board, one
    /// row per departure, soonest first. `deps` is empty when nothing matching is currently
    /// departing (the panel shows "no service").
    Departures { station: String, deps: Departures },
    /// Poll failed / network lost: the rolling-tram scene labelled "offline / reconnecting" while
    /// the poll task retries.
    Offline,
}

impl Conn {
    /// Whether the connection keeps to its capacities.
    pub open spec fn wf(self) -> bool {
        utf8_len(self.line@) <= 16 && utf8_len(self.category@) <= 12 && utf8_len(self.destination@)
            <= 48
    }
}

impl Selection {
    /// Whether the selection keeps to its capacities.
    pub open spec fn wf(self) -> bool {
        &&& utf8_len(self.stop_id@) <= 24
        &&& utf8_len(self.stop_name@) <= 64
        &&& self.connections@.len() <= MAX_CONNS
        &&& forall|i: int|
            0 <= i < self.connections@.len() ==> (#[trigger] self.connections@[i]).wf()
    }
}

impl WifiCreds {
    /// Whether the credentials keep to their capacities.
    pub open spec fn wf(self) -> bool {
        utf8_len(self.ssid@) <= 32 && utf8_len(self.password@) <= 64
    }
}

impl Departure {
    /// Whether the departure keeps to its capacities.
    pub open spec fn wf(self) -> bool {
        utf8_len(self.line@) <= 16 && utf8_len(self.category@) <= 12 && utf8_len(self.destination@)
            <= 48
    }
}

/// Whether a list of departures keeps to its capacities.
pub open spec fn departures_wf(deps: Seq<Departure>) -> bool {
    deps.len() <= 3 && forall|i: int| 0 <= i < deps.len() ==> (#[trigger] deps[i]).wf()
}

impl DisplayState {
    /// Whether the texts and lists of the state keep to their capacities.
    pub open spec fn wf(self) -> bool {
        match self {
            DisplayState::Departures { station, deps } => utf8_len(station@) <= 64
                && departures_wf(deps@),
            _ => true,
        }
    }
}

} // verus!
