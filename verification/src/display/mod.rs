//! Rendering for the 64×64 LED panel.
//!
//! Drawing is split over three submodules, all dispatched from [`draw_state`]:
//! * [`draw`]: the shared primitives (text, marquees, badges, pixel-art blits),
//! * [`screens`]: the built-in screens (provisioning, connecting/offline tram, idle, departures
//!   board, focus view),
//! * [`custom`]: the user's custom-layout renderer.
//!
//! [`panel`] holds the frame they draw on. This file owns the frame-global concerns: which
//! brightness a frame gets, which screen a state shows, and the render loop's decisions
//! ([`Renderer`]).

pub mod custom;
pub mod draw;
pub mod panel;
pub mod screens;

use vstd::prelude::*;

use crate::display::custom::{draw_custom_layout, lemma_layout_stands_still};
use crate::display::custom::{elements_layer, layout_scrolls, scene_of};
use crate::display::panel::{lemma_draw_over, lemma_draw_same, Panel};
use crate::display::panel::{clear, on_panel, over, same, Color, Layer};
use crate::display::screens::{
    connect_cycle_done, draw_connecting, draw_departures, draw_focus, draw_idle, draw_offline,
    draw_provisioning, lemma_board_stands_still, lemma_focus_stands_still,
};
use crate::display::screens::{
    board_layer, board_scrolls, connecting_layer, focus_layer, focus_scrolls, idle_layer,
    offline_layer, provisioning_layer,
};
use crate::localtime::{in_window, local_minutes};
use crate::localtime::{swiss_offset, window_holds};
use crate::model::{Departure, DisplayState, Layout, UiMode, LAYOUT_VERSION};
use crate::model::departures_wf;
use crate::shared::{
    auto_brightness_enabled, brightness_level, custom_layout, end_preview, lemma_shared_wf,
    now_unix, off_when_dimmed_enabled, preview_active, preview_deadline, preview_layout, reduced_end_min,
    reduced_start_min, ui_mode, Shared,
};
use crate::shared::{datable, live_preview, unix_at, State};
use crate::text::utf8_len;

verus! {

/// The dimmed level (percent) used inside the auto-dim window.
pub const REDUCED_BRIGHTNESS: u32 = 10;

/// How often a static screen is redrawn so its brightness still tracks the auto-dim window, in
/// ticks (60 s).
pub const BRIGHTNESS_REFRESH: u64 = 60_000_000;

/// Time between two frames of an animation, in ticks (50 ms).
pub const FRAME_TICKS: u64 = 50_000;

/// The brightness percent at tick `now`.
pub open spec fn brightness_at(st: State, now: int) -> int {
    let base = st.settings.level * 10;
    match unix_at(st, now) {
        Some(unix) => {
            let minute = (unix + swiss_offset(unix)) % 86_400 / 60;
            if st.settings.auto_brightness && window_holds(
                minute,
                st.settings.reduced_start,
                st.settings.reduced_end,
            ) {
                if st.settings.off_when_dimmed {
                    0
                } else {
                    10
                }
            } else {
                base
            }
        },
        None => base,
    }
}

/// The brightness percent to use right now. The manual level always applies; when auto-dim is on
/// and the synced local time is inside the reduced window, drop to [`REDUCED_BRIGHTNESS`], or to
/// 0 % when the user opted for a dark panel. Before the clock is set we can't know the time, so we
/// stay manual.
pub fn current_brightness(shared: &Shared, now: u64) -> (r: u32)
    requires
        shared.wf(),
        shared@.settings.auto_brightness ==> datable(shared@, now as int),
    ensures
        r == brightness_at(shared@, now as int),
        r <= 100,
        r == 0 || 10 <= r,
{
    let base: u32 = brightness_level(shared) as u32 * 10;  // 10..=100
    if !auto_brightness_enabled(shared) {
        return base;
    }
    let unix: i64 = match now_unix(shared, now) {
        Some(unix) => unix,
        None => return base,
    };
    let local_min: u16 = local_minutes(unix);
    if in_window(local_min, reduced_start_min(shared), reduced_end_min(shared)) {
        if off_when_dimmed_enabled(shared) {
            0
        } else {
            REDUCED_BRIGHTNESS
        }
    } else {
        base
    }
}

/// The brightness is ten percent for each level, except while the local time of day lies in the
/// reduced window, with dimming on and the clock set: there it is 10 %, or 0 % where the panel is to
/// go dark. The window is the minutes from its start up to its end, going forward round the clock.
pub proof fn lemma_brightness(st: State, now: int)
    requires
        1 <= st.settings.level <= 10,
        0 <= st.settings.reduced_start < 1440,
        0 <= st.settings.reduced_end < 1440,
    ensures
        ({
            let pct = brightness_at(st, now);
            let span = (st.settings.reduced_end - st.settings.reduced_start) % 1440;
            &&& st.clock is None ==> pct == 10 * st.settings.level
            &&& !st.settings.auto_brightness ==> pct == 10 * st.settings.level
            &&& st.clock matches Some(base) ==> {
                let unix = base + now / 1_000_000;
                let since = ((unix + swiss_offset(unix)) / 60 - st.settings.reduced_start) % 1440;
                &&& since >= span ==> pct == 10 * st.settings.level
                &&& since < span && st.settings.auto_brightness && !st.settings.off_when_dimmed
                    ==> pct == 10
                &&& since < span && st.settings.auto_brightness && st.settings.off_when_dimmed
                    ==> pct == 0
            }
        }),
{
    if let Some(base) = st.clock {
        let unix = base + now / 1_000_000;
        let local = unix + swiss_offset(unix);
        let minute = local % 86_400 / 60;
        assert((local / 60) % 1440 == minute);
        crate::localtime::lemma_window_round_the_clock(
            minute,
            st.settings.reduced_start,
            st.settings.reduced_end,
        );
        assert((local / 60 - st.settings.reduced_start) % 1440 == (minute
            - st.settings.reduced_start) % 1440);
    }
}

/// The brightness is never above 100 %, and a higher level is at least as bright.
pub proof fn lemma_brightness_levels(st: State, level: int, now: int)
    requires
        1 <= st.settings.level <= level <= 10,
    ensures
        0 <= brightness_at(st, now) <= 100,
        brightness_at(st, now) <= brightness_at(
            State { settings: crate::shared::Settings { level, ..st.settings }, ..st },
            now,
        ),
{
}

/// Whether a layout can be shown: it has elements, and a schema version that is understood.
pub open spec fn showable(l: Layout) -> bool {
    l.e@.len() > 0 && l.v <= LAYOUT_VERSION
}

/// Whether a layout can be shown. An empty one counts as none, and so does one with a newer
/// schema version, rather than being mis-rendered.
fn is_showable(l: &Layout) -> (r: bool)
    ensures
        r == showable(*l),
{
    l.e.len() > 0 && l.v <= LAYOUT_VERSION
}

/// What the departures screen shows.
pub enum Show {
    Board,
    Focus,
    Custom(Layout),
}

/// What the departures screen shows at tick `now`: a layout being previewed before anything else,
/// then what the user chose; the board where the layout cannot be shown.
pub open spec fn show_of(st: State, now: int) -> Show {
    match live_preview(st, now) {
        Some(l) => if showable(l) {
            Show::Custom(l)
        } else {
            Show::Board
        },
        None => match st.settings.mode {
            UiMode::Focus => Show::Focus,
            UiMode::Default => Show::Board,
            UiMode::Custom => match st.layout {
                Some(l) => if showable(l) {
                    Show::Custom(l)
                } else {
                    Show::Board
                },
                None => Show::Board,
            },
        },
    }
}

/// The departures screen is never left blank for want of a layout: a layout it shows has elements,
/// and without one there is the board or the focus view.
pub proof fn lemma_never_blank(st: State, now: int)
    ensures
        show_of(st, now) matches Show::Custom(l) ==> l.e@.len() > 0 && l.v <= LAYOUT_VERSION,
        st.layout is None && live_preview(st, now) is None ==> !(show_of(st, now) is Custom),
{
}

/// A preview is transient: it overrides whatever view was chosen, and once its deadline has come
/// or it has been ended, the screen shows what it would show without it.
pub proof fn lemma_preview_is_transient(st: State, l: Layout, deadline: int, now: int)
    ensures
        now < deadline && showable(l) ==> show_of(
            State { preview: Some((l, deadline)), ..st },
            now,
        ) == Show::Custom(l),
        deadline <= now ==> show_of(State { preview: Some((l, deadline)), ..st }, now) == show_of(
            State { preview: None, ..st },
            now,
        ),
{
}

/// What the departures screen shows while nothing is previewed is what the user chose: the board,
/// the focus view, or the saved layout, whatever the other things saved are. The board stands in for
/// a layout that is missing, empty, or of a later version.
pub proof fn lemma_chosen_view(st: State, now: int)
    requires
        st.preview is None,
    ensures
        st.settings.mode == UiMode::Default ==> show_of(st, now) == Show::Board,
        st.settings.mode == UiMode::Focus ==> show_of(st, now) == Show::Focus,
        st.settings.mode == UiMode::Custom && st.layout is None ==> show_of(st, now) == Show::Board,
        st.layout matches Some(l) ==> (st.settings.mode == UiMode::Custom ==> (if l.e@.len() > 0
            && l.v <= 1 {
            show_of(st, now) == Show::Custom(l)
        } else {
            show_of(st, now) == Show::Board
        })),
{
}

/// The layer of a display state at tick `now`.
pub open spec fn state_layer(
    st: State,
    now: int,
    stale: int,
    state: DisplayState,
    frame: int,
) -> Layer {
    match state {
        DisplayState::Provisioning => provisioning_layer(frame),
        DisplayState::Connecting => connecting_layer(frame),
        DisplayState::IdleAddress { octets } => idle_layer(octets@, frame),
        DisplayState::Departures { station, deps } => match show_of(st, now) {
            Show::Board => board_layer(st.settings, station@, deps@, frame),
            Show::Focus => focus_layer(st.settings, deps@, frame),
            Show::Custom(l) => elements_layer(
                scene_of(st, now, stale),
                l.e@,
                l.e@.len() as int,
                station@,
                deps@,
                frame,
            ),
        },
        DisplayState::Offline => offline_layer(frame),
    }
}

/// Whether the screen of a display state is animating at tick `now`.
pub open spec fn state_animates(st: State, now: int, stale: int, state: DisplayState) -> bool {
    match state {
        DisplayState::Departures { station, deps } => match show_of(st, now) {
            Show::Board => board_scrolls(st.settings, station@, deps@),
            Show::Focus => focus_scrolls(st.settings, deps@),
            Show::Custom(l) => layout_scrolls(scene_of(st, now, stale), l.e@, station@, deps@),
        },
        _ => true,
    }
}

/// The layout that the departures screen shows at tick `now`, if it shows one.
pub fn layout_on_panel(shared: &Shared, now: u64) -> (r: Option<&Layout>)
    requires
        shared.wf(),
    ensures
        match show_of(shared@, now as int) {
            Show::Custom(l) => r == Some(&l) && l.wf(),
            _ => r is None,
        },
{
    proof {
        lemma_shared_wf(shared);
    }
    match preview_layout(shared, now) {
        // A live preview forces the custom path regardless of the persisted UI mode, so the user
        // can design a Custom layout while the device is still in Default/Focus. An empty preview
        // falls back to the built-in board, same as an empty saved layout.
        Some(preview) => if is_showable(preview) {
            Some(preview)
        } else {
            None
        },
        None => match ui_mode(shared) {
            UiMode::Custom => match custom_layout(shared) {
                Some(layout) => if is_showable(layout) {
                    Some(layout)
                } else {
                    None
                },
                None => None,
            },
            _ => None,
        },
    }
}

/// Draw the departures screen in the view that is due.
fn draw_departures_view(
    fb: &mut Panel,
    shared: &Shared,
    station: &str,
    deps: &Vec<Departure>,
    now: u64,
    stale: u64,
    frame: u32,
) -> (r: bool)
    requires
        old(fb).wf(),
        shared.wf(),
        datable(shared@, now as int),
        utf8_len(station@) <= 64,
        departures_wf(deps@),
    ensures
        r == (match show_of(shared@, now as int) {
            Show::Board => board_scrolls(shared@.settings, station@, deps@),
            Show::Focus => focus_scrolls(shared@.settings, deps@),
            Show::Custom(l) => layout_scrolls(
                scene_of(shared@, now as int, stale as int),
                l.e@,
                station@,
                deps@,
            ),
        }),
        final(fb).painted(
            *old(fb),
            match show_of(shared@, now as int) {
                Show::Board => board_layer(shared@.settings, station@, deps@, frame as int),
                Show::Focus => focus_layer(shared@.settings, deps@, frame as int),
                Show::Custom(l) => elements_layer(
                    scene_of(shared@, now as int, stale as int),
                    l.e@,
                    l.e@.len() as int,
                    station@,
                    deps@,
                    frame as int,
                ),
            },
        ),
{
    match layout_on_panel(shared, now) {
        Some(layout) => draw_custom_layout(fb, shared, layout, station, deps, now, stale, frame),
        // No layout to show: the focus view where the user chose it and nothing is being
        // previewed, else the built-in board, so the panel is never blank.
        None => {
            let focus: bool = match ui_mode(shared) {
                UiMode::Focus => !preview_active(shared, now),
                _ => false,
            };
            if focus {
                draw_focus(fb, shared, deps, frame)
            } else {
                draw_departures(fb, shared, station, deps, frame)
            }
        },
    }
}

/// Dispatch on the current state and draw it, at the brightness that is due at tick `now`. Returns
/// `true` if the screen is animating (a scrolling title, the tram) and should be redrawn on the
/// next frame tick. A weather sample counts as recent for `stale` ticks.
pub fn draw_state(
    fb: &mut Panel,
    shared: &Shared,
    state: &DisplayState,
    now: u64,
    stale: u64,
    frame: u32,
) -> (r: bool)
    requires
        old(fb).wf(),
        shared.wf(),
        datable(shared@, now as int),
        state.wf(),
    ensures
        r == state_animates(shared@, now as int, stale as int, *state),
        final(fb).drawn(
            *old(fb),
            brightness_at(shared@, now as int) as u32,
            state_layer(shared@, now as int, stale as int, *state, frame as int),
        ),
{
    let ghost f0 = *fb;
    // Pick the brightness for this frame once; every colour is scaled to it.
    let pct: u32 = current_brightness(shared, now);
    fb.set_brightness(pct);
    let ghost f1 = *fb;
    let r = match state {
        DisplayState::Provisioning => draw_provisioning(fb, frame),
        DisplayState::Connecting => draw_connecting(fb, frame),
        DisplayState::IdleAddress { octets } => draw_idle(fb, *octets, frame),
        DisplayState::Departures { station, deps } => draw_departures_view(
            fb,
            shared,
            station.as_str(),
            deps,
            now,
            stale,
            frame,
        ),
        DisplayState::Offline => draw_offline(fb, frame),
    };
    proof {
        let layer = state_layer(shared@, now as int, stale as int, *state, frame as int);
        lemma_draw_over(f0, f1, *fb, pct, clear(), layer);
        assert(same(over(layer, clear()), layer));
        lemma_draw_same(f0, *fb, pct, over(layer, clear()), layer);
    }
    r
}

/// A screen that is not animating looks the same at every frame: it is enough to draw it once.
pub proof fn lemma_static_screens(
    st: State,
    now: int,
    stale: int,
    state: DisplayState,
    first: int,
    second: int,
    x: int,
    y: int,
)
    requires
        !state_animates(st, now, stale, state),
    ensures
        state_layer(st, now, stale, state, first)(x, y) == state_layer(
            st,
            now,
            stale,
            state,
            second,
        )(x, y),
{
    if let DisplayState::Departures { station, deps } = state {
        match show_of(st, now) {
            Show::Board => {
                lemma_board_stands_still(st.settings, station@, deps@, first, second, x, y);
            },
            Show::Focus => {
                lemma_focus_stands_still(st.settings, deps@, first, second, x, y);
            },
            Show::Custom(l) => {
                lemma_layout_stands_still(
                    scene_of(st, now, stale),
                    l.e@,
                    l.e@.len() as int,
                    station@,
                    deps@,
                    first,
                    second,
                    x,
                    y,
                );
            },
        }
    }
}

/// Each state has its own screen, and the departures have the view that is due.
pub proof fn lemma_screens(
    st: State,
    now: int,
    stale: int,
    octets: [u8; 4],
    station: String,
    deps: crate::model::Departures,
    frame: int,
)
    ensures
        state_layer(st, now, stale, DisplayState::Provisioning, frame) == provisioning_layer(frame),
        state_layer(st, now, stale, DisplayState::Connecting, frame) == connecting_layer(frame),
        state_layer(st, now, stale, DisplayState::Offline, frame) == offline_layer(frame),
        state_layer(st, now, stale, DisplayState::IdleAddress { octets }, frame) == idle_layer(
            octets@,
            frame,
        ),
        show_of(st, now) is Board ==> state_layer(
            st,
            now,
            stale,
            DisplayState::Departures { station, deps },
            frame,
        ) == board_layer(st.settings, station@, deps@, frame),
        show_of(st, now) is Focus ==> state_layer(
            st,
            now,
            stale,
            DisplayState::Departures { station, deps },
            frame,
        ) == focus_layer(st.settings, deps@, frame),
        show_of(st, now) matches Show::Custom(l) ==> state_layer(
            st,
            now,
            stale,
            DisplayState::Departures { station, deps },
            frame,
        ) == elements_layer(
            scene_of(st, now, stale),
            l.e@,
            l.e@.len() as int,
            station@,
            deps@,
            frame,
        ),
        state_animates(st, now, stale, DisplayState::Provisioning),
        state_animates(st, now, stale, DisplayState::Connecting),
        state_animates(st, now, stale, DisplayState::Offline),
        state_animates(st, now, stale, DisplayState::IdleAddress { octets }),
{
}

/// A frame of a panel that is off is black, whatever it shows.
pub proof fn lemma_off_is_black(before: Panel, after: Panel, layer: Layer)
    requires
        after.drawn(before, 0, layer),
        forall|x: int, y: int|
            on_panel(x, y) ==> #[trigger] before.at(x, y) == (Color { r: 0, g: 0, b: 0 }),
    ensures
        forall|x: int, y: int|
            on_panel(x, y) ==> #[trigger] after.at(x, y) == (Color { r: 0, g: 0, b: 0 }),
{
    assert forall|x: int, y: int| on_panel(x, y) implies #[trigger] after.at(x, y) == (Color {
        r: 0,
        g: 0,
        b: 0,
    }) by {
        assert(before.at(x, y) == (Color { r: 0, g: 0, b: 0 }));
        if let Some(c) = layer(x, y) {
            crate::display::panel::lemma_scale_ends(c);
        }
    }
}

/// The render loop's own state: what is shown, the frame number of its animation, and a state that
/// arrived while the connecting animation was mid-pass.
#[derive(Debug)]
pub struct Renderer {
    pub state: DisplayState,
    pub frame: u32,
    pub pending: Option<DisplayState>,
}

/// What the render loop waits for after drawing a frame. Whichever it is, a new display state and
/// a redraw request end the wait too.
#[derive(Clone, Copy, Debug, PartialEq, Eq, Structural)]
pub enum Wait {
    /// The next frame of an animation, [`FRAME_TICKS`] on.
    Frame,
    /// Tick `until`, on a static screen.
    Idle { until: u64 },
}

/// What ended the wait.
#[derive(Debug)]
pub enum Event {
    /// The time waited for has come.
    Timer,
    /// A new state to show.
    Display(DisplayState),
    /// A request to redraw the current screen.
    Redraw,
}

/// Whether the connecting animation has completed a full pass at `frame`.
pub open spec fn pass_done(frame: u32) -> bool {
    frame >= 47
}

/// Whether the pending state takes over now.
pub open spec fn cuts_over(r: Renderer) -> bool {
    r.pending is Some && pass_done(r.frame)
}

/// The renderer once the pending state has taken over, if it is its turn.
pub open spec fn settled(r: Renderer) -> Renderer {
    if cuts_over(r) {
        Renderer { state: r.pending->0, frame: 0, pending: None }
    } else {
        r
    }
}

/// The renderer after `ev`, where the screen drawn last was animating or not. A new state takes
/// over at once, except that the connecting animation first completes a pass.
pub open spec fn reacted(r: Renderer, animating: bool, ev: Event) -> Renderer {
    if !animating {
        Renderer {
            state: match ev {
                Event::Display(next) => next,
                _ => r.state,
            },
            frame: 0,
            pending: None,
        }
    } else {
        match ev {
            Event::Timer => Renderer { frame: add_wrapping(r.frame), ..r },
            Event::Display(next) => if r.state is Connecting && !pass_done(r.frame) {
                Renderer { pending: Some(next), ..r }
            } else {
                Renderer { state: next, frame: 0, pending: None }
            },
            Event::Redraw => r,
        }
    }
}

/// The frame number after `frame`; after the largest comes 0.
pub open spec fn add_wrapping(frame: u32) -> u32 {
    if frame == u32::MAX {
        0
    } else {
        (frame + 1) as u32
    }
}

/// The tick at which a static screen is drawn again if nothing happens before.
pub open spec fn idle_until(st: State, now: int) -> int {
    match st.preview {
        Some((_, deadline)) if deadline < now + BRIGHTNESS_REFRESH => deadline,
        _ => now + BRIGHTNESS_REFRESH,
    }
}

/// A static screen is drawn again within a minute, and no later than a preview ends.
pub proof fn lemma_idle_wakes(st: State, now: int)
    ensures
        idle_until(st, now) <= now + 60_000_000,
        st.preview is None ==> idle_until(st, now) == now + 60_000_000,
        st.preview matches Some((_, deadline)) ==> idle_until(st, now) <= deadline,
        st.preview matches Some((_, deadline)) ==> idle_until(st, now) == deadline || idle_until(
            st,
            now,
        ) == now + 60_000_000,
{
}

impl Renderer {
    /// The states held keep to their capacities.
    pub open spec fn wf(self) -> bool {
        self.state.wf() && (self.pending matches Some(p) ==> p.wf())
    }

    /// Start showing `state`.
    pub fn new(state: DisplayState) -> (r: Renderer)
        ensures
            r == (Renderer { state, frame: 0, pending: None }),
    {
        Renderer { state, frame: 0, pending: None }
    }

    /// Draw one frame of the current state on an unlit panel. An expired live preview is ended
    /// first, so the panel returns to the persisted UI mode + layout even without being told to
    /// (phone locked, WiFi dropped, tab closed). Returns whether the screen is animating.
    pub fn draw_frame(&self, fb: &mut Panel, shared: &mut Shared, now: u64, stale: u64) -> (r: bool)
        requires
            self.wf(),
            old(fb).wf(),
            old(shared).wf(),
            datable(old(shared)@, now as int),
        ensures
            final(shared).wf(),
            final(shared)@ == (if old(shared)@.preview is Some && live_preview(
                old(shared)@,
                now as int,
            ) is None {
                State { preview: None, redraw: true, ..old(shared)@ }
            } else {
                old(shared)@
            }),
            r == state_animates(final(shared)@, now as int, stale as int, self.state),
            final(fb).wf(),
            forall|x: int, y: int|
                on_panel(x, y) ==> #[trigger] final(fb).at(x, y) == crate::display::panel::lit(
                    state_layer(
                        final(shared)@,
                        now as int,
                        stale as int,
                        self.state,
                        self.frame as int,
                    )(x, y),
                    brightness_at(final(shared)@, now as int) as u32,
                    Color { r: 0, g: 0, b: 0 },
                ),
    {
        proof {
            lemma_shared_wf(shared);
        }
        if let Some(deadline) = preview_deadline(shared) {
            if now >= deadline {
                end_preview(shared);
            }
        }
        fb.erase();
        draw_state(fb, shared, &self.state, now, stale, self.frame)
    }

    /// After a frame: a state that arrived earlier while the connecting animation was mid-pass
    /// takes over as soon as that pass completes, and is drawn at once (`None`). Otherwise tells
    /// what to wait for: a static screen waits for the next state, but also wakes periodically so
    /// it is redrawn at the current brightness, and sooner if a live preview is about to expire.
    pub fn after_frame(&mut self, animating: bool, shared: &Shared, now: u64) -> (r: Option<Wait>)
        requires
            old(self).wf(),
            now + BRIGHTNESS_REFRESH <= u64::MAX,
        ensures
            final(self).wf(),
            *final(self) == settled(*old(self)),
            r is None <==> cuts_over(*old(self)),
            r is Some ==> r->0 == (if animating {
                Wait::Frame
            } else {
                Wait::Idle {
                    until: match shared@.preview {
                        Some((_, deadline)) => if deadline < now + BRIGHTNESS_REFRESH {
                            deadline as u64
                        } else {
                            (now + BRIGHTNESS_REFRESH) as u64
                        },
                        None => (now + BRIGHTNESS_REFRESH) as u64,
                    },
                }
            }),
            r is Some && !animating ==> r == Some(
                Wait::Idle { until: idle_until(shared@, now as int) as u64 },
            ),
    {
        match self.pending.take() {
            Some(next) => {
                if connect_cycle_done(self.frame) {
                    self.state = next;
                    self.frame = 0;
                    return None;
                }
                self.pending = Some(next);
            },
            None => {},
        }
        if animating {
            return Some(Wait::Frame);
        }
        let refresh: u64 = now + BRIGHTNESS_REFRESH;
        let until: u64 = match preview_deadline(shared) {
            Some(deadline) => if deadline < refresh {
                deadline
            } else {
                refresh
            },
            None => refresh,
        };
        Some(Wait::Idle { until })
    }

    /// React to what ended the wait.
    pub fn on_event(&mut self, animating: bool, ev: Event)
        requires
            old(self).wf(),
            ev matches Event::Display(next) ==> next.wf(),
        ensures
            final(self).wf(),
            *final(self) == reacted(*old(self), animating, ev),
    {
        if !animating {
            if let Event::Display(next) = ev {
                self.state = next;
            }
            self.frame = 0;
            self.pending = None;
            return ;
        }
        match ev {
            Event::Timer => {
                self.frame = if self.frame == u32::MAX {
                    0
                } else {
                    self.frame + 1
                };
            },
            Event::Display(next) => {
                // Hold the switch until the tram has finished a full pass; cut over immediately
                // for every other state.
                let connecting: bool = match self.state {
                    DisplayState::Connecting => true,
                    _ => false,
                };
                if connecting && !connect_cycle_done(self.frame) {
                    self.pending = Some(next);
                } else {
                    self.state = next;
                    self.frame = 0;
                    self.pending = None;
                }
            },
            Event::Redraw => {},
        }
    }
}

/// The renderer after the render loop has drawn a frame and then waited, once per event of `evs`.
/// (The connecting screen always animates.)
pub open spec fn run(r: Renderer, evs: Seq<Event>) -> Renderer
    decreases evs.len(),
{
    if evs.len() == 0 {
        settled(r)
    } else if cuts_over(r) {
        settled(r)
    } else {
        run(reacted(r, true, evs[0]), evs.drop_first())
    }
}

/// How many of `evs` are frame ticks.
pub open spec fn ticks(evs: Seq<Event>) -> int
    decreases evs.len(),
{
    if evs.len() == 0 {
        0
    } else {
        (if evs[0] is Timer {
            1int
        } else {
            0int
        }) + ticks(evs.drop_first())
    }
}

/// The connecting animation plays at least one full pass: whatever arrives meanwhile, it is still
/// showing as long as fewer than 47 ticks have followed its first frame.
pub proof fn lemma_full_pass(r: Renderer, evs: Seq<Event>)
    requires
        r.state is Connecting,
        r.frame + ticks(evs) < 47,
    ensures
        run(r, evs).state is Connecting,
        run(r, evs).frame == r.frame + ticks(evs),
    decreases evs.len(),
{
    if evs.len() > 0 {
        lemma_ticks_nonnegative(evs.drop_first());
        lemma_full_pass(reacted(r, true, evs[0]), evs.drop_first());
    }
}

proof fn lemma_ticks_nonnegative(evs: Seq<Event>)
    ensures
        0 <= ticks(evs),
    decreases evs.len(),
{
    if evs.len() > 0 {
        lemma_ticks_nonnegative(evs.drop_first());
    }
}

/// The newest state that arrived during a pass is shown once the pass is done; none is lost.
pub proof fn lemma_pending_is_shown(r: Renderer, next: DisplayState)
    requires
        r.state is Connecting,
        !pass_done(r.frame),
    ensures
        ({
            let held = reacted(r, true, Event::Display(next));
            &&& held.pending == Some(next)
            &&& held.state == r.state && held.frame == r.frame
            &&& reacted(held, true, Event::Timer).pending == Some(next)
            &&& settled(Renderer { frame: 47, ..held }) == (Renderer {
                state: next,
                frame: 0,
                pending: None,
            })
        }),
{
}

/// A new state is shown at once, from its first frame, whatever was shown before; only the connecting
/// animation first completes its pass. Without one the state stays: a tick shows its next frame, and
/// a request to redraw the same frame again.
pub proof fn lemma_new_states_are_shown(r: Renderer, animating: bool, next: DisplayState)
    ensures
        !(animating && r.state is Connecting && r.frame < 47) ==> reacted(
            r,
            animating,
            Event::Display(next),
        ) == (Renderer { state: next, frame: 0, pending: None }),
        reacted(r, animating, Event::Timer).state == r.state,
        reacted(r, animating, Event::Redraw).state == r.state,
        animating && r.frame < u32::MAX ==> reacted(r, true, Event::Timer).frame == r.frame + 1,
        reacted(r, true, Event::Redraw) == r,
        r.pending is None ==> settled(r) == r,
        r.frame < 47 ==> settled(r) == r,
{
}

/// The times between frames: twenty frames to the second, a static screen once a minute, five seconds
/// of pause before a text scrolls, and one pass of the tram in 2.4 seconds.
pub proof fn lemma_cadence()
    ensures
        20 * FRAME_TICKS == crate::shared::TICK_HZ,
        BRIGHTNESS_REFRESH == 60 * crate::shared::TICK_HZ,
        crate::display::draw::HOLD_FRAMES * FRAME_TICKS == 5 * crate::shared::TICK_HZ,
        10 * crate::display::screens::CONNECT_CYCLE_FRAMES * FRAME_TICKS == 24
            * crate::shared::TICK_HZ,
{
}

} // verus!
