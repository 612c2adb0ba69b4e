//! When to fetch the current weather for the custom layout's Weather element.
//!
//! The fetch piggybacks on the poll loop. It only runs while a layout that is actually on the
//! panel contains a Weather element, the saved stop carries coordinates, and the last sample has
//! aged enough.

use vstd::prelude::*;

use crate::display::layout_on_panel;
use crate::display::{show_of, Show};
use crate::model::Element;
use crate::model::{Layout, UiMode};
use crate::shared::{weather, Shared};
use crate::shared::{recent_weather, Settings, State};

verus! {

/// Type tag of a Weather element.
pub const WEATHER_TAG: u8 = 7;

/// Cadence state for the weather refresh: the last *attempt* in ticks, so a failing fetch backs
/// off instead of re-running every poll cycle.
#[derive(Clone, Copy, Debug, PartialEq, Eq, Structural)]
pub struct WeatherPoll {
    pub last_attempt: Option<u64>,
}

/// Whether a layout that is on the panel at tick `now` contains a Weather element.
pub open spec fn element_active(st: State, now: int) -> bool {
    match show_of(st, now) {
        Show::Custom(l) => exists|i: int|
            0 <= i < l.e@.len() && (#[trigger] l.e@[i]).t == WEATHER_TAG,
        _ => false,
    }
}

/// Whether a layout that is on the panel at tick `now` contains a Weather element.
pub fn weather_element_active(shared: &Shared, now: u64) -> (r: bool)
    requires
        shared.wf(),
    ensures
        r == element_active(shared@, now as int),
{
    match layout_on_panel(shared, now) {
        Some(layout) => {
            let mut i: usize = 0;
            while i < layout.e.len()
                invariant
                    show_of(shared@, now as int) == Show::Custom(*layout),
                    0 <= i <= layout.e@.len(),
                    forall|j: int| 0 <= j < i ==> (#[trigger] layout.e@[j]).t != WEATHER_TAG,
                decreases layout.e@.len() - i,
            {
                let el: &Element = &layout.e[i];
                if el.t == WEATHER_TAG {
                    return true;
                }
                i = i + 1;
            }
            false
        },
        None => false,
    }
}

/// Whether a fetch is due: a Weather element is live, the stop has coordinates, the latest sample
/// is at least `refresh` ticks old, and the last attempt at least `retry` ticks ago.
pub open spec fn due(
    poll: WeatherPoll,
    st: State,
    has_coords: bool,
    now: int,
    refresh: int,
    retry: int,
) -> bool {
    &&& has_coords
    &&& element_active(st, now)
    &&& recent_weather(st, now, refresh) is None
    &&& poll.last_attempt matches Some(t) ==> now - t >= retry
}

impl WeatherPoll {
    /// Nothing attempted yet.
    pub fn new() -> (r: WeatherPoll)
        ensures
            r == (WeatherPoll { last_attempt: None }),
    {
        WeatherPoll { last_attempt: None }
    }

    /// Whether to fetch the current weather now, recording the attempt if so. Not when no Weather
    /// element is live, coordinates are missing (the element then draws nothing), the sample is
    /// less than `refresh` ticks old, or the last attempt was under `retry` ticks ago. A failed
    /// fetch leaves the previous sample in place until it ages out.
    pub fn refresh_if_due(
        &mut self,
        shared: &Shared,
        has_coords: bool,
        now: u64,
        refresh: u64,
        retry: u64,
    ) -> (r: bool)
        requires
            shared.wf(),
            old(self).last_attempt matches Some(t) ==> t <= now,
        ensures
            r == due(
                *old(self),
                shared@,
                has_coords,
                now as int,
                refresh as int,
                retry as int,
            ),
            final(self).last_attempt == (if r {
                Some(now)
            } else {
                old(self).last_attempt
            }),
    {
        if !has_coords || !weather_element_active(shared, now) || weather(
            shared,
            now,
            refresh,
        ).is_some() {
            return false;
        }
        if let Some(t) = self.last_attempt {
            if now - t < retry {
                return false;
            }
        }
        self.last_attempt = Some(now);
        true
    }
}

/// Attempts keep their distance: after one at tick `t`, none is made for `retry` ticks.
pub proof fn lemma_attempts_apart(
    st: State,
    has_coords: bool,
    t: u64,
    now: int,
    refresh: int,
    retry: int,
)
    requires
        now < t + retry,
    ensures
        !due(WeatherPoll { last_attempt: Some(t) }, st, has_coords, now, refresh, retry),
{
}

/// A fetch is due as soon as it is wanted and nothing speaks against it: a Weather element is on the
/// panel, the stop has coordinates, there is no sample or it is `refresh` ticks old, and there was no
/// attempt or it was `retry` ticks ago. While no Weather element is on the panel, none is made.
pub proof fn lemma_due(poll: WeatherPoll, st: State, now: int, refresh: int, retry: int, l: Layout, i: int)
    requires
        st.preview is None,
        st.settings.mode == UiMode::Custom,
        st.layout == Some(l),
        l.v <= 1,
        0 <= i < l.e@.len(),
        l.e@[i].t == 7,
    ensures
        poll.last_attempt is None && st.weather is None ==> due(poll, st, true, now, refresh, retry),
        poll.last_attempt is None && st.weather is Some ==> (due(poll, st, true, now, refresh, retry)
            <==> now - (st.weather->0).1 >= refresh),
        st.weather is None && poll.last_attempt is Some ==> (due(
            poll,
            st,
            true,
            now,
            refresh,
            retry,
        ) <==> now - poll.last_attempt->0 >= retry),
        !due(poll, st, false, now, refresh, retry),
        !due(
            poll,
            State { settings: Settings { mode: UiMode::Default, ..st.settings }, ..st },
            true,
            now,
            refresh,
            retry,
        ),
        (forall|j: int| 0 <= j < l.e@.len() && j != i ==> (#[trigger] l.e@[j]).t != 7) ==> forall|m: Layout|
            m.v == l.v && #[trigger] m.e@ == l.e@.remove(i) ==> !due(
                poll,
                State { layout: Some(m), ..st },
                true,
                now,
                refresh,
                retry,
            ),
{
    assert(element_active(st, now)) by {
        assert(l.e@[i].t == WEATHER_TAG);
    }
    if forall|j: int| 0 <= j < l.e@.len() && j != i ==> (#[trigger] l.e@[j]).t != 7 {
        assert forall|m: Layout| m.v == l.v && #[trigger] m.e@ == l.e@.remove(i) implies !due(
            poll,
            State { layout: Some(m), ..st },
            true,
            now,
            refresh,
            retry,
        ) by {
            assert forall|j: int| 0 <= j < m.e@.len() implies (#[trigger] m.e@[j]).t != WEATHER_TAG by {
                if j < i {
                    assert(m.e@[j] == l.e@[j]);
                } else {
                    assert(m.e@[j] == l.e@[j + 1]);
                }
            }
        }
    }
}

} // verus!
