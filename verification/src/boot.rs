//! Decisions of the boot sequence and of the reset button.

use vstd::prelude::*;

use crate::model::{DisplayState, WifiCreds};

verus! {

/// How long the button has to be held to reset the device, in ticks (3 s).
pub const HOLD: u64 = 3_000_000;

/// How the device comes up.
#[derive(Clone, Copy, Debug, PartialEq, Eq, Structural)]
pub enum BootMode {
    /// No credentials: captive portal.
    Portal,
    /// Join the home network.
    Station,
}

/// How the device comes up: as a captive portal until it has WiFi credentials.
pub fn boot_mode(creds: &Option<WifiCreds>) -> (r: BootMode)
    ensures
        r == (if *creds is Some {
            BootMode::Station
        } else {
            BootMode::Portal
        }),
{
    match creds {
        Some(_) => BootMode::Station,
        None => BootMode::Portal,
    }
}

/// What to show once the network is up: the address, if nothing is selected yet.
pub fn network_up(octets: [u8; 4], selected: bool) -> (r: Option<DisplayState>)
    ensures
        r == (if selected {
            None
        } else {
            Some(DisplayState::IdleAddress { octets })
        }),
{
    if selected {
        None
    } else {
        Some(DisplayState::IdleAddress { octets })
    }
}

/// The reset button: since when it has been held down, in ticks.
#[derive(Clone, Copy, Debug, PartialEq, Eq, Structural)]
pub struct Button {
    pub down_since: Option<u64>,
}

/// Since when the button has been held down, once it has been looked at tick `now`.
pub open spec fn held_since(b: Button, down: bool, now: u64) -> Option<u64> {
    if !down {
        None
    } else {
        match b.down_since {
            Some(start) => Some(start),
            None => Some(now),
        }
    }
}

/// Whether a button held since then resets the device at tick `now`.
pub open spec fn resets(since: Option<u64>, now: int) -> bool {
    since matches Some(start) && now - start >= HOLD
}

/// The device is reset exactly when the button has been down for three seconds, and never by a button
/// that is up.
pub proof fn lemma_reset_after_hold(b: Button, start: u64, lasted: int)
    ensures
        lasted < 3_000_000 ==> !resets(Some(start), start + lasted),
        lasted >= 3_000_000 ==> resets(Some(start), start + lasted),
        !resets(held_since(b, false, start), start + lasted),
{
}

impl Button {
    /// Not held.
    pub fn new() -> (r: Button)
        ensures
            r == (Button { down_since: None }),
    {
        Button { down_since: None }
    }

    /// Look at the button at tick `now`. Returns `true` once it has been held down continuously
    /// for [`HOLD`]: the device is then to be reset.
    pub fn poll(&mut self, down: bool, now: u64) -> (r: bool)
        requires
            old(self).down_since matches Some(start) ==> start <= now,
        ensures
            final(self).down_since == held_since(*old(self), down, now),
            r == (down && now - held_since(*old(self), down, now)->0 >= HOLD),
            r == resets(held_since(*old(self), down, now), now as int),
    {
        if !down {
            self.down_since = None;
            return false;
        }
        let start: u64 = match self.down_since {
            Some(start) => start,
            None => now,
        };
        self.down_since = Some(start);
        now - start >= HOLD
    }
}

/// Letting go starts over: after the button was up, it takes a whole hold again.
pub proof fn lemma_release_starts_over(b: Button, up: u64, down: u64, later: u64)
    ensures
        ({
            let released = Button { down_since: held_since(b, false, up) };
            let pressed = Button { down_since: held_since(released, true, down) };
            held_since(pressed, true, later) == Some(down)
        }),
{
}

/// A button that was up before and is down at every look from then on has been held since the first
/// of these looks, however many there are in between; a hold is three seconds.
pub proof fn lemma_hold_counts_from_the_press(b: Button, looks: Seq<u64>, n: int)
    requires
        b.down_since is None,
        0 < n <= looks.len(),
    ensures
        held_after(b, looks, n) == Some(looks[0]),
        HOLD == 3 * crate::shared::TICK_HZ,
    decreases n,
{
    if n > 1 {
        lemma_hold_counts_from_the_press(b, looks, n - 1);
    } else {
        assert(held_after(b, looks, 0) == b.down_since);
    }
}

/// Since when the button has been held down after the first `n` looks, all of which found it down.
pub open spec fn held_after(b: Button, looks: Seq<u64>, n: int) -> Option<u64>
    decreases n,
{
    if n <= 0 {
        b.down_since
    } else {
        held_since(Button { down_since: held_after(b, looks, n - 1) }, true, looks[n - 1])
    }
}

} // verus!
