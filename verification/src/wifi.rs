//! Which authentication a network is joined with, and how the link to it is kept up.

use vstd::prelude::*;

use crate::model::WifiCreds;

verus! {

/// Open SoftAP SSID shown during provisioning.
pub const SETUP_SSID: &'static str = "Zügli-Setup";

/// mDNS hostname (ASCII only).
pub const HOSTNAME: &'static str = "zugli";

/// How a network authenticates its stations.
#[derive(Clone, Copy, Debug, PartialEq, Eq, Structural)]
pub enum Auth {
    /// Open network.
    Open,
    Wep,
    Wpa,
    Wpa2Personal,
    WpaWpa2Personal,
    Wpa2Enterprise,
    Wpa3Personal,
    Wpa2Wpa3Personal,
    WapiPersonal,
    /// Any other method, by the radio's own number for it.
    Other(u8),
}

/// The connect threshold for the home network. `auth` is usually the scanned AP's advertised
/// method; an empty password forces an open network.
pub fn sta_auth(creds: &WifiCreds, auth: Auth) -> (r: Auth)
    ensures
        r == (if creds.password@.len() == 0 {
            Auth::Open
        } else {
            auth
        }),
{
    if creds.password.as_str().is_empty() {
        Auth::Open
    } else {
        auth
    }
}

/// Whether a network needs a password: it advertises a method other than none.
pub open spec fn secured(auth: Option<Auth>) -> bool {
    auth is Some && auth != Some(Auth::Open)
}

/// Whether a network needs a password.
pub fn is_secure(auth: Option<Auth>) -> (r: bool)
    ensures
        r == secured(auth),
{
    match auth {
        None => false,
        Some(Auth::Open) => false,
        Some(_) => true,
    }
}

/// Pause between two looks at a link that is up, and after a failed attempt to connect, in seconds.
pub const LINK_PAUSE_SECS: u64 = 5;

/// What happened to the link.
#[derive(Clone, Copy, Debug, PartialEq, Eq, Structural)]
pub enum LinkEvent {
    /// It was looked at, and is up.
    Up,
    /// It was looked at, and is down.
    Down,
    /// An attempt to connect succeeded.
    Connected,
    /// An attempt to connect failed.
    Refused,
}

/// What to do about the link next.
#[derive(Clone, Copy, Debug, PartialEq, Eq, Structural)]
pub enum LinkAction {
    /// Look at it once more, after so many seconds.
    Look { after: u64 },
    /// Try to connect.
    Connect,
}

/// What to do about the link after an event.
pub open spec fn action_after(ev: LinkEvent) -> LinkAction {
    match ev {
        LinkEvent::Up => LinkAction::Look { after: LINK_PAUSE_SECS },
        LinkEvent::Down => LinkAction::Connect,
        LinkEvent::Connected => LinkAction::Look { after: 0 },
        LinkEvent::Refused => LinkAction::Look { after: LINK_PAUSE_SECS },
    }
}

/// An attempt to connect follows exactly where the link was found down; in every other case it is
/// looked at again, within five seconds.
pub proof fn lemma_link_is_kept_up(ev: LinkEvent)
    ensures
        action_after(ev) == LinkAction::Connect <==> ev == LinkEvent::Down,
        action_after(ev) matches LinkAction::Look { after } ==> after <= 5,
        action_after(LinkEvent::Up) == (LinkAction::Look { after: 5 }),
        action_after(LinkEvent::Refused) == (LinkAction::Look { after: 5 }),
{
}

/// Keep the station connected: (re)connect whenever the link is found down. A link that is up is
/// looked at every [`LINK_PAUSE_SECS`], and a failed attempt is followed by the same pause.
pub fn link_step(ev: LinkEvent) -> (r: LinkAction)
    ensures
        r == (match ev {
            LinkEvent::Up => LinkAction::Look { after: LINK_PAUSE_SECS },
            LinkEvent::Down => LinkAction::Connect,
            LinkEvent::Connected => LinkAction::Look { after: 0 },
            LinkEvent::Refused => LinkAction::Look { after: LINK_PAUSE_SECS },
        }),
        r == action_after(ev),
{
    match ev {
        LinkEvent::Up => LinkAction::Look { after: LINK_PAUSE_SECS },
        LinkEvent::Down => LinkAction::Connect,
        LinkEvent::Connected => LinkAction::Look { after: 0 },
        LinkEvent::Refused => LinkAction::Look { after: LINK_PAUSE_SECS },
    }
}

} // verus!
