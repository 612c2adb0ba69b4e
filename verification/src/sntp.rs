//! The two ends of a one-shot SNTP exchange (the request, and the Unix time in a reply), and when
//! to make one.

use vstd::prelude::*;

verus! {

/// Seconds between the NTP epoch (1900) and the Unix epoch (1970).
pub const NTP_TO_UNIX: i64 = 2_208_988_800;

/// Length of an NTP packet without extensions, in bytes.
pub const PACKET_LEN: usize = 48;

/// The request: LI = 0, VN = 3, Mode = 3 (client), everything else zero.
pub fn request() -> (r: [u8; 48])
    ensures
        r@[0] == 0x1B,
        forall|i: int| 1 <= i < 48 ==> r@[i] == 0,
{
    let mut req: [u8; 48] = [0u8; 48];
    req[0] = 0x1B;
    req
}

/// The number that four bytes stand for, most significant first.
pub open spec fn be32(s: Seq<u8>, i: int) -> int {
    ((s[i] * 256 + s[i + 1]) * 256 + s[i + 2]) * 256 + s[i + 3]
}

/// The Unix time in seconds in the reply of `n` bytes that `resp` begins with, or `None` if the
/// reply is too short. The transmit timestamp's seconds live at bytes 40..44 (big-endian).
pub fn parse_reply(resp: &[u8; 48], n: usize) -> (r: Option<i64>)
    ensures
        r is None <==> n < PACKET_LEN,
        r matches Some(unix) ==> unix == be32(resp@, 40) - NTP_TO_UNIX,
        r matches Some(unix) ==> -NTP_TO_UNIX <= unix <= 2_085_978_495,
{
    if n < PACKET_LEN {
        return None;
    }
    let secs: i64 = ((resp[40] as i64 * 256 + resp[41] as i64) * 256 + resp[42] as i64) * 256
        + resp[43] as i64;
    Some(secs - NTP_TO_UNIX)
}

/// The timestamp is read most significant byte first, and counts from 1 January 1900, which lies
/// before the Unix epoch by the seconds of all days between.
pub proof fn lemma_ntp_time(s: Seq<u8>, i: int, secs: int)
    requires
        0 <= secs < 0x1_0000_0000,
        s[i] == secs / 16_777_216,
        s[i + 1] == secs / 65_536 % 256,
        s[i + 2] == secs / 256 % 256,
        s[i + 3] == secs % 256,
    ensures
        be32(s, i) == secs,
        NTP_TO_UNIX == 86_400 * (crate::localtime::day_number(1970, 1, 1)
            - crate::localtime::day_number(1900, 1, 1)),
{
    reveal_with_fuel(crate::localtime::month_start, 2);
}

/// Pause after a failed exchange while the clock has never been set, in seconds.
pub const RETRY_SECS: u64 = 10;

/// Pause between two exchanges once the clock has been set, in seconds.
pub const RESYNC_SECS: u64 = 3600;

/// Keeping the clock: whether it has been set yet.
#[derive(Clone, Copy, Debug, PartialEq, Eq, Structural)]
pub struct ClockSync {
    pub synced: bool,
}

/// What follows an exchange: whether the clock is set, whether to poll anew, and the pause in seconds.
pub open spec fn after_exchange(synced: bool, landed: bool) -> (bool, bool, int) {
    (
        synced || landed,
        landed && !synced,
        if synced || landed {
            RESYNC_SECS as int
        } else {
            RETRY_SECS as int
        },
    )
}

/// The first sample that lands makes the board poll anew, and no later one does; a clock once set
/// stays set. Until then an exchange is tried every ten seconds, and from then on once an hour.
pub proof fn lemma_first_sample(landed: bool)
    ensures
        after_exchange(false, true) == (true, true, 3600int),
        after_exchange(false, false) == (false, false, 10int),
        after_exchange(true, landed) == (true, false, 3600int),
{
}

impl ClockSync {
    /// Not set yet.
    pub fn new() -> (r: ClockSync)
        ensures
            r == (ClockSync { synced: false }),
    {
        ClockSync { synced: false }
    }

    /// Take the outcome of an exchange. Returns whether to poll anew, and how many seconds to wait
    /// before the next exchange: the first sample is retried until it lands, and makes the minutes
    /// of the board computable; from then on the clock is only kept fresh.
    pub fn exchanged(&mut self, landed: bool) -> (r: (bool, u64))
        ensures
            final(self).synced == (old(self).synced || landed),
            r.0 == (landed && !old(self).synced),
            r.1 == (if old(self).synced || landed {
                RESYNC_SECS
            } else {
                RETRY_SECS
            }),
            (final(self).synced, r.0, r.1 as int) == after_exchange(old(self).synced, landed),
    {
        let first: bool = landed && !self.synced;
        self.synced = self.synced || landed;
        if self.synced {
            (first, RESYNC_SECS)
        } else {
            (first, RETRY_SECS)
        }
    }
}

} // verus!
