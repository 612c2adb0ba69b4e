//! What is persisted, and how it is framed in flash.
//!
//! Everything lives in one record in one sector: `[magic u32][len u32][JSON payload]`, padded to
//! the flash's word size. A wrong magic means "empty". Keeping all fields in one record lets each
//! be updated on its own: read the record, change one field, write it back.

use vstd::prelude::*;

use crate::model::{Config, Layout, Selection, WifiCreds};
use crate::model::{default_config, lemma_migrate_once, migrated};

verus! {

/// Size of a flash sector, in bytes.
pub const SECTOR: u32 = 4096;

/// Marks a record.
pub const MAGIC: u32 = 0x5A47_4C32;

/// Largest payload of a record, in bytes: the largest selection, credentials and settings plus the
/// largest custom layout, with headroom, and still well under one sector.
pub const MAX_PAYLOAD: usize = 3072;

/// The four bytes of a number, least significant first.
pub open spec fn le32(v: int) -> Seq<u8> {
    seq![
        (v % 256) as u8,
        (v / 256 % 256) as u8,
        (v / 65_536 % 256) as u8,
        (v / 16_777_216 % 256) as u8,
    ]
}

/// The number that four bytes stand for, least significant first.
pub open spec fn from_le32(s: Seq<u8>, i: int) -> int {
    s[i] + 256 * s[i + 1] + 65_536 * s[i + 2] + 16_777_216 * s[i + 3]
}

/// The number of bytes up to the next word boundary.
pub open spec fn word_aligned(n: int) -> int {
    (n + 3) / 4 * 4
}

/// A record: magic, length, payload, and zeros up to the next word boundary.
pub open spec fn record_of(payload: Seq<u8>) -> Seq<u8> {
    le32(MAGIC as int) + le32(payload.len() as int) + payload + Seq::new(
        (word_aligned(8 + payload.len() as int) - 8 - payload.len()) as nat,
        |i: int| 0u8,
    )
}

/// The payload length that a record's header gives, if it is a record's header at all.
pub open spec fn header_len(h: Seq<u8>) -> Option<int> {
    let len = from_le32(h, 4);
    if from_le32(h, 0) == MAGIC && 0 < len <= MAX_PAYLOAD {
        Some(len)
    } else {
        None
    }
}

/// The payload of the record that a sector begins with.
pub open spec fn payload_of(sector: Seq<u8>) -> Option<Seq<u8>> {
    if sector.len() < 8 {
        None
    } else {
        match header_len(sector) {
            Some(len) => if 8 + len <= sector.len() {
                Some(sector.subrange(8, 8 + len))
            } else {
                None
            },
            None => None,
        }
    }
}

/// A length is rounded up to the next multiple of a word, and a whole number of words stays.
pub proof fn lemma_word_aligned(n: int)
    ensures
        n <= word_aligned(n) < n + 4,
        word_aligned(n) % 4 == 0,
{
}

/// Four bytes give back the number they were made from.
proof fn lemma_le32(s: Seq<u8>, i: int, v: int)
    requires
        0 <= v < 0x1_0000_0000,
        0 <= i,
        i + 4 <= s.len(),
        s.subrange(i, i + 4) == le32(v),
    ensures
        from_le32(s, i) == v,
{
    let t = s.subrange(i, i + 4);
    assert(t[0] == s[i] && t[1] == s[i + 1] && t[2] == s[i + 2] && t[3] == s[i + 3]);
    assert(v == v % 256 + 256 * (v / 256 % 256) + 65_536 * (v / 65_536 % 256) + 16_777_216 * (v
        / 16_777_216 % 256));
}

/// What is read back from a sector is what was written to it, whatever follows the record.
pub proof fn lemma_read_back(payload: Seq<u8>, rest: Seq<u8>)
    requires
        0 < payload.len() <= MAX_PAYLOAD,
    ensures
        payload_of(record_of(payload) + rest) == Some(payload),
        record_of(payload).len() % 4 == 0,
        record_of(payload).len() <= SECTOR,
{
    let r = record_of(payload);
    let s = r + rest;
    assert(r.len() == word_aligned(8 + payload.len() as int));
    assert(s.subrange(0, 4) =~= le32(MAGIC as int));
    assert(s.subrange(4, 8) =~= le32(payload.len() as int));
    lemma_le32(s, 0, MAGIC as int);
    lemma_le32(s, 4, payload.len() as int);
    assert(s.subrange(8, 8 + payload.len() as int) =~= payload);
}

/// An erased sector holds no record.
pub proof fn lemma_erased_is_empty(sector: Seq<u8>)
    requires
        forall|i: int| 0 <= i < sector.len() ==> #[trigger] sector[i] == 0xFF,
    ensures
        payload_of(sector) is None,
{
    if sector.len() >= 8 {
        assert(sector[0] == 0xFF);
    }
}

fn push_le32(out: &mut Vec<u8>, v: u32)
    ensures
        final(out)@ == old(out)@ + le32(v as int),
{
    let ghost before = out@;
    out.push((v % 256) as u8);
    out.push((v / 256 % 256) as u8);
    out.push((v / 65_536 % 256) as u8);
    out.push((v / 16_777_216 % 256) as u8);
    assert(out@ =~= before + le32(v as int));
}

/// Frame a serialized record for writing: `[magic][len][payload]`, padded up to a word boundary
/// with zeros. `None` if the payload is too large to be read back.
pub fn write_record(payload: &[u8]) -> (r: Option<Vec<u8>>)
    ensures
        match r {
            Some(b) => payload@.len() <= MAX_PAYLOAD && b@ == record_of(payload@),
            None => payload@.len() > MAX_PAYLOAD,
        },
{
    let n: usize = payload.len();
    if n > MAX_PAYLOAD {
        return None;
    }
    let mut out: Vec<u8> = Vec::new();
    push_le32(&mut out, MAGIC);
    push_le32(&mut out, n as u32);
    let ghost head = out@;
    let mut i: usize = 0;
    while i < n
        invariant
            n == payload@.len(),
            n <= MAX_PAYLOAD,
            0 <= i <= n,
            head.len() == 8,
            out@ == head + payload@.subrange(0, i as int),
        decreases n - i,
    {
        out.push(payload[i]);
        proof {
            assert(out@ =~= head + payload@.subrange(0, i + 1));
        }
        i = i + 1;
    }
    assert(payload@.subrange(0, n as int) =~= payload@);
    let total: usize = (8 + n + 3) / 4 * 4;
    let ghost body = out@;
    while out.len() < total
        invariant
            n <= MAX_PAYLOAD,
            total == word_aligned(8 + n),
            body.len() == 8 + n,
            8 + n <= out@.len() <= total,
            out@ == body + Seq::new((out@.len() - 8 - n) as nat, |i: int| 0u8),
        decreases total - out@.len(),
    {
        out.push(0);
        assert(out@ =~= body + Seq::new((out@.len() - 8 - n) as nat, |i: int| 0u8));
    }
    assert(out@ =~= record_of(payload@));
    Some(out)
}

/// The payload length in a record's header, or `None` if the magic is wrong or the length cannot
/// be that of a record.
pub fn read_header(header: &[u8; 8]) -> (r: Option<usize>)
    ensures
        match header_len(header@) {
            Some(len) => r == Some(len as usize) && len == (len as usize),
            None => r is None,
        },
{
    let magic: u32 = header[0] as u32 + 256 * header[1] as u32 + 65_536 * header[2] as u32
        + 16_777_216 * header[3] as u32;
    let len: u32 = header[4] as u32 + 256 * header[5] as u32 + 65_536 * header[6] as u32
        + 16_777_216 * header[7] as u32;
    if magic != MAGIC {
        return None;
    }
    if len == 0 || len as usize > MAX_PAYLOAD {
        return None;
    }
    Some(len as usize)
}

/// How many bytes to read for a payload of `len` bytes: flash is read in whole words, and the
/// writer padded the record to that boundary.
pub fn read_len(len: usize) -> (r: usize)
    requires
        len <= MAX_PAYLOAD,
    ensures
        r == word_aligned(len as int),
        len <= r <= MAX_PAYLOAD,
{
    (len + 3) / 4 * 4
}

/// The payload of the record that a sector begins with, or `None` if there is no record.
pub fn read_record(sector: &[u8]) -> (r: Option<Vec<u8>>)
    ensures
        match payload_of(sector@) {
            Some(p) => r matches Some(v) && v@ == p,
            None => r is None,
        },
{
    if sector.len() < 8 {
        return None;
    }
    let header: [u8; 8] = [
        sector[0],
        sector[1],
        sector[2],
        sector[3],
        sector[4],
        sector[5],
        sector[6],
        sector[7],
    ];
    assert(header_len(header@) == header_len(sector@));
    let len: usize = match read_header(&header) {
        Some(len) => len,
        None => return None,
    };
    if sector.len() - 8 < len {
        return None;
    }
    let mut out: Vec<u8> = Vec::new();
    let mut i: usize = 0;
    while i < len
        invariant
            0 <= i <= len <= MAX_PAYLOAD,
            8 + len <= sector@.len(),
            out@ == sector@.subrange(8, 8 + i as int),
        decreases len - i,
    {
        out.push(sector[8 + i]);
        proof {
            assert(out@ =~= sector@.subrange(8, 8 + i + 1));
        }
        i = i + 1;
    }
    Some(out)
}

/// Everything persisted, as one record so all fields survive independent updates.
#[derive(Debug)]
pub struct Persisted {
    pub wifi: Option<WifiCreds>,
    pub selection: Option<Selection>,
    pub config: Config,
    /// The user's custom board layout, or `None` when none is saved.
    pub layout: Option<Layout>,
}

/// What a device that has never been set up, or has been reset, holds.
pub open spec fn blank() -> Persisted {
    Persisted { wifi: None, selection: None, config: default_config(), layout: None }
}

/// What boot takes from a record: `(wifi, selection, config, layout)`, the config migrated.
pub open spec fn boot_of(p: Persisted) -> (
    Option<WifiCreds>,
    Option<Selection>,
    Config,
    Option<Layout>,
) {
    (p.wifi, p.selection, migrated(p.config), p.layout)
}

/// What is read back of a record once it has been written: everything but the flag for the focus
/// view of older records, which is never written.
pub open spec fn reread(p: Persisted) -> Persisted {
    Persisted { config: Config { focus_view_legacy: false, ..p.config }, ..p }
}

impl Default for Persisted {
    fn default() -> (r: Self)
        ensures
            r == blank(),
    {
        Persisted { wifi: None, selection: None, config: Config::default(), layout: None }
    }
}

impl Persisted {
    /// Whether everything held keeps to its capacities.
    pub open spec fn wf(self) -> bool {
        &&& self.wifi matches Some(w) ==> w.wf()
        &&& self.selection matches Some(s) ==> s.wf()
        &&& self.layout matches Some(l) ==> l.wf()
    }

    /// Everything needed at boot: `(wifi, selection, config, layout)`. The config comes back
    /// already migrated.
    pub fn load_boot(self) -> (r: (
        Option<WifiCreds>,
        Option<Selection>,
        Config,
        Option<Layout>,
    ))
        ensures
            r == boot_of(self),
    {
        let mut config = self.config;
        config.migrate();  // fold a legacy record into `ui_mode`
        (self.wifi, self.selection, config, self.layout)
    }

    /// Keep the WiFi credentials. An older record's settings are migrated, since writing the record
    /// drops the flag that they are migrated from.
    pub fn save_wifi(&mut self, creds: WifiCreds)
        ensures
            *final(self) == (Persisted {
                wifi: Some(creds),
                config: migrated(old(self).config),
                ..*old(self)
            }),
    {
        self.config.migrate();
        self.wifi = Some(creds);
    }

    /// Keep the selection, and migrate the settings of an older record.
    pub fn save_selection(&mut self, sel: Selection)
        ensures
            *final(self) == (Persisted {
                selection: Some(sel),
                config: migrated(old(self).config),
                ..*old(self)
            }),
    {
        self.config.migrate();
        self.selection = Some(sel);
    }

    /// Keep the settings.
    pub fn save_config(&mut self, cfg: &Config)
        ensures
            *final(self) == (Persisted { config: *cfg, ..*old(self) }),
    {
        self.config = *cfg;
    }

    /// The custom layout.
    pub fn load_layout(self) -> (r: Option<Layout>)
        ensures
            r == self.layout,
    {
        self.layout
    }

    /// Keep the custom layout, or clear it when `layout` is `None` (an empty layout is stored as
    /// `None` by the caller so a saved-but-empty layout and no layout are the same). The settings
    /// of an older record are migrated.
    pub fn save_layout(&mut self, layout: Option<Layout>)
        ensures
            *final(self) == (Persisted {
                layout,
                config: migrated(old(self).config),
                ..*old(self)
            }),
    {
        self.config.migrate();
        self.layout = layout;
    }

    /// Wipe everything: WiFi credentials, the saved connection, settings and layout.
    pub fn clear_all(&mut self)
        ensures
            *final(self) == blank(),
    {
        *self = Persisted::default();
    }
}

/// Saving one thing, writing the record and booting from it gives that thing and leaves the others
/// as a boot before would have given them, the focus view of an older record included. (Settings
/// are saved without the flag of older records.)
pub proof fn lemma_saves_survive_a_reboot(
    p: Persisted,
    w: WifiCreds,
    s: Selection,
    c: Config,
    l: Option<Layout>,
)
    requires
        !c.focus_view_legacy,
    ensures
        ({
            let (wifi, selection, config, layout) = boot_of(p);
            let settled = migrated(p.config);
            &&& boot_of(reread(Persisted { wifi: Some(w), config: settled, ..p })) == (
                Some(w),
                selection,
                config,
                layout,
            )
            &&& boot_of(reread(Persisted { selection: Some(s), config: settled, ..p })) == (
                wifi,
                Some(s),
                config,
                layout,
            )
            &&& boot_of(reread(Persisted { config: c, ..p })) == (wifi, selection, c, layout)
            &&& boot_of(reread(Persisted { layout: l, config: settled, ..p })) == (
                wifi,
                selection,
                config,
                l,
            )
        }),
{
}

/// In which order things are saved makes no difference to what boot loads: each is what was saved
/// last.
pub proof fn lemma_saves_are_independent(
    p: Persisted,
    w: WifiCreds,
    s: Selection,
    c: Config,
    l: Option<Layout>,
)
    requires
        !c.focus_view_legacy,
    ensures
        ({
            let p1 = Persisted { wifi: Some(w), config: migrated(p.config), ..p };
            let p2 = Persisted { selection: Some(s), config: migrated(p1.config), ..p1 };
            let p3 = Persisted { config: c, ..p2 };
            let p4 = Persisted { layout: l, config: migrated(p3.config), ..p3 };
            let q1 = Persisted { layout: l, config: migrated(p.config), ..p };
            let q2 = Persisted { config: c, ..q1 };
            let q3 = Persisted { selection: Some(s), config: migrated(q2.config), ..q2 };
            let q4 = Persisted { wifi: Some(w), config: migrated(q3.config), ..q3 };
            &&& p4 == q4
            &&& boot_of(reread(p4)) == (Some(w), Some(s), c, l)
        }),
{
    lemma_migrate_once(c);
}

} // verus!
