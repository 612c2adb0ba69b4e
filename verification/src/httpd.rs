//! The configuration server's answers, and what its requests change.

use vstd::prelude::*;
use vstd::utf8::encode_utf8;

use crate::model::{Config, Layout, UiMode, LAYOUT_MAX_BYTES};
use crate::model::{sanitized, ui_mode_of, Element};
use crate::shared::{
    apply_config, apply_layout, auto_brightness_enabled, brightness_level, end_preview,
    lemma_shared_wf, line_badges_enabled, off_when_dimmed_enabled, reduced_end_min,
    reduced_start_min, set_preview, strip_city_enabled, ui_mode, Shared, PREVIEW_TTL,
};
use crate::shared::{settings_of, Settings, State};
use crate::text::{append, decimal, lemma_ascii_len, lemma_dec, lemma_dec_value, lemma_split};
use crate::text::{dec, utf8_len};

verus! {

/// A borrowed response body with an explicit content type.
pub struct Body {
    pub content_type: &'static str,
    pub body: &'static [u8],
}

/// An HTML page.
pub fn html(body: &'static str) -> (r: Body)
    ensures
        r.content_type@ == "text/html; charset=utf-8"@,
        r.body@ == encode_utf8(body@),
{
    Body { content_type: "text/html; charset=utf-8", body: body.as_bytes() }
}

/// A JSON document.
pub fn json(body: &'static str) -> (r: Body)
    ensures
        r.content_type@ == "application/json"@,
        r.body@ == encode_utf8(body@),
{
    Body { content_type: "application/json", body: body.as_bytes() }
}

/// Whether a body is the `{"ok":true}` acknowledgement.
pub open spec fn acknowledges(b: Body) -> bool {
    b.content_type@ == "application/json"@ && b.body@ == encode_utf8("{\"ok\":true}"@)
}

/// The `{"ok":true}` acknowledgement every mutating endpoint returns.
pub fn ok() -> (r: Body)
    ensures
        acknowledges(r),
{
    json("{\"ok\":true}")
}

/// The three network buffers a server needs, bundled so that one set backs whichever of the two
/// servers (configuration, setup portal) runs.
pub struct ServerBuffers {
    pub tcp_rx: [u8; 1024],
    pub tcp_tx: [u8; 4096],
    pub http_buf: [u8; 2048],
}

impl ServerBuffers {
    /// Cleared buffers.
    pub fn new() -> (r: ServerBuffers)
        ensures
            forall|i: int| 0 <= i < 1024 ==> r.tcp_rx@[i] == 0,
            forall|i: int| 0 <= i < 4096 ==> r.tcp_tx@[i] == 0,
            forall|i: int| 0 <= i < 2048 ==> r.http_buf@[i] == 0,
    {
        ServerBuffers { tcp_rx: [0u8; 1024], tcp_tx: [0u8; 4096], http_buf: [0u8; 2048] }
    }
}

/// Capacity for the serialized config JSON, in bytes.
pub const CONFIG_JSON_CAP: usize = 224;

/// A truth value in JSON.
pub open spec fn bool_text(b: bool) -> Seq<char> {
    if b {
        "true"@
    } else {
        "false"@
    }
}

/// The number that a view is persisted as.
pub open spec fn mode_number(m: UiMode) -> nat {
    match m {
        UiMode::Default => 0,
        UiMode::Focus => 1,
        UiMode::Custom => 2,
    }
}

/// The views and their numbers belong to each other.
pub proof fn lemma_mode_numbers(m: UiMode, v: u8)
    ensures
        ui_mode_of(mode_number(m) as u8) == m,
        v <= 2 ==> mode_number(ui_mode_of(v)) == v,
{
}

/// The current settings in JSON.
pub open spec fn config_text(s: Settings) -> Seq<char> {
    "{\"stripCity\":"@ + bool_text(s.strip_city) + ",\"showLineBadges\":"@ + bool_text(
        s.show_line_badges,
    ) + ",\"brightness\":"@ + dec(s.level as nat) + ",\"autoBrightness\":"@ + bool_text(
        s.auto_brightness,
    ) + ",\"offWhenDimmed\":"@ + bool_text(s.off_when_dimmed) + ",\"reducedStart\":"@ + dec(
        s.reduced_start as nat,
    ) + ",\"reducedEnd\":"@ + dec(s.reduced_end as nat) + ",\"uiMode\":"@ + dec(
        mode_number(s.mode),
    ) + "}"@
}

/// A value followed by a comma ends there.
proof fn lemma_value_ends(a: Seq<char>, rest_a: Seq<char>, b: Seq<char>, rest_b: Seq<char>)
    requires
        a + rest_a == b + rest_b,
        rest_a.len() > 0 && rest_a[0] == ',',
        rest_b.len() > 0 && rest_b[0] == ',',
        plain_value(a),
        plain_value(b),
    ensures
        a == b,
        rest_a == rest_b,
{
    lemma_split(a, rest_a, b, rest_b, ',');
}

/// Whether a value is written without a comma.
spec fn plain_value(v: Seq<char>) -> bool {
    forall|i: int| 0 <= i < v.len() ==> #[trigger] v[i] != ','
}

/// Truth values and numbers are written without a comma, and differ where they are different.
proof fn lemma_plain_values(p: bool, q: bool, m: nat, n: nat)
    requires
        m < 100_000,
        n < 100_000,
    ensures
        plain_value(bool_text(p)),
        plain_value(dec(m)),
        bool_text(p) == bool_text(q) ==> p == q,
        dec(m) == dec(n) ==> m == n,
{
    reveal_strlit("true");
    reveal_strlit("false");
    reveal_with_fuel(crate::text::pow10, 6);
    lemma_dec(m, 5);
    lemma_dec_value(m);
    lemma_dec_value(n);
    if p != q {
        assert("true"@.len() != "false"@.len());
    }
}

/// A key, its value, and what follows.
pub open spec fn behind(key: Seq<char>, value: Seq<char>, rest: Seq<char>) -> Seq<char> {
    key + (value + rest)
}

/// Each setting stands behind its own key, as it is: truth values as `true` or `false`, numbers in
/// decimal.
pub proof fn lemma_config_values(s: Settings)
    ensures
        config_text(s) == behind(
            "{\"stripCity\":"@,
            bool_text(s.strip_city),
            behind(
                ",\"showLineBadges\":"@,
                bool_text(s.show_line_badges),
                behind(
                    ",\"brightness\":"@,
                    dec(s.level as nat),
                    behind(
                        ",\"autoBrightness\":"@,
                        bool_text(s.auto_brightness),
                        behind(
                            ",\"offWhenDimmed\":"@,
                            bool_text(s.off_when_dimmed),
                            behind(
                                ",\"reducedStart\":"@,
                                dec(s.reduced_start as nat),
                                behind(
                                    ",\"reducedEnd\":"@,
                                    dec(s.reduced_end as nat),
                                    behind(",\"uiMode\":"@, dec(mode_number(s.mode)), "}"@),
                                ),
                            ),
                        ),
                    ),
                ),
            ),
        ),
{
    let (k1, v1) = ("{\"stripCity\":"@, bool_text(s.strip_city));
    let (k2, v2) = (",\"showLineBadges\":"@, bool_text(s.show_line_badges));
    let (k3, v3) = (",\"brightness\":"@, dec(s.level as nat));
    let (k4, v4) = (",\"autoBrightness\":"@, bool_text(s.auto_brightness));
    let (k5, v5) = (",\"offWhenDimmed\":"@, bool_text(s.off_when_dimmed));
    let (k6, v6) = (",\"reducedStart\":"@, dec(s.reduced_start as nat));
    let (k7, v7) = (",\"reducedEnd\":"@, dec(s.reduced_end as nat));
    let (k8, v8) = (",\"uiMode\":"@, dec(mode_number(s.mode)));
    let p1 = k1 + v1;
    let p2 = p1 + k2 + v2;
    let p3 = p2 + k3 + v3;
    let p4 = p3 + k4 + v4;
    let p5 = p4 + k5 + v5;
    let p6 = p5 + k6 + v6;
    let p7 = p6 + k7 + v7;
    let r8 = behind(k8, v8, "}"@);
    let r7 = behind(k7, v7, r8);
    let r6 = behind(k6, v6, r7);
    let r5 = behind(k5, v5, r6);
    let r4 = behind(k4, v4, r5);
    let r3 = behind(k3, v3, r4);
    let r2 = behind(k2, v2, r3);
    lemma_regroup(p7, k8, v8, "}"@);
    lemma_regroup(p6, k7, v7, r8);
    lemma_regroup(p5, k6, v6, r7);
    lemma_regroup(p4, k5, v5, r6);
    lemma_regroup(p3, k4, v4, r5);
    lemma_regroup(p2, k3, v3, r4);
    lemma_regroup(p1, k2, v2, r3);
    assert(p1 + r2 =~= behind(k1, v1, r2));
}

/// What is appended piece by piece can be appended at once.
proof fn lemma_regroup(start: Seq<char>, key: Seq<char>, value: Seq<char>, rest: Seq<char>)
    ensures
        start + key + value + rest == start + behind(key, value, rest),
{
    assert(start + key + value + rest =~= start + behind(key, value, rest));
}

/// The same key in front leaves the same value and the same rest behind it.
proof fn lemma_behind(key: Seq<char>, a: Seq<char>, rest_a: Seq<char>, b: Seq<char>, rest_b: Seq<char>)
    requires
        behind(key, a, rest_a) == behind(key, b, rest_b),
        rest_a.len() > 0 && rest_a[0] == ',',
        rest_b.len() > 0 && rest_b[0] == ',',
        plain_value(a),
        plain_value(b),
    ensures
        a == b,
        rest_a == rest_b,
{
    let n = key.len() as int;
    assert(behind(key, a, rest_a).skip(n) =~= a + rest_a);
    assert(behind(key, b, rest_b).skip(n) =~= b + rest_b);
    lemma_value_ends(a, rest_a, b, rest_b);
}

/// Whether settings are such as a device can have.
pub open spec fn storable(s: Settings) -> bool {
    1 <= s.level <= 10 && 0 <= s.reduced_start < 65_536 && 0 <= s.reduced_end < 65_536
}

/// The page can read every setting off the text: two devices that send the same text have the same
/// settings.
pub proof fn lemma_settings_read_back(a: Settings, b: Settings)
    requires
        storable(a),
        storable(b),
        config_text(a) == config_text(b),
    ensures
        a == b,
{
    lemma_config_values(a);
    lemma_config_values(b);
    reveal_strlit(",\"showLineBadges\":");
    reveal_strlit(",\"brightness\":");
    reveal_strlit(",\"autoBrightness\":");
    reveal_strlit(",\"offWhenDimmed\":");
    reveal_strlit(",\"reducedStart\":");
    reveal_strlit(",\"reducedEnd\":");
    reveal_strlit(",\"uiMode\":");
    lemma_plain_values(a.strip_city, b.strip_city, a.level as nat, b.level as nat);
    lemma_plain_values(b.strip_city, a.strip_city, b.level as nat, a.level as nat);
    lemma_plain_values(
        a.show_line_badges,
        b.show_line_badges,
        a.reduced_start as nat,
        b.reduced_start as nat,
    );
    lemma_plain_values(
        b.show_line_badges,
        a.show_line_badges,
        b.reduced_start as nat,
        a.reduced_start as nat,
    );
    lemma_plain_values(
        a.auto_brightness,
        b.auto_brightness,
        a.reduced_end as nat,
        b.reduced_end as nat,
    );
    lemma_plain_values(
        b.auto_brightness,
        a.auto_brightness,
        b.reduced_end as nat,
        a.reduced_end as nat,
    );
    lemma_plain_values(
        a.off_when_dimmed,
        b.off_when_dimmed,
        mode_number(a.mode),
        mode_number(b.mode),
    );
    lemma_plain_values(
        b.off_when_dimmed,
        a.off_when_dimmed,
        mode_number(b.mode),
        mode_number(a.mode),
    );
    let (a8, b8) = (
        behind(",\"uiMode\":"@, dec(mode_number(a.mode)), "}"@),
        behind(",\"uiMode\":"@, dec(mode_number(b.mode)), "}"@),
    );
    let (a7, b7) = (
        behind(",\"reducedEnd\":"@, dec(a.reduced_end as nat), a8),
        behind(",\"reducedEnd\":"@, dec(b.reduced_end as nat), b8),
    );
    let (a6, b6) = (
        behind(",\"reducedStart\":"@, dec(a.reduced_start as nat), a7),
        behind(",\"reducedStart\":"@, dec(b.reduced_start as nat), b7),
    );
    let (a5, b5) = (
        behind(",\"offWhenDimmed\":"@, bool_text(a.off_when_dimmed), a6),
        behind(",\"offWhenDimmed\":"@, bool_text(b.off_when_dimmed), b6),
    );
    let (a4, b4) = (
        behind(",\"autoBrightness\":"@, bool_text(a.auto_brightness), a5),
        behind(",\"autoBrightness\":"@, bool_text(b.auto_brightness), b5),
    );
    let (a3, b3) = (
        behind(",\"brightness\":"@, dec(a.level as nat), a4),
        behind(",\"brightness\":"@, dec(b.level as nat), b4),
    );
    let (a2, b2) = (
        behind(",\"showLineBadges\":"@, bool_text(a.show_line_badges), a3),
        behind(",\"showLineBadges\":"@, bool_text(b.show_line_badges), b3),
    );
    lemma_behind("{\"stripCity\":"@, bool_text(a.strip_city), a2, bool_text(b.strip_city), b2);
    lemma_behind(
        ",\"showLineBadges\":"@,
        bool_text(a.show_line_badges),
        a3,
        bool_text(b.show_line_badges),
        b3,
    );
    lemma_behind(",\"brightness\":"@, dec(a.level as nat), a4, dec(b.level as nat), b4);
    lemma_behind(
        ",\"autoBrightness\":"@,
        bool_text(a.auto_brightness),
        a5,
        bool_text(b.auto_brightness),
        b5,
    );
    lemma_behind(
        ",\"offWhenDimmed\":"@,
        bool_text(a.off_when_dimmed),
        a6,
        bool_text(b.off_when_dimmed),
        b6,
    );
    lemma_behind(
        ",\"reducedStart\":"@,
        dec(a.reduced_start as nat),
        a7,
        dec(b.reduced_start as nat),
        b7,
    );
    lemma_behind(
        ",\"reducedEnd\":"@,
        dec(a.reduced_end as nat),
        a8,
        dec(b.reduced_end as nat),
        b8,
    );
    let n = ",\"uiMode\":"@.len() as int;
    assert(a8.skip(n) =~= dec(mode_number(a.mode)) + "}"@);
    assert(b8.skip(n) =~= dec(mode_number(b.mode)) + "}"@);
    reveal_strlit("}");
    assert((dec(mode_number(a.mode)) + "}"@).drop_last() =~= dec(mode_number(a.mode)));
    assert((dec(mode_number(b.mode)) + "}"@).drop_last() =~= dec(mode_number(b.mode)));
}

fn bool_str(b: bool) -> (r: &'static str)
    ensures
        r@ == bool_text(b),
        utf8_len(r@) <= 5,
{
    proof {
        reveal_strlit("true");
        reveal_strlit("false");
        lemma_ascii_len("true"@);
        lemma_ascii_len("false"@);
    }
    if b {
        "true"
    } else {
        "false"
    }
}

/// A number of at most five digits.
fn short_number(n: u16) -> (r: String)
    ensures
        r@ == dec(n as nat),
        utf8_len(r@) <= 5,
{
    proof {
        reveal_with_fuel(crate::text::pow10, 6);
        lemma_dec(n as nat, 5);
    }
    decimal(n as u64)
}

/// Current board settings, for the config page's settings sheet to pre-fill its controls.
pub fn config_json(shared: &Shared) -> (r: String)
    requires
        shared.wf(),
    ensures
        r@ == config_text(shared@.settings),
        utf8_len(r@) <= CONFIG_JSON_CAP,
{
    proof {
        lemma_shared_wf(shared);
        reveal_strlit("{\"stripCity\":");
        reveal_strlit(",\"showLineBadges\":");
        reveal_strlit(",\"brightness\":");
        reveal_strlit(",\"autoBrightness\":");
        reveal_strlit(",\"offWhenDimmed\":");
        reveal_strlit(",\"reducedStart\":");
        reveal_strlit(",\"reducedEnd\":");
        reveal_strlit(",\"uiMode\":");
        reveal_strlit("}");
        lemma_ascii_len("{\"stripCity\":"@);
        lemma_ascii_len(",\"showLineBadges\":"@);
        lemma_ascii_len(",\"brightness\":"@);
        lemma_ascii_len(",\"autoBrightness\":"@);
        lemma_ascii_len(",\"offWhenDimmed\":"@);
        lemma_ascii_len(",\"reducedStart\":"@);
        lemma_ascii_len(",\"reducedEnd\":"@);
        lemma_ascii_len(",\"uiMode\":"@);
        lemma_ascii_len("}"@);
        lemma_ascii_len(Seq::<char>::empty());
    }
    let mode: u16 = match ui_mode(shared) {
        UiMode::Default => 0,
        UiMode::Focus => 1,
        UiMode::Custom => 2,
    };
    let level = short_number(brightness_level(shared) as u16);
    let start = short_number(reduced_start_min(shared));
    let end = short_number(reduced_end_min(shared));
    let mode_digits = short_number(mode);
    let mut body = String::new();
    append::<224>(&mut body, "{\"stripCity\":");
    append::<224>(&mut body, bool_str(strip_city_enabled(shared)));
    append::<224>(&mut body, ",\"showLineBadges\":");
    append::<224>(&mut body, bool_str(line_badges_enabled(shared)));
    append::<224>(&mut body, ",\"brightness\":");
    append::<224>(&mut body, level.as_str());
    append::<224>(&mut body, ",\"autoBrightness\":");
    append::<224>(&mut body, bool_str(auto_brightness_enabled(shared)));
    append::<224>(&mut body, ",\"offWhenDimmed\":");
    append::<224>(&mut body, bool_str(off_when_dimmed_enabled(shared)));
    append::<224>(&mut body, ",\"reducedStart\":");
    append::<224>(&mut body, start.as_str());
    append::<224>(&mut body, ",\"reducedEnd\":");
    append::<224>(&mut body, end.as_str());
    append::<224>(&mut body, ",\"uiMode\":");
    append::<224>(&mut body, mode_digits.as_str());
    append::<224>(&mut body, "}");
    assert(body@ =~= config_text(shared@.settings));
    body
}

/// Why a request is refused.
#[derive(Clone, Copy, Debug, PartialEq, Eq, Structural)]
pub enum Rejected {
    /// The serialized layout exceeds [`LAYOUT_MAX_BYTES`].
    TooLarge,
    /// The settings name a view that does not exist.
    UnknownMode,
}

/// Apply a settings change to the live mirror the panel reads. Settings that name a view which
/// does not exist are refused and change nothing.
pub fn set_config(shared: &mut Shared, cfg: &Config) -> (r: Result<Body, Rejected>)
    requires
        old(shared).wf(),
    ensures
        final(shared).wf(),
        match r {
            Ok(b) => {
                &&& cfg.ui_mode <= 2
                &&& acknowledges(b)
                &&& final(shared)@ == (State { settings: settings_of(*cfg), ..old(shared)@ })
            },
            Err(e) => cfg.ui_mode > 2 && e == Rejected::UnknownMode && final(shared)@ == old(shared)@,
        },
{
    if cfg.ui_mode > 2 {
        return Err(Rejected::UnknownMode);
    }
    apply_config(shared, cfg);
    Ok(ok())
}

/// Whether `l` is `from` with every element sanitized.
pub open spec fn cleaned(from: Layout, l: Layout) -> bool {
    l.v == from.v && l.e@ == from.e@.map_values(|el: Element| sanitized(el))
}

/// Take a new custom layout, whose serialized form is `serialized_len` bytes long: clamp every
/// field to its valid range and make it the live one; an empty layout clears it. A save supersedes
/// any live preview. A layout over the byte budget is refused and changes nothing. What the live
/// mirror holds afterwards is what is to be persisted.
pub fn set_layout(shared: &mut Shared, layout: Layout, serialized_len: usize) -> (r: Result<
    Body,
    Rejected,
>)
    requires
        old(shared).wf(),
        layout.wf(),
    ensures
        final(shared).wf(),
        match r {
            Ok(b) => {
                &&& serialized_len <= LAYOUT_MAX_BYTES
                &&& acknowledges(b)
                &&& layout.e@.len() == 0 ==> final(shared)@.layout is None
                &&& layout.e@.len() > 0 ==> final(shared)@.layout is Some && cleaned(
                    layout,
                    final(shared)@.layout->0,
                )
                &&& final(shared)@ == (State {
                    layout: final(shared)@.layout,
                    preview: None,
                    redraw: true,
                    ..old(shared)@
                })
            },
            Err(e) => serialized_len > LAYOUT_MAX_BYTES && e == Rejected::TooLarge && final(shared)@ == old(shared)@,
        },
{
    if serialized_len > LAYOUT_MAX_BYTES {
        return Err(Rejected::TooLarge);
    }
    let mut clean = layout;
    clean.sanitize();
    // An empty layout means "no custom layout", so it and a never-saved layout are
    // indistinguishable (and in Custom mode both fall back to the built-in board).
    if clean.e.len() == 0 {
        apply_layout(shared, None);
    } else {
        apply_layout(shared, Some(clean));
    }
    end_preview(shared);
    Ok(ok())
}

/// Take a layout to preview at tick `now`, whose serialized form is `serialized_len` bytes long:
/// clamped like a saved one, but transient. It (re)arms the auto-revert deadline and forces an
/// immediate redraw. A layout over the byte budget is refused and changes nothing.
pub fn preview(shared: &mut Shared, layout: Layout, serialized_len: usize, now: u64) -> (r: Result<
    Body,
    Rejected,
>)
    requires
        old(shared).wf(),
        layout.wf(),
        now + PREVIEW_TTL <= u64::MAX,
    ensures
        final(shared).wf(),
        match r {
            Ok(b) => {
                &&& serialized_len <= LAYOUT_MAX_BYTES
                &&& acknowledges(b)
                &&& final(shared)@.preview matches Some((shown, deadline)) && cleaned(layout, shown)
                    && deadline == now + PREVIEW_TTL
                &&& final(shared)@ == (State {
                    preview: final(shared)@.preview,
                    redraw: true,
                    ..old(shared)@
                })
            },
            Err(e) => serialized_len > LAYOUT_MAX_BYTES && e == Rejected::TooLarge && final(shared)@ == old(shared)@,
        },
{
    if serialized_len > LAYOUT_MAX_BYTES {
        return Err(Rejected::TooLarge);
    }
    let mut clean = layout;
    clean.sanitize();
    set_preview(shared, clean, now);
    Ok(ok())
}

} // verus!
