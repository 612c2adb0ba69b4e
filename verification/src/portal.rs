//! Captive portal logic: the catch-all DNS answer, the list of scanned networks, and the attempts
//! to join the chosen one.

use vstd::prelude::*;
use vstd::string::StrSliceExecFns;

use crate::text::{append, lemma_ascii_len, lemma_utf8_len_concat, signed_decimal};
use crate::text::{signed_dec, utf8_len};
use crate::wifi::{is_secure, Auth};
use crate::wifi::secured;

verus! {

/// AP gateway / portal address.
pub const AP_IP: [u8; 4] = [192, 168, 4, 1];

/// Size of the DNS reply buffer, in bytes.
pub const DNS_LIMIT: usize = 512;

/// The first position from `i` on where `q` is zero, or the length of `q`.
pub open spec fn zero_from(q: Seq<u8>, i: int) -> int
    decreases q.len() - i,
{
    if i >= q.len() || q[i] == 0 {
        i
    } else {
        zero_from(q, i + 1)
    }
}

/// The end of the (single) question of a DNS query: the QNAME terminator + QTYPE/QCLASS.
pub open spec fn question_end(q: Seq<u8>) -> int {
    zero_from(q, 12) + 5
}

/// Whether a DNS query gets an answer: it holds a header and a whole question, and the reply fits.
pub open spec fn answerable(q: Seq<u8>) -> bool {
    q.len() >= 12 && question_end(q) <= q.len() && question_end(q) + 16 <= 512
}

/// The answer to a DNS query: its id, "response + recursion available", its question count, one
/// answer; the question verbatim; then a pointer to the question's name, type A, class IN, TTL 60,
/// and the portal's address.
pub open spec fn answer_bytes(q: Seq<u8>) -> Seq<u8> {
    seq![q[0], q[1], 0x81u8, 0x80u8, q[4], q[5], 0u8, 1u8, 0u8, 0u8, 0u8, 0u8] + q.subrange(
        12,
        question_end(q),
    ) + seq![
        0xC0u8,
        0x0Cu8,
        0u8,
        1u8,
        0u8,
        1u8,
        0u8,
        0u8,
        0u8,
        60u8,
        0u8,
        4u8,
        192u8,
        168u8,
        4u8,
        1u8,
    ]
}

proof fn lemma_zero_from(q: Seq<u8>, i: int)
    requires
        0 <= i <= q.len(),
    ensures
        i <= zero_from(q, i) <= q.len(),
        forall|j: int| i <= j < zero_from(q, i) ==> #[trigger] q[j] != 0,
        zero_from(q, i) < q.len() ==> q[zero_from(q, i)] == 0,
    decreases q.len() - i,
{
    if i < q.len() && q[i] != 0 {
        lemma_zero_from(q, i + 1);
    }
}

/// Answer a DNS query with the portal's address, whatever name it asks for, so that the phone's
/// captive check pops the portal. `None` where the query holds no whole question or the reply
/// would not fit.
pub fn dns_response(query: &[u8]) -> (r: Option<Vec<u8>>)
    ensures
        match r {
            Some(resp) => answerable(query@) && resp@ == answer_bytes(query@),
            None => !answerable(query@),
        },
{
    let n: usize = query.len();
    if n < 12 {
        return None;
    }
    // Find the end of the (single) question: the QNAME terminator + QTYPE/QCLASS.
    let mut i: usize = 12;
    while i < n && query[i] != 0
        invariant
            n == query@.len(),
            12 <= i <= n,
            zero_from(query@, 12) == zero_from(query@, i as int),
        decreases n - i,
    {
        i = i + 1;
    }
    if n - i < 5 {
        return None;
    }
    let qend: usize = i + 5;  // 0x00 + qtype(2) + qclass(2)
    if qend > DNS_LIMIT - 16 {
        return None;
    }
    // Header: copy id, set "response + recursion available", 1 question, 1 answer.
    let mut resp: Vec<u8> = Vec::new();
    resp.push(query[0]);
    resp.push(query[1]);
    resp.push(0x81);
    resp.push(0x80);
    resp.push(query[4]);  // qdcount
    resp.push(query[5]);
    resp.push(0);  // ancount
    resp.push(1);
    resp.push(0);
    resp.push(0);
    resp.push(0);
    resp.push(0);
    // Question, copied verbatim.
    let ghost head = resp@;
    let mut k: usize = 12;
    while k < qend
        invariant
            12 <= k <= qend <= n,
            n == query@.len(),
            head.len() == 12,
            resp@ == head + query@.subrange(12, k as int),
        decreases qend - k,
    {
        resp.push(query[k]);
        proof {
            assert(query@.subrange(12, k + 1) =~= query@.subrange(12, k as int).push(
                query@[k as int],
            ));
            assert(resp@ =~= head + query@.subrange(12, k + 1));
        }
        k = k + 1;
    }
    // Answer: name pointer to 0x0C, type A, class IN, TTL 60, rdlength 4, AP IP.
    resp.push(0xC0);
    resp.push(0x0C);
    resp.push(0);
    resp.push(1);
    resp.push(0);
    resp.push(1);
    resp.push(0);
    resp.push(0);
    resp.push(0);
    resp.push(60);
    resp.push(0);
    resp.push(4);
    resp.push(AP_IP[0]);
    resp.push(AP_IP[1]);
    resp.push(AP_IP[2]);
    resp.push(AP_IP[3]);
    assert(resp@ =~= answer_bytes(query@));
    Some(resp)
}

/// An answer carries the query's id and its question, ends with the portal's address, and fits the
/// reply buffer.
pub proof fn lemma_dns_answer(q: Seq<u8>)
    requires
        answerable(q),
    ensures
        answer_bytes(q).len() == question_end(q) + 16,
        answer_bytes(q).len() <= 512,
        answer_bytes(q)[0] == q[0] && answer_bytes(q)[1] == q[1],
        answer_bytes(q).subrange(12, question_end(q)) == q.subrange(12, question_end(q)),
        answer_bytes(q).subrange(question_end(q) + 12, question_end(q) + 16) == AP_IP@,
{
    lemma_zero_from(q, 12);
    let e = question_end(q);
    assert(answer_bytes(q).subrange(12, e) =~= q.subrange(12, e));
    assert(answer_bytes(q).subrange(e + 12, e + 16) =~= AP_IP@);
}

/// A query is answered whenever it holds a header and a whole question (the name up to its zero byte,
/// then type and class) and the answer fits, whatever the name; a shorter one is not. The answer is a
/// response with one record: a pointer to the name asked for, of type A and class IN.
pub proof fn lemma_every_name_is_answered(q: Seq<u8>, end: int)
    requires
        12 <= end < q.len(),
        q[end] == 0,
        forall|j: int| 12 <= j < end ==> #[trigger] q[j] != 0,
    ensures
        answerable(q) <==> end + 5 <= q.len() && end + 5 + 16 <= 512,
        answerable(q) ==> ({
            let a = answer_bytes(q);
            &&& a.len() == end + 21
            &&& a.subrange(0, 2) == q.subrange(0, 2)
            &&& a[2] >= 128
            &&& a.subrange(4, 6) == q.subrange(4, 6)
            &&& a[6] == 0 && a[7] == 1
            &&& a.subrange(12, end + 5) == q.subrange(12, end + 5)
            &&& a[end + 5] == 0xC0 && a[end + 6] == 12
            &&& a[end + 7] == 0 && a[end + 8] == 1 && a[end + 9] == 0 && a[end + 10] == 1
            &&& a[end + 15] == 0 && a[end + 16] == 4
            &&& a.subrange(end + 17, end + 21) == AP_IP@
        }),
{
    lemma_zero_from(q, 12);
    assert(zero_from(q, 12) == end) by {
        let z = zero_from(q, 12);
        if z < end {
            assert(q[z] != 0);
        }
        if end < z {
            assert(q[end] != 0);
        }
    }
    if answerable(q) {
        let a = answer_bytes(q);
        assert(a.subrange(0, 2) =~= q.subrange(0, 2));
        assert(a.subrange(4, 6) =~= q.subrange(4, 6));
        assert(a.subrange(12, end + 5) =~= q.subrange(12, end + 5));
        assert(a.subrange(end + 17, end + 21) =~= AP_IP@);
    }
}

/// Most networks that are remembered.
pub const MAX_NETWORKS: usize = 16;

/// One scanned network for the setup page list.
#[derive(Debug)]
pub struct NetInfo {
    pub ssid: String,
    pub rssi: i8,
    pub secure: bool,
    /// Channel the AP is on.
    pub channel: u8,
    /// Advertised auth method, used as the connect threshold.
    pub auth: Option<Auth>,
}

/// One access point as a scan reports it.
#[derive(Debug)]
pub struct Found {
    pub ssid: String,
    pub signal_strength: i8,
    pub channel: u8,
    pub auth_method: Option<Auth>,
}

/// A remembered network.
pub struct Net {
    pub ssid: Seq<char>,
    pub rssi: i8,
    pub secure: bool,
    pub channel: u8,
    pub auth: Option<Auth>,
}

impl View for NetInfo {
    type V = Net;

    open spec fn view(&self) -> Net {
        Net {
            ssid: self.ssid@,
            rssi: self.rssi,
            secure: self.secure,
            channel: self.channel,
            auth: self.auth,
        }
    }
}

/// The remembered networks.
pub open spec fn nets(cache: Seq<NetInfo>) -> Seq<Net> {
    cache.map_values(|n: NetInfo| n@)
}

/// What is remembered of an access point.
pub open spec fn net_of(ap: Found) -> Net {
    Net {
        ssid: ap.ssid@,
        rssi: ap.signal_strength,
        secure: secured(ap.auth_method),
        channel: ap.channel,
        auth: ap.auth_method,
    }
}

/// Whether an access point has a name that can be remembered: not empty, and of at most 32 bytes.
pub open spec fn nameable(ssid: Seq<char>) -> bool {
    ssid.len() > 0 && utf8_len(ssid) <= 32
}

/// Whether a network of that name is among `c`.
pub open spec fn knows(c: Seq<Net>, ssid: Seq<char>) -> bool {
    exists|i: int| 0 <= i < c.len() && (#[trigger] c[i]).ssid == ssid
}

/// Whether no two networks have the same name.
pub open spec fn distinct(c: Seq<Net>) -> bool {
    forall|i: int, j: int|
        0 <= i < j < c.len() ==> (#[trigger] c[i]).ssid != (#[trigger] c[j]).ssid
}

/// The remembered networks once one access point has been merged in: the network of that name is
/// brought up to date, or the access point is added while there is room.
pub open spec fn merged(c: Seq<Net>, ap: Found) -> Seq<Net> {
    if !nameable(ap.ssid@) {
        c
    } else if knows(c, ap.ssid@) {
        c.map_values(
            |n: Net|
                if n.ssid == ap.ssid@ {
                    net_of(ap)
                } else {
                    n
                },
        )
    } else if c.len() < 16 {
        c.push(net_of(ap))
    } else {
        c
    }
}

/// The remembered networks once the first `n` access points of a scan have been merged in.
pub open spec fn merged_all(c: Seq<Net>, found: Seq<Found>, n: int) -> Seq<Net>
    decreases n,
{
    if n <= 0 {
        c
    } else {
        merged(merged_all(c, found, n - 1), found[n - 1])
    }
}

/// Whether a cache keeps to its capacities and names each network once.
pub open spec fn cache_wf(cache: Seq<NetInfo>) -> bool {
    &&& cache.len() <= MAX_NETWORKS
    &&& distinct(nets(cache))
    &&& forall|i: int| 0 <= i < cache.len() ==> nameable((#[trigger] cache[i]).ssid@)
}

/// Merging only ever adds: every network stays where it is, under its name; names stay distinct;
/// and there are never more than the cache can hold.
pub proof fn lemma_merge_only_adds(c: Seq<Net>, ap: Found)
    requires
        distinct(c),
        c.len() <= 16,
    ensures
        c.len() <= merged(c, ap).len() <= 16,
        forall|i: int| 0 <= i < c.len() ==> (#[trigger] merged(c, ap)[i]).ssid == c[i].ssid,
        distinct(merged(c, ap)),
        nameable(ap.ssid@) && (knows(c, ap.ssid@) || c.len() < 16) ==> knows(
            merged(c, ap),
            ap.ssid@,
        ),
{
    let m = merged(c, ap);
    assert forall|i: int, j: int| 0 <= i < j < m.len() implies (#[trigger] m[i]).ssid != (
    #[trigger] m[j]).ssid by {
        if j < c.len() {
            assert(c[i].ssid != c[j].ssid);
        } else {
            assert(c[i].ssid == m[i].ssid);
        }
    }
    if nameable(ap.ssid@) {
        if knows(c, ap.ssid@) {
            let i = choose|i: int| 0 <= i < c.len() && (#[trigger] c[i]).ssid == ap.ssid@;
            assert(m[i].ssid == ap.ssid@);
        } else if c.len() < 16 {
            assert(m[c.len() as int].ssid == ap.ssid@);
        }
    }
}

/// What a scan reports of a network is what is remembered of it afterwards, and of every other
/// network what was remembered before.
pub proof fn lemma_merge_updates(c: Seq<Net>, ap: Found, i: int)
    requires
        distinct(c),
        c.len() <= 16,
        nameable(ap.ssid@),
        0 <= i < merged(c, ap).len(),
    ensures
        ({
            let m = merged(c, ap)[i];
            &&& m.ssid == ap.ssid@ ==> m.rssi == ap.signal_strength && m.channel == ap.channel
                && m.auth == ap.auth_method && (m.secure <==> ap.auth_method is Some
                && ap.auth_method->0 != Auth::Open)
            &&& m.ssid != ap.ssid@ ==> i < c.len() && m == c[i]
        }),
{
    if !knows(c, ap.ssid@) && i < c.len() {
        assert(c[i].ssid != ap.ssid@);
    }
}

/// A network found is remembered if it has a name of at most 32 bytes, as long as there is room; one
/// without a name or with a longer one changes nothing.
pub proof fn lemma_found_is_remembered(c: Seq<Net>, ap: Found)
    requires
        distinct(c),
        c.len() <= 16,
    ensures
        ap.ssid@.len() > 0 && utf8_len(ap.ssid@) <= 32 && c.len() < 16 ==> exists|i: int|
            0 <= i < merged(c, ap).len() && (#[trigger] merged(c, ap)[i]).ssid == ap.ssid@,
        ap.ssid@.len() == 0 || utf8_len(ap.ssid@) > 32 ==> merged(c, ap) == c,
        merged(c, ap).len() <= c.len() + 1,
        c.len() == 16 ==> merged(c, ap).len() == 16,
{
    lemma_merge_only_adds(c, ap);
}

/// A whole scan only ever adds, too.
pub proof fn lemma_scan_only_adds(c: Seq<Net>, found: Seq<Found>, n: int)
    requires
        distinct(c),
        c.len() <= 16,
        0 <= n <= found.len(),
    ensures
        c.len() <= merged_all(c, found, n).len() <= 16,
        forall|i: int|
            0 <= i < c.len() ==> (#[trigger] merged_all(c, found, n)[i]).ssid == c[i].ssid,
        distinct(merged_all(c, found, n)),
    decreases n,
{
    if n > 0 {
        lemma_scan_only_adds(c, found, n - 1);
        let before = merged_all(c, found, n - 1);
        lemma_merge_only_adds(before, found[n - 1]);
        assert forall|i: int| 0 <= i < c.len() implies (#[trigger] merged_all(c, found, n)[i]).ssid
            == c[i].ssid by {
            assert(merged(before, found[n - 1])[i].ssid == before[i].ssid);
        }
    }
}

/// The position of the network of that name, or the length of the list.
fn find(cache: &Vec<NetInfo>, ssid: &String) -> (r: usize)
    ensures
        0 <= r <= cache@.len(),
        forall|j: int| 0 <= j < r ==> (#[trigger] cache@[j]).ssid@ != ssid@,
        r < cache@.len() ==> cache@[r as int].ssid@ == ssid@,
{
    let mut i: usize = 0;
    while i < cache.len()
        invariant
            0 <= i <= cache@.len(),
            forall|j: int| 0 <= j < i ==> (#[trigger] cache@[j]).ssid@ != ssid@,
        decreases cache@.len() - i,
    {
        if cache[i].ssid == *ssid {
            return i;
        }
        i = i + 1;
    }
    i
}

/// Merge one access point into the cache.
fn merge_one(cache: &mut Vec<NetInfo>, ap: &Found)
    requires
        cache_wf(old(cache)@),
    ensures
        cache_wf(final(cache)@),
        nets(final(cache)@) == merged(nets(old(cache)@), *ap),
{
    let ghost before = cache@;
    let ghost c = nets(before);
    // A name that does not fit is as good as none.
    let mut ssid = String::new();
    proof {
        lemma_ascii_len(Seq::<char>::empty());
    }
    let _ = crate::text::put::<32>(&mut ssid, ap.ssid.as_str());
    assert(Seq::<char>::empty() + ap.ssid@ =~= ap.ssid@);
    if ssid.as_str().is_empty() {
        return ;
    }
    let secure: bool = is_secure(ap.auth_method);
    let i: usize = find(cache, &ssid);
    if i < cache.len() {
        let entry = NetInfo {
            ssid,
            rssi: ap.signal_strength,
            secure,
            channel: ap.channel,
            auth: ap.auth_method,
        };
        let ghost new = entry@;
        cache.set(i, entry);
        proof {
            assert(c[i as int].ssid == ap.ssid@);
            assert(knows(c, ap.ssid@));
            assert forall|j: int| 0 <= j < before.len() implies #[trigger] nets(cache@)[j]
                == merged(c, *ap)[j] by {
                if j < i {
                    assert(c[j].ssid != ap.ssid@) by {
                        assert(before[j].ssid@ != ap.ssid@);
                    }
                } else if j > i {
                    assert(c[i as int].ssid != c[j].ssid);
                }
            }
            assert(nets(cache@) =~= merged(c, *ap));
            lemma_merge_only_adds(c, *ap);
        }
    } else if cache.len() < MAX_NETWORKS {
        proof {
            assert(!knows(c, ap.ssid@)) by {
                if knows(c, ap.ssid@) {
                    let j = choose|j: int| 0 <= j < c.len() && (#[trigger] c[j]).ssid == ap.ssid@;
                    assert(before[j].ssid@ == ap.ssid@);
                }
            }
        }
        cache.push(
            NetInfo {
                ssid,
                rssi: ap.signal_strength,
                secure,
                channel: ap.channel,
                auth: ap.auth_method,
            },
        );
        proof {
            assert(nets(cache@) =~= merged(c, *ap));
            lemma_merge_only_adds(c, *ap);
        }
    } else {
        proof {
            assert(!knows(c, ap.ssid@)) by {
                if knows(c, ap.ssid@) {
                    let j = choose|j: int| 0 <= j < c.len() && (#[trigger] c[j]).ssid == ap.ssid@;
                    assert(before[j].ssid@ == ap.ssid@);
                }
            }
        }
    }
}

/// Merge scan results into the cache by SSID rather than replacing it: the boot scan sees every
/// channel, but a later rescan with the AP up is pinned to the AP's channel and would otherwise
/// drop networks it couldn't reach. Merging means a rescan only ever adds.
pub fn refresh_scan(cache: &mut Vec<NetInfo>, found: &Vec<Found>)
    requires
        cache_wf(old(cache)@),
    ensures
        cache_wf(final(cache)@),
        nets(final(cache)@) == merged_all(nets(old(cache)@), found@, found@.len() as int),
{
    let ghost c = nets(cache@);
    let mut i: usize = 0;
    while i < found.len()
        invariant
            0 <= i <= found@.len(),
            cache_wf(cache@),
            nets(cache@) == merged_all(c, found@, i as int),
        decreases found@.len() - i,
    {
        merge_one(cache, &found[i]);
        i = i + 1;
    }
}

/// The connect threshold for the network of that name: what it advertised, or WPA2 where nothing
/// is known of it.
pub open spec fn threshold(c: Seq<Net>, ssid: Seq<char>) -> Auth
    decreases c.len(),
{
    if c.len() == 0 {
        Auth::Wpa2Personal
    } else if c[0].ssid == ssid {
        match c[0].auth {
            Some(a) => a,
            None => Auth::Wpa2Personal,
        }
    } else {
        threshold(c.drop_first(), ssid)
    }
}

proof fn lemma_threshold(c: Seq<Net>, ssid: Seq<char>, i: int)
    requires
        0 <= i <= c.len(),
        forall|j: int| 0 <= j < i ==> (#[trigger] c[j]).ssid != ssid,
        i < c.len() ==> c[i].ssid == ssid,
    ensures
        threshold(c, ssid) == (if i < c.len() && c[i].auth is Some {
            c[i].auth->0
        } else {
            Auth::Wpa2Personal
        }),
    decreases c.len(),
{
    if i > 0 {
        let t = c.drop_first();
        assert forall|j: int| 0 <= j < i - 1 implies (#[trigger] t[j]).ssid != ssid by {
            assert(c[j + 1].ssid != ssid);
        }
        assert(c[0].ssid != ssid);
        lemma_threshold(t, ssid, i - 1);
    }
}

/// A network is joined with the method that it advertised, or with WPA2 where it advertised none or
/// is not known.
pub proof fn lemma_threshold_is_advertised(c: Seq<Net>, ssid: Seq<char>, i: int)
    requires
        distinct(c),
    ensures
        0 <= i < c.len() && c[i].ssid == ssid && c[i].auth is Some ==> threshold(c, ssid)
            == c[i].auth->0,
        0 <= i < c.len() && c[i].ssid == ssid && c[i].auth is None ==> threshold(c, ssid)
            == Auth::Wpa2Personal,
        !knows(c, ssid) ==> threshold(c, ssid) == Auth::Wpa2Personal,
{
    if 0 <= i < c.len() && c[i].ssid == ssid {
        assert forall|j: int| 0 <= j < i implies (#[trigger] c[j]).ssid != ssid by {
            assert(c[j].ssid != c[i].ssid);
        }
        lemma_threshold(c, ssid, i);
    }
    if !knows(c, ssid) {
        assert forall|j: int| 0 <= j < c.len() implies (#[trigger] c[j]).ssid != ssid by {}
        lemma_threshold(c, ssid, c.len() as int);
    }
}

/// The connect threshold for joining the network `ssid`: its advertised auth from the scan.
pub fn join_auth(cache: &Vec<NetInfo>, ssid: &String) -> (r: Auth)
    ensures
        r == threshold(nets(cache@), ssid@),
{
    let i: usize = find(cache, ssid);
    proof {
        let c = nets(cache@);
        assert forall|j: int| 0 <= j < i implies (#[trigger] c[j]).ssid != ssid@ by {
            assert(cache@[j].ssid@ != ssid@);
        }
        lemma_threshold(c, ssid@, i as int);
    }
    if i < cache.len() {
        match cache[i].auth {
            Some(a) => a,
            None => Auth::Wpa2Personal,
        }
    } else {
        Auth::Wpa2Personal
    }
}

/// How often joining a network is tried.
pub const JOIN_ATTEMPTS: u8 = 4;

/// The attempts to join a network: how many have failed.
#[derive(Clone, Copy, Debug, PartialEq, Eq, Structural)]
pub struct Join {
    pub failed: u8,
}

/// What follows an attempt to join.
#[derive(Clone, Copy, Debug, PartialEq, Eq, Structural)]
pub enum JoinStep {
    /// Joined: save the credentials and restart.
    Save,
    /// Failed: try again in a second.
    Again,
    /// Failed for the last time: bring the portal back so the user retries.
    Readvertise,
}

/// What follows an attempt to join, after so many that failed.
pub open spec fn step_after(failed: int, joined: bool) -> JoinStep {
    if joined {
        JoinStep::Save
    } else if failed + 1 < JOIN_ATTEMPTS {
        JoinStep::Again
    } else {
        JoinStep::Readvertise
    }
}

/// Joining is tried four times and no more: the portal comes back exactly with the fourth failure,
/// and the credentials are saved as soon as an attempt succeeds, whichever it is.
pub proof fn lemma_join_attempts(failed: int)
    requires
        0 <= failed < 4,
    ensures
        step_after(failed, true) == JoinStep::Save,
        step_after(failed, false) == JoinStep::Again <==> failed < 3,
        step_after(failed, false) == JoinStep::Readvertise <==> failed == 3,
{
}

impl Join {
    /// Nothing tried yet.
    pub fn new() -> (r: Join)
        ensures
            r == (Join { failed: 0 }),
    {
        Join { failed: 0 }
    }

    /// Take the outcome of an attempt and tell what follows.
    pub fn attempted(&mut self, joined: bool) -> (r: JoinStep)
        requires
            old(self).failed < JOIN_ATTEMPTS,
        ensures
            final(self).failed == (if joined {
                old(self).failed as int
            } else {
                old(self).failed + 1
            }),
            r == (if joined {
                JoinStep::Save
            } else if old(self).failed + 1 < JOIN_ATTEMPTS {
                JoinStep::Again
            } else {
                JoinStep::Readvertise
            }),
            r == step_after(old(self).failed as int, joined),
    {
        if joined {
            return JoinStep::Save;
        }
        self.failed = self.failed + 1;
        if self.failed < JOIN_ATTEMPTS {
            JoinStep::Again
        } else {
            JoinStep::Readvertise
        }
    }
}

/// Capacity of the scan list sent to the setup page, in bytes.
pub const SCAN_JSON_CAP: usize = 768;

/// A name inside JSON quotes: quotes and backslashes are escaped.
pub open spec fn escaped(s: Seq<char>) -> Seq<char>
    decreases s.len(),
{
    if s.len() == 0 {
        Seq::empty()
    } else if s.last() == '"' || s.last() == '\\' {
        escaped(s.drop_last()) + seq!['\\', s.last()]
    } else {
        escaped(s.drop_last()) + seq![s.last()]
    }
}

/// What a JSON reader makes of the characters between two quotes: a backslash stands for the
/// character behind it.
pub open spec fn unescaped(t: Seq<char>) -> Seq<char>
    decreases t.len(),
{
    if t.len() == 0 {
        Seq::empty()
    } else if t[0] == '\\' && t.len() > 1 {
        seq![t[1]] + unescaped(t.skip(2))
    } else {
        seq![t[0]] + unescaped(t.skip(1))
    }
}

/// Escaping goes character by character.
proof fn lemma_escaped_concat(a: Seq<char>, b: Seq<char>)
    ensures
        escaped(a + b) == escaped(a) + escaped(b),
    decreases b.len(),
{
    if b.len() == 0 {
        assert(a + b =~= a);
        assert(escaped(a) + escaped(b) =~= escaped(a));
    } else {
        assert((a + b).drop_last() =~= a + b.drop_last());
        assert((a + b).last() == b.last());
        lemma_escaped_concat(a, b.drop_last());
        assert(escaped(a + b) =~= escaped(a) + escaped(b));
    }
}

/// A reader gets back the name that was escaped, and no quote in it ends the text early: each stands
/// behind a backslash.
pub proof fn lemma_names_read_back(s: Seq<char>)
    ensures
        unescaped(escaped(s)) == s,
        forall|i: int|
            0 <= i < escaped(s).len() && #[trigger] escaped(s)[i] == '"' ==> i > 0 && escaped(s)[i - 1]
                == '\\',
    decreases s.len(),
{
    if s.len() > 0 {
        let c = s[0];
        let rest = s.skip(1);
        lemma_names_read_back(rest);
        assert(s =~= seq![c] + rest);
        lemma_escaped_concat(seq![c], rest);
        assert(seq![c].drop_last() =~= Seq::<char>::empty());
        assert(seq![c].last() == c);
        reveal_with_fuel(escaped, 2);
        let one = escaped(seq![c]);
        let t = escaped(s);
        assert(t == one + escaped(rest));
        if c == '"' || c == '\\' {
            assert(one =~= seq!['\\', c]);
            assert(t.skip(2) =~= escaped(rest));
            assert(seq![t[1]] + unescaped(t.skip(2)) =~= s);
        } else {
            assert(one =~= seq![c]);
            assert(t.skip(1) =~= escaped(rest));
            assert(seq![t[0]] + unescaped(t.skip(1)) =~= s);
        }
        assert forall|i: int| 0 <= i < t.len() && #[trigger] t[i] == '"' implies i > 0 && t[i - 1]
            == '\\' by {
            if i >= one.len() {
                assert(escaped(rest)[i - one.len()] == '"');
            }
        }
    } else {
        assert(s =~= Seq::<char>::empty());
    }
}

/// A network as the setup page reads it.
pub open spec fn net_json(n: Net) -> Seq<char> {
    "{\"ssid\":\""@ + escaped(n.ssid) + "\",\"rssi\":"@ + signed_dec(n.rssi as int)
        + ",\"secure\":"@ + (if n.secure {
        "true"@
    } else {
        "false"@
    }) + "}"@
}

/// The first `k` networks of a list, opened with a bracket and not yet closed.
pub open spec fn opened(c: Seq<Net>, k: int) -> Seq<char>
    decreases k,
{
    if k <= 0 {
        "["@
    } else if k == 1 {
        opened(c, 0) + net_json(c[0])
    } else {
        opened(c, k - 1) + (","@ + net_json(c[k - 1]))
    }
}

/// How many of the first `k` networks fit in the list with its closing bracket.
pub open spec fn fitting(c: Seq<Net>, k: int) -> int
    decreases k,
{
    if k <= 0 || utf8_len(opened(c, k)) + 1 <= SCAN_JSON_CAP {
        k
    } else {
        fitting(c, k - 1)
    }
}

/// The scan list: as many networks as fit, in order, always closed.
pub open spec fn scan_text(c: Seq<Net>) -> Seq<char> {
    opened(c, fitting(c, c.len() as int)) + "]"@
}

/// A longer list takes more bytes.
proof fn lemma_opened_grows(c: Seq<Net>, i: int, k: int)
    requires
        0 <= i <= k,
    ensures
        utf8_len(opened(c, i)) <= utf8_len(opened(c, k)),
    decreases k,
{
    if i < k {
        lemma_opened_grows(c, i, k - 1);
        if k == 1 {
            lemma_utf8_len_concat(opened(c, 0), net_json(c[0]));
        } else {
            lemma_utf8_len_concat(opened(c, k - 1), ","@ + net_json(c[k - 1]));
        }
    }
}

/// The networks that fit are those before the first that does not.
proof fn lemma_fitting(c: Seq<Net>, i: int, k: int)
    requires
        0 <= i <= k,
        i == 0 || utf8_len(opened(c, i)) + 1 <= SCAN_JSON_CAP,
        i < k ==> utf8_len(opened(c, i + 1)) + 1 > SCAN_JSON_CAP,
    ensures
        fitting(c, k) == i,
    decreases k,
{
    if i < k {
        lemma_opened_grows(c, i + 1, k);
        lemma_fitting(c, i, k - 1);
    }
}

/// The list always fits its buffer, and holds every network where all of them fit.
pub proof fn lemma_scan_text(c: Seq<Net>)
    ensures
        utf8_len(scan_text(c)) <= SCAN_JSON_CAP,
        0 <= fitting(c, c.len() as int) <= c.len(),
        utf8_len(opened(c, c.len() as int)) + 1 <= SCAN_JSON_CAP ==> scan_text(c) == opened(
            c,
            c.len() as int,
        ) + "]"@,
{
    lemma_fitting_bounds(c, c.len() as int);
    reveal_strlit("]");
    reveal_strlit("[");
    lemma_ascii_len("]"@);
    lemma_ascii_len("["@);
    lemma_utf8_len_concat(opened(c, fitting(c, c.len() as int)), "]"@);
}

/// The list holds its networks in order, and as many as fit: either all of them, or one more would
/// not fit. A longer list begins like a shorter one.
pub proof fn lemma_scan_text_is_full(c: Seq<Net>, i: int, k: int)
    requires
        0 <= i <= k <= c.len(),
    ensures
        opened(c, i).is_prefix_of(opened(c, k)),
        i < k ==> opened(c, i + 1) == opened(c, i) + (if i == 0 {
            Seq::empty()
        } else {
            seq![',']
        }) + net_json(c[i]),
        fitting(c, k) < k ==> utf8_len(opened(c, fitting(c, k) + 1)) + 1 > 768,
    decreases k,
{
    reveal_strlit(",");
    if i < k {
        assert(","@ =~= seq![',']);
        assert(opened(c, i + 1) =~= opened(c, i) + (if i == 0 {
            Seq::empty()
        } else {
            seq![',']
        }) + net_json(c[i]));
        lemma_scan_text_is_full(c, i, k - 1);
        let shorter = opened(c, k - 1);
        let longer = opened(c, k);
        assert(shorter =~= longer.take(shorter.len() as int));
        assert(opened(c, i) =~= longer.take(opened(c, i).len() as int));
    } else if k > 0 {
        lemma_scan_text_is_full(c, k - 1, k - 1);
    }
}

/// A network's entry gives its name between quotes, its signal strength and whether it needs a
/// password.
pub proof fn lemma_net_json(n: Net)
    ensures
        ({
            let t = net_json(n);
            let name = escaped(n.ssid);
            let rssi = signed_dec(n.rssi as int);
            let after = 9 + name.len() as int;
            &&& t[8] == '"' && t.subrange(9, after) == name && t[after] == '"'
            &&& t.subrange(after + 9, after + 9 + rssi.len() as int) == rssi
            &&& n.rssi >= 0 ==> crate::text::value(rssi) == n.rssi
            &&& n.rssi < 0 ==> rssi[0] == '-' && crate::text::value(rssi.drop_first()) == -n.rssi
            &&& n.secure <==> t.subrange(t.len() - 5, t.len() - 1) == seq!['t', 'r', 'u', 'e']
            &&& !n.secure ==> t.subrange(t.len() - 6, t.len() - 1) == seq!['f', 'a', 'l', 's', 'e']
            &&& t[0] == '{' && t.last() == '}'
        }),
{
    reveal_strlit("{\"ssid\":\"");
    reveal_strlit("\",\"rssi\":");
    reveal_strlit(",\"secure\":");
    reveal_strlit("true");
    reveal_strlit("false");
    reveal_strlit("}");
    let t = net_json(n);
    let name = escaped(n.ssid);
    let rssi = signed_dec(n.rssi as int);
    let after = 9 + name.len() as int;
    crate::text::lemma_signed_dec_value(n.rssi as int);
    assert(t.subrange(9, after) =~= name);
    assert(t.subrange(after + 9, after + 9 + rssi.len() as int) =~= rssi);
    if n.secure {
        assert(t.subrange(t.len() - 5, t.len() - 1) =~= seq!['t', 'r', 'u', 'e']);
    } else {
        assert(t.subrange(t.len() - 6, t.len() - 1) =~= seq!['f', 'a', 'l', 's', 'e']);
        assert(t.subrange(t.len() - 5, t.len() - 1)[0] == 'a');
    }
}

proof fn lemma_fitting_bounds(c: Seq<Net>, k: int)
    requires
        0 <= k,
    ensures
        0 <= fitting(c, k) <= k,
        utf8_len(opened(c, fitting(c, k))) + 1 <= SCAN_JSON_CAP,
    decreases k,
{
    reveal_strlit("[");
    lemma_ascii_len("["@);
    if k > 0 {
        lemma_fitting_bounds(c, k - 1);
    }
}

/// A name with its quotes and backslashes escaped.
fn escape(s: &str) -> (r: String)
    requires
        utf8_len(s@) <= 32,
    ensures
        r@ == escaped(s@),
        utf8_len(r@) <= 2 * utf8_len(s@),
{
    proof {
        reveal_strlit("\\");
        lemma_ascii_len("\\"@);
        lemma_ascii_len(Seq::<char>::empty());
        assert(s@.take(0) =~= Seq::<char>::empty());
    }
    let mut out = String::new();
    let n: usize = s.unicode_len();
    let mut i: usize = 0;
    while i < n
        invariant
            0 <= i <= n,
            n == s@.len(),
            utf8_len(s@) <= 32,
            "\\"@ == seq!['\\'],
            utf8_len("\\"@) == 1,
            out@ == escaped(s@.take(i as int)),
            utf8_len(out@) <= 2 * utf8_len(s@.take(i as int)),
            utf8_len(s@.take(i as int)) <= utf8_len(s@),
        decreases n - i,
    {
        let c: char = s.get_char(i);
        let piece = s.substring_char(i, i + 1);
        let ghost before = out@;
        proof {
            assert(piece@ =~= seq![c]);
            assert(s@.take(i + 1) =~= s@.take(i as int) + piece@);
            lemma_utf8_len_concat(s@.take(i as int), piece@);
            assert(s@ =~= s@.take(i + 1) + s@.skip(i + 1));
            lemma_utf8_len_concat(s@.take(i + 1), s@.skip(i + 1));
            assert(s@.take(i + 1).drop_last() =~= s@.take(i as int));
            assert(s@.take(i + 1).last() == c);
            crate::text::lemma_utf8_len_bounds(piece@);
        }
        if c == '"' || c == '\\' {
            append::<128>(&mut out, "\\");
        }
        append::<128>(&mut out, piece);
        assert(out@ =~= escaped(s@.take(i + 1)));
        i = i + 1;
    }
    assert(s@.take(n as int) =~= s@);
    out
}

/// A network as the setup page reads it.
fn format_net(n: &NetInfo) -> (r: String)
    requires
        nameable(n.ssid@),
    ensures
        r@ == net_json(n@),
        utf8_len(r@) <= 128,
{
    proof {
        reveal_strlit("{\"ssid\":\"");
        reveal_strlit("\",\"rssi\":");
        reveal_strlit(",\"secure\":");
        reveal_strlit("true");
        reveal_strlit("false");
        reveal_strlit("}");
        lemma_ascii_len("{\"ssid\":\""@);
        lemma_ascii_len("\",\"rssi\":"@);
        lemma_ascii_len(",\"secure\":"@);
        lemma_ascii_len("true"@);
        lemma_ascii_len("false"@);
        lemma_ascii_len("}"@);
        lemma_ascii_len(Seq::<char>::empty());
        let magnitude = if n.rssi < 0 {
            (-n.rssi) as nat
        } else {
            n.rssi as nat
        };
        reveal_with_fuel(crate::text::pow10, 4);
        crate::text::lemma_dec(magnitude, 3);
        lemma_ascii_len(signed_dec(n.rssi as int));
    }
    let name = escape(n.ssid.as_str());
    let rssi = signed_decimal(n.rssi as i64);
    let mut out = String::new();
    append::<128>(&mut out, "{\"ssid\":\"");
    append::<128>(&mut out, name.as_str());
    append::<128>(&mut out, "\",\"rssi\":");
    append::<128>(&mut out, rssi.as_str());
    append::<128>(&mut out, ",\"secure\":");
    if n.secure {
        append::<128>(&mut out, "true");
    } else {
        append::<128>(&mut out, "false");
    }
    append::<128>(&mut out, "}");
    assert(out@ =~= net_json(n@));
    out
}

/// The scan list as JSON for the setup page. It stops cleanly at the first network that does not
/// fit the buffer, and is always closed, so the page can always parse it.
pub fn scan_json(cache: &Vec<NetInfo>) -> (r: String)
    requires
        cache_wf(cache@),
    ensures
        r@ == scan_text(nets(cache@)),
        utf8_len(r@) <= SCAN_JSON_CAP,
{
    let ghost c = nets(cache@);
    proof {
        reveal_strlit("[");
        reveal_strlit("]");
        reveal_strlit(",");
        lemma_ascii_len("["@);
        lemma_ascii_len("]"@);
        lemma_ascii_len(","@);
        lemma_ascii_len(Seq::<char>::empty());
        lemma_scan_text(c);
    }
    let mut out = String::new();
    append::<768>(&mut out, "[");
    assert(out@ =~= opened(c, 0));
    let mut i: usize = 0;
    let mut full: bool = false;
    while i < cache.len() && !full
        invariant
            cache_wf(cache@),
            c == nets(cache@),
            0 <= i <= cache@.len(),
            utf8_len(","@) == 1,
            out@ == opened(c, i as int),
            utf8_len(out@) + 1 <= SCAN_JSON_CAP,
            full ==> i < cache@.len() && utf8_len(opened(c, i + 1)) + 1 > SCAN_JSON_CAP,
        decreases
                cache@.len() - i,
                if full {
                    0int
                } else {
                    1int
                },
    {
        let entry = format_net(&cache[i]);
        assert(entry@ == net_json(c[i as int]));
        let mut piece = String::new();
        proof {
            lemma_ascii_len(Seq::<char>::empty());
        }
        if i > 0 {
            append::<256>(&mut piece, ",");
        }
        append::<256>(&mut piece, entry.as_str());
        proof {
            if i > 0 {
                assert(piece@ =~= ","@ + net_json(c[i as int]));
            } else {
                assert(piece@ =~= net_json(c[0]));
            }
            assert(opened(c, i + 1) == opened(c, i as int) + piece@);
            lemma_utf8_len_concat(opened(c, i as int), piece@);
        }
        if out.as_str().len() + piece.as_str().len() + 1 <= SCAN_JSON_CAP {
            append::<768>(&mut out, piece.as_str());
            i = i + 1;
        } else {
            full = true;
        }
    }
    proof {
        lemma_fitting(c, i as int, c.len() as int);
    }
    append::<768>(&mut out, "]");
    out
}

} // verus!
