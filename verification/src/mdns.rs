//! Minimal multicast-DNS responder logic so `zugli.local` resolves on the home network.
//!
//! mDNS is a tiny corner of DNS: a host listens on a multicast group and, when it sees a query for
//! its own name, multicasts an `A` answer. We only own a single name, so the logic is small: parse
//! the questions, match our labels, emit one answer record.

use vstd::prelude::*;

verus! {

/// The mDNS port.
pub const MDNS_PORT: u16 = 5353;

/// The IP TTL that mDNS packets must be sent with; resolvers silently drop responses that arrive
/// with any other.
pub const MDNS_TTL: u8 = 255;

/// The first label of `zugli.local`.
pub const LABEL_HOST: [u8; 5] = [0x7A, 0x75, 0x67, 0x6C, 0x69];

/// The second label of `zugli.local`.
pub const LABEL_LOCAL: [u8; 5] = [0x6C, 0x6F, 0x63, 0x61, 0x6C];

/// The labels of the host's own name.
pub open spec fn own_labels() -> Seq<Seq<u8>> {
    seq![LABEL_HOST@, LABEL_LOCAL@]
}

/// An ASCII letter in lower case; any other byte itself.
pub open spec fn lower(b: u8) -> u8 {
    if 65 <= b <= 90 {
        (b + 32) as u8
    } else {
        b
    }
}

/// Whether two labels are the same but for the case of ASCII letters.
pub open spec fn same_label(a: Seq<u8>, b: Seq<u8>) -> bool {
    a.len() == b.len() && forall|i: int| 0 <= i < a.len() ==> lower(#[trigger] a[i]) == lower(b[i])
}

/// The labels of the uncompressed name at offset `i` of a packet, and the offset just past its
/// root label; `None` if the name runs out of the packet or uses a compression pointer.
pub open spec fn name_at(pkt: Seq<u8>, i: int) -> Option<(Seq<Seq<u8>>, int)>
    decreases pkt.len() - i,
{
    if i < 0 || i >= pkt.len() {
        None
    } else if pkt[i] == 0 {
        Some((Seq::empty(), i + 1))
    } else if pkt[i] >= 64 || i + 1 + pkt[i] > pkt.len() {
        None
    } else {
        match name_at(pkt, i + 1 + pkt[i]) {
            None => None,
            Some((rest, end)) => Some(
                (seq![pkt.subrange(i + 1, i + 1 + pkt[i])] + rest, end),
            ),
        }
    }
}

/// Whether `labels` are the host's own, from its label `idx` on.
pub open spec fn matches_from(labels: Seq<Seq<u8>>, idx: int) -> bool {
    &&& idx + labels.len() == 2
    &&& forall|k: int| 0 <= k < labels.len() ==> same_label(#[trigger] labels[k], own_labels()[idx + k])
}

/// Whether `labels` are those of the host's own name.
pub open spec fn is_own_name(labels: Seq<Seq<u8>>) -> bool {
    matches_from(labels, 0)
}

/// Whether the label `pkt[start..start + len]` is the host's label `idx`, up to case.
fn label_matches(pkt: &[u8], start: usize, len: usize, idx: usize) -> (r: bool)
    requires
        start + len <= pkt@.len(),
    ensures
        r == (idx < 2 && same_label(
            pkt@.subrange(start as int, start + len),
            own_labels()[idx as int],
        )),
{
    if idx >= 2 || len != 5 {
        return false;
    }
    let ghost label = pkt@.subrange(start as int, start + len);
    let ghost own = own_labels()[idx as int];
    let n: usize = pkt.len();
    let mut k: usize = 0;
    while k < 5
        invariant
            0 <= k <= 5,
            idx < 2,
            len == 5,
            start + len <= n == pkt@.len(),
            label == pkt@.subrange(start as int, start + len),
            own == own_labels()[idx as int],
            forall|j: int| 0 <= j < k ==> lower(#[trigger] label[j]) == lower(own[j]),
        decreases 5 - k,
    {
        let want: u8 = if idx == 0 {
            LABEL_HOST[k]
        } else {
            LABEL_LOCAL[k]
        };
        let b: u8 = pkt[start + k];
        assert(b == label[k as int] && want == own[k as int]);
        let b_lower: u8 = if b >= 65 && b <= 90 {
            b + 32
        } else {
            b
        };
        let want_lower: u8 = if want >= 65 && want <= 90 {
            want + 32
        } else {
            want
        };
        if b_lower != want_lower {
            return false;
        }
        k = k + 1;
    }
    true
}

/// Walk one uncompressed QNAME from `start`. Returns `(whether it equals zugli.local, offset just
/// past the root label)`, or `None` if the name is malformed or uses a compression pointer (not
/// expected in a query name).
pub fn walk_name(pkt: &[u8], start: usize) -> (r: Option<(bool, usize)>)
    ensures
        match name_at(pkt@, start as int) {
            None => r is None,
            Some((labels, end)) => r matches Some((own, after)) && own == is_own_name(labels)
                && after == end && start < after <= pkt@.len(),
        },
{
    let mut i: usize = start;
    let mut idx: usize = 0;  // which of our labels we expect next
    let mut matches: bool = true;
    while i < pkt.len()
        invariant
            start <= i,
            idx <= i,
            idx <= pkt@.len(),
            i > pkt@.len() ==> i == start,
            match name_at(pkt@, i as int) {
                None => name_at(pkt@, start as int) is None,
                Some((labels, end)) => name_at(pkt@, start as int) matches Some((all, e)) && e
                    == end && is_own_name(all) == (matches && matches_from(labels, idx as int)),
            },
        decreases pkt@.len() - i,
    {
        let len: usize = pkt[i] as usize;
        if len == 0 {
            // Root label ends the name; it matched only if we consumed exactly our labels.
            proof {
                let labels = Seq::<Seq<u8>>::empty();
                assert(name_at(pkt@, i as int) == Some((labels, i + 1)));
                assert(matches_from(labels, idx as int) == (idx == 2));
            }
            return Some((matches && idx == 2, i + 1));
        }
        if len >= 64 {
            return None;  // compression pointer
        }
        let begin: usize = i + 1;
        if len > pkt.len() - begin {
            return None;
        }
        // A mismatch fails the name, but we keep walking to find the next question's offset.
        let this: bool = label_matches(pkt, begin, len, idx);
        proof {
            let label = pkt@.subrange(begin as int, begin + len);
            match name_at(pkt@, begin + len) {
                None => {},
                Some((rest, end)) => {
                    let labels = seq![label] + rest;
                    assert(name_at(pkt@, i as int) == Some((labels, end)));
                    lemma_matches_step(label, rest, idx as int);
                },
            }
        }
        matches = matches && this;
        idx = idx + 1;
        i = begin + len;
    }
    None
}

/// A name matches from a label on if that label does and the rest matches from the next.
proof fn lemma_matches_step(label: Seq<u8>, rest: Seq<Seq<u8>>, idx: int)
    requires
        0 <= idx,
    ensures
        matches_from(seq![label] + rest, idx) == (idx < 2 && same_label(label, own_labels()[idx])
            && matches_from(rest, idx + 1)),
{
    let labels = seq![label] + rest;
    assert(labels[0] == label);
    if matches_from(labels, idx) {
        assert(same_label(labels[0], own_labels()[idx + 0]));
        assert forall|k: int| 0 <= k < rest.len() implies same_label(
            #[trigger] rest[k],
            own_labels()[idx + 1 + k],
        ) by {
            assert(labels[k + 1] == rest[k]);
            assert(same_label(labels[k + 1], own_labels()[idx + (k + 1)]));
        }
    }
    if idx < 2 && same_label(label, own_labels()[idx]) && matches_from(rest, idx + 1) {
        assert forall|k: int| 0 <= k < labels.len() implies same_label(
            #[trigger] labels[k],
            own_labels()[idx + k],
        ) by {
            if k > 0 {
                assert(labels[k] == rest[k - 1]);
                assert(same_label(rest[k - 1], own_labels()[idx + 1 + (k - 1)]));
            }
        }
    }
}

/// Two bytes of a packet as a number, most significant first.
pub open spec fn be16(pkt: Seq<u8>, i: int) -> int {
    pkt[i] * 256 + pkt[i + 1]
}

/// Whether one of `n` questions from offset `i` on asks for the host by A (1) or ANY (255) record.
/// A question that cannot be read ends the search.
pub open spec fn asks(pkt: Seq<u8>, i: int, n: int) -> bool
    decreases n,
{
    if n <= 0 {
        false
    } else {
        match name_at(pkt, i) {
            None => false,
            Some((labels, end)) => if end + 2 > pkt.len() {
                false
            } else {
                let qtype = be16(pkt, end);
                (is_own_name(labels) && (qtype == 1 || qtype == 255)) || asks(pkt, end + 4, n - 1)
            },
        }
    }
}

/// Does *any* question in the packet ask for our host (`zugli.local`) by A or ANY record?
///
/// We scan every question, not just the first: iOS/macOS bundle the `A` and `AAAA` questions for a
/// name into one query packet, and the `AAAA` one can come first.
pub fn question_matches(pkt: &[u8]) -> (r: bool)
    ensures
        r == (pkt@.len() >= 6 && asks(pkt@, 12, be16(pkt@, 4))),
{
    if pkt.len() < 6 {
        return false;
    }
    let qdcount: usize = pkt[4] as usize * 256 + pkt[5] as usize;
    let mut i: usize = 12;  // first QNAME, just past the 12-byte header
    let mut left: usize = qdcount;
    while left > 0
        invariant
            6 <= pkt@.len(),
            asks(pkt@, 12, be16(pkt@, 4)) == asks(pkt@, i as int, left as int),
        decreases left,
    {
        let (name_ok, after_name): (bool, usize) = match walk_name(pkt, i) {
            Some(v) => v,
            None => return false,  // malformed or compressed: give up on this packet
        };
        // QTYPE (2) + QCLASS (2) follow the name. (QCLASS is ignored: its top bit is the
        // unicast-response request, the rest is IN; either way we answer over multicast.)
        if pkt.len() - after_name < 2 {
            return false;
        }
        let qtype: usize = pkt[after_name] as usize * 256 + pkt[after_name + 1] as usize;
        if name_ok && (qtype == 1 || qtype == 255) {
            return true;
        }
        if pkt.len() - after_name < 4 {
            // Nothing follows, so no further question can be read.
            assert(!asks(pkt@, after_name + 4, left - 1)) by {
                assert(name_at(pkt@, after_name + 4) is None);
            }
            return false;
        }
        i = after_name + 4;  // skip QTYPE + QCLASS to the next question
        left = left - 1;
    }
    false
}

/// Whether to answer a packet: it is a query (QR bit clear) that asks for our name.
pub open spec fn answers(pkt: Seq<u8>) -> bool {
    pkt.len() >= 12 && pkt[2] < 128 && asks(pkt, 12, be16(pkt, 4))
}

/// Whether to answer a packet: only queries that ask for our name are.
pub fn should_answer(pkt: &[u8]) -> (r: bool)
    ensures
        r == answers(pkt@),
{
    if pkt.len() < 12 {
        return false;
    }
    let flags: u8 = pkt[2];
    assert(flags & 0x80 != 0 <==> flags >= 128) by (bit_vector);
    if flags & 0x80 != 0 {
        return false;
    }
    question_matches(pkt)
}

/// The host's own name as it stands in a packet: each label behind its length, then the root.
pub open spec fn own_name_bytes() -> Seq<u8> {
    seq![
        5u8,
        0x7Au8,
        0x75u8,
        0x67u8,
        0x6Cu8,
        0x69u8,
        5u8,
        0x6Cu8,
        0x6Fu8,
        0x63u8,
        0x61u8,
        0x6Cu8,
        0u8,
    ]
}

/// The response packet: one authoritative `A` record for `zugli.local` with the cache-flush bit
/// set and a TTL of 120 s.
pub open spec fn response_bytes(ip: Seq<u8>) -> Seq<u8> {
    seq![0u8, 0u8, 0x84u8, 0u8, 0u8, 0u8, 0u8, 1u8, 0u8, 0u8, 0u8, 0u8] + own_name_bytes() + seq![
        0u8,
        1u8,
        0x80u8,
        1u8,
        0u8,
        0u8,
        0u8,
        120u8,
        0u8,
        4u8,
    ] + ip
}

/// Build the mDNS response packet (one `A` record for `zugli.local`); returns its length.
pub fn build_response(out: &mut [u8; 64], ip: [u8; 4]) -> (r: usize)
    ensures
        r == 39,
        final(out)@.take(39) == response_bytes(ip@),
        final(out)@.skip(39) == old(out)@.skip(39),
{
    let ghost before = out@;
    // Header: id 0, flags 0x8400 (response + authoritative), 0 questions, 1 answer.
    out[0] = 0x00;
    out[1] = 0x00;
    out[2] = 0x84;
    out[3] = 0x00;
    out[4] = 0x00;  // qdcount
    out[5] = 0x00;
    out[6] = 0x00;  // ancount
    out[7] = 0x01;
    out[8] = 0x00;  // ns/ar count
    out[9] = 0x00;
    out[10] = 0x00;
    out[11] = 0x00;
    // Answer NAME: the full `zugli.local` (no question to compress against).
    out[12] = 5;
    out[13] = LABEL_HOST[0];
    out[14] = LABEL_HOST[1];
    out[15] = LABEL_HOST[2];
    out[16] = LABEL_HOST[3];
    out[17] = LABEL_HOST[4];
    out[18] = 5;
    out[19] = LABEL_LOCAL[0];
    out[20] = LABEL_LOCAL[1];
    out[21] = LABEL_LOCAL[2];
    out[22] = LABEL_LOCAL[3];
    out[23] = LABEL_LOCAL[4];
    out[24] = 0;  // root label
    // TYPE A, CLASS IN with the cache-flush bit (0x8001), TTL 120 s, RDLENGTH 4, the IP.
    out[25] = 0x00;
    out[26] = 0x01;
    out[27] = 0x80;
    out[28] = 0x01;
    out[29] = 0x00;
    out[30] = 0x00;
    out[31] = 0x00;
    out[32] = 0x78;
    out[33] = 0x00;
    out[34] = 0x04;
    out[35] = ip[0];
    out[36] = ip[1];
    out[37] = ip[2];
    out[38] = ip[3];
    assert(out@.take(39) =~= response_bytes(ip@));
    assert(out@.skip(39) =~= before.skip(39));
    39
}

/// The name that an answer carries is read back as the host's own.
pub proof fn lemma_own_name_reads_back(pkt: Seq<u8>, i: int)
    requires
        0 <= i,
        i + 13 <= pkt.len(),
        pkt.subrange(i, i + 13) == own_name_bytes(),
    ensures
        name_at(pkt, i) == Some((own_labels(), i + 13)),
        is_own_name(own_labels()),
{
    let name = pkt.subrange(i, i + 13);
    assert forall|k: int| 0 <= k < 13 implies pkt[i + k] == own_name_bytes()[k] by {
        assert(name[k] == pkt[i + k]);
    }
    assert(pkt[i + 0] == 5 && pkt[i + 6] == 5 && pkt[i + 12] == 0);
    reveal_with_fuel(name_at, 3);
    let tail = Seq::<Seq<u8>>::empty();
    assert(name_at(pkt, i + 12) == Some((tail, i + 13)));
    let local = pkt.subrange(i + 7, i + 12);
    assert(local =~= LABEL_LOCAL@) by {
        assert forall|k: int| 0 <= k < 5 implies local[k] == LABEL_LOCAL@[k] by {
            assert(pkt[i + (7 + k)] == own_name_bytes()[7 + k]);
        }
    }
    assert(name_at(pkt, i + 6) == Some((seq![local] + tail, i + 13)));
    let host = pkt.subrange(i + 1, i + 6);
    assert(host =~= LABEL_HOST@) by {
        assert forall|k: int| 0 <= k < 5 implies host[k] == LABEL_HOST@[k] by {
            assert(pkt[i + (1 + k)] == own_name_bytes()[1 + k]);
        }
    }
    assert(name_at(pkt, i) == Some((seq![host] + (seq![local] + tail), i + 13)));
    assert(seq![host] + (seq![local] + tail) =~= own_labels());
}

/// A packet asks for the host only through one of its questions: one with the host's own two labels,
/// in whatever case, and of type A or ANY.
pub proof fn lemma_asked_by_name(pkt: Seq<u8>, i: int, n: int) -> (at: int)
    requires
        asks(pkt, i, n),
    ensures
        name_at(pkt, at) matches Some((labels, end)) && labels.len() == 2 && same_label(
            labels[0],
            LABEL_HOST@,
        ) && same_label(labels[1], LABEL_LOCAL@) && end + 2 <= pkt.len() && (be16(pkt, end) == 1
            || be16(pkt, end) == 255),
    decreases n,
{
    let (labels, end) = name_at(pkt, i)->0;
    let qtype = be16(pkt, end);
    if is_own_name(labels) && (qtype == 1 || qtype == 255) {
        assert(same_label(labels[0], own_labels()[0]));
        assert(same_label(labels[1], own_labels()[1]));
        i
    } else {
        lemma_asked_by_name(pkt, end + 4, n - 1)
    }
}

/// A question that asks for something else does not hide one behind it.
pub proof fn lemma_later_questions_count(pkt: Seq<u8>, i: int, n: int)
    requires
        n > 0,
        name_at(pkt, i) is Some,
        (name_at(pkt, i)->0).1 + 2 <= pkt.len(),
        asks(pkt, (name_at(pkt, i)->0).1 + 4, n - 1),
    ensures
        asks(pkt, i, n),
{
}

/// Labels are compared without regard to the case of ASCII letters, and in nothing else.
pub proof fn lemma_label_case(a: u8, b: u8)
    ensures
        lower(a) == lower(b) <==> a == b || (97 <= a <= 122 && b == a - 32) || (97 <= b <= 122 && a
            == b - 32),
{
}

/// An answer is a response with one record: the host's own name, an A record, and the address.
pub proof fn lemma_response(ip: Seq<u8>)
    requires
        ip.len() == 4,
    ensures
        ({
            let r = response_bytes(ip);
            &&& r.len() == 39
            &&& r[2] >= 128
            &&& be16(r, 4) == 0
            &&& be16(r, 6) == 1
            &&& name_at(r, 12) == Some((own_labels(), 25int))
            &&& be16(r, 25) == 1
            &&& be16(r, 33) == 4
            &&& r.subrange(35, 39) == ip
        }),
{
    let r = response_bytes(ip);
    assert(r.subrange(12, 25) =~= own_name_bytes());
    lemma_own_name_reads_back(r, 12);
    assert(r.subrange(35, 39) =~= ip);
}

/// A query whose first question asks for the host's own name by an `A` record is answered.
pub proof fn lemma_own_query_is_answered(pkt: Seq<u8>)
    requires
        pkt.len() >= 27,
        pkt[2] < 128,
        be16(pkt, 4) >= 1,
        pkt.subrange(12, 25) == own_name_bytes(),
        be16(pkt, 25) == 1,
    ensures
        answers(pkt),
{
    lemma_own_name_reads_back(pkt, 12);
}

/// The host never answers a response, its own included.
pub proof fn lemma_no_answer_to_responses(ip: Seq<u8>)
    ensures
        !answers(response_bytes(ip)),
{
    assert(response_bytes(ip)[2] == 0x84);
}

} // verus!
