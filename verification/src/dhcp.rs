//! The captive portal's DHCP server: what is sent back for a datagram.

use edge_dhcp::server::{Action, Server, ServerOptions};
use edge_dhcp::{Ipv4Addr, Options, Packet};
use vstd::prelude::*;

use crate::portal::AP_IP;

verus! {

/// The latest time, in seconds, at which a lease can still be given out.
pub const CLOCK_MAX: u64 = 18_446_744_073_709_500_000;

/// A datagram to send.
#[derive(Debug)]
pub struct Outgoing {
    pub bytes: Vec<u8>,
    pub address: [u8; 4],
    pub port: u16,
}

/// What a datagram asks of a DHCP server. Addresses are numbers, the first octet most significant.
#[derive(Debug, Clone, Copy, PartialEq, Eq, Structural)]
pub enum Ask {
    /// An offer, of a certain address if possible.
    Discover { asked: Option<u32> },
    /// A lease of an address.
    Request { address: u32 },
    /// To give the lease back.
    Release,
    /// To give the lease back, since the address is in use.
    Decline,
}

/// `edge_dhcp`'s server. The clock in it is left out: the time comes with each request.
#[verifier::external_type_specification]
#[verifier::external_body]
#[verifier::reject_recursive_types(F)]
pub struct ExServer<F, const N: usize>(Server<F, N>);

/// The leases that a server has given out (`edge_dhcp::server::Server::leases`): for an address,
/// the hardware address of the client that has it and the time at which the lease expires.
pub uninterp spec fn leases(server: Server<(), 16>) -> Map<int, (Seq<u8>, int)>;

/// The first and the last address that a server hands out (`edge_dhcp::server::Server::range_start`
/// and `range_end`).
pub uninterp spec fn pool(server: Server<(), 16>) -> (int, int);

/// What `edge_dhcp::server::ServerOptions::process` reads in a datagram, for the server with the
/// given address. `None`: nothing that this server has to act on.
pub uninterp spec fn ask_of(ip: Seq<u8>, packet: Seq<u8>) -> Option<Ask>;

/// The reply that `edge_dhcp` encodes for a datagram: from the server with the given address, of
/// the given message type and granting the given address (0 for none).
pub uninterp spec fn reply_bytes(ip: Seq<u8>, packet: Seq<u8>, kind: u8, address: int) -> Seq<u8>;

/// The address in the four bytes from `at` on.
pub open spec fn address_in(bytes: Seq<u8>, at: int) -> int {
    bytes[at] * 16777216 + bytes[at + 1] * 65536 + bytes[at + 2] * 256 + bytes[at + 3]
}

/// The hardware address of the client that sent a datagram, padded to 16 bytes.
pub open spec fn client_of(packet: Seq<u8>) -> Seq<u8> {
    packet.subrange(28, 44)
}

/// Whether a datagram can be a DHCP request: long enough for a header with its cookie, for a
/// 6-byte hardware address, and not a reply.
pub open spec fn request_like(packet: Seq<u8>) -> bool {
    packet.len() >= 240 && packet[0] != 2 && packet[2] == 6 && packet.subrange(236, 240) == seq![
        99u8,
        130u8,
        83u8,
        99u8,
    ]
}

/// Whether a datagram can be a DHCP request whose options begin with the given bytes.
pub open spec fn options_begin(packet: Seq<u8>, options: Seq<u8>) -> bool {
    &&& request_like(packet)
    &&& packet.len() >= 240 + options.len()
    &&& packet.subrange(240, (240 + options.len()) as int) == options
}

/// What a datagram asks of the server with the given address, as far as its bytes tell at a glance:
/// nothing if it cannot be a request, and what the message type says if that is the only option,
/// or comes before a single one with the address to lease or that of the server.
pub open spec fn read_as(ip: Seq<u8>, packet: Seq<u8>, ask: Option<Ask>) -> bool {
    &&& ask is Some ==> request_like(packet)
    &&& options_begin(packet, seq![53u8, 1u8, 1u8, 255u8]) ==> ask == Some(
        (Ask::Discover { asked: None }),
    )
    &&& options_begin(packet, seq![53u8, 1u8, 1u8, 50u8, 4u8]) && packet.len() >= 250
        && packet[249] == 255 ==> (ask matches Some(Ask::Discover { asked: Some(a) }) && a
        == address_in(packet, 245))
    &&& options_begin(packet, seq![53u8, 1u8, 3u8, 50u8, 4u8]) && packet.len() >= 250
        && packet[249] == 255 ==> (ask matches Some(Ask::Request { address }) && address
        == address_in(packet, 245))
    &&& options_begin(packet, seq![53u8, 1u8, 7u8, 54u8, 4u8] + ip + seq![255u8]) ==> ask == Some(
        Ask::Release,
    )
    &&& options_begin(packet, seq![53u8, 1u8, 4u8, 54u8, 4u8] + ip + seq![255u8]) ==> ask == Some(
        Ask::Decline,
    )
}

/// Whether a client has the lease of an address.
pub open spec fn holds(leases: Map<int, (Seq<u8>, int)>, client: Seq<u8>, address: int) -> bool {
    leases.contains_key(address) && leases[address].0 == client
}

/// Whether leases can be those of a server: 16 at most, and one for each client.
pub open spec fn valid_leases(leases: Map<int, (Seq<u8>, int)>) -> bool {
    &&& leases.dom().finite()
    &&& leases.len() <= 16
    &&& forall|client: Seq<u8>, a: int, b: int|
        #![trigger holds(leases, client, a), holds(leases, client, b)]
        holds(leases, client, a) && holds(leases, client, b) ==> a == b
}

/// Whether a server is the portal's: it hands out 192.168.4.50 to 192.168.4.200.
pub open spec fn serving(server: Server<(), 16>) -> bool {
    &&& pool(server) == (0xC0A8_0432int, 0xC0A8_04C8int)
    &&& valid_leases(leases(server))
}

/// Whether a client can have an address: the server hands it out, and no other client has a lease
/// of it that still runs.
pub open spec fn free_for(
    leases: Map<int, (Seq<u8>, int)>,
    pool: (int, int),
    now: int,
    client: Seq<u8>,
    address: int,
) -> bool {
    &&& pool.0 <= address <= pool.1
    &&& leases.contains_key(address) ==> leases[address].0 == client || now > leases[address].1
}

/// Whether an address is the one to offer: the one asked for if the client can have it, else the
/// one it has a lease of, else the lowest without a lease.
pub open spec fn offered(
    leases: Map<int, (Seq<u8>, int)>,
    pool: (int, int),
    now: int,
    client: Seq<u8>,
    asked: Option<u32>,
    address: int,
) -> bool {
    if asked is Some && free_for(leases, pool, now, client, asked->0 as int) {
        address == asked->0
    } else if exists|a: int| holds(leases, client, a) {
        holds(leases, client, address)
    } else {
        &&& pool.0 <= address <= pool.1
        &&& !leases.contains_key(address)
        &&& forall|a: int| pool.0 <= a < address ==> #[trigger] leases.contains_key(a)
    }
}

/// The leases without that of a client.
pub open spec fn without(leases: Map<int, (Seq<u8>, int)>, client: Seq<u8>) -> Map<
    int,
    (Seq<u8>, int),
> {
    leases.remove_keys(leases.dom().filter(|a: int| holds(leases, client, a)))
}

/// Whether there is room for a client's lease of an address, in place of the one it has.
pub open spec fn room_for(
    leases: Map<int, (Seq<u8>, int)>,
    client: Seq<u8>,
    address: int,
) -> bool {
    without(leases, client).contains_key(address) || without(leases, client).len() < 16
}

/// What a server makes of a request at a time: the message type and the address in its reply, if
/// it makes one, and its leases before and after.
///
/// An offer (2) changes no lease. A lease is granted (5) for two hours, in place of the one that
/// the client has; if it cannot be, it is denied (6), and where that is for want of room the client
/// loses the lease it has. A lease that is given back is gone.
pub open spec fn answered(
    ask: Option<Ask>,
    pool: (int, int),
    now: int,
    client: Seq<u8>,
    before: Map<int, (Seq<u8>, int)>,
    after: Map<int, (Seq<u8>, int)>,
    reply: Option<(u8, int)>,
) -> bool {
    match ask {
        None => reply is None && after == before,
        Some(Ask::Discover { asked }) => {
            &&& reply matches Some((kind, address))
            &&& kind == 2
            &&& offered(before, pool, now, client, asked, address)
            &&& after == before
        },
        Some(Ask::Request { address }) => if !free_for(before, pool, now, client, address as int) {
            reply == Some((6u8, 0int)) && after == before
        } else if room_for(before, client, address as int) {
            &&& reply == Some((5u8, address as int))
            &&& after == without(before, client).insert(address as int, (client, now + 7200))
        } else {
            reply == Some((6u8, 0int)) && after == without(before, client)
        },
        Some(Ask::Release) => reply is None && after == without(before, client),
        Some(Ask::Decline) => reply is None && after == without(before, client),
    }
}

/// The message type and the address in an encoded reply.
pub open spec fn granted_in(reply: Seq<u8>) -> (u8, int) {
    (reply[242], address_in(reply, 16))
}

/// How a reply of the server with the given address begins and how long it is: it is marked as a
/// reply, has the request's transaction id and hardware address, and its first options are the
/// message type, the server's address and the two hours that a lease lasts.
pub open spec fn reply_shape(ip: Seq<u8>, packet: Seq<u8>, reply: Seq<u8>) -> bool {
    &&& reply.len() == 272
    &&& reply.subrange(0, 4) == seq![2u8, 1u8, 6u8, 0u8]
    &&& reply.subrange(4, 8) == packet.subrange(4, 8)
    &&& reply.subrange(28, 44) == packet.subrange(28, 44)
    &&& reply.subrange(236, 242) == seq![99u8, 130u8, 83u8, 99u8, 53u8, 1u8]
    &&& reply.subrange(243, 249) == seq![54u8, 4u8] + ip
    &&& reply.subrange(249, 255) == seq![51u8, 4u8, 0u8, 0u8, 28u8, 32u8]
}

/// `edge_dhcp::server::Server::new` for a server with the given address, without its clock: it has
/// given out no lease yet, and hands out the addresses that end in 50 to 200 and otherwise are as
/// its own.
#[verifier::external_body]
fn server_at(ip: [u8; 4]) -> (r: Server<(), 16>)
    ensures
        leases(r).dom() == Set::<int>::empty(),
        pool(r) == (address_in(ip@, 0) - ip@[3] + 50, address_in(ip@, 0) - ip@[3] + 200),
{
    let new = Server::<_, 16>::new(|| 0, Ipv4Addr::new(ip[0], ip[1], ip[2], ip[3]));
    Server { now: (), range_start: new.range_start, range_end: new.range_end, leases: new.leases }
}

/// What a datagram asks of the server with the given address: `edge_dhcp::Packet::decode` and then
/// `edge_dhcp::server::ServerOptions::process`.
///
/// That is a function of the two. A datagram that asks for anything decodes (a whole header for a
/// 6-byte hardware address, then the cookie) and is not itself a reply. Of what the options say only
/// the plainest lists are spelled out.
#[verifier::external_body]
fn read_ask(ip: [u8; 4], packet: &[u8]) -> (r: Option<Ask>)
    ensures
        r == ask_of(ip@, packet@),
        read_as(ip@, packet@, r),
{
    let request = Packet::decode(packet).ok()?;
    let options = ServerOptions::new(Ipv4Addr::new(ip[0], ip[1], ip[2], ip[3]), None);
    Some(match options.process(&request)? {
        Action::Discover(asked, _) => Ask::Discover { asked: asked.map(u32::from) },
        Action::Request(address, _) => Ask::Request { address: u32::from(address) },
        Action::Release(_, _) => Ask::Release,
        Action::Decline(_, _) => Ask::Decline,
    })
}

/// Hands a datagram to the server with the given address at a time, in seconds, and encodes its
/// reply, if there is one: `edge_dhcp::Packet::decode`, `edge_dhcp::server::Server::handle_request`
/// (with a clock that tells this time and the options of `ServerOptions::new`, the server itself as
/// gateway) and `edge_dhcp::Packet::encode`.
///
/// Whether there is a reply, what it says and what becomes of the leases follows from what the
/// datagram asks for, the leases before, the addresses to hand out and the time. There always is an
/// address to offer, since those to hand out are more than the leases can be. The reply's bytes are
/// a function of the server's address, the datagram, the message type and the address granted. A
/// lease is given out by adding its length to the time, which has to leave room for it.
#[verifier::external_body]
fn respond(server: &mut Server<(), 16>, now: u64, ip: [u8; 4], packet: &[u8]) -> (r: Option<
    Vec<u8>,
>)
    requires
        serving(*old(server)),
        now <= CLOCK_MAX,
    ensures
        pool(*final(server)) == pool(*old(server)),
        answered(
            ask_of(ip@, packet@),
            pool(*old(server)),
            now as int,
            client_of(packet@),
            leases(*old(server)),
            leases(*final(server)),
            match r {
                Some(b) => Some(granted_in(b@)),
                None => None,
            },
        ),
        r matches Some(b) ==> {
            &&& b@ == reply_bytes(ip@, packet@, granted_in(b@).0, granted_in(b@).1)
            &&& reply_shape(ip@, packet@, b@)
        },
{
    let ip = Ipv4Addr::new(ip[0], ip[1], ip[2], ip[3]);
    let (range_start, range_end) = (server.range_start, server.range_end);
    let leases = server.leases.clone();
    let mut timed = Server { now: || now, range_start, range_end, leases };
    let mut gateway = [ip];
    let options = ServerOptions::new(ip, Some(&mut gateway));
    let request = Packet::decode(packet).ok()?;
    let mut option_buffer = Options::buf();
    let mut out = [0u8; 1024];
    let reply = timed.handle_request(&mut option_buffer, &options, &request);
    server.leases = timed.leases;
    Some(reply?.encode(&mut out).ok()?.to_vec())
}

/// Leases stay 16 at most, and one for each client, when a client's lease is given back, and when
/// it then gets one for which there is room.
proof fn lemma_leases(
    leases: Map<int, (Seq<u8>, int)>,
    client: Seq<u8>,
    address: int,
    expires: int,
)
    requires
        valid_leases(leases),
    ensures
        valid_leases(without(leases, client)),
        room_for(leases, client, address) ==> valid_leases(
            without(leases, client).insert(address, (client, expires)),
        ),
{
    let held = leases.dom().filter(|a: int| holds(leases, client, a));
    let rest = without(leases, client);
    let granted = rest.insert(address, (client, expires));
    leases.lemma_remove_keys_len(held);
    assert(rest.dom() == leases.dom().difference(held));
    assert forall|other: Seq<u8>, a: int| holds(rest, other, a) implies holds(leases, other, a)
        && other != client by {
        assert(!held.contains(a));
    }
    assert forall|other: Seq<u8>, a: int, b: int|
        holds(granted, other, a) && holds(granted, other, b) implies a == b by {
        if a != address {
            assert(holds(rest, other, a));
        }
        if b != address {
            assert(holds(rest, other, b));
        }
    }
}

/// No address is given to two clients: while a client's lease runs, another client is neither
/// offered nor granted its address, and what the other client asks for does not touch the lease. An
/// address that is granted is one that the server hands out, and the client has it from then on for
/// two hours, in place of any other.
pub proof fn lemma_leases_are_kept(
    ask: Option<Ask>,
    pool: (int, int),
    now: int,
    client: Seq<u8>,
    before: Map<int, (Seq<u8>, int)>,
    after: Map<int, (Seq<u8>, int)>,
    reply: Option<(u8, int)>,
    address: int,
)
    requires
        valid_leases(before),
        answered(ask, pool, now, client, before, after, reply),
    ensures
        before.contains_key(address) && before[address].0 != client && now <= before[address].1 ==> {
            &&& after.contains_key(address) && after[address] == before[address]
            &&& reply != Some((5u8, address))
            &&& reply != Some((2u8, address))
        },
        reply == Some((5u8, address)) ==> {
            &&& pool.0 <= address <= pool.1
            &&& after.contains_key(address) && after[address] == (client, now + 7200)
            &&& forall|a: int| a != address ==> !#[trigger] holds(after, client, a)
        },
        reply matches Some((kind, a)) ==> kind == 2 || kind == 5 || (kind == 6 && a == 0),
        reply matches Some((kind, a)) ==> (kind == 2 ==> after == before),
{
    let held = before.dom().filter(|a: int| holds(before, client, a));
    assert(without(before, client) == before.remove_keys(held));
    if before.contains_key(address) && before[address].0 != client {
        assert(!held.contains(address));
    }
    assert forall|a: int| !#[trigger] holds(without(before, client), client, a) by {
        if without(before, client).contains_key(a) {
            assert(!held.contains(a));
        }
    }
    if reply == Some((5u8, address)) {
        assert forall|a: int| a != address implies !#[trigger] holds(after, client, a) by {
            assert(!holds(without(before, client), client, a));
        }
    }
}

/// The portal's DHCP server, without any lease yet.
pub fn dhcp_server() -> (r: Server<(), 16>)
    ensures
        serving(r),
        leases(r).dom() == Set::<int>::empty(),
{
    server_at(AP_IP)
}

/// A reply is broadcast to the client port, since a DHCP client has no address yet.
pub fn broadcast(reply: Option<Vec<u8>>) -> (r: Option<Outgoing>)
    ensures
        match reply {
            Some(b) => r matches Some(o) && o.bytes == b && o.address@ == seq![
                255u8,
                255u8,
                255u8,
                255u8,
            ] && o.port == 68,
            None => r is None,
        },
{
    match reply {
        Some(bytes) => {
            let address: [u8; 4] = [255, 255, 255, 255];
            assert(address@ =~= seq![255u8, 255u8, 255u8, 255u8]);
            Some(Outgoing { bytes, address, port: 68 })
        },
        None => None,
    }
}

/// What to send back for a datagram at a time, in seconds, if anything: the server's reply,
/// broadcast.
pub fn dhcp_reply(server: &mut Server<(), 16>, now: u64, packet: &[u8]) -> (r: Option<Outgoing>)
    requires
        serving(*old(server)),
        now <= CLOCK_MAX,
    ensures
        serving(*final(server)),
        read_as(AP_IP@, packet@, ask_of(AP_IP@, packet@)),
        answered(
            ask_of(AP_IP@, packet@),
            pool(*old(server)),
            now as int,
            client_of(packet@),
            leases(*old(server)),
            leases(*final(server)),
            match r {
                Some(o) => Some(granted_in(o.bytes@)),
                None => None,
            },
        ),
        r matches Some(o) ==> {
            &&& o.address@ == seq![255u8, 255u8, 255u8, 255u8]
            &&& o.port == 68
            &&& o.bytes@ == reply_bytes(
                AP_IP@,
                packet@,
                granted_in(o.bytes@).0,
                granted_in(o.bytes@).1,
            )
            &&& reply_shape(AP_IP@, packet@, o.bytes@)
        },
        !request_like(packet@) ==> r is None && leases(*final(server)) == leases(*old(server)),
{
    let ask = read_ask(AP_IP, packet);
    match ask {
        None => None,
        Some(asked) => {
            proof {
                if let Ask::Request { address } = asked {
                    lemma_leases(
                        leases(*server),
                        client_of(packet@),
                        address as int,
                        now + 7200,
                    );
                } else {
                    lemma_leases(leases(*server), client_of(packet@), 0, 0);
                }
            }
            broadcast(respond(server, now, AP_IP, packet))
        },
    }
}

} // verus!
