//! What holds of a session: who is the owner, which packets are let in, whom they go to.

use crate::addr::Endpoint;
use crate::engine_bytes;
use crate::engine_ctrl;
use crate::engine_ctrl::ControlStep;
use crate::engine_data;
use crate::engine_data::{CompactKind, CompactPlan};
use crate::engine_evict;
use crate::engine_para;
use crate::engine_para::{Notified, ParaMessage, ParaSignal};
use crate::engine_ping;
use crate::engine_probe;
use crate::engine_roster;
use crate::engine_roster::RosterView;
use crate::engine_routes;
use crate::engine_routes::{AppliedView, MsynEffects, Peers, RemovedView};
use crate::engine_rx;
use crate::engine_rx::{IceCandidate, MctlParts, ParsedView};
use crate::engine_state;
use crate::engine_state::{EngineState, IdentityView};
use crate::engine_ticks;
use crate::engine_ticks::{PendingPing, ReliableAt, ReliableId};
use crate::routing;
use crate::wire;
use crate::wire::ControlTag;
use vstd::prelude::*;

verus! {

/// The owner has no owner. A member that was told by the owner where it is goes there; one
/// that was not prefers the route to the owner's address; and where only one of the two is
/// known, that one counts.
pub proof fn owners_endpoint(id: IdentityView, routes: Map<Seq<char>, routing::RouteView>)
    ensures
        ({
            let out = engine_state::owner_endpoint_of(id, routes);
            let routed = id.owner_vip_cached.len() > 0 && routes.dom().contains(
                id.owner_vip_cached,
            );
            let by_route = routes[id.owner_vip_cached].endpoint;
            &&& id.is_owner ==> out is None
            &&& !id.is_owner && id.owner_ep is None && !routed ==> out is None
            &&& !id.is_owner && id.owner_ep is None && routed ==> out == Some(by_route)
            &&& !id.is_owner && id.owner_ep is Some && !routed ==> out == id.owner_ep
            &&& !id.is_owner && id.owner_ep is Some && routed && id.owner_ep_trusted ==> out
                == id.owner_ep
            &&& !id.is_owner && id.owner_ep is Some && routed && !id.owner_ep_trusted ==> out
                == Some(by_route)
        }),
{
}

/// Whatever a sender has not signed is counted against its rate, but for what keeps paths
/// open and joins going; a sender beyond its rate is not heard. Where the network has a key,
/// what has to be signed and is not is turned away.
pub proof fn gates_of_control_packets(
    s: EngineState,
    tag: ControlTag,
    len: int,
    from: Endpoint,
    signed: bool,
    within_rate: bool,
)
    ensures
        ({
            let out = engine_ctrl::control_step(s, tag, len, from, signed, within_rate);
            let free = tag is Hpch || tag is Hack || tag is Kpal || tag is Mctl || tag is Jack;
            let closed = tag is Sync || tag is Msmd || tag is Prxy || tag is Kick || tag is Ctsig
                || tag is Other;
            &&& out is Limited <==> !signed && !free && !within_rate
            &&& out !is Limited && s.crypto_keys.any() && !signed && closed ==> out is CryptoGate
            &&& signed ==> out !is Limited
            &&& out is Join ==> s.id.is_owner && tag is Join
            &&& out is Jack ==> !s.id.is_owner && tag is Jack && len <= 8192
            &&& out is Msyn ==> !s.id.is_owner && tag is Sync && (signed || !s.crypto_keys.any())
            &&& out is Msmd ==> tag is Msmd && len <= 4096 && (signed || !s.crypto_keys.any())
            &&& out is Prxy ==> tag is Prxy && len <= 8192 && (signed || s.routing.vips().dom().contains(
                from,
            ) || s.id.owner_ep == Some(from))
            &&& out is Kicked ==> tag is Kick && !s.id.is_owner && (signed || !s.crypto_keys.any()) && (
            s.id.owner_ep == Some(from) || (s.id.owner_vip_cached@.len() > 0
                && s.routing.routes().dom().contains(s.id.owner_vip_cached@)
                && s.routing.routes()[s.id.owner_vip_cached@].endpoint == from))
            &&& out is Keepalive <==> tag is Kpal
            &&& out is Punch <==> tag is Hpch
            &&& out is PunchAck <==> tag is Hack
            &&& out is Mctl <==> tag is Mctl
            &&& (signed || within_rate) && tag is Join && s.id.is_owner ==> out is Join
            &&& tag is Jack && !s.id.is_owner && len <= 8192 ==> out is Jack
            &&& (signed || within_rate) && tag is Sync && !s.id.is_owner && (signed
                || !s.crypto_keys.any()) ==> out is Msyn
            &&& (signed || within_rate) && tag is Merr ==> out is JoinFailed
            &&& (signed || within_rate) && (tag is Rdys || tag is Mstr || tag is Brek) ==> out is Touch
            &&& (signed || within_rate) && (tag is ParaHello || tag is ParaReply || tag is ParaOk
                || tag is ParaPunchAck) ==> out is Para
        }),
{
}

/// A member that leaves is let go where it names itself, names nobody, or has no name here.
pub proof fn leaving_under_the_own_name(r: routing::RouteView, node: Seq<char>)
    ensures
        !engine_ctrl::leave_valid(r, node) <==> node.len() > 0 && r.node_id.len() > 0 && r.node_id
            != node,
{
}

/// What becomes of a compact packet: sealed data is opened only where both ends have an
/// address and it did not come before; data in the clear only where nothing is sealed, and
/// within its sender's rate; a receipt is read from its first four bytes, high byte first.
pub proof fn compact_packets(
    kind: CompactKind,
    body: Seq<u8>,
    from: Endpoint,
    least: int,
    peer: Option<u32>,
    me: u32,
    sealed: bool,
    fresh: bool,
)
    ensures
        ({
            let out = engine_data::compact_plan(kind, body, from, least, peer, me, sealed, fresh);
            &&& out matches CompactPlan::Open { peer: p, me: m } ==> kind is Encrypted && peer == Some(
                p,
            ) && m == me && me != 0 && fresh && body.len() >= least
            &&& kind is Encrypted && body.len() >= least && peer is Some && me != 0 && fresh
                ==> out is Open
            &&& kind is Encrypted && body.len() >= least && (peer is None || me == 0)
                ==> out is CryptoGate
            &&& out is Replayed <==> kind is Encrypted && body.len() >= least && peer is Some && me
                != 0 && !fresh
            &&& out is PlainRefused <==> kind is Data && sealed
            &&& kind is Data && !sealed ==> out == (CompactPlan::PlainLimited {
                sender: wire::sender_key(from),
            })
            &&& kind is Ack && body.len() >= 4 ==> (out matches CompactPlan::Ack { seq } && seq
                == body[0] * 0x1000000 + body[1] * 0x10000 + body[2] * 0x100 + body[3])
            &&& out is Ping <==> kind is Ping
            &&& out is Pong <==> kind is Pong
            &&& out is Reliable <==> kind is Reliable
        }),
{
}

/// The destination of a packet is read from its seventeenth to twentieth byte, high byte
/// first.
pub proof fn destinations_are_read(pkt: Seq<u8>)
    ensures
        engine_data::dst_of(pkt) == pkt[16] * 0x1000000 + pkt[17] * 0x10000 + pkt[18] * 0x100
            + pkt[19],
{
}

/// A packet for all goes to every other peer once, either directly or by relay: a peer is
/// reached directly unless this node is no owner and a relay is wanted for it, and nobody
/// gets back what it sent.
pub proof fn groups_reach_everyone(
    s: Seq<(String, routing::RouteEntry)>,
    from: Endpoint,
    is_owner: bool,
    wanted: Set<Seq<char>>,
    i: int,
)
    requires
        0 <= i < s.len(),
    ensures
        ({
            let direct = engine_data::direct_eps(s, from, is_owner, wanted);
            let relayed = engine_data::relay_peers(s, from, is_owner, wanted);
            &&& !direct.contains(from)
            &&& s[i].1.endpoint != from && (is_owner || !wanted.contains(s[i].0@))
                ==> direct.contains(s[i].1.endpoint)
            &&& s[i].1.endpoint != from && !is_owner && wanted.contains(s[i].0@)
                ==> relayed.contains(s[i].0@)
            &&& is_owner ==> relayed.len() == 0
            &&& direct.len() + relayed.len() <= s.len()
        }),
    decreases s.len(),
{
    let t = s.drop_last();
    let e = s.last();
    let d0 = engine_data::direct_eps(t, from, is_owner, wanted);
    let r0 = engine_data::relay_peers(t, from, is_owner, wanted);
    let d1 = engine_data::direct_eps(s, from, is_owner, wanted);
    let r1 = engine_data::relay_peers(s, from, is_owner, wanted);
    if t.len() > 0 {
        groups_reach_everyone(t, from, is_owner, wanted, if i < t.len() {
            i
        } else {
            0
        });
    }
    if d1.contains(from) {
        let k = choose|k: int| 0 <= k < d1.len() && d1[k] == from;
        if k < d0.len() {
            assert(d0[k] == from);
        }
    }
    if i == t.len() {
        if e.1.endpoint != from && !engine_data::by_relay(e, is_owner, wanted) {
            assert(d1[d0.len() as int] == e.1.endpoint);
        }
        if e.1.endpoint != from && engine_data::by_relay(e, is_owner, wanted) {
            assert(r1[r0.len() as int] == e.0@);
        }
    } else {
        assert(t[i] == s[i]);
        if d0.contains(s[i].1.endpoint) {
            let k = choose|k: int| 0 <= k < d0.len() && d0[k] == s[i].1.endpoint;
            assert(d1[k] == d0[k]);
        }
        if r0.contains(s[i].0@) {
            let k = choose|k: int| 0 <= k < r0.len() && r0[k] == s[i].0@;
            assert(r1[k] == r0[k]);
        }
    }
}

/// What listeners are told of a message is what it says, each under its own name, and whence
/// it came.
pub proof fn listeners_are_told_what_was_said(msg: ParaMessage, from: Endpoint)
    ensures
        match (msg, engine_para::signal_of(msg, from)) {
            (
                ParaMessage::Hello(m),
                ParaSignal::HelloReceived {
                    from: f,
                    public_ip,
                    public_port,
                    proposed_key,
                    proposed_vip_subnet,
                    node_id,
                    candidates,
                    start_at_ms,
                    session_id,
                    discover_only,
                },
            ) => f == from && public_ip == m.public_ip && public_port == m.public_port
                && proposed_key == m.proposed_key_hex && proposed_vip_subnet
                == m.proposed_vip_subnet && node_id == m.node_id && candidates == m.candidates
                && start_at_ms == m.start_at_ms && session_id == m.session_id && discover_only
                == m.discover_only,
            (
                ParaMessage::Reply(m),
                ParaSignal::ReplyReceived {
                    from: f,
                    public_ip,
                    public_port,
                    assigned_vip,
                    network_id,
                    node_id,
                    candidates,
                    agreed_start_at_ms,
                    session_id,
                    responder_vip,
                    responder_is_owner,
                    network_name,
                    network_key_hex,
                },
            ) => f == from && public_ip == m.public_ip && public_port == m.public_port
                && assigned_vip == m.assigned_vip && network_id == m.network_id && node_id
                == m.node_id && candidates == m.candidates && agreed_start_at_ms
                == m.agreed_start_at_ms && session_id == m.session_id && responder_vip
                == m.responder_vip && responder_is_owner == m.responder_is_owner && network_name
                == m.network_name && network_key_hex == m.network_key_hex,
            (ParaMessage::Agreed(m), ParaSignal::OkReceived { from: f, node_id, session_id }) => f
                == from && node_id == m.node_id && session_id == m.session_id,
            (
                ParaMessage::PunchAck(m),
                ParaSignal::PunchAckReceived { from: f, node_id, session_id },
            ) => f == from && node_id == m.node_id && session_id == m.session_id,
            _ => false,
        },
        match msg {
            ParaMessage::Hello(m) => engine_para::stamp_of(msg) == m.ts_ms,
            ParaMessage::Reply(m) => engine_para::stamp_of(msg) == m.ts_ms,
            ParaMessage::Agreed(m) => engine_para::stamp_of(msg) == m.ts_ms,
            ParaMessage::PunchAck(m) => engine_para::stamp_of(msg) == m.ts_ms,
        },
{
}

/// The listeners that missed a message are those whose queue was full, in their order.
pub proof fn full_queues_miss_messages(results: Seq<(u64, Notified)>, n: nat)
    requires
        n <= results.len(),
    ensures
        engine_para::missed(results, n) == results.take(n as int).filter(
            |r: (u64, Notified)| r.1 is Full,
        ).map_values(|r: (u64, Notified)| r.0),
    decreases n,
{
    reveal(Seq::filter);
    let p = |r: (u64, Notified)| r.1 is Full;
    let f = |r: (u64, Notified)| r.0;
    let t = results.take(n as int);
    if n == 0 {
        assert(t =~= Seq::<(u64, Notified)>::empty());
        assert(t.filter(p).map_values(f) =~= Seq::<u64>::empty());
    } else {
        full_queues_miss_messages(results, (n - 1) as nat);
        assert(t.drop_last() =~= results.take(n - 1));
        let rest = t.drop_last().filter(p);
        assert(t.last() == results[n - 1]);
        assert(rest.push(t.last()).map_values(f) =~= rest.map_values(f).push(f(t.last())));
    }
}

/// A roster is told only by members to those who listen: of a peer its address, its endpoint
/// and its name, which is what it says or what is known; and neither of this node nor of the
/// owner.
pub proof fn rosters_are_told(
    s: EngineState,
    listening: bool,
    vip: Seq<char>,
    ep: Endpoint,
    node: Option<Seq<char>>,
)
    ensures
        ({
            let out = engine_roster::upsert_of(s, listening, vip, ep, node);
            let name = if node is Some && node->0.len() > 0 {
                node->0
            } else if s.routing.routes().dom().contains(vip) {
                s.routing.routes()[vip].node_id
            } else {
                Seq::empty()
            };
            &&& out is Some <==> !s.id.is_owner && listening && vip != s.id.my_vip@ && vip
                != s.id.owner_vip_cached@
            &&& out matches Some(c) ==> (c matches RosterView::Upsert {
                node_id,
                name: shown,
                virtual_ip,
                real_ip,
            } && node_id == name && shown == name && virtual_ip == vip && real_ip == ep)
            &&& engine_roster::removal_told(s, listening, vip) is Some <==> !s.id.is_owner
                && listening
            &&& engine_roster::removal_told(s, listening, vip) matches Some(c) ==> (
            c matches RosterView::Remove { virtual_ip } && virtual_ip == vip)
        }),
{
}

/// Of a peer that is gone its address, the number of it and its name are told.
pub proof fn goners_are_told(vip: Seq<char>, node: Seq<char>, routes: Map<Seq<char>, routing::RouteView>)
    ensures
        engine_state::gone_of(vip, node).vip == vip,
        engine_state::gone_of(vip, node).vip_u32 == crate::text::ipv4_of(vip),
        node.len() > 0 ==> engine_state::gone_of(vip, node).node_id == Some(node),
        node.len() == 0 ==> engine_state::gone_of(vip, node).node_id is None,
        routes.dom().contains(vip) ==> engine_routes::removal_of(routes, vip).ep == Some(
            routes[vip].endpoint,
        ) && engine_routes::removal_of(routes, vip).gone == engine_state::gone_of(
            vip,
            routes[vip].node_id,
        ),
{
}

/// A peer is put out only where its route is stale and it was silent for longer than it may
/// be; a peer that is heard in time never is.
pub proof fn only_silent_peers_go(routes: Map<Seq<char>, routing::RouteView>, v: Seq<char>, now: u64, age: u64)
    ensures
        engine_evict::victim(routes, v, now, age) <==> routes.dom().contains(v)
            && routes[v].state is Stale && now - routes[v].last_seen > age,
        engine_evict::live(routes, v) <==> routes.dom().contains(v) && routes[v].state !is Stale,
{
}

/// What is kept for peers that have no route any more is given up: what they are served, and
/// the keys of endpoints that lead nowhere, but for the owner's.
pub proof fn orphans_are_given_up(p: Peers, owner: Option<Endpoint>, v: Seq<char>, e: Endpoint)
    ensures
        ({
            let q = engine_evict::without_orphans(p, owner);
            &&& q.served.dom().contains(v) <==> p.served.dom().contains(v) && p.routes.dom().contains(v)
            &&& q.served.dom().contains(v) ==> q.served[v] == p.served[v]
            &&& q.bound.dom().contains(e) <==> p.bound.dom().contains(e) && (p.vips.dom().contains(e)
                || owner == Some(e))
            &&& q.bound.dom().contains(e) ==> q.bound[e] == p.bound[e]
            &&& q.routes == p.routes && q.vips == p.vips && q.nodes == p.nodes
        }),
{
}

/// What is read of probes of the path: the size, the session and the number of the probe, in
/// this order, high byte first; an answer to a probe is its first ten bytes. A size that is
/// pinned is not probed.
pub proof fn probes_are_read(body: Seq<u8>, pinned: bool)
    ensures
        engine_rx::parsed(ControlTag::Pmtu, body, pinned) is AnswerProbe <==> body.len() >= 10,
        engine_rx::parsed(ControlTag::Pmtu, body, pinned) matches ParsedView::AnswerProbe { head }
            ==> head == body.subrange(0, 10),
        engine_rx::parsed(ControlTag::Pmar, body, pinned) is ProbeAck <==> body.len() >= 10
            && !pinned,
        engine_rx::parsed(ControlTag::Pmar, body, pinned) matches ParsedView::ProbeAck {
            size,
            session,
            probe,
        } ==> size == body[0] * 0x100 + body[1] && session == body[2] * 0x1000000 + body[3]
            * 0x10000 + body[4] * 0x100 + body[5] && probe == body[6] * 0x1000000 + body[7] * 0x10000
            + body[8] * 0x100 + body[9],
{
}

/// The four bytes of a number make it up, and so do the two of a small one.
#[verifier::spinoff_prover]
#[verifier::rlimit(40)]
proof fn bytes_make_the_number(n: u32)
    ensures
        n == engine_rx::byte_of(n as int, 3) * 0x1000000 + engine_rx::byte_of(n as int, 2) * 0x10000
            + engine_rx::byte_of(n as int, 1) * 0x100 + engine_rx::byte_of(n as int, 0),
        n < 0x10000 ==> n == engine_rx::byte_of(n as int, 1) * 0x100 + engine_rx::byte_of(n as int, 0),
{
}

/// A probe says its size, its session and its number, in this order, high byte first; and it
/// is filled up so that with its headers it has the size that it says.
#[verifier::spinoff_prover]
#[verifier::rlimit(40)]
pub proof fn probes_are_written(size: u16, session: u32, probe: u32)
    ensures
        ({
            let h = engine_rx::probe_head(size, session, probe);
            &&& h.len() == 10
            &&& size == h[0] * 0x100 + h[1]
            &&& session == h[2] * 0x1000000 + h[3] * 0x10000 + h[4] * 0x100 + h[5]
            &&& probe == h[6] * 0x1000000 + h[7] * 0x10000 + h[8] * 0x100 + h[9]
            &&& size >= 44 ==> engine_rx::filling(size) + 44 == size
            &&& size < 44 ==> engine_rx::filling(size) == 0
        }),
{
    bytes_make_the_number(size as u32);
    bytes_make_the_number(session);
    bytes_make_the_number(probe);
}

/// A combined packet without a signature brings no sync; a heartbeat and a question after
/// the path need an address.
pub proof fn combined_packets(p: MctlParts, signed: bool)
    ensures
        ({
            let c = engine_rx::combined(p, signed);
            &&& c.msyn ==> p.has_msyn && p.msyn_ok && (signed || !p.flag_msyn)
            &&& c.hb ==> p.flag_hb && p.has_vip && p.signaling_ok
            &&& c.hol ==> p.flag_hol && p.has_vip && p.signaling_ok
            &&& signed && p.has_msyn && p.msyn_ok ==> c.msyn
            &&& signed && p.flag_hb && p.has_vip && p.signaling_ok ==> c.hb
            &&& signed && p.flag_hol && p.has_vip && p.signaling_ok ==> c.hol
            &&& !signed && p.flag_msyn ==> !c.hb && !c.hol && !c.msyn
        }),
{
}

/// The candidates are tried public ones first, then mapped ones, then those of the host, then
/// all others; within each kind in their order. None is lost.
pub proof fn candidates_by_kind(s: Seq<IceCandidate>)
    ensures
        ({
            let out = engine_rx::by_rank(s);
            let a = s.filter(|c: IceCandidate| engine_rx::kind_rank(c.kind@) == 0);
            let b = s.filter(|c: IceCandidate| engine_rx::kind_rank(c.kind@) == 1);
            let c = s.filter(|c: IceCandidate| engine_rx::kind_rank(c.kind@) == 2);
            let d = s.filter(|c: IceCandidate| engine_rx::kind_rank(c.kind@) == 3);
            &&& out == a + b + c + d
            &&& out.len() == s.len()
        }),
        engine_rx::kind_rank("srflx"@) < engine_rx::kind_rank("upnp"@),
        engine_rx::kind_rank("upnp"@) < engine_rx::kind_rank("host"@),
        forall|k: Seq<char>|
            k != "srflx"@ && k != "upnp"@ && k != "host"@ ==> #[trigger] engine_rx::kind_rank(k) == 3,
    decreases s.len(),
{
    let p0 = |c: IceCandidate| engine_rx::kind_rank(c.kind@) == 0;
    let p1 = |c: IceCandidate| engine_rx::kind_rank(c.kind@) == 1;
    let p2 = |c: IceCandidate| engine_rx::kind_rank(c.kind@) == 2;
    let p3 = |c: IceCandidate| engine_rx::kind_rank(c.kind@) == 3;
    reveal_strlit("srflx");
    reveal_strlit("upnp");
    reveal_strlit("host");
    assert("srflx"@[0] == 's' && "upnp"@[0] == 'u' && "host"@[0] == 'h');
    ranks_partition(s);
}

proof fn ranks_partition(s: Seq<IceCandidate>)
    ensures
        s.filter(|c: IceCandidate| engine_rx::kind_rank(c.kind@) == 0).len() + s.filter(
            |c: IceCandidate| engine_rx::kind_rank(c.kind@) == 1,
        ).len() + s.filter(|c: IceCandidate| engine_rx::kind_rank(c.kind@) == 2).len() + s.filter(
            |c: IceCandidate| engine_rx::kind_rank(c.kind@) == 3,
        ).len() == s.len(),
    decreases s.len(),
{
    reveal(Seq::filter);
    if s.len() > 0 {
        ranks_partition(s.drop_last());
    }
}

/// The checks of a connection slow down: fifty times thirty milliseconds, then twenty times a
/// hundred, then six times five hundred; then they are over.
pub proof fn checks_slow_down(step: int)
    ensures
        engine_rx::ice_wait(step) is Some <==> step < 76,
        step < 50 ==> engine_rx::ice_wait(step) == Some(30u64),
        50 <= step < 70 ==> engine_rx::ice_wait(step) == Some(100u64),
        70 <= step < 76 ==> engine_rx::ice_wait(step) == Some(500u64),
{
}

/// A warning is given the first time, and then again after a pause.
pub proof fn warnings_pause(last: u64, now: u64, pause: u64)
    ensures
        engine_rx::warns(None, now, pause),
        last <= now ==> (engine_rx::warns(Some(last), now, pause) <==> now - last >= pause),
{
}

/// A round trip takes the time since the ping was sent, and at least a millisecond.
pub proof fn round_trips(now: u64, sent: u64)
    requires
        now - sent <= i64::MAX,
    ensures
        sent < now ==> engine_ping::round_trip_of(now, sent) == now - sent,
        sent >= now ==> engine_ping::round_trip_of(now, sent) == 1,
{
}

/// A ping is awaited until its time is over, and no other ping is given up with it.
pub proof fn pings_are_awaited(m: Map<u64, PendingPing>, now: u64, id: u64)
    ensures
        ({
            let n = engine_ping::awaited(m, now);
            &&& n.dom().contains(id) <==> m.dom().contains(id) && now < m[id].deadline
            &&& n.dom().contains(id) ==> n[id] == m[id]
        }),
{
}

/// A recovery starts only where recoveries are wanted, the peer has a route and neither
/// rests nor recovers, and not too many are under way.
pub proof fn recoveries_start(s: EngineState, vip: Seq<char>, pending: int, max: int, now: u64)
    ensures
        engine_probe::may_heal(s, vip, pending, max, now) <==> s.feature_flags.predictive_heal
            && pending < max && s.routing.routes().dom().contains(vip)
            && !s.pending_heal_vips@.contains(vip) && !(s.heal_cooldown_until@.dom().contains(vip)
            && now < s.heal_cooldown_until@[vip]),
{
}

/// A recovery asks at three endpoints at most: those that were found, the first ones first,
/// or that of the route where none were or only one path is used.
pub proof fn recoveries_ask(s: EngineState, vip: Seq<char>, found: Seq<Endpoint>)
    requires
        s.routing.routes().dom().contains(vip),
    ensures
        ({
            let d = engine_probe::heal_dests(s, vip, found);
            let many = s.feature_flags.multipath_core && s.feature_flags.control_path_race
                && found.len() > 0;
            &&& 1 <= d.len() <= 3
            &&& !many ==> d == seq![s.routing.routes()[vip].endpoint]
            &&& many ==> forall|i: int| 0 <= i < d.len() ==> d[i] == found[i]
            &&& many && found.len() >= 3 ==> d.len() == 3
            &&& many && found.len() < 3 ==> d == found
        }),
{
}

/// Bytes are added up for each peer by itself; a sum that no machine word holds stays at the
/// largest that one does.
pub proof fn bytes_add_up<K>(m: Map<K, u64>, k: K, other: K, bytes: u64)
    ensures
        ({
            let n = engine_bytes::counted(m, k, bytes);
            let had = if m.dom().contains(k) {
                m[k] as int
            } else {
                0
            };
            &&& n.dom().contains(k)
            &&& had + bytes <= u64::MAX ==> n[k] == had + bytes
            &&& had + bytes > u64::MAX ==> n[k] == u64::MAX
            &&& other != k ==> (n.dom().contains(other) <==> m.dom().contains(other)) && n[other]
                == m[other]
        }),
{
}

/// A prefix is brought between 8 and 30.
pub proof fn prefixes_in_range(p: u8)
    ensures
        8 <= engine_state::clamped_prefix(p) <= 30,
        8 <= p <= 30 ==> engine_state::clamped_prefix(p) == p,
        p < 8 ==> engine_state::clamped_prefix(p) == 8,
        p > 30 ==> engine_state::clamped_prefix(p) == 30,
{
}

/// What is told of a sync: of each removal, then of each route that was taken, then of each
/// that the sync does not name any more; all of it only by a member to those who listen.
pub proof fn syncs_are_told(s: EngineState, listening: bool, fx: MsynEffects)
    ensures
        ({
            let told = engine_roster::sync_told(s, listening, fx);
            &&& s.id.is_owner || !listening ==> told.len() == 0
            &&& !s.id.is_owner && listening ==> told.len() >= fx.removed@.len() + fx.phantoms@.len()
            &&& !s.id.is_owner && listening ==> told.len() <= fx.removed@.len() + fx.applied@.len()
                + fx.phantoms@.len()
            &&& !s.id.is_owner && listening ==> forall|i: int|
                0 <= i < fx.removed@.len() ==> (#[trigger] told[i]) == (RosterView::Remove {
                    virtual_ip: fx.removed@[i].gone.vip@,
                })
        }),
{
    let a = engine_routes::removed_views(fx.removed@);
    let b = engine_routes::applied_views(fx.applied@);
    let c = engine_routes::removed_views(fx.phantoms@);
    removals_are_told(s, listening, a, a.len());
    removals_are_told(s, listening, c, c.len());
    upserts_are_told(s, listening, b, b.len());
}

proof fn removals_are_told(s: EngineState, listening: bool, v: Seq<RemovedView>, n: nat)
    requires
        n <= v.len(),
    ensures
        ({
            let told = engine_roster::removals_of(s, listening, v, n);
            &&& s.id.is_owner || !listening ==> told.len() == 0
            &&& !s.id.is_owner && listening ==> told.len() == n && forall|i: int|
                0 <= i < n ==> (#[trigger] told[i]) == (RosterView::Remove {
                    virtual_ip: v[i].gone.vip,
                })
        }),
    decreases n,
{
    if n > 0 {
        removals_are_told(s, listening, v, (n - 1) as nat);
    }
}

proof fn upserts_are_told(s: EngineState, listening: bool, v: Seq<AppliedView>, n: nat)
    requires
        n <= v.len(),
    ensures
        engine_roster::upserts_of(s, listening, v, n).len() <= n,
        s.id.is_owner || !listening ==> engine_roster::upserts_of(s, listening, v, n).len() == 0,
    decreases n,
{
    if n > 0 {
        upserts_are_told(s, listening, v, (n - 1) as nat);
    }
}

/// A numbered packet counts once within a minute, as long as no more than 16384 others came
/// since; it is remembered when it comes.
pub proof fn numbered_packets_count_once(s: Seq<ReliableAt>, id: ReliableId, now: u64)
    ensures
        ({
            let (new, t) = engine_rx::taken_in(s, id, now);
            let k = engine_ticks::forgotten_count(s, now);
            &&& new ==> t.len() > 0 && t.last().id == id && t.last().at == now
            &&& !new ==> t == s.skip(k)
            &&& s.len() - k <= 16_384
            &&& s.len() > 0 && s.len() <= 16_384 && engine_state::elapsed(now, s[0].at) < 60_000
                ==> k == 0 && (!new <==> exists|i: int| 0 <= i < s.len() && (#[trigger] s[i]).id == id)
        }),
{
    if s.len() > 0 && s.len() <= 16_384 && engine_state::elapsed(now, s[0].at) < 60_000 {
        assert(engine_ticks::expired_count(s, now) == 0);
        assert(s.skip(0) =~= s);
    }
    engine_ticks::forgotten_bounds(s, now);
}

} // verus!
