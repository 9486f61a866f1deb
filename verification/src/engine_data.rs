//! What becomes of the packets of the local adapter and of the peers.

use crate::addr::Endpoint;
use crate::engine_routes;
use crate::engine_state;
use crate::engine_state::EngineState;
use crate::keys::KeyRef;
use crate::routing;
use crate::routing::{PathKind, RelaySelection, RouteState};
use crate::table::NameSet;
use crate::text;
use crate::text::{ipv4_to_string, parse_ipv4};
use crate::wire;
use crate::wire::{
    be_u32_at, is_broadcast_or_multicast, is_signaling_tag, src_addr_key, ControlTag,
};
use vstd::prelude::*;

verus! {

/// The destination of an IPv4 packet.
pub open spec fn dst_of(pkt: Seq<u8>) -> u32 {
    wire::be32(pkt[16], pkt[17], pkt[18], pkt[19])
}

/// What to do with a packet of the local adapter.
pub enum TunPlan {
    /// Too short for an IPv4 header.
    Ignore,
    /// For this node itself.
    Inject,
    /// For all nodes, as long as it was not seen before.
    Group,
    /// No route: the owner may know one.
    ToOwner(Endpoint),
    NoRoute,
    Routed { dst: u32, vip: String, ep: Endpoint, state: RouteState },
}

/// The paths to a peer besides its route.
pub struct TunPaths {
    pub multipath_active: Option<(Endpoint, PathKind)>,
    /// The path that is being left.
    pub transition_active: Option<(Endpoint, PathKind)>,
    /// The direct path is bad enough to ask for a relay.
    pub want_relay: bool,
    /// The relay that was found; only looked at where one is wanted.
    pub relay: RelaySelection,
}

/// How a packet goes out.
#[derive(Clone, Copy, PartialEq, Eq)]
pub struct TunSend {
    pub target: Endpoint,
    pub kind: PathKind,
    /// A second copy, while a path is being left.
    pub also: Option<(Endpoint, PathKind)>,
    /// The path changed with this packet.
    pub begin_transition: bool,
    /// The relay to note for this peer.
    pub stamp: Option<Endpoint>,
    /// A relay was wanted and not found.
    pub no_hop: bool,
    /// This packet is the first that goes by relay.
    pub relay_fallback: bool,
}

/// The direct path of a packet, before relays are looked at.
pub open spec fn direct_path(multipath: bool, ep: Endpoint, paths: TunPaths) -> (Endpoint, PathKind) {
    match paths.multipath_active {
        Some((e, k)) => if multipath && !(k is OwnerRelay) {
            (e, k)
        } else {
            (ep, PathKind::Direct)
        },
        None => (ep, PathKind::Direct),
    }
}

/// The path of a packet; nothing where it is dropped for want of a relay.
pub open spec fn chosen_path(
    multipath: bool,
    is_owner: bool,
    ep: Endpoint,
    state: RouteState,
    paths: TunPaths,
) -> Option<(Endpoint, PathKind)> {
    if paths.want_relay && !is_owner {
        match paths.relay {
            RelaySelection::Hop(hop) => Some((hop, PathKind::OwnerRelay)),
            RelaySelection::NoHop => if state is Stale {
                None
            } else {
                Some((ep, PathKind::Direct))
            },
        }
    } else {
        Some(direct_path(multipath, ep, paths))
    }
}

/// The path that gets a second copy.
pub open spec fn second_path(
    dual_write: bool,
    prev: Option<PathKind>,
    kind: PathKind,
    ep: Endpoint,
    paths: TunPaths,
) -> Option<(Endpoint, PathKind)> {
    if !dual_write {
        None
    } else if prev is Some && prev->0 != kind {
        Some((ep, prev->0))
    } else {
        paths.transition_active
    }
}

/// A packet is dropped only where its route is stale, a relay is wanted, this node is not
/// the owner and no relay was found. Without a relay it takes the route's endpoint
/// directly; with one it takes the relay. A packet of the owner, and one for which no relay
/// is wanted, is never relayed: it takes the route's endpoint directly, or the path that
/// another measurement prefers.
pub proof fn packets_have_a_way(
    multipath: bool,
    is_owner: bool,
    ep: Endpoint,
    state: RouteState,
    paths: TunPaths,
)
    ensures
        ({
            let way = chosen_path(multipath, is_owner, ep, state, paths);
            &&& way is None <==> state is Stale && paths.want_relay && !is_owner
                && paths.relay is NoHop
            &&& state !is Stale ==> way is Some
            &&& paths.want_relay && !is_owner && paths.relay is NoHop && way is Some ==> way->0 == (
                ep,
                PathKind::Direct,
            )
            &&& paths.want_relay && !is_owner ==> (paths.relay matches RelaySelection::Hop(hop)
                ==> way == Some((hop, PathKind::OwnerRelay)))
            &&& is_owner || !paths.want_relay ==> way is Some && (way->0).1 !is OwnerRelay && (way->0
                == (ep, PathKind::Direct) || multipath && paths.multipath_active == way)
            &&& is_owner || !paths.want_relay ==> (paths.multipath_active matches Some(active)
                ==> multipath && active.1 !is OwnerRelay ==> way->0 == active)
        }),
{
}

/// A second copy goes out only while copies are wanted: by the kind of path that was taken
/// before, to the route's endpoint, where the kind changed; else by the path that is being
/// left, if there is one.
pub proof fn copies_take_the_path_left(
    dual_write: bool,
    prev: Option<PathKind>,
    kind: PathKind,
    ep: Endpoint,
    paths: TunPaths,
)
    ensures
        ({
            let copy = second_path(dual_write, prev, kind, ep, paths);
            &&& !dual_write ==> copy is None
            &&& dual_write && prev is Some && prev->0 != kind ==> copy == Some((ep, prev->0))
            &&& dual_write && (prev is None || prev->0 == kind) ==> copy == paths.transition_active
        }),
{
}

/// What to do with a data packet of a peer.
pub enum MdatPlan {
    /// Too short for an IPv4 header.
    Ignore,
    /// For all nodes, as long as it was not seen before.
    Group,
    /// For this node.
    Deliver { dst: u32 },
    /// For another peer.
    Forward(Endpoint),
    /// It would go back to where it came from.
    Bounce,
    /// The owner does not know the destination.
    UnknownToOwner,
    /// A peer does not know the destination.
    UnknownToPeer,
    /// From a stranger, and not for this node.
    Untrusted,
}

/// Whom a packet for all nodes is passed on to.
pub struct GroupForward {
    pub direct: Vec<Endpoint>,
    /// The peers that are reached by relay only.
    pub relay: Vec<String>,
}

/// Whether the peer of an entry is reached by relay only.
pub open spec fn by_relay(
    e: (String, routing::RouteEntry),
    is_owner: bool,
    wanted: Set<Seq<char>>,
) -> bool {
    !is_owner && wanted.contains(e.0@)
}

/// The endpoints that get a copy themselves: those of all entries but the
/// sender's that are not reached by relay.
pub open spec fn direct_eps(
    s: Seq<(String, routing::RouteEntry)>,
    from: Endpoint,
    is_owner: bool,
    wanted: Set<Seq<char>>,
) -> Seq<Endpoint>
    decreases s.len(),
{
    if s.len() == 0 {
        Seq::empty()
    } else {
        let rest = direct_eps(s.drop_last(), from, is_owner, wanted);
        let e = s.last();
        if e.1.endpoint != from && !by_relay(e, is_owner, wanted) {
            rest.push(e.1.endpoint)
        } else {
            rest
        }
    }
}

/// The peers that get a copy by relay.
pub open spec fn relay_peers(
    s: Seq<(String, routing::RouteEntry)>,
    from: Endpoint,
    is_owner: bool,
    wanted: Set<Seq<char>>,
) -> Seq<Seq<char>>
    decreases s.len(),
{
    if s.len() == 0 {
        Seq::empty()
    } else {
        let rest = relay_peers(s.drop_last(), from, is_owner, wanted);
        let e = s.last();
        if e.1.endpoint != from && by_relay(e, is_owner, wanted) {
            rest.push(e.0@)
        } else {
            rest
        }
    }
}

/// `s` without `x`.
pub open spec fn without(s: Seq<Endpoint>, x: Endpoint) -> Seq<Endpoint> {
    s.filter(|e: Endpoint| e != x)
}

/// The strings of a list.
pub open spec fn names(v: Seq<String>) -> Seq<Seq<char>> {
    Seq::new(v.len(), |i: int| v[i]@)
}

/// The kinds of compact packets.
#[derive(Clone, Copy, Debug, PartialEq, Eq, Structural)]
pub enum CompactKind {
    Reliable,
    Ack,
    Encrypted,
    Data,
    Ping,
    Pong,
    Fec,
    JoinAck,
}

/// What to do with a compact packet.
#[derive(Clone, Copy, Debug, PartialEq, Eq, Structural)]
pub enum CompactPlan {
    Ignore,
    Reliable,
    /// The receipt of a numbered packet.
    Ack { seq: u32 },
    /// Sealed data that cannot be opened, since an end has no address.
    CryptoGate,
    /// Sealed data that was taken before.
    Replayed,
    /// Sealed data of `peer`, to be opened.
    Open { peer: u32, me: u32 },
    /// Data in the clear where packets are sealed.
    PlainRefused,
    /// Data in the clear, as long as its sender does not send too much.
    PlainLimited { sender: u64 },
    Ping,
    Pong,
}

/// The plan for a compact packet.
pub open spec fn compact_plan(
    kind: CompactKind,
    body: Seq<u8>,
    from: Endpoint,
    min_sealed: int,
    peer: Option<u32>,
    me: u32,
    sealed: bool,
    replay_ok: bool,
) -> CompactPlan {
    match kind {
        CompactKind::Reliable => CompactPlan::Reliable,
        CompactKind::Ack => if body.len() < 4 {
            CompactPlan::Ignore
        } else {
            CompactPlan::Ack { seq: wire::be32(body[0], body[1], body[2], body[3]) }
        },
        CompactKind::Encrypted => if body.len() < min_sealed {
            CompactPlan::Ignore
        } else if peer is None || me == 0 {
            CompactPlan::CryptoGate
        } else if !replay_ok {
            CompactPlan::Replayed
        } else {
            CompactPlan::Open { peer: peer->0, me }
        },
        CompactKind::Data => if sealed {
            CompactPlan::PlainRefused
        } else {
            CompactPlan::PlainLimited { sender: wire::sender_key(from) }
        },
        CompactKind::Ping => CompactPlan::Ping,
        CompactKind::Pong => CompactPlan::Pong,
        CompactKind::Fec => CompactPlan::Ignore,
        CompactKind::JoinAck => CompactPlan::Ignore,
    }
}

/// How a data packet is closed.
#[derive(Clone, Copy, Debug, PartialEq, Eq, Structural)]
pub enum SealPlan {
    Plain,
    MissingDestination,
    MissingLocal,
    Seal { sender: u32, receiver: u32 },
}

/// How a control packet is sent.
pub enum ControlSeal {
    Clear,
    Signed(KeyRef),
}

/// The control packets that have to be signed: syncs, membership events,
/// removals and relayed messages, and combined packets that hold a sync.
pub open spec fn must_sign(tag: ControlTag, body: Seq<u8>, msyn_flag: u16) -> bool {
    tag is Sync || tag is Msmd || tag is Kick || tag is Prxy || (tag is Mctl && body.len() >= 2 && (
    ((body[0] + 256 * body[1]) as u16) & msyn_flag) != 0)
}

/// What is done with an opened data packet of the peer at `from`.
pub open spec fn mdat_planned(state: EngineState, raw: Seq<u8>, from: Endpoint, plan: MdatPlan) -> bool {
    let dst = dst_of(raw);
    let vip = text::ipv4_text(dst);
    let mine = dst == state.id.my_vip_u32 && dst != 0;
    let known = state.routing.routes().dom().contains(vip);
    let trusted = state.routing.vips().dom().contains(from);
    let onward = raw.len() >= 20 && !wire::group_packet(raw) && !mine;
    match plan {
        MdatPlan::Ignore => raw.len() < 20,
        MdatPlan::Group => raw.len() >= 20 && wire::group_packet(raw),
        MdatPlan::Deliver { dst: d } => {
            &&& raw.len() >= 20
            &&& !wire::group_packet(raw)
            &&& mine
            &&& d == dst
        },
        MdatPlan::Forward(ep) => {
            &&& onward
            &&& state.id.is_owner || trusted
            &&& known
            &&& ep == state.routing.routes()[vip].endpoint
            &&& ep != from
        },
        MdatPlan::Bounce => {
            &&& onward
            &&& state.id.is_owner || trusted
            &&& known
            &&& state.routing.routes()[vip].endpoint == from
        },
        MdatPlan::UnknownToOwner => onward && state.id.is_owner && !known,
        MdatPlan::UnknownToPeer => onward && !state.id.is_owner && trusted && !known,
        MdatPlan::Untrusted => onward && !state.id.is_owner && !trusted,
    }
}

impl EngineState {
    /// What to do with a packet of the local adapter.
    pub fn plan_tun_packet(&self, pkt: &[u8]) -> (plan: TunPlan)
        requires
            self.wf(),
        ensures
            ({
                let dst = dst_of(pkt@);
                let vip = text::ipv4_text(dst);
                let owner = engine_state::owner_endpoint_of(self.id@, self.routing.routes());
                match plan {
                    TunPlan::Ignore => pkt@.len() < 20,
                    TunPlan::Inject => pkt@.len() >= 20 && dst == self.id.my_vip_u32 && dst != 0,
                    TunPlan::Routed { dst: d, vip: v, ep, state } => {
                        &&& pkt@.len() >= 20
                        &&& d == dst
                        &&& !(dst == self.id.my_vip_u32 && dst != 0)
                        &&& v@ == vip
                        &&& self.routing.routes().dom().contains(vip)
                        &&& ep == self.routing.routes()[vip].endpoint
                        &&& state == self.routing.routes()[vip].state
                    },
                    TunPlan::Group => {
                        &&& pkt@.len() >= 20
                        &&& !(dst == self.id.my_vip_u32 && dst != 0)
                        &&& !self.routing.routes().dom().contains(vip)
                        &&& wire::group_packet(pkt@)
                    },
                    TunPlan::ToOwner(ep) => {
                        &&& pkt@.len() >= 20
                        &&& !(dst == self.id.my_vip_u32 && dst != 0)
                        &&& !self.routing.routes().dom().contains(vip)
                        &&& !wire::group_packet(pkt@)
                        &&& owner == Some(ep)
                    },
                    TunPlan::NoRoute => {
                        &&& pkt@.len() >= 20
                        &&& !(dst == self.id.my_vip_u32 && dst != 0)
                        &&& !self.routing.routes().dom().contains(vip)
                        &&& !wire::group_packet(pkt@)
                        &&& owner is None
                    },
                }
            }),
    {
        if pkt.len() < 20 {
            return TunPlan::Ignore;
        }
        let dst: u32 = be_u32_at(pkt, 16);
        if dst == self.id.my_vip_u32 && self.id.my_vip_u32 != 0 {
            return TunPlan::Inject;
        }
        let vip: String = ipv4_to_string(dst);
        match self.routing.table.get(&vip) {
            Some(e) => TunPlan::Routed { dst, vip, ep: e.endpoint, state: e.state },
            None => {
                if is_broadcast_or_multicast(pkt) {
                    return TunPlan::Group;
                }
                match self.owner_send_endpoint() {
                    Some(ep) => TunPlan::ToOwner(ep),
                    None => TunPlan::NoRoute,
                }
            },
        }
    }

    /// How a packet with a route goes out. Nothing where a relay is wanted,
    /// none is found and the route is stale.
    pub fn plan_tun_send(
        &mut self,
        dst: u32,
        ep: Endpoint,
        state: RouteState,
        paths: &TunPaths,
    ) -> (out: Option<TunSend>)
        requires
            old(self).wf(),
        ensures
            final(self).wf(),
            EngineState::same_session(*old(self), *final(self)),
            final(self).crypto_keys == old(self).crypto_keys,
            final(self).routing == old(self).routing,
            final(self).sync == old(self).sync,
            final(self).data_send_ctr == old(self).data_send_ctr,
            final(self).pending_heal_vips == old(self).pending_heal_vips,
            final(self).heal_cooldown_until == old(self).heal_cooldown_until,
            ({
                let flags = old(self).feature_flags;
                let is_owner = old(self).id.is_owner;
                let path = chosen_path(flags.multipath_core, is_owner, ep, state, *paths);
                let prev = routing::lookup_in(old(self).prev_path_kind@, dst);
                let relayed = paths.want_relay && !is_owner;
                match out {
                    None => path is None && final(self).prev_path_kind == old(self).prev_path_kind,
                    Some(s) => {
                        &&& path == Some((s.target, s.kind))
                        &&& s.also == second_path(
                            flags.dual_write_transition,
                            prev,
                            s.kind,
                            ep,
                            *paths,
                        )
                        &&& s.begin_transition == (flags.dual_write_transition && prev is Some
                            && prev->0 != s.kind)
                        &&& s.stamp == if relayed && paths.relay is Hop {
                            Some(paths.relay->Hop_0)
                        } else {
                            None
                        }
                        &&& s.no_hop == (relayed && paths.relay is NoHop)
                        &&& s.relay_fallback == (s.kind is OwnerRelay && prev != Some(
                            PathKind::OwnerRelay,
                        ))
                        &&& final(self).prev_path_kind@ == old(self).prev_path_kind@.insert(
                            dst,
                            s.kind,
                        )
                    },
                }
            }),
            out is None <==> state is Stale && paths.want_relay && !old(self).id.is_owner
                && paths.relay is NoHop,
            out matches Some(s) ==> if paths.want_relay && !old(self).id.is_owner {
                match paths.relay {
                    RelaySelection::Hop(hop) => s.target == hop && s.kind is OwnerRelay && s.stamp
                        == Some(hop) && !s.no_hop,
                    RelaySelection::NoHop => s.target == ep && s.kind is Direct && s.stamp is None
                        && s.no_hop,
                }
            } else {
                &&& s.kind !is OwnerRelay && s.stamp is None && !s.no_hop
                &&& paths.multipath_active is None || !old(self).feature_flags.multipath_core ==> (
                s.target, s.kind) == (ep, PathKind::Direct)
                &&& old(self).feature_flags.multipath_core ==> (
                paths.multipath_active matches Some(
                    active,
                ) ==> if active.1 is OwnerRelay {
                    (s.target, s.kind) == (ep, PathKind::Direct)
                } else {
                    (s.target, s.kind) == active
                })
            },
    {
        let mut target: Endpoint = ep;
        let mut kind: PathKind = PathKind::Direct;
        if self.feature_flags.multipath_core {
            if let Some((e, k)) = paths.multipath_active {
                if k != PathKind::OwnerRelay {
                    target = e;
                    kind = k;
                }
            }
        }
        let mut stamp: Option<Endpoint> = None;
        let mut no_hop: bool = false;
        if paths.want_relay && !self.id.is_owner {
            match paths.relay {
                RelaySelection::Hop(hop) => {
                    target = hop;
                    kind = PathKind::OwnerRelay;
                    stamp = Some(hop);
                },
                RelaySelection::NoHop => {
                    if state == RouteState::Stale {
                        return None;
                    }
                    no_hop = true;
                    target = ep;
                    kind = PathKind::Direct;
                },
            }
        }
        let prev: Option<PathKind> = match self.prev_path_kind.get(&dst) {
            Some(k) => Some(*k),
            None => None,
        };
        let dual: bool = self.feature_flags.dual_write_transition;
        let changed: bool = match prev {
            Some(p) => p != kind,
            None => false,
        };
        let also: Option<(Endpoint, PathKind)> = if !dual {
            None
        } else if changed {
            match prev {
                Some(p) => Some((ep, p)),
                None => None,
            }
        } else {
            paths.transition_active
        };
        let was_relay: bool = match prev {
            Some(p) => p == PathKind::OwnerRelay,
            None => false,
        };
        let relay_fallback: bool = kind == PathKind::OwnerRelay && !was_relay;
        self.prev_path_kind.insert(dst, kind);
        Some(
            TunSend {
                target,
                kind,
                also,
                begin_transition: dual && changed,
                stamp,
                no_hop,
                relay_fallback,
            },
        )
    }

    /// Where a packet goes instead whose send to `dest` failed: to the owner,
    /// if that is another endpoint and its path is in order.
    pub fn fallback_owner(&self, dest: Endpoint, owner_healthy: bool) -> (out: Option<Endpoint>)
        requires
            self.wf(),
        ensures
            ({
                let owner = engine_state::owner_endpoint_of(self.id@, self.routing.routes());
                out == if owner is Some && owner->0 != dest && owner_healthy {
                    owner
                } else {
                    None
                }
            }),
    {
        match self.owner_send_endpoint() {
            Some(ep) => if ep == dest || !owner_healthy {
                None
            } else {
                Some(ep)
            },
            None => None,
        }
    }

    /// What to do with an opened data packet of the peer at `from`.
    pub fn plan_mdat(&self, raw: &[u8], from: Endpoint) -> (plan: MdatPlan)
        requires
            self.wf(),
        ensures
            mdat_planned(*self, raw@, from, plan),
    {
        if raw.len() < 20 {
            return MdatPlan::Ignore;
        }
        if is_broadcast_or_multicast(raw) {
            return MdatPlan::Group;
        }
        let dst: u32 = be_u32_at(raw, 16);
        if dst == self.id.my_vip_u32 && self.id.my_vip_u32 != 0 {
            return MdatPlan::Deliver { dst };
        }
        if !self.id.is_owner && !self.routing.tracks_endpoint(from) {
            return MdatPlan::Untrusted;
        }
        let vip: String = ipv4_to_string(dst);
        match self.routing.lookup(&vip) {
            Some(ep) => if ep != from {
                MdatPlan::Forward(ep)
            } else {
                MdatPlan::Bounce
            },
            None => if self.id.is_owner {
                MdatPlan::UnknownToOwner
            } else {
                MdatPlan::UnknownToPeer
            },
        }
    }

    /// Takes an opened data packet of the peer at `from`: the peer was heard, and the
    /// plan says what to do with the packet.
    pub fn handle_mdat_like(&mut self, raw: &[u8], from: Endpoint, now: u64) -> (plan: MdatPlan)
        requires
            old(self).wf(),
        ensures
            final(self).wf(),
            EngineState::beyond_peers(*old(self), *final(self)),
            final(self).peers() == if raw@.len() < 20 {
                old(self).peers()
            } else {
                engine_routes::heard(old(self).peers(), old(self).id.is_owner, from, now)
            },
            mdat_planned(*old(self), raw@, from, plan),
    {
        if raw.len() < 20 {
            return MdatPlan::Ignore;
        }
        let _ = self.touch_routing_endpoint(from, now);
        proof {
            assert(self.peers().routes == self.routing.routes());
            assert(self.peers().vips == self.routing.vips());
        }
        self.plan_mdat(raw, from)
    }

    /// Whom a packet for all nodes that came from `from` is passed on to.
    /// `relay_wanted` names the peers whose direct path is bad. The owner gets
    /// no copy of its own where others are reached through it.
    pub fn plan_group_forward(&self, from: Endpoint, relay_wanted: &NameSet) -> (out: GroupForward)
        requires
            self.wf(),
            relay_wanted.wf(),
        ensures
            ({
                let s = self.routing.table.entries@;
                let is_owner = self.id.is_owner;
                let direct = direct_eps(s, from, is_owner, relay_wanted@);
                let owner = engine_state::owner_endpoint_of(self.id@, self.routing.routes());
                &&& names(out.relay@) == relay_peers(s, from, is_owner, relay_wanted@)
                &&& out.direct@ == if out.relay@.len() > 0 && owner is Some {
                    without(direct, owner->0)
                } else {
                    direct
                }
            }),
    {
        let is_owner: bool = self.id.is_owner;
        let ghost s = self.routing.table.entries@;
        let mut direct: Vec<Endpoint> = Vec::new();
        let mut relay: Vec<String> = Vec::new();
        let mut i: usize = 0;
        proof {
            assert(s.take(0) =~= Seq::<(String, routing::RouteEntry)>::empty());
            assert(names(relay@) =~= Seq::<Seq<char>>::empty());
        }
        while i < self.routing.table.entries.len()
            invariant
                self.wf(),
                relay_wanted.wf(),
                s == self.routing.table.entries@,
                i <= s.len(),
                direct@ == direct_eps(s.take(i as int), from, is_owner, relay_wanted@),
                names(relay@) == relay_peers(s.take(i as int), from, is_owner, relay_wanted@),
            decreases s.len() - i,
        {
            proof {
                assert(s.take(i + 1).drop_last() =~= s.take(i as int));
                assert(s.take(i + 1).last() == s[i as int]);
            }
            let ghost r0 = relay@;
            let e = &self.routing.table.entries[i];
            if e.1.endpoint != from {
                if !is_owner && relay_wanted.contains(&e.0) {
                    relay.push(e.0.clone());
                    proof {
                        assert(names(relay@) =~= names(r0).push(s[i as int].0@));
                    }
                } else {
                    direct.push(e.1.endpoint);
                }
            }
            i += 1;
        }
        proof {
            assert(s.take(s.len() as int) =~= s);
        }
        if relay.len() > 0 {
            if let Some(owner) = self.owner_send_endpoint() {
                let kept: Vec<Endpoint> = drop_endpoint(&direct, owner);
                return GroupForward { direct: kept, relay };
            }
        }
        GroupForward { direct, relay }
    }

    /// What to do with a compact packet. `min_sealed` is the length of an empty
    /// sealed packet; `replay_ok` tells whether its counter is new.
    pub fn plan_compact(
        &self,
        kind: CompactKind,
        body: &[u8],
        from: Endpoint,
        min_sealed: usize,
        replay_ok: bool,
    ) -> (plan: CompactPlan)
        requires
            self.wf(),
        ensures
            plan == compact_plan(
                kind,
                body@,
                from,
                min_sealed as int,
                self.vip_number_at(from),
                self.id.my_vip_u32,
                self.crypto_keys.any(),
                replay_ok,
            ),
    {
        match kind {
            CompactKind::Reliable => CompactPlan::Reliable,
            CompactKind::Ack => if body.len() < 4 {
                CompactPlan::Ignore
            } else {
                CompactPlan::Ack { seq: be_u32_at(body, 0) }
            },
            CompactKind::Encrypted => {
                if body.len() < min_sealed {
                    return CompactPlan::Ignore;
                }
                match self.endpoint_to_vip_u32(from) {
                    None => CompactPlan::CryptoGate,
                    Some(peer) => if self.id.my_vip_u32 == 0 {
                        CompactPlan::CryptoGate
                    } else if !replay_ok {
                        CompactPlan::Replayed
                    } else {
                        CompactPlan::Open { peer, me: self.id.my_vip_u32 }
                    },
                }
            },
            CompactKind::Data => if self.has_crypto() {
                CompactPlan::PlainRefused
            } else {
                CompactPlan::PlainLimited { sender: src_addr_key(from) }
            },
            CompactKind::Ping => CompactPlan::Ping,
            CompactKind::Pong => CompactPlan::Pong,
            CompactKind::Fec => CompactPlan::Ignore,
            CompactKind::JoinAck => CompactPlan::Ignore,
        }
    }

    /// How a data packet to `dest` is closed.
    pub fn plan_seal(&self, dest: Endpoint) -> (plan: SealPlan)
        requires
            self.wf(),
        ensures
            plan == if !self.crypto_keys.any() {
                SealPlan::Plain
            } else if self.vip_number_at(dest) is None {
                SealPlan::MissingDestination
            } else if self.id.my_vip_u32 == 0 {
                SealPlan::MissingLocal
            } else {
                SealPlan::Seal {
                    sender: self.id.my_vip_u32,
                    receiver: self.vip_number_at(dest)->0,
                }
            },
    {
        if !self.has_crypto() {
            return SealPlan::Plain;
        }
        match self.endpoint_to_vip_u32(dest) {
            None => SealPlan::MissingDestination,
            Some(receiver) => if self.id.my_vip_u32 == 0 {
                SealPlan::MissingLocal
            } else {
                SealPlan::Seal { sender: self.id.my_vip_u32, receiver }
            },
        }
    }

    /// How a control packet to `dest` is sent. `msyn_flag` is the bit that marks
    /// a sync in a combined packet. What has to be signed is never sent in the
    /// clear as long as there is a key.
    pub fn plan_control_send(
        &self,
        dest: Endpoint,
        tag: ControlTag,
        body: &[u8],
        msyn_flag: u16,
    ) -> (plan: ControlSeal)
        requires
            self.wf(),
        ensures
            ({
                let sign = must_sign(tag, body@, msyn_flag);
                match plan {
                    ControlSeal::Clear => !sign || !self.crypto_keys.any(),
                    ControlSeal::Signed(k) => {
                        &&& sign
                        &&& self.crypto_keys.any()
                        &&& self.crypto_keys.bound(dest) is Some ==> self.crypto_keys.bound(dest)
                            == Some(k)
                        &&& self.crypto_keys.bound(dest) is None && self.crypto_keys.primary is Some
                            ==> self.crypto_keys.primary == Some(k)
                        &&& self.crypto_keys.bound(dest) is None && self.crypto_keys.primary is None
                            && self.crypto_keys.extras@.len() > 0 ==> Some(k)
                            == self.crypto_keys.newest_extra()
                        &&& exists|ep: Endpoint| #[trigger]
                            self.crypto_keys.bound(ep) == Some(k) || self.crypto_keys.primary
                                == Some(k) || self.crypto_keys.newest_extra() == Some(k)
                    },
                }
            }),
    {
        let msyn_inside: bool = if tag == ControlTag::Mctl && body.len() >= 2 {
            let flags: u16 = body[0] as u16 + 256 * body[1] as u16;
            (flags & msyn_flag) != 0
        } else {
            false
        };
        let sign: bool = match tag {
            ControlTag::Sync | ControlTag::Msmd | ControlTag::Kick | ControlTag::Prxy => true,
            _ => msyn_inside,
        };
        if sign {
            let key: Option<KeyRef> = match self.crypto_keys.key_for_dest(dest) {
                Some(k) => Some(k),
                None => self.crypto_keys.shared_signing_key(),
            };
            if let Some(k) = key {
                proof {
                    crate::table::map_of_len(self.crypto_keys.per_peer.entries@);
                    if self.crypto_keys.bound(dest) is Some {
                        let m = self.crypto_keys.per_peer.entries@;
                        let i = choose|i: int| crate::table::key_at(m, dest, i);
                        assert(m.len() > 0);
                    }
                }
                return ControlSeal::Signed(k);
            }
        }
        ControlSeal::Clear
    }

    /// Where a control packet for `primary` goes: along all paths that were found to
    /// its peer, where control packets race, and else along the one.
    pub fn control_race_dests(&self, primary: Endpoint, found: Vec<Endpoint>) -> (out: Vec<
        Endpoint,
    >)
        ensures
            out@ == if self.feature_flags.multipath_core && self.feature_flags.control_path_race
                && found@.len() > 0 {
                found@
            } else {
                seq![primary]
            },
    {
        if self.feature_flags.multipath_core && self.feature_flags.control_path_race && found.len()
            > 0 {
            return found;
        }
        let mut out: Vec<Endpoint> = Vec::new();
        out.push(primary);
        proof {
            assert(out@ =~= seq![primary]);
        }
        out
    }

    /// Whether the endpoint of `vip` is remembered for later sessions: once this
    /// node has an address, and where `vip` is one.
    pub fn remembers_endpoint(&self, vip: &String) -> (b: bool)
        ensures
            b == (self.id.my_vip@.len() > 0 && text::ipv4_of(vip@) is Some),
    {
        if self.id.my_vip.unicode_len() == 0 {
            return false;
        }
        parse_ipv4(vip.as_str()).is_some()
    }

    /// The key that a punch or keepalive is sealed with; signaling packets are
    /// always sent in the clear.
    pub fn plan_signaling(&self, dest: Endpoint, tag: ControlTag) -> (key: Option<KeyRef>)
        requires
            self.wf(),
        ensures
            key == if wire::signaling_tag(tag) {
                None
            } else if self.crypto_keys.bound(dest) is Some {
                self.crypto_keys.bound(dest)
            } else if self.crypto_keys.primary is Some {
                self.crypto_keys.primary
            } else {
                self.crypto_keys.newest_extra()
            },
    {
        if is_signaling_tag(tag) {
            return None;
        }
        self.crypto_keys.key_for_dest(dest)
    }
}

/// What a data packet is sent for.
#[derive(Clone, Copy, Debug, PartialEq, Eq, Structural)]
pub enum DataUse {
    /// A packet of this node.
    Own,
    /// A packet that is passed on.
    Forward,
    /// A packet that waits for nothing.
    Direct,
}

/// How a data packet leaves.
#[derive(Clone, Copy, Debug, PartialEq, Eq, Structural)]
pub enum DataWay {
    /// Not at all: it is too large for the path.
    Oversize,
    /// At once, if the socket takes it.
    Raw,
    /// At once; the sender waits for the socket.
    Send,
    /// Through the queues.
    Queue,
    /// Through the encoder, and then through the queues.
    Fec,
}

/// How a data packet leaves. `rawperf` tells that the queues are passed by, and
/// `fits` that the path takes a packet of this length.
pub fn data_way(what: DataUse, rawperf: bool, fits: bool) -> (way: DataWay)
    ensures
        way == if what is Direct {
            if fits {
                DataWay::Send
            } else {
                DataWay::Oversize
            }
        } else if rawperf {
            if fits {
                DataWay::Raw
            } else {
                DataWay::Oversize
            }
        } else if what is Own {
            DataWay::Fec
        } else {
            DataWay::Queue
        },
{
    match what {
        DataUse::Direct => if fits {
            DataWay::Send
        } else {
            DataWay::Oversize
        },
        _ => if rawperf {
            if fits {
                DataWay::Raw
            } else {
                DataWay::Oversize
            }
        } else if what == DataUse::Own {
            DataWay::Fec
        } else {
            DataWay::Queue
        },
    }
}

/// `v` without `x`.
fn drop_endpoint(v: &Vec<Endpoint>, x: Endpoint) -> (out: Vec<Endpoint>)
    ensures
        out@ == without(v@, x),
{
    let mut out: Vec<Endpoint> = Vec::new();
    let mut i: usize = 0;
    proof {
        reveal(Seq::filter);
        assert(v@.take(0) =~= Seq::<Endpoint>::empty());
    }
    while i < v.len()
        invariant
            i <= v@.len(),
            out@ == without(v@.take(i as int), x),
        decreases v@.len() - i,
    {
        proof {
            reveal(Seq::filter);
            assert(v@.take(i + 1).drop_last() =~= v@.take(i as int));
            assert(v@.take(i + 1).last() == v@[i as int]);
        }
        if v[i] != x {
            out.push(v[i]);
        }
        i += 1;
    }
    proof {
        assert(v@.take(v@.len() as int) =~= v@);
    }
    out
}

} // verus!
