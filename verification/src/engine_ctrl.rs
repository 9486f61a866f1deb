//! What becomes of the control packets of the peers.

use crate::addr::Endpoint;
use crate::engine_routes;
use crate::engine_routes::RemovedPeer;
use crate::engine_state;
use crate::engine_state::{clamp_prefix, EngineState, JoinAck, SyncState};
use crate::keys::KeyRef;
use crate::routing;
use crate::routing::{is_valid_sync_endpoint, is_valid_sync_vip, owner_vip_with_prefix};
use crate::text;
use crate::text::{ipv4_to_string, parse_ipv4};
use crate::wire;
use crate::wire::{
    allow_unauth_control_tag_with_crypto, first_free_vip_u32_in_subnet, ControlTag,
};
use vstd::prelude::*;
use vstd::utf8::*;

verus! {

/// The control packets that are not counted against their sender's rate.
pub open spec fn unmetered(tag: ControlTag) -> bool {
    tag is Hpch || tag is Hack || tag is Kpal || tag is Mctl || tag is Jack
}

/// What to do next with a control packet.
#[derive(Clone, Copy, Debug, PartialEq, Eq, Structural)]
pub enum ControlStep {
    /// Its sender sends too much.
    Limited,
    /// It would have to be signed.
    CryptoGate,
    Ignore,
    /// A message between networks, to be read and checked for its age.
    Para,
    /// A sign of life.
    Touch,
    /// The join was refused.
    JoinFailed,
    /// A request to join, to be held against the rates of its sender and then
    /// against [`join_admitted`].
    Join,
    /// The answer to a join.
    Jack,
    /// A sync.
    Msyn,
    /// A membership event.
    Msmd,
    /// A message for another node.
    Prxy,
    /// A combined packet.
    Mctl,
    Keepalive,
    Punch,
    PunchAck,
    /// The owner put this node out.
    Kicked,
}

/// The longest body of a join, its answer, or a relayed message.
pub const CONTROL_BODY_MAX: usize = 8192;

/// The longest body of a membership event.
pub const MSMD_BODY_MAX: usize = 4096;

/// What comes after the gates.
pub open spec fn admitted_step(
    s: EngineState,
    tag: ControlTag,
    len: int,
    from: Endpoint,
    authenticated: bool,
) -> ControlStep {
    match tag {
        ControlTag::ParaHello => ControlStep::Para,
        ControlTag::ParaReply => ControlStep::Para,
        ControlTag::ParaOk => ControlStep::Para,
        ControlTag::ParaPunchAck => ControlStep::Para,
        ControlTag::Rdys => ControlStep::Touch,
        ControlTag::Mstr => ControlStep::Touch,
        ControlTag::Brek => ControlStep::Touch,
        ControlTag::Merr => ControlStep::JoinFailed,
        ControlTag::Join => if s.id.is_owner {
            ControlStep::Join
        } else {
            ControlStep::Ignore
        },
        ControlTag::Jack => if !s.id.is_owner && len <= CONTROL_BODY_MAX {
            ControlStep::Jack
        } else {
            ControlStep::Ignore
        },
        ControlTag::Sync => if s.id.is_owner {
            ControlStep::Ignore
        } else {
            ControlStep::Msyn
        },
        ControlTag::Msmd => if len <= MSMD_BODY_MAX {
            ControlStep::Msmd
        } else {
            ControlStep::Ignore
        },
        ControlTag::Prxy => if len > CONTROL_BODY_MAX {
            ControlStep::Ignore
        } else if authenticated || s.routing.vips().dom().contains(from) || s.id.owner_ep == Some(
            from,
        ) {
            ControlStep::Prxy
        } else {
            ControlStep::CryptoGate
        },
        ControlTag::Mctl => ControlStep::Mctl,
        ControlTag::Kpal => ControlStep::Keepalive,
        ControlTag::Hpch => ControlStep::Punch,
        ControlTag::Hack => ControlStep::PunchAck,
        ControlTag::Kick => if kick_valid(s, from, authenticated) {
            ControlStep::Kicked
        } else {
            ControlStep::Ignore
        },
        ControlTag::Pmtu => ControlStep::Ignore,
        ControlTag::Pmar => ControlStep::Ignore,
        ControlTag::Ctsig => ControlStep::Ignore,
        ControlTag::Other => ControlStep::Ignore,
    }
}

/// Only the owner can put a node out, and where the network has a key, only
/// with a signed packet.
pub open spec fn kick_valid(s: EngineState, from: Endpoint, authenticated: bool) -> bool {
    let owner_vip = s.id.owner_vip_cached@;
    let by_route = owner_vip.len() > 0 && engine_routes::endpoint_in(s.routing.routes(), owner_vip)
        == Some(from);
    &&& !s.id.is_owner
    &&& s.id.owner_ep == Some(from) || by_route
    &&& authenticated || !s.crypto_keys.any()
}

/// The step for a control packet.
pub open spec fn control_step(
    s: EngineState,
    tag: ControlTag,
    len: int,
    from: Endpoint,
    authenticated: bool,
    within_rate: bool,
) -> ControlStep {
    if !authenticated && !unmetered(tag) && !within_rate {
        ControlStep::Limited
    } else if s.crypto_keys.any() && !authenticated && !wire::open_tag(tag) {
        ControlStep::CryptoGate
    } else {
        admitted_step(s, tag, len, from, authenticated)
    }
}

/// Whether a control packet is counted against its sender's rate.
pub fn is_metered(tag: ControlTag, authenticated: bool) -> (b: bool)
    ensures
        b == (!authenticated && !unmetered(tag)),
{
    let bypass: bool = match tag {
        ControlTag::Hpch
        | ControlTag::Hack
        | ControlTag::Kpal
        | ControlTag::Mctl
        | ControlTag::Jack => true,
        _ => false,
    };
    !authenticated && !bypass
}

/// Whether a request to join is read: its sender does not ask too often, and
/// `body_len` is not too long. A request counts against the rates whatever its
/// length.
pub fn join_admitted(within_rates: bool, body_len: usize) -> (b: bool)
    ensures
        b == (within_rates && body_len <= CONTROL_BODY_MAX),
{
    within_rates && body_len <= CONTROL_BODY_MAX
}

/// A request to join.
pub struct JoinRequest {
    pub proto_ver: Option<u64>,
    pub node_id: String,
}

/// What to do with a request to join.
#[derive(Clone, Copy, Debug, PartialEq, Eq, Structural)]
pub enum JoinPlan {
    /// The sender speaks another version.
    VersionMismatch { got: u64 },
    /// The node id is empty or too long.
    BadNode,
    /// An address is to be assigned.
    Assign { already_known: bool },
}

/// The longest node id, in bytes.
pub const NODE_ID_MAX: usize = 64;

/// The answer to a join.
pub struct JackBody {
    pub proto_ver: Option<u64>,
    pub vip: String,
    pub owner_node_id: String,
    pub prefix: Option<u64>,
    pub owner_vip: Option<String>,
}

impl JackBody {
    /// The subnet prefix: its low eight bits brought into 8 to 30, or 24.
    pub open spec fn prefix_of(&self) -> u8 {
        match self.prefix {
            Some(n) => engine_state::clamped_prefix((n % 256) as u8),
            None => 24,
        }
    }

    /// The owner's address: as given, or the first host of the subnet.
    pub open spec fn owner_of(&self) -> Seq<char> {
        match self.owner_vip {
            Some(v) => v@,
            None => routing::owner_vip_of(self.vip@, self.prefix_of()),
        }
    }

    /// The answer assigns an address beside the owner's, and comes from where
    /// an owner can be.
    pub open spec fn valid(&self, from: Endpoint) -> bool {
        &&& text::ipv4_of(self.vip@) is Some
        &&& self.owner_node_id@.len() > 0
        &&& encode_utf8(self.owner_node_id@).len() <= NODE_ID_MAX
        &&& text::ipv4_of(self.owner_of()) is Some
        &&& self.owner_of() != self.vip@
        &&& routing::sync_vip_ok(self.vip@, self.owner_of(), self.prefix_of())
        &&& routing::sync_endpoint_ok(from)
    }

    fn prefix_bits(&self) -> (p: u8)
        ensures
            p == self.prefix_of(),
    {
        match self.prefix {
            Some(n) => clamp_prefix((n % 256) as u8),
            None => 24,
        }
    }

    fn owner_addr(&self) -> (out: String)
        ensures
            out@ == self.owner_of(),
    {
        match &self.owner_vip {
            Some(v) => v.clone(),
            None => owner_vip_with_prefix(self.vip.as_str(), self.prefix_bits()),
        }
    }
}

/// Whether the answer to a join is in order.
pub fn jack_mpja_body_valid(v: &JackBody, from: Endpoint) -> (ok: bool)
    ensures
        ok == v.valid(from),
{
    let prefix: u8 = v.prefix_bits();
    let owner: String = v.owner_addr();
    let node_bytes: &[u8] = v.owner_node_id.as_str().as_bytes();
    parse_ipv4(v.vip.as_str()).is_some() && !v.owner_node_id.as_str().is_empty()
        && node_bytes.len() <= NODE_ID_MAX && parse_ipv4(owner.as_str()).is_some() && !(owner
        == v.vip) && is_valid_sync_vip(v.vip.as_str(), owner.as_str(), prefix)
        && is_valid_sync_endpoint(from)
}

/// What came of the answer to a join.
pub enum JackOutcome {
    Ignored,
    /// The owner speaks another version.
    VersionMismatch,
    /// Nobody waits for the answer any more.
    Undelivered,
    /// The node has joined.
    Joined { ack: JoinAck, delivered: bool, owner_moved_from: Option<Endpoint> },
}

/// What kind of membership event it is.
#[derive(Clone, Copy, Debug, PartialEq, Eq, Structural)]
pub enum MsmdKind {
    Join,
    Leave,
    Unknown,
}

/// A membership event.
pub struct MsmdEvent {
    pub kind: MsmdKind,
    pub vip: String,
    pub node_id: String,
    /// The endpoint, where it could be read.
    pub ep: Option<Endpoint>,
}

/// What came of a membership event.
pub enum MsmdOutcome {
    Nothing,
    /// A peer is there, and `moved_from` is where its route led before.
    Joined { moved_from: Option<Endpoint> },
    /// The peer that left, where it had a route.
    Left(Option<RemovedPeer>),
}

/// A node that says it leaves may do so: the route is its own, or one of the
/// two node ids is not known.
pub open spec fn leave_valid(route: routing::RouteView, node_id: Seq<char>) -> bool {
    node_id.len() == 0 || route.node_id.len() == 0 || route.node_id == node_id
}

/// A message for another node.
pub struct PrxyMsg {
    pub ttl: u64,
    pub dst_node: String,
    pub src_node: String,
    /// It holds connection candidates.
    pub candidates: bool,
}

/// What to do with a message for another node.
#[derive(Clone, Copy, Debug, PartialEq, Eq, Structural)]
pub enum PrxyPlan {
    Ignore,
    /// It is for this node, and holds candidates.
    Candidates,
    /// It goes on, with one hop less to live.
    Forward { ep: Endpoint, ttl: u64 },
}

/// The sender at `from` is the node `node`.
pub open spec fn sender_is(s: EngineState, from: Endpoint, node: Seq<char>) -> bool {
    match routing::lookup_in(s.routing.vips(), from) {
        Some(v) => match routing::lookup_in(s.routing.routes(), v) {
            Some(r) => if r.node_id.len() > 0 {
                r.node_id == node
            } else {
                routing::lookup_in(s.routing.nodes(), node) == Some(v)
            },
            None => false,
        },
        None => false,
    }
}

/// The endpoint of a node.
pub open spec fn node_endpoint(s: EngineState, node: Seq<char>) -> Option<Endpoint> {
    match routing::lookup_in(s.routing.nodes(), node) {
        Some(v) => engine_routes::endpoint_in(s.routing.routes(), v),
        None => None,
    }
}

/// The address that a node holds.
pub open spec fn node_address(s: EngineState, node: Seq<char>) -> Option<Seq<char>> {
    match node_endpoint(s, node) {
        Some(ep) => routing::lookup_in(s.routing.vips(), ep),
        None => None,
    }
}

/// The address of host `h` in this node's subnet is taken.
pub open spec fn address_taken(s: EngineState, h: int) -> bool {
    let a = wire::host_addr(s.id.my_vip_u32, s.id.subnet_prefix, h);
    a == s.id.my_vip_u32 || s.routing.routes().dom().contains(text::ipv4_text(a))
}

impl EngineState {
    /// What to do next with a control packet. `within_rate` is only looked at
    /// for packets that are metered.
    pub fn dispatch_control(
        &self,
        tag: ControlTag,
        body_len: usize,
        from: Endpoint,
        authenticated: bool,
        within_rate: bool,
    ) -> (step: ControlStep)
        requires
            self.wf(),
        ensures
            step == control_step(*self, tag, body_len as int, from, authenticated, within_rate),
    {
        if is_metered(tag, authenticated) && !within_rate {
            return ControlStep::Limited;
        }
        if self.has_crypto() && !authenticated && !allow_unauth_control_tag_with_crypto(tag) {
            return ControlStep::CryptoGate;
        }
        match tag {
            ControlTag::ParaHello
            | ControlTag::ParaReply
            | ControlTag::ParaOk
            | ControlTag::ParaPunchAck => ControlStep::Para,
            ControlTag::Rdys | ControlTag::Mstr | ControlTag::Brek => ControlStep::Touch,
            ControlTag::Merr => ControlStep::JoinFailed,
            ControlTag::Join => if self.id.is_owner {
                ControlStep::Join
            } else {
                ControlStep::Ignore
            },
            ControlTag::Jack => if !self.id.is_owner && body_len <= CONTROL_BODY_MAX {
                ControlStep::Jack
            } else {
                ControlStep::Ignore
            },
            ControlTag::Sync => if self.id.is_owner {
                ControlStep::Ignore
            } else {
                ControlStep::Msyn
            },
            ControlTag::Msmd => if body_len <= MSMD_BODY_MAX {
                ControlStep::Msmd
            } else {
                ControlStep::Ignore
            },
            ControlTag::Prxy => {
                if body_len > CONTROL_BODY_MAX {
                    return ControlStep::Ignore;
                }
                let from_owner: bool = match self.id.owner_ep {
                    Some(o) => o == from,
                    None => false,
                };
                if authenticated || self.routing.tracks_endpoint(from) || from_owner {
                    ControlStep::Prxy
                } else {
                    ControlStep::CryptoGate
                }
            },
            ControlTag::Mctl => ControlStep::Mctl,
            ControlTag::Kpal => ControlStep::Keepalive,
            ControlTag::Hpch => ControlStep::Punch,
            ControlTag::Hack => ControlStep::PunchAck,
            ControlTag::Kick => if self.kick_is_valid(from, authenticated) {
                ControlStep::Kicked
            } else {
                ControlStep::Ignore
            },
            ControlTag::Pmtu | ControlTag::Pmar | ControlTag::Ctsig | ControlTag::Other => {
                ControlStep::Ignore
            },
        }
    }

    fn kick_is_valid(&self, from: Endpoint, authenticated: bool) -> (ok: bool)
        requires
            self.wf(),
        ensures
            ok == kick_valid(*self, from, authenticated),
    {
        if self.id.is_owner {
            return false;
        }
        let by_route: bool = if self.id.owner_vip_cached.as_str().is_empty() {
            false
        } else {
            match self.routing.lookup(&self.id.owner_vip_cached) {
                Some(e) => e == from,
                None => false,
            }
        };
        let by_ep: bool = match self.id.owner_ep {
            Some(o) => o == from,
            None => false,
        };
        (by_ep || by_route) && (authenticated || !self.has_crypto())
    }

    /// The owner put this node out. Tells whether somebody waited for a join.
    pub fn take_kick(&mut self) -> (was_waiting: bool)
        ensures
            was_waiting == old(self).join_waiting,
            *final(self) == (EngineState { kicked: true, join_waiting: false, ..*old(self) }),
    {
        self.kicked = true;
        let was: bool = self.join_waiting;
        self.join_waiting = false;
        was
    }

    /// Nobody waits for a join any more. Tells whether somebody did.
    pub fn fail_join(&mut self) -> (was_waiting: bool)
        ensures
            was_waiting == old(self).join_waiting,
            *final(self) == (EngineState { join_waiting: false, ..*old(self) }),
    {
        let was: bool = self.join_waiting;
        self.join_waiting = false;
        was
    }

    /// A signed packet of the peer at `from` was opened with `key`: the peer was
    /// heard, and is bound to that key.
    pub fn accept_signed(&mut self, from: Endpoint, key: KeyRef, now: u64)
        requires
            old(self).wf(),
        ensures
            final(self).wf(),
            EngineState::beyond_peers(*old(self), *final(self)),
            final(self).peers() == (engine_routes::Peers {
                bound: old(self).crypto_keys.per_peer@.insert(from, key),
                ..engine_routes::heard(old(self).peers(), old(self).id.is_owner, from, now)
            }),
    {
        let _ = self.touch_routing_endpoint(from, now);
        self.crypto_keys.bind_peer_key(from, key);
        proof {
            assert(self.peers() =~= (engine_routes::Peers {
                bound: old(self).crypto_keys.per_peer@.insert(from, key),
                ..engine_routes::heard(old(self).peers(), old(self).id.is_owner, from, now)
            }));
        }
    }

    /// What to do with a request to join.
    pub fn plan_join(&self, req: &JoinRequest, wire_version: u64) -> (plan: JoinPlan)
        requires
            self.wf(),
        ensures
            plan == if req.proto_ver != Some(wire_version) {
                JoinPlan::VersionMismatch {
                    got: match req.proto_ver {
                        Some(v) => v,
                        None => 0,
                    },
                }
            } else if req.node_id@.len() == 0 || encode_utf8(req.node_id@).len() > NODE_ID_MAX {
                JoinPlan::BadNode
            } else {
                JoinPlan::Assign { already_known: node_endpoint(*self, req.node_id@) is Some }
            },
    {
        let got: u64 = match req.proto_ver {
            Some(v) => v,
            None => 0,
        };
        if req.proto_ver.is_none() || got != wire_version {
            return JoinPlan::VersionMismatch { got };
        }
        let bytes: &[u8] = req.node_id.as_str().as_bytes();
        if req.node_id.as_str().is_empty() || bytes.len() > NODE_ID_MAX {
            return JoinPlan::BadNode;
        }
        JoinPlan::Assign { already_known: self.lookup_ep_by_node(&req.node_id).is_some() }
    }

    /// The endpoint of a node.
    pub fn lookup_ep_by_node(&self, node: &String) -> (out: Option<Endpoint>)
        requires
            self.wf(),
        ensures
            out == node_endpoint(*self, node@),
    {
        match self.routing.node_to_vip.get(node) {
            Some(v) => self.routing.lookup(v),
            None => None,
        }
    }

    /// The address for a node that joins: the one that it holds, else the first
    /// free one of the subnet.
    pub fn allocate_owner_vip_fallback(&self, node_id: &String) -> (out: Option<String>)
        requires
            self.wf(),
        ensures
            ({
                let held = node_address(*self, node_id@);
                let prefix = self.id.subnet_prefix;
                match out {
                    Some(v) => if held is Some {
                        v@ == held->0
                    } else {
                        self.id.my_vip_u32 != 0 && exists|h: int|
                            wire::min_host(prefix) <= h <= wire::max_host(prefix) && v@
                                == text::ipv4_text(
                                #[trigger] wire::host_addr(self.id.my_vip_u32, prefix, h),
                            ) && !address_taken(*self, h) && forall|g: int|
                                wire::min_host(prefix) <= g < h ==> #[trigger] address_taken(
                                    *self,
                                    g,
                                )
                    },
                    None => held is None && (self.id.my_vip_u32 == 0 || forall|g: int|
                        wire::min_host(prefix) <= g <= wire::max_host(prefix)
                            ==> #[trigger] address_taken(*self, g)),
                }
            }),
    {
        if let Some(ep) = self.lookup_ep_by_node(node_id) {
            if let Some(v) = self.routing.vip_of(ep) {
                return Some(v.clone());
            }
        }
        let occupied = |u: u32| -> (b: bool)
            requires
                self.wf(),
            ensures
                b == self.routing.routes().dom().contains(text::ipv4_text(u)),
            { self.routing.table.contains_key(&ipv4_to_string(u)) };
        let prefix: u8 = self.id.subnet_prefix;
        let found: Option<u32> = first_free_vip_u32_in_subnet(
            self.id.my_vip_u32,
            prefix,
            occupied,
        );
        match found {
            Some(u) => {
                proof {
                    let h = choose|h: int|
                        wire::min_host(prefix) <= h <= wire::max_host(prefix) && u
                            == #[trigger] wire::host_addr(self.id.my_vip_u32, prefix, h) && u
                            != self.id.my_vip_u32 && call_ensures(occupied, (u,), false)
                            && forall|g: int|
                            wire::min_host(prefix) <= g < h ==> #[trigger] wire::host_taken(
                                occupied,
                                self.id.my_vip_u32,
                                prefix,
                                g,
                            );
                    assert forall|g: int| wire::min_host(prefix) <= g < h implies
                        #[trigger] address_taken(*self, g) by {
                        assert(wire::host_taken(occupied, self.id.my_vip_u32, prefix, g));
                    }
                    assert(!address_taken(*self, h));
                }
                Some(ipv4_to_string(u))
            },
            None => {
                proof {
                    if self.id.my_vip_u32 != 0 {
                        assert forall|g: int|
                            wire::min_host(prefix) <= g <= wire::max_host(prefix) implies
                            #[trigger] address_taken(*self, g) by {
                            assert(wire::host_taken(occupied, self.id.my_vip_u32, prefix, g));
                        }
                    }
                }
                None
            },
        }
    }

    /// Takes the answer to a join. `deliverable` tells whether the one who waits
    /// can still be reached; `joiner` whether this node looks for a network by
    /// itself.
    pub fn handle_jack(
        &mut self,
        body: &JackBody,
        from: Endpoint,
        wire_version: u64,
        deliverable: bool,
        joiner: bool,
        now: u64,
    ) -> (out: JackOutcome)
        requires
            old(self).wf(),
        ensures
            final(self).wf(),
            out is Ignored == (old(self).id.is_owner || (body.proto_ver == Some(wire_version) && (
            !body.valid(from) || (!old(self).join_waiting && !joiner)))),
            out is VersionMismatch == (!old(self).id.is_owner && body.proto_ver != Some(
                wire_version,
            )),
            ({
                let delivered = old(self).join_waiting && deliverable;
                out is Undelivered == (!old(self).id.is_owner && body.proto_ver == Some(
                    wire_version,
                ) && body.valid(from) && old(self).join_waiting && !delivered && !joiner)
            }),
            out is Ignored || out is VersionMismatch ==> *final(self) == *old(self),
            out is Undelivered ==> *final(self) == (EngineState {
                join_waiting: false,
                ..*old(self)
            }),
            out matches JackOutcome::Joined { ack, delivered, owner_moved_from } ==> {
                &&& delivered == (old(self).join_waiting && deliverable)
                &&& ack.vip@ == body.vip@
                &&& ack.subnet_prefix == body.prefix_of()
                &&& ack.owner_endpoint == from
                &&& owner_moved_from == if old(self).id.my_vip@.len() == 0 {
                    None
                } else {
                    engine_routes::endpoint_in(old(self).routing.routes(), body.owner_of())
                }
                &&& EngineState::beyond_peers(
                    EngineState {
                        id: final(self).id,
                        join_waiting: false,
                        pending_join_ack: final(self).pending_join_ack,
                        sync: SyncState { msyn_applied_to_rev: 0, ..old(self).sync },
                        ..*old(self)
                    },
                    *final(self),
                )
                &&& final(self).id@ == (engine_state::IdentityView {
                    my_vip: body.vip@,
                    my_vip_u32: engine_state::vip_number(body.vip@),
                    subnet_prefix: body.prefix_of(),
                    owner_vip_cached: routing::owner_vip_of(body.vip@, body.prefix_of()),
                    owner_node_id: body.owner_node_id@,
                    owner_ep: Some(from),
                    owner_ep_trusted: true,
                    ..old(self).id@
                })
                &&& final(self).peers() == if old(self).id.my_vip@.len() == 0 {
                    old(self).peers()
                } else {
                    engine_routes::placed(
                        old(self).peers(),
                        body.owner_of(),
                        from,
                        Some(body.owner_node_id@),
                        now,
                    )
                }
                &&& delivered ==> final(self).pending_join_ack == old(self).pending_join_ack
                &&& !delivered ==> final(self).pending_join_ack == Some(ack)
            },
    {
        if self.id.is_owner {
            return JackOutcome::Ignored;
        }
        let same_version: bool = match body.proto_ver {
            Some(v) => v == wire_version,
            None => false,
        };
        if !same_version {
            return JackOutcome::VersionMismatch;
        }
        if !jack_mpja_body_valid(body, from) {
            return JackOutcome::Ignored;
        }
        if !self.join_waiting && !joiner {
            return JackOutcome::Ignored;
        }
        let prefix: u8 = body.prefix_bits();
        let owner: String = body.owner_addr();
        let delivered: bool = self.join_waiting && deliverable;
        self.join_waiting = false;
        if !delivered && !joiner {
            return JackOutcome::Undelivered;
        }
        let ack = JoinAck { vip: body.vip.clone(), subnet_prefix: prefix, owner_endpoint: from };
        self.sync.msyn_applied_to_rev = 0;
        let moved: Option<Endpoint> = self.update_route(
            &owner,
            from,
            Some(&body.owner_node_id),
            now,
        );
        self.id.accept_join(body.vip.clone(), prefix, body.owner_node_id.clone(), from);
        let out = JoinAck { vip: body.vip.clone(), subnet_prefix: prefix, owner_endpoint: from };
        if !delivered {
            self.pending_join_ack = Some(ack);
        }
        JackOutcome::Joined { ack: out, delivered, owner_moved_from: moved }
    }

    /// Takes a membership event that was not seen before.
    pub fn apply_msmd(&mut self, ev: &MsmdEvent, now: u64) -> (out: MsmdOutcome)
        requires
            old(self).wf(),
        ensures
            final(self).wf(),
            EngineState::beyond_peers(
                (EngineState {
                    sync: (SyncState {
                        peer_pending_removals: final(self).sync.peer_pending_removals,
                        ..old(self).sync
                    }),
                    ..*old(self)
                }),
                *final(self),
            ),
            ({
                let vip = ev.vip@;
                let prev = routing::lookup_in(old(self).routing.routes(), vip);
                let is_owner = old(self).id.is_owner;
                if vip.len() > 0 && ev.kind is Join && ev.ep is Some {
                    &&& out matches MsmdOutcome::Joined { moved_from } && moved_from == if old(
                        self,
                    ).id.my_vip@.len() == 0 {
                        None
                    } else {
                        engine_routes::endpoint_in(old(self).routing.routes(), vip)
                    }
                    &&& final(self).sync.peer_pending_removals
                        == old(self).sync.peer_pending_removals
                    &&& final(self).peers() == if old(self).id.my_vip@.len() == 0 {
                        old(self).peers()
                    } else {
                        engine_routes::placed(
                            old(self).peers(),
                            vip,
                            ev.ep->0,
                            Some(ev.node_id@),
                            now,
                        )
                    }
                } else if vip.len() > 0 && ev.kind is Leave {
                    &&& forall|p: Seq<char>| #[trigger]
                        engine_state::owed_to(final(self).sync.peer_pending_removals@, p)
                            == if is_owner && p != vip && old(self).routing.routes().dom().contains(p) && !(old(self).routing.routes()[p].state is Stale) {
                            engine_state::owed_to(old(self).sync.peer_pending_removals@, p).insert(
                                vip,
                            )
                        } else {
                            engine_state::owed_to(old(self).sync.peer_pending_removals@, p)
                        }
                    &&& if prev is Some && !leave_valid(prev->0, ev.node_id@) {
                        out is Nothing && final(self).peers() == old(self).peers()
                    } else {
                        let q = if prev is Some {
                            engine_routes::evicted(old(self).peers(), vip)
                        } else {
                            old(self).peers()
                        };
                        &&& out matches MsmdOutcome::Left(r) && (r is Some == prev is Some) && (r is Some
                            ==> r->0@ == engine_routes::removal_of(
                            old(self).routing.routes(),
                            vip,
                        ))
                        &&& final(self).peers() == if is_owner {
                            engine_routes::Peers { served: q.served.remove(vip), ..q }
                        } else {
                            q
                        }
                    }
                } else {
                    out is Nothing && *final(self) == *old(self)
                }
            }),
    {
        if ev.vip.as_str().is_empty() {
            return MsmdOutcome::Nothing;
        }
        match ev.kind {
            MsmdKind::Join => match ev.ep {
                Some(ep) => {
                    let moved_from: Option<Endpoint> = self.update_route(
                        &ev.vip,
                        ep,
                        Some(&ev.node_id),
                        now,
                    );
                    MsmdOutcome::Joined { moved_from }
                },
                None => MsmdOutcome::Nothing,
            },
            MsmdKind::Leave => {
                let is_owner: bool = self.id.is_owner;
                self.sync.note_route_removed_for_sync(is_owner, &self.routing, &ev.vip);
                let ghost mid = *self;
                proof {
                    assert(self.peers() =~= old(self).peers());
                }
                let (known, ok): (bool, bool) = match self.routing.table.get(&ev.vip) {
                    Some(e) => (
                        true,
                        ev.node_id.as_str().is_empty() || e.node_id.as_str().is_empty()
                            || e.node_id == ev.node_id,
                    ),
                    None => (false, true),
                };
                if !ok {
                    return MsmdOutcome::Nothing;
                }
                let gone: Option<RemovedPeer> = if known {
                    Some(self.evict_peer(&ev.vip))
                } else {
                    None
                };
                let ghost q = self.peers();
                if is_owner {
                    let _ = self.sync.peer_sync_state.remove(&ev.vip);
                    proof {
                        assert(self.peers() =~= (engine_routes::Peers {
                            served: q.served.remove(ev.vip@),
                            ..q
                        }));
                    }
                }
                MsmdOutcome::Left(gone)
            },
            MsmdKind::Unknown => MsmdOutcome::Nothing,
        }
    }

    /// What to do with a message for another node. It is passed on only by the
    /// owner, only for the node that sent it, and only while it lives.
    pub fn plan_prxy(&self, msg: &PrxyMsg, from: Endpoint) -> (plan: PrxyPlan)
        requires
            self.wf(),
        ensures
            plan == if msg.dst_node@ == self.id.my_node_id@ {
                if msg.candidates {
                    PrxyPlan::Candidates
                } else {
                    PrxyPlan::Ignore
                }
            } else if self.id.is_owner && msg.ttl > 0 && sender_is(*self, from, msg.src_node@)
                && node_endpoint(*self, msg.dst_node@) is Some {
                PrxyPlan::Forward {
                    ep: node_endpoint(*self, msg.dst_node@)->0,
                    ttl: (msg.ttl - 1) as u64,
                }
            } else {
                PrxyPlan::Ignore
            },
    {
        if msg.dst_node == self.id.my_node_id {
            return if msg.candidates {
                PrxyPlan::Candidates
            } else {
                PrxyPlan::Ignore
            };
        }
        if !self.id.is_owner || msg.ttl == 0 {
            return PrxyPlan::Ignore;
        }
        if !self.is_sender(from, &msg.src_node) {
            return PrxyPlan::Ignore;
        }
        match self.lookup_ep_by_node(&msg.dst_node) {
            Some(ep) => PrxyPlan::Forward { ep, ttl: msg.ttl - 1 },
            None => PrxyPlan::Ignore,
        }
    }

    fn is_sender(&self, from: Endpoint, node: &String) -> (b: bool)
        requires
            self.wf(),
        ensures
            b == sender_is(*self, from, node@),
    {
        let vip: &String = match self.routing.vip_of(from) {
            Some(v) => v,
            None => {
                return false;
            },
        };
        match self.routing.table.get(vip) {
            Some(e) => if !e.node_id.as_str().is_empty() {
                e.node_id == *node
            } else {
                match self.routing.node_to_vip.get(node) {
                    Some(v) => *v == *vip,
                    None => false,
                }
            },
            None => false,
        }
    }
}

/// With a key in the network, a packet that is neither signed nor open is
/// never acted on.
pub proof fn crypto_gate_holds(
    s: EngineState,
    tag: ControlTag,
    len: int,
    from: Endpoint,
    within_rate: bool,
)
    requires
        s.crypto_keys.any(),
        !wire::open_tag(tag),
    ensures
        ({
            let step = control_step(s, tag, len, from, false, within_rate);
            step is Limited || step is CryptoGate
        }),
{
}

/// A sync, a membership event, a relayed message or a removal is never acted on
/// unsigned where the network has a key.
pub proof fn signed_steps_need_signature(
    s: EngineState,
    tag: ControlTag,
    len: int,
    from: Endpoint,
    within_rate: bool,
)
    requires
        s.crypto_keys.any(),
    ensures
        ({
            let step = control_step(s, tag, len, from, false, within_rate);
            !(step is Msyn || step is Msmd || step is Prxy || step is Kicked)
        }),
{
}

} // verus!
