//! The commands of the node's user.

use crate::addr::Endpoint;
use crate::engine_routes;
use crate::engine_rx::{fec_retune_needed, FecKnobs, IceCandidate};
use crate::engine_state;
use crate::engine_state::{since, EngineState, JoinAck, PeerGone, SyncState};
use crate::keys::{CryptoPool, Key, KeyRef};
use crate::mtu_policy::{AdapterChange, MtuPolicy};
use crate::pace_clock;
use crate::pace_clock::{clamp_tick_us, PaceClockApply};
use crate::pacing::PacingConfig;
use crate::punch_state;
use crate::punch_state::{PunchState, PunchView};
use crate::routing;
use crate::routing::{same_subnet, RouteState};
use crate::table;
use crate::table::{NameSet, Table};
use crate::text;
use crate::text::parse_ipv4;
use crate::wire::ControlTag;
use vstd::prelude::*;

verus! {

/// The command to join again is refused this soon after the last one, in
/// milliseconds.
pub const PREPARE_JOIN_GAP_MS: u64 = 200;

/// The number after `n`, never zero.
pub open spec fn next_id(n: u64) -> u64 {
    if n == u64::MAX {
        1
    } else {
        (n + 1) as u64
    }
}

pub fn bump_id(n: u64) -> (out: u64)
    ensures
        out == next_id(n),
{
    if n == u64::MAX {
        1
    } else {
        n + 1
    }
}

/// How redundant packets are made.
pub struct FecSwitch {
    pub enabled: bool,
    pub forced_ratio: Option<(u8, u8)>,
    /// The most shards that a group may have.
    pub max_total: usize,
}

/// The address of this node as others see it.
#[derive(Clone, Debug)]
pub struct PublicEndpoint {
    pub ip: String,
    pub port: u16,
}

/// The state that commands work on.
pub struct Engine {
    pub state: EngineState,
    pub mtu: MtuPolicy,
    pub fec: FecSwitch,
    pub rawperf: bool,
    /// When the public endpoint was found, in milliseconds, and what it is.
    pub public_ep: Option<(u64, PublicEndpoint)>,
    pub next_stun_query_id: u64,
    /// The queries for the public endpoint that run.
    pub stun_queries: Table<u64, ()>,
    /// The server to which packets are sent so that the public endpoint stays.
    pub stun_keepalive_addr: Option<Endpoint>,
    pub next_para_listener_id: u64,
    pub para_listeners: Table<u64, ()>,
    /// The punch workflows, and what is remembered of the attempts to reach peers.
    pub punches: PunchState,
    /// The keepalive tasks that run.
    pub keepalives: NameSet,
    /// The ways to this node that others are told.
    pub candidates: Vec<IceCandidate>,
}

/// A message that another node passes on.
pub struct RelayMsg {
    pub ttl: u64,
    pub dst_node: String,
    pub src_node: String,
    pub kind: String,
}

/// How often a message is passed on.
pub const RELAY_TTL: u64 = 2;

/// The pause between punches that were asked for, in milliseconds.
pub const MANUAL_PUNCH_PAUSE_MS: u64 = 50;

/// A command.
pub enum EngineCmd {
    Shutdown,
    PingAll,
    Kick(Endpoint),
    PeerRouteRemoved { vip: String },
    SetOwnerEndpoint(Endpoint),
    SetCryptoKey(Key),
    AddCryptoKey(Key),
    BindPeerKey { peer: Endpoint, key: Key },
    SetJoinSender,
    PrepareJoin { key: Key, owner: Endpoint },
    SendJoin { owner: Endpoint },
    ManualPunch { target: Endpoint, count: usize },
    StartPunchWorkflow { key: String, bases: Vec<Endpoint> },
    StopPunchWorkflow { key: String },
    SetPeerKeepalive { key: String, targets: Vec<Endpoint>, interval_ms: u64 },
    StopPeerKeepalive { key: String },
    SetIdentity { is_owner: bool, my_vip: String, my_node_id: String, subnet_prefix: u8 },
    SetSocketBuffers { sndbuf: i32, rcvbuf: i32 },
    /// `tick_us` is the tick that the pacer has.
    SetPaceClock { apply: PaceClockApply, tick_us: u64 },
    SetPacing(PacingConfig),
    SetPacingAndPaceClock { cfg: PacingConfig, apply: PaceClockApply },
    SetDrrEnabled(bool),
    SetRawPerf(bool),
    SetFecEnabled(bool),
    SetFecConfig { data_shards: u8, parity_shards: u8, force_ratio: bool },
    ApplyAdvancedTuning { max_total_shards: usize, before: FecKnobs, after: FecKnobs },
    SetCandidates(Vec<IceCandidate>),
    SendPeerRelay { relay_ep: Endpoint, dst_node: String, kind: String },
    SetMembershipVersion(u64),
    /// A membership event is told to all peers.
    BroadcastMsmd,
    TriggerMembershipBroadcast,
    /// `ttl_ms` is how long a found endpoint holds, `max_pending` how many
    /// queries may run.
    QueryPublicEndpoint { force_refresh: bool, ttl_ms: u64, max_pending: usize },
    /// `suggested` is the packet size that the path asks for.
    SetAdapterName { name: String, suggested: u16 },
    SetMtuPin { pin_mtu: bool, adapter_mtu: u16 },
    PingPeer { dest: Endpoint, timeout_ms: u64 },
    QueryOwnerSendEndpoint,
    ParaSendHello { target: Endpoint, payload: Vec<u8> },
    ParaSendReply { target: Endpoint, payload: Vec<u8> },
    ParaSendOk { target: Endpoint, payload: Vec<u8> },
    ParaSendPunchAck { target: Endpoint, payload: Vec<u8> },
    ParaSetListener { replace_existing: bool, closed: Vec<u64> },
    ParaRemoveListener { listener_id: u64 },
    StartDecentralized { node_id: String },
    StopDecentralized,
    CancelJoinWait,
    TakePendingJoinAck,
    ResetSession,
}

/// What a command asks the runtime to do.
pub enum CmdPlan {
    /// The engine ends.
    Stop,
    Done,
    /// These peers are pinged.
    Ping(Vec<Endpoint>),
    /// These peers are told.
    Tell(Vec<Endpoint>),
    /// The peer at `ep` is told that it is out. Where this node is the owner,
    /// `torn_down` holds, and `gone` is what its route was.
    Kick { ep: Endpoint, torn_down: bool, gone: Option<PeerGone> },
    Forget(PeerGone),
    /// The owner's endpoint is remembered for this address.
    RememberOwner(Option<String>),
    /// Packets are sealed with this key from now on.
    KeyInUse { key: KeyRef, adapter: Option<AdapterChange> },
    Bound(KeyRef),
    JoinThrottled,
    /// The owner is asked to let this node in. `replaced` tells that an earlier
    /// wait ends, and `moved_from` where the route to the owner led before.
    Join {
        owner: Endpoint,
        key: Option<KeyRef>,
        replaced: bool,
        adapter: Option<AdapterChange>,
        moved_from: Option<Endpoint>,
    },
    /// The peer is punched so many times.
    Punch { target: Endpoint, count: usize, pause_ms: u64 },
    /// The pacer is set where there are settings, and gets this tick. Where the clock
    /// is set too, it starts anew.
    Pace { cfg: Option<PacingConfig>, tick_us: u64, clock: Option<PaceClockApply> },
    /// Peers take turns, or not.
    Drr(bool),
    /// `retune` tells that open groups are closed first.
    Tuned { retune: bool },
    Relay { to: Endpoint, msg: RelayMsg },
    Send { to: Endpoint, tag: ControlTag, body: Vec<u8> },
    /// The workflow starts anew.
    StartPunch { key: String, bases: Vec<Endpoint> },
    StopPunch { key: String, was: bool },
    StartKeepalive { key: String, targets: Vec<Endpoint>, interval_ms: u64 },
    StopKeepalive { key: String, was: bool },
    /// The peers whose routes the new subnet does not hold.
    Drained(Vec<PeerGone>),
    Buffers { snd: usize, rcv: usize },
    /// Redundant packets in the making are sent out as they are.
    FecOff,
    FecOn,
    FecFlush,
    Sync,
    PublicEndpointKnown(PublicEndpoint),
    TooManyQueries,
    StartQuery { id: u64 },
    Adapter(Option<AdapterChange>),
    PingPeer { dest: Endpoint, timeout_ms: u64 },
    OwnerEndpoint(Option<Endpoint>),
    Listener { id: u64 },
    StartDiscovery,
    StopDiscovery { was_waiting: bool },
    JoinAck(Option<JoinAck>),
    Reset,
}

/// The peers once the route to `vip` and what was kept for it are gone.
pub open spec fn routed_out(p: engine_routes::Peers, vip: Seq<char>) -> engine_routes::Peers {
    let prev = routing::lookup_in(p.routes, vip);
    engine_routes::Peers {
        routes: p.routes.remove(vip),
        vips: routing::moved_vip(p.vips, prev, vip),
        nodes: routing::left_node(p.nodes, prev, vip),
        ..engine_routes::forgotten(p, vip)
    }
}

/// `vip` is no host of the subnet of `my`.
pub open spec fn outside(my: u32, prefix: u8, vip: Seq<char>) -> bool {
    match text::ipv4_of(vip) {
        Some(a) => !routing::in_same_subnet(my, a, prefix),
        None => true,
    }
}

/// The peers once those of the first `n` addresses that are outside the subnet
/// are gone.
pub open spec fn drained(
    p: engine_routes::Peers,
    my: u32,
    prefix: u8,
    vips: Seq<Seq<char>>,
    n: nat,
) -> engine_routes::Peers
    decreases n,
{
    if n == 0 {
        p
    } else {
        let q = drained(p, my, prefix, vips, (n - 1) as nat);
        if outside(my, prefix, vips[n - 1]) {
            routed_out(q, vips[n - 1])
        } else {
            q
        }
    }
}

/// What there is to clean up once the routes to the first `n` addresses that are
/// outside the subnet are gone.
pub open spec fn goners(
    routes: Map<Seq<char>, routing::RouteView>,
    my: u32,
    prefix: u8,
    vips: Seq<Seq<char>>,
    n: nat,
) -> Seq<engine_state::GoneView>
    decreases n,
{
    if n == 0 {
        Seq::empty()
    } else {
        let rest = goners(routes, my, prefix, vips, (n - 1) as nat);
        if outside(my, prefix, vips[n - 1]) {
            rest.push(engine_state::gone_of(vips[n - 1], engine_routes::node_at(routes, vips[n - 1])))
        } else {
            rest
        }
    }
}

/// The values of a list.
pub open spec fn gone_views(s: Seq<PeerGone>) -> Seq<engine_state::GoneView> {
    Seq::new(s.len(), |i: int| s[i]@)
}

/// No route outside the subnet is left.
pub proof fn drained_holds_subnet(
    p: engine_routes::Peers,
    my: u32,
    prefix: u8,
    vips: Seq<Seq<char>>,
    v: Seq<char>,
)
    requires
        engine_routes::lists_keys(vips, p.routes),
        drained(p, my, prefix, vips, vips.len()).routes.dom().contains(v),
    ensures
        !outside(my, prefix, v),
        p.routes.dom().contains(v),
{
    drained_step(p, my, prefix, vips, vips.len(), v);
    assert(vips.contains(v));
    let i = choose|i: int| 0 <= i < vips.len() && vips[i] == v;
    assert(vips[i] == v);
}

/// A route that is not looked at yet is as it was.
proof fn untouched(
    p: engine_routes::Peers,
    my: u32,
    prefix: u8,
    vips: Seq<Seq<char>>,
    n: nat,
    i: int,
)
    requires
        vips.no_duplicates(),
        n <= i < vips.len(),
    ensures
        routing::lookup_in(drained(p, my, prefix, vips, n).routes, vips[i]) == routing::lookup_in(
            p.routes,
            vips[i],
        ),
    decreases n,
{
    if n > 0 {
        untouched(p, my, prefix, vips, (n - 1) as nat, i);
        assert(vips[n - 1] != vips[i]);
    }
}

proof fn drained_step(
    p: engine_routes::Peers,
    my: u32,
    prefix: u8,
    vips: Seq<Seq<char>>,
    n: nat,
    v: Seq<char>,
)
    requires
        n <= vips.len(),
    ensures
        drained(p, my, prefix, vips, n).routes.dom().contains(v) ==> p.routes.dom().contains(v)
            && forall|i: int| 0 <= i < n && vips[i] == v ==> !outside(my, prefix, v),
    decreases n,
{
    if n > 0 {
        drained_step(p, my, prefix, vips, (n - 1) as nat, v);
    }
}

/// The endpoints of the routes that are not stale.
pub open spec fn live_endpoints(s: Seq<(String, routing::RouteEntry)>) -> Seq<Endpoint>
    decreases s.len(),
{
    if s.len() == 0 {
        Seq::empty()
    } else {
        let rest = live_endpoints(s.drop_last());
        if s.last().1.state is Stale {
            rest
        } else {
            rest.push(s.last().1.endpoint)
        }
    }
}

/// The ratio that a command forces: both kinds of shards, and not too many.
pub open spec fn forced(data: u8, parity: u8, force: bool, max_total: int) -> Option<(u8, u8)> {
    if force && data > 0 && parity > 0 && data + parity <= max_total {
        Some((data, parity))
    } else {
        None
    }
}

/// A ping's time limit brought into 50 milliseconds to one minute.
pub open spec fn ping_timeout(ms: u64) -> u64 {
    if ms < 50 {
        50
    } else if ms > 60_000 {
        60_000
    } else {
        ms
    }
}

/// The rest of the engine when only its session changes.
pub open spec fn only_state(pre: Engine, post: Engine) -> bool {
    post == Engine { state: post.state, ..pre }
}

/// What a kick does to the session of an owner.
pub open spec fn kicked_out(pre: EngineState, post: EngineState, ep: Endpoint) -> bool {
    let v = routing::lookup_in(pre.routing.vips(), ep);
    let q = match v {
        Some(vip) => {
            let r = routed_out(pre.peers(), vip);
            engine_routes::Peers { served: r.served.remove(vip), ..r }
        },
        None => pre.peers(),
    };
    &&& EngineState::same_session(pre, post)
    &&& post.peers() == engine_routes::Peers { bound: q.bound.remove(ep), ..q }
    &&& post.crypto_keys.primary == pre.crypto_keys.primary
    &&& post.crypto_keys.extras == pre.crypto_keys.extras
    &&& post.crypto_keys.next_id == pre.crypto_keys.next_id
    &&& post.sync.msyn_applied_to_rev == pre.sync.msyn_applied_to_rev
    &&& post.sync.next_msyn_sync_id == pre.sync.next_msyn_sync_id
    &&& post.sync.last_after_join == pre.sync.last_after_join
    &&& post.sync.pending_after_join == pre.sync.pending_after_join
    &&& forall|p: Seq<char>| #[trigger]
        engine_state::owed_to(post.sync.peer_pending_removals@, p) == if v is Some && p != v->0
            && pre.routing.routes().dom().contains(p) && !(pre.routing.routes()[p].state is Stale) {
            engine_state::owed_to(pre.sync.peer_pending_removals@, p).insert(v->0)
        } else {
            engine_state::owed_to(pre.sync.peer_pending_removals@, p)
        }
}

/// What a kick leaves to clean up: the peer at `ep`, where there is one.
pub open spec fn kick_names(pre: EngineState, ep: Endpoint, gone: Option<PeerGone>) -> bool {
    match routing::lookup_in(pre.routing.vips(), ep) {
        Some(vip) => gone is Some && gone->0@ == engine_state::gone_of(
            vip,
            engine_routes::node_at(pre.routing.routes(), vip),
        ),
        None => gone is None,
    }
}

/// `key` became the primary one, under the name `k`. The counters of sealed
/// packets start anew.
pub open spec fn key_set(pre: EngineState, post: EngineState, key: Key, k: KeyRef) -> bool {
    &&& post == EngineState {
        crypto_keys: post.crypto_keys,
        data_send_ctr: post.data_send_ctr,
        ..pre
    }
    &&& post.data_send_ctr@ == Map::<u32, u64>::empty()
    &&& CryptoPool::primary_set(pre.crypto_keys, post.crypto_keys, key, k)
}

/// `key` is among the keys in use.
pub open spec fn takes_key(pre: CryptoPool, post: CryptoPool, key: Key) -> bool {
    exists|k: KeyRef| #[trigger] CryptoPool::key_added(pre, post, key, k)
}

/// A pinned packet size was set anew.
pub open spec fn pin_renewed(
    pre: MtuPolicy,
    post: MtuPolicy,
    now: u64,
    adapter: Option<AdapterChange>,
) -> bool {
    &&& post == pre.pin_applied(now).1
    &&& pre.change_is(adapter, pre.pin_applied(now).0, pre.pinned_mtu())
}

/// The owner's endpoint was given, and its route leads there.
pub open spec fn owner_aimed(pre: EngineState, post: EngineState, owner: Endpoint, now: u64) -> bool {
    let vip = pre.id.owner_vip_cached@;
    &&& EngineState::beyond_peers(EngineState { id: post.id, ..pre }, post)
    &&& post.id@ == engine_state::IdentityView {
        owner_ep: Some(owner),
        owner_ep_trusted: false,
        ..pre.id@
    }
    &&& post.peers() == if vip.len() > 0 && pre.id.my_vip@.len() > 0 {
        engine_routes::placed(pre.peers(), vip, owner, None, now)
    } else {
        pre.peers()
    }
}

/// Where the route to the owner led.
pub open spec fn owner_was(pre: EngineState) -> Option<Endpoint> {
    let vip = pre.id.owner_vip_cached@;
    if vip.len() > 0 && pre.id.my_vip@.len() > 0 {
        engine_routes::endpoint_in(pre.routing.routes(), vip)
    } else {
        None
    }
}

/// What each command does.
#[verifier::opaque]
pub open spec fn cmd_done(
    pre: Engine,
    cmd: EngineCmd,
    now: u64,
    post: Engine,
    plan: CmdPlan,
) -> bool {
    match cmd {
        EngineCmd::Shutdown => {
            &&& plan is Stop
            &&& post == Engine { punches: post.punches, keepalives: post.keepalives, ..pre }
            &&& post.punches@ == (PunchView { running: Set::empty(), ..pre.punches@ })
            &&& post.keepalives@ == Set::<Seq<char>>::empty()
        },
        EngineCmd::PingAll => {
            &&& plan matches CmdPlan::Ping(v) && v@ == live_endpoints(
                pre.state.routing.table.entries@,
            )
            &&& post == pre
        },
        EngineCmd::Kick(ep) => {
            &&& only_state(pre, post)
            &&& plan matches CmdPlan::Kick { ep: e, torn_down, gone } && e == ep && torn_down
                == pre.state.id.is_owner && (if torn_down {
                kick_names(pre.state, ep, gone)
            } else {
                gone is None
            })
            &&& if pre.state.id.is_owner {
                kicked_out(pre.state, post.state, ep)
            } else {
                post == pre
            }
        },
        EngineCmd::PeerRouteRemoved { vip } => {
            &&& only_state(pre, post)
            &&& plan matches CmdPlan::Forget(g) && g@ == engine_state::gone_of(
                vip@,
                Seq::empty(),
            )
            &&& EngineState::beyond_peers(pre.state, post.state)
            &&& post.state.peers() == engine_routes::forgotten(pre.state.peers(), vip@)
        },
        EngineCmd::SetOwnerEndpoint(ep) => {
            &&& only_state(pre, post)
            &&& post.state == EngineState { id: post.state.id, ..pre.state }
            &&& post.state.id@ == engine_state::IdentityView {
                owner_ep: Some(ep),
                owner_ep_trusted: false,
                ..pre.state.id@
            }
            &&& plan matches CmdPlan::RememberOwner(v) && routing::opt_str(v)
                == if pre.state.id.owner_vip_cached@.len() > 0 {
                Some(pre.state.id.owner_vip_cached@)
            } else {
                None
            }
        },
        EngineCmd::SetCryptoKey(key) => {
            &&& plan matches CmdPlan::KeyInUse { key: k, adapter } && key_set(
                pre.state,
                post.state,
                key,
                k,
            ) && pin_renewed(pre.mtu, post.mtu, now, adapter)
            &&& post == Engine { state: post.state, mtu: post.mtu, ..pre }
        },
        EngineCmd::AddCryptoKey(key) => if pre.state.crypto_keys.primary is None {
            &&& plan matches CmdPlan::KeyInUse { key: k, adapter } && key_set(
                pre.state,
                post.state,
                key,
                k,
            ) && pin_renewed(pre.mtu, post.mtu, now, adapter)
            &&& post == Engine { state: post.state, mtu: post.mtu, ..pre }
        } else {
            &&& plan is Done
            &&& only_state(pre, post)
            &&& post.state == EngineState { crypto_keys: post.state.crypto_keys, ..pre.state }
            &&& takes_key(pre.state.crypto_keys, post.state.crypto_keys, key)
        },
        EngineCmd::BindPeerKey { peer, key } => {
            &&& only_state(pre, post)
            &&& post.state == EngineState { crypto_keys: post.state.crypto_keys, ..pre.state }
            &&& plan matches CmdPlan::Bound(k) && CryptoPool::key_added(
                pre.state.crypto_keys,
                CryptoPool { per_peer: pre.state.crypto_keys.per_peer, ..post.state.crypto_keys },
                key,
                k,
            ) && post.state.crypto_keys.per_peer@ == pre.state.crypto_keys.per_peer@.insert(peer, k)
        },
        EngineCmd::SetJoinSender => {
            &&& plan is Done
            &&& post == Engine {
                state: EngineState { join_waiting: true, ..pre.state },
                ..pre
            }
        },
        EngineCmd::PrepareJoin { key, owner } => {
            let soon = pre.state.last_prepare_join_at is Some && engine_state::elapsed(
                now,
                pre.state.last_prepare_join_at->0,
            ) < PREPARE_JOIN_GAP_MS;
            if soon {
                plan is JoinThrottled && post == pre
            } else {
                let keys = CryptoPool {
                    per_peer: pre.state.crypto_keys.per_peer,
                    ..post.state.crypto_keys
                };
                &&& plan matches CmdPlan::Join { owner: o, key: k, replaced, adapter, moved_from }
                    && o == owner && moved_from == owner_was(pre.state) && k is Some && CryptoPool::primary_set(
                    pre.state.crypto_keys,
                    keys,
                    key,
                    k->0,
                ) && replaced == pre.state.join_waiting && pin_renewed(
                    pre.mtu,
                    post.mtu,
                    now,
                    adapter,
                )
                &&& owner_aimed(
                    EngineState {
                        join_waiting: true,
                        last_prepare_join_at: Some(now),
                        crypto_keys: keys,
                        ..pre.state
                    },
                    post.state,
                    owner,
                    now,
                )
                &&& post == Engine { state: post.state, mtu: post.mtu, ..pre }
            }
        },
        EngineCmd::SendJoin { owner } => {
            &&& plan matches CmdPlan::Join { owner: o, key, replaced, adapter, moved_from } && o
                == owner && key is None && !replaced && adapter is None && moved_from == owner_was(
                pre.state,
            )
            &&& owner_aimed(pre.state, post.state, owner, now)
            &&& only_state(pre, post)
        },
        EngineCmd::ManualPunch { target, count } => {
            &&& plan == CmdPlan::Punch { target, count, pause_ms: MANUAL_PUNCH_PAUSE_MS }
            &&& post == pre
        },
        EngineCmd::SetPaceClock { apply, tick_us } => {
            &&& plan == CmdPlan::Pace {
                cfg: None,
                tick_us: pace_clock::tick_clamped(tick_us),
                clock: Some(apply),
            }
            &&& post == pre
        },
        EngineCmd::SetPacing(cfg) => {
            let t = pace_clock::tick_clamped(cfg.tick_us);
            &&& plan == CmdPlan::Pace {
                cfg: Some(PacingConfig { tick_us: t, ..cfg }),
                tick_us: t,
                clock: None,
            }
            &&& post == pre
        },
        EngineCmd::SetPacingAndPaceClock { cfg, apply } => {
            let t = pace_clock::tick_clamped(cfg.tick_us);
            &&& plan == CmdPlan::Pace {
                cfg: Some(PacingConfig { tick_us: t, ..cfg }),
                tick_us: t,
                clock: Some(apply),
            }
            &&& post == pre
        },
        EngineCmd::SetDrrEnabled(on) => plan == CmdPlan::Drr(on) && post == pre,
        EngineCmd::ApplyAdvancedTuning { max_total_shards, before, after } => {
            &&& plan == CmdPlan::Tuned { retune: before != after }
            &&& post == Engine { fec: FecSwitch { max_total: max_total_shards, ..pre.fec }, ..pre }
        },
        EngineCmd::SetCandidates(list) => {
            &&& plan is Done
            &&& post == Engine { candidates: list, ..pre }
        },
        EngineCmd::SendPeerRelay { relay_ep, dst_node, kind } => {
            &&& plan matches CmdPlan::Relay { to, msg } && to == relay_ep && msg.ttl == RELAY_TTL
                && msg.dst_node == dst_node && msg.src_node@ == pre.state.id.my_node_id@ && msg.kind
                == kind
            &&& post == pre
        },
        EngineCmd::ParaSendHello { target, payload } => {
            &&& plan == CmdPlan::Send { to: target, tag: ControlTag::ParaHello, body: payload }
            &&& post == pre
        },
        EngineCmd::ParaSendReply { target, payload } => {
            &&& plan == CmdPlan::Send { to: target, tag: ControlTag::ParaReply, body: payload }
            &&& post == pre
        },
        EngineCmd::ParaSendOk { target, payload } => {
            &&& plan == CmdPlan::Send { to: target, tag: ControlTag::ParaOk, body: payload }
            &&& post == pre
        },
        EngineCmd::ParaSendPunchAck { target, payload } => {
            &&& plan == CmdPlan::Send { to: target, tag: ControlTag::ParaPunchAck, body: payload }
            &&& post == pre
        },
        EngineCmd::StartPunchWorkflow { key, bases } => if bases@.len() == 0 {
            plan is Done && post == pre
        } else {
            &&& plan matches CmdPlan::StartPunch { key: k, bases: b } && k@ == key@ && b == bases
            &&& post == Engine { punches: post.punches, ..pre }
            &&& post.punches@ == (PunchView {
                running: pre.punches@.running.insert(key@),
                ..pre.punches@
            })
        },
        EngineCmd::StopPunchWorkflow { key } => {
            &&& plan matches CmdPlan::StopPunch { key: k, was } && k@ == key@ && was
                == pre.punches@.running.contains(key@)
            &&& post == Engine { punches: post.punches, ..pre }
            &&& post.punches@ == (PunchView {
                running: pre.punches@.running.remove(key@),
                ..pre.punches@
            })
        },
        EngineCmd::SetPeerKeepalive { key, targets, interval_ms } => if targets@.len() == 0 {
            plan is Done && post == pre
        } else {
            &&& plan matches CmdPlan::StartKeepalive { key: k, targets: t, interval_ms: i } && k@
                == key@ && t == targets && i == if interval_ms < 100 {
                100
            } else {
                interval_ms
            }
            &&& post == Engine { keepalives: post.keepalives, ..pre }
            &&& post.keepalives@ == pre.keepalives@.insert(key@)
        },
        EngineCmd::StopPeerKeepalive { key } => {
            &&& plan matches CmdPlan::StopKeepalive { key: k, was } && k@ == key@ && was
                == pre.keepalives@.contains(key@)
            &&& post == Engine { keepalives: post.keepalives, ..pre }
            &&& post.keepalives@ == pre.keepalives@.remove(key@)
        },
        EngineCmd::SetIdentity { is_owner, my_vip, my_node_id, subnet_prefix } => {
            let prefix = engine_state::clamped_prefix(subnet_prefix);
            let my = text::ipv4_of(my_vip@);
            &&& only_state(pre, post)
            &&& plan is Drained
            &&& EngineState::beyond_peers(
                EngineState {
                    id: post.state.id,
                    sync: SyncState { msyn_applied_to_rev: 0, ..pre.state.sync },
                    ..pre.state
                },
                post.state,
            )
            &&& post.state.id@ == engine_state::IdentityView {
                is_owner,
                my_vip: my_vip@,
                my_vip_u32: engine_state::vip_number(my_vip@),
                my_node_id: my_node_id@,
                subnet_prefix: prefix,
                owner_vip_cached: routing::owner_vip_of(my_vip@, prefix),
                owner_ep_trusted: false,
                ..pre.state.id@
            }
            &&& my is None ==> post.state.peers() == pre.state.peers()
                && gone_views(plan->Drained_0@).len() == 0
            &&& my is Some ==> exists|vips: Seq<Seq<char>>|
                engine_routes::lists_keys(vips, pre.state.routing.routes()) && post.state.peers()
                    == #[trigger] drained(pre.state.peers(), my->0, prefix, vips, vips.len())
                    && gone_views(plan->Drained_0@) == goners(
                    pre.state.routing.routes(),
                    my->0,
                    prefix,
                    vips,
                    vips.len(),
                )
        },
        EngineCmd::SetSocketBuffers { sndbuf, rcvbuf } => {
            &&& plan matches CmdPlan::Buffers { snd, rcv } && snd == (if sndbuf < 1 {
                1
            } else {
                sndbuf as int
            }) && rcv == (if rcvbuf < 1 {
                1
            } else {
                rcvbuf as int
            })
            &&& post == pre
        },
        EngineCmd::SetRawPerf(on) => plan is Done && post == Engine { rawperf: on, ..pre },
        EngineCmd::SetFecEnabled(on) => {
            &&& post == Engine { fec: FecSwitch { enabled: on, ..pre.fec }, ..pre }
            &&& plan is FecOff == (pre.fec.enabled && !on)
            &&& plan is FecOn == (!pre.fec.enabled && on)
            &&& plan is Done == (pre.fec.enabled == on)
        },
        EngineCmd::SetFecConfig { data_shards, parity_shards, force_ratio } => {
            &&& plan is FecFlush
            &&& post == Engine {
                fec: FecSwitch {
                    forced_ratio: forced(
                        data_shards,
                        parity_shards,
                        force_ratio,
                        pre.fec.max_total as int,
                    ),
                    ..pre.fec
                },
                ..pre
            }
        },
        EngineCmd::SetMembershipVersion(v) => {
            &&& plan is Done
            &&& post == Engine {
                state: EngineState { membership_version: v, ..pre.state },
                ..pre
            }
        },
        EngineCmd::BroadcastMsmd => {
            &&& plan matches CmdPlan::Tell(v) && v@ == live_endpoints(
                pre.state.routing.table.entries@,
            )
            &&& post == pre
        },
        EngineCmd::TriggerMembershipBroadcast => {
            &&& plan is Sync == pre.state.id.is_owner
            &&& plan is Done == !pre.state.id.is_owner
            &&& post == pre
        },
        EngineCmd::QueryPublicEndpoint { force_refresh, ttl_ms, max_pending } => {
            let fresh = !force_refresh && pre.public_ep is Some && engine_state::elapsed(
                now,
                (pre.public_ep->0).0,
            ) <= ttl_ms;
            let kept = if force_refresh {
                None
            } else {
                pre.public_ep
            };
            let room = pre.stun_queries@.dom().len() < max_pending;
            &&& plan is PublicEndpointKnown == fresh
            &&& plan matches CmdPlan::PublicEndpointKnown(e) ==> e.ip@ == (pre.public_ep->0).1.ip@
                && e.port == (pre.public_ep->0).1.port
            &&& plan is TooManyQueries == (!fresh && !room)
            &&& plan matches CmdPlan::StartQuery { id } ==> id == pre.next_stun_query_id
            &&& plan is StartQuery == (!fresh && room)
            &&& plan is StartQuery ==> post == Engine {
                public_ep: kept,
                next_stun_query_id: next_id(pre.next_stun_query_id),
                stun_queries: post.stun_queries,
                ..pre
            } && post.stun_queries@ == pre.stun_queries@.insert(pre.next_stun_query_id, ())
            &&& !(plan is StartQuery) ==> post == Engine { public_ep: kept, ..pre }
        },
        EngineCmd::SetAdapterName { name, suggested } => {
            &&& plan matches CmdPlan::Adapter(c) && pre.mtu.name_set(
                name,
                suggested,
                now,
                post.mtu,
                c,
            )
            &&& post == Engine { mtu: post.mtu, ..pre }
        },
        EngineCmd::SetMtuPin { pin_mtu, adapter_mtu } => {
            &&& plan matches CmdPlan::Adapter(c) && pre.mtu.pin_set(
                pin_mtu,
                adapter_mtu,
                now,
                post.mtu,
                c,
            )
            &&& post == Engine { mtu: post.mtu, ..pre }
        },
        EngineCmd::PingPeer { dest, timeout_ms } => {
            &&& plan matches CmdPlan::PingPeer { dest: d, timeout_ms: t } && d == dest && t
                == ping_timeout(timeout_ms)
            &&& post == pre
        },
        EngineCmd::QueryOwnerSendEndpoint => {
            &&& plan matches CmdPlan::OwnerEndpoint(e) && e == engine_state::owner_endpoint_of(
                pre.state.id@,
                pre.state.routing.routes(),
            )
            &&& post == pre
        },
        EngineCmd::ParaSetListener { replace_existing, closed } => {
            &&& plan matches CmdPlan::Listener { id } && id == pre.next_para_listener_id
            &&& post == Engine {
                next_para_listener_id: next_id(pre.next_para_listener_id),
                para_listeners: post.para_listeners,
                ..pre
            }
            &&& forall|l: u64| #[trigger]
                post.para_listeners@.dom().contains(l) <==> (l == pre.next_para_listener_id || (
                !replace_existing && pre.para_listeners@.dom().contains(l) && !closed@.contains(l)))
        },
        EngineCmd::ParaRemoveListener { listener_id } => {
            &&& plan is Done
            &&& post == Engine { para_listeners: post.para_listeners, ..pre }
            &&& post.para_listeners@ == pre.para_listeners@.remove(listener_id)
        },
        EngineCmd::StartDecentralized { node_id } => {
            &&& plan is StartDiscovery
            &&& post == Engine { state: post.state, punches: post.punches, ..pre }
            &&& post.punches@ == punch_state::search_restarted(pre.punches@)
            &&& post.state == EngineState { id: post.state.id, ..pre.state }
            &&& post.state.id@ == if node_id@.len() > 0 {
                engine_state::IdentityView { my_node_id: node_id@, ..pre.state.id@ }
            } else {
                pre.state.id@
            }
        },
        EngineCmd::StopDecentralized => {
            &&& plan matches CmdPlan::StopDiscovery { was_waiting } && !was_waiting
            &&& post == Engine { punches: post.punches, ..pre }
            &&& post.punches@ == punch_state::search_stopped(pre.punches@)
        },
        EngineCmd::CancelJoinWait => {
            &&& plan matches CmdPlan::StopDiscovery { was_waiting } && was_waiting
                == pre.state.join_waiting
            &&& post == Engine {
                state: EngineState { join_waiting: false, pending_join_ack: None, ..pre.state },
                punches: post.punches,
                ..pre
            }
            &&& post.punches@ == punch_state::search_stopped(pre.punches@)
        },
        EngineCmd::TakePendingJoinAck => {
            &&& plan == CmdPlan::JoinAck(pre.state.pending_join_ack)
            &&& post == Engine {
                state: EngineState { pending_join_ack: None, ..pre.state },
                ..pre
            }
        },
        EngineCmd::ResetSession => {
            &&& plan is Reset
            &&& EngineState::session_left(pre.state, post.state)
            &&& post.punches@ == punch_state::no_punches()
            &&& post.keepalives@ == Set::<Seq<char>>::empty()
            &&& post.candidates@ == Seq::<IceCandidate>::empty()
            &&& post == Engine {
                state: post.state,
                punches: post.punches,
                keepalives: post.keepalives,
                candidates: post.candidates,
                ..pre
            }
        },
    }
}

impl EngineState {
    /// The endpoints of the routes that are not stale.
    pub fn endpoints_excluding_stale(&self) -> (out: Vec<Endpoint>)
        ensures
            out@ == live_endpoints(self.routing.table.entries@),
    {
        let ghost s = self.routing.table.entries@;
        let mut out: Vec<Endpoint> = Vec::new();
        let mut i: usize = 0;
        proof {
            assert(s.take(0) =~= Seq::<(String, routing::RouteEntry)>::empty());
        }
        while i < self.routing.table.entries.len()
            invariant
                s == self.routing.table.entries@,
                i <= s.len(),
                out@ == live_endpoints(s.take(i as int)),
            decreases s.len() - i,
        {
            proof {
                assert(s.take(i + 1).drop_last() =~= s.take(i as int));
                assert(s.take(i + 1).last() == s[i as int]);
            }
            let e = &self.routing.table.entries[i].1;
            if e.state != RouteState::Stale {
                out.push(e.endpoint);
            }
            i += 1;
        }
        proof {
            assert(s.take(s.len() as int) =~= s);
        }
        out
    }

    /// Puts the peer at `ep` out of an owner's network.
    pub fn kick(&mut self, ep: Endpoint) -> (gone: Option<PeerGone>)
        requires
            old(self).wf(),
            old(self).id.is_owner,
        ensures
            final(self).wf(),
            kicked_out(*old(self), *final(self), ep),
            kick_names(*old(self), ep, gone),
    {
        let vip: Option<String> = match self.routing.vip_of(ep) {
            Some(v) => Some(v.clone()),
            None => None,
        };
        match vip {
            Some(v) => {
                let node: Option<String> = match self.routing.table.get(&v) {
                    Some(e) => Some(e.node_id.clone()),
                    None => None,
                };
                self.sync.note_route_removed_for_sync(true, &self.routing, &v);
                self.routing.remove(&v);
                let gone: PeerGone = self.on_peer_route_removed(&v, node);
                let _ = self.sync.peer_sync_state.remove(&v);
                self.crypto_keys.unbind_peer(ep);
                proof {
                    let r = routed_out(old(self).peers(), v@);
                    let q = engine_routes::Peers { served: r.served.remove(v@), ..r };
                    assert(self.peers() =~= (engine_routes::Peers {
                        bound: q.bound.remove(ep),
                        ..q
                    }));
                }
                Some(gone)
            },
            None => {
                self.crypto_keys.unbind_peer(ep);
                proof {
                    let q = old(self).peers();
                    assert(self.peers() =~= (engine_routes::Peers {
                        bound: q.bound.remove(ep),
                        ..q
                    }));
                }
                None
            },
        }
    }

    /// Takes the owner's endpoint from outside, and leads its route there. Returns
    /// where it led before.
    fn aim_at_owner(&mut self, owner: Endpoint, now: u64) -> (moved_from: Option<Endpoint>)
        requires
            old(self).wf(),
        ensures
            final(self).wf(),
            owner_aimed(*old(self), *final(self), owner, now),
            moved_from == owner_was(*old(self)),
    {
        self.id.set_owner_endpoint(owner);
        let vip: String = self.id.owner_vip_cached.clone();
        let moved_from: Option<Endpoint> = if !vip.as_str().is_empty() {
            self.update_route(&vip, owner, None, now)
        } else {
            None
        };
        proof {
            assert(self.peers() =~= if vip@.len() > 0 && old(self).id.my_vip@.len() > 0 {
                engine_routes::placed(old(self).peers(), vip@, owner, None, now)
            } else {
                old(self).peers()
            });
        }
        moved_from
    }

    /// Takes the routes out that the subnet of `my` does not hold.
    fn drain_outside(&mut self, my: u32, prefix: u8) -> (out: Vec<PeerGone>)
        requires
            old(self).wf(),
        ensures
            final(self).wf(),
            EngineState::beyond_peers(*old(self), *final(self)),
            exists|vips: Seq<Seq<char>>|
                engine_routes::lists_keys(vips, old(self).routing.routes()) && final(self).peers()
                    == #[trigger] drained(old(self).peers(), my, prefix, vips, vips.len())
                    && gone_views(out@) == goners(
                    old(self).routing.routes(),
                    my,
                    prefix,
                    vips,
                    vips.len(),
                ),
    {
        let names: Vec<String> = self.route_names();
        let ghost vips = engine_routes::keys_of(self.routing.table.entries@);
        proof {
            engine_routes::keys_listed(self.routing.table);
        }
        let mut out: Vec<PeerGone> = Vec::new();
        let mut i: usize = 0;
        while i < names.len()
            invariant
                i <= names@.len(),
                names@.len() == vips.len(),
                forall|j: int| 0 <= j < names@.len() ==> (#[trigger] names@[j])@ == vips[j],
                self.wf(),
                EngineState::beyond_peers(*old(self), *self),
                vips.no_duplicates(),
                self.peers() == drained(old(self).peers(), my, prefix, vips, i as nat),
                gone_views(out@) == goners(old(self).routing.routes(), my, prefix, vips, i as nat),
            decreases names@.len() - i,
        {
            let v: &String = &names[i];
            let is_outside: bool = match parse_ipv4(v.as_str()) {
                Some(a) => !same_subnet(my, a, prefix),
                None => true,
            };
            proof {
                assert(v@ == vips[i as int]);
                assert(is_outside == outside(my, prefix, vips[i as int]));
            }
            if is_outside {
                let ghost p0 = self.peers();
                let node: Option<String> = match self.routing.table.get(v) {
                    Some(e) => Some(e.node_id.clone()),
                    None => None,
                };
                self.routing.remove(v);
                let g: PeerGone = self.on_peer_route_removed(v, node);
                let ghost before = gone_views(out@);
                out.push(g);
                proof {
                    assert(self.peers() =~= routed_out(p0, v@));
                    untouched(old(self).peers(), my, prefix, vips, i as nat, i as int);
                    assert(g@ =~= engine_state::gone_of(
                        v@,
                        engine_routes::node_at(old(self).routing.routes(), v@),
                    ));
                    assert(gone_views(out@) =~= before.push(g@));
                }
            }
            i += 1;
        }
        out
    }
}

impl Engine {
    pub open spec fn wf(&self) -> bool {
        &&& self.state.wf()
        &&& self.stun_queries.wf()
        &&& self.para_listeners.wf()
        &&& self.punches.wf()
        &&& self.keepalives.wf()
    }

    /// The engine at start.
    pub fn new(state: EngineState, mtu: MtuPolicy, max_total_shards: usize) -> (out: Self)
        requires
            state.wf(),
        ensures
            out.wf(),
            out.state == state,
            out.mtu == mtu,
            out.fec == (FecSwitch {
                enabled: true,
                forced_ratio: None,
                max_total: max_total_shards,
            }),
            !out.rawperf,
            out.public_ep is None,
            out.next_stun_query_id == 1,
            out.next_para_listener_id == 1,
            out.stun_queries@ == Map::<u64, ()>::empty(),
            out.stun_keepalive_addr is None,
            out.para_listeners@ == Map::<u64, ()>::empty(),
            out.punches@ == punch_state::no_punches(),
            out.keepalives@ == Set::<Seq<char>>::empty(),
            out.candidates@ == Seq::<IceCandidate>::empty(),
    {
        Engine {
            state,
            mtu,
            fec: FecSwitch { enabled: true, forced_ratio: None, max_total: max_total_shards },
            rawperf: false,
            public_ep: None,
            next_stun_query_id: 1,
            stun_queries: Table::new(),
            stun_keepalive_addr: None,
            next_para_listener_id: 1,
            para_listeners: Table::new(),
            punches: PunchState::new(),
            keepalives: NameSet::new(),
            candidates: Vec::new(),
        }
    }

    /// Makes `key` the primary one, and sets a pinned packet size anew.
    fn use_key(&mut self, key: Key, now: u64) -> (out: (KeyRef, Option<AdapterChange>))
        requires
            old(self).wf(),
            old(self).state.crypto_keys.next_id < u64::MAX,
        ensures
            final(self).wf(),
            key_set(old(self).state, final(self).state, key, out.0),
            *final(self) == (Engine { state: final(self).state, mtu: final(self).mtu, ..*old(self) }),
            pin_renewed(old(self).mtu, final(self).mtu, now, out.1),
    {
        let k: KeyRef = self.state.crypto_keys.set_primary(key);
        self.state.data_send_ctr.clear();
        let change: Option<AdapterChange> = if self.mtu.pinned {
            self.mtu.apply_mtu_pin_policy(now)
        } else {
            None
        };
        (k, change)
    }

    /// Carries out a command, as far as it is a matter of state, and says what
    /// is left for the runtime to do.
    pub fn handle_cmd(&mut self, cmd: EngineCmd, now: u64) -> (plan: CmdPlan)
        requires
            old(self).wf(),
            old(self).state.crypto_keys.next_id < u64::MAX,
        ensures
            final(self).wf(),
            cmd_done(*old(self), cmd, now, *final(self), plan),
    {
        match cmd {
            EngineCmd::Shutdown => self.on_shutdown(now),
            EngineCmd::PingAll => self.on_ping_all(now),
            EngineCmd::Kick(ep) => self.on_kick(ep, now),
            EngineCmd::PeerRouteRemoved { vip } => self.on_peer_route_removed(vip, now),
            EngineCmd::SetOwnerEndpoint(ep) => self.on_set_owner_endpoint(ep, now),
            EngineCmd::SetCryptoKey(key) => self.on_set_crypto_key(key, now),
            EngineCmd::AddCryptoKey(key) => self.on_add_crypto_key(key, now),
            EngineCmd::BindPeerKey { peer, key } => self.on_bind_peer_key(peer, key, now),
            EngineCmd::SetJoinSender => self.on_set_join_sender(now),
            EngineCmd::PrepareJoin { key, owner } => self.prepare_join(key, owner, now),
            EngineCmd::SendJoin { owner } => self.on_send_join(owner, now),
            EngineCmd::ManualPunch { target, count } => self.on_manual_punch(target, count, now),
            EngineCmd::SetPaceClock { apply, tick_us } => self.on_set_pace_clock(apply, tick_us, now),
            EngineCmd::SetPacing(cfg) => self.on_set_pacing(cfg, now),
            EngineCmd::SetPacingAndPaceClock { cfg, apply } => self.on_set_pacing_and_pace_clock(cfg, apply, now),
            EngineCmd::SetDrrEnabled(on) => self.on_set_drr_enabled(on, now),
            EngineCmd::ApplyAdvancedTuning { max_total_shards, before, after } => self.on_apply_advanced_tuning(max_total_shards, before, after, now),
            EngineCmd::SetCandidates(list) => self.on_set_candidates(list, now),
            EngineCmd::SendPeerRelay { relay_ep, dst_node, kind } => self.on_send_peer_relay(relay_ep, dst_node, kind, now),
            EngineCmd::ParaSendHello { target, payload } => self.on_para_send_hello(target, payload, now),
            EngineCmd::ParaSendReply { target, payload } => self.on_para_send_reply(target, payload, now),
            EngineCmd::ParaSendOk { target, payload } => self.on_para_send_ok(target, payload, now),
            EngineCmd::ParaSendPunchAck { target, payload } => self.on_para_send_punch_ack(target, payload, now),
            EngineCmd::StartPunchWorkflow { key, bases } => self.on_start_punch_workflow(key, bases, now),
            EngineCmd::StopPunchWorkflow { key } => self.on_stop_punch_workflow(key, now),
            EngineCmd::SetPeerKeepalive { key, targets, interval_ms } => self.on_set_peer_keepalive(key, targets, interval_ms, now),
            EngineCmd::StopPeerKeepalive { key } => self.on_stop_peer_keepalive(key, now),
            EngineCmd::SetIdentity { is_owner, my_vip, my_node_id, subnet_prefix } => self.set_identity(is_owner, my_vip, my_node_id, subnet_prefix, now),
            EngineCmd::SetSocketBuffers { sndbuf, rcvbuf } => self.on_set_socket_buffers(sndbuf, rcvbuf, now),
            EngineCmd::SetRawPerf(on) => self.on_set_raw_perf(on, now),
            EngineCmd::SetFecEnabled(on) => self.on_set_fec_enabled(on, now),
            EngineCmd::SetFecConfig { data_shards, parity_shards, force_ratio } => self.on_set_fec_config(data_shards, parity_shards, force_ratio, now),
            EngineCmd::SetMembershipVersion(v) => self.on_set_membership_version(v, now),
            EngineCmd::BroadcastMsmd => self.on_broadcast_msmd(now),
            EngineCmd::TriggerMembershipBroadcast => self.on_trigger_membership_broadcast(now),
            EngineCmd::QueryPublicEndpoint { force_refresh, ttl_ms, max_pending } => self.query_public_endpoint(force_refresh, ttl_ms, max_pending, now),
            EngineCmd::SetAdapterName { name, suggested } => self.on_set_adapter_name(name, suggested, now),
            EngineCmd::SetMtuPin { pin_mtu, adapter_mtu } => self.on_set_mtu_pin(pin_mtu, adapter_mtu, now),
            EngineCmd::PingPeer { dest, timeout_ms } => self.on_ping_peer(dest, timeout_ms, now),
            EngineCmd::QueryOwnerSendEndpoint => self.on_query_owner_send_endpoint(now),
            EngineCmd::ParaSetListener { replace_existing, closed } => self.on_para_set_listener(replace_existing, closed, now),
            EngineCmd::ParaRemoveListener { listener_id } => self.on_para_remove_listener(listener_id, now),
            EngineCmd::StartDecentralized { node_id } => self.on_start_decentralized(node_id, now),
            EngineCmd::StopDecentralized => self.on_stop_decentralized(now),
            EngineCmd::CancelJoinWait => self.on_cancel_join_wait(now),
            EngineCmd::TakePendingJoinAck => self.on_take_pending_join_ack(now),
            EngineCmd::ResetSession => self.on_reset_session(now),
        }
    }

    /// A peer is punched some times.
    fn on_manual_punch(&mut self, target: Endpoint, count: usize, now: u64) -> (plan: CmdPlan)
        requires
            old(self).wf(),
        ensures
            final(self).wf(),
            cmd_done(*old(self), EngineCmd::ManualPunch { target, count }, now, *final(self), plan),
    {
        proof {
            reveal(cmd_done);
        }
        CmdPlan::Punch { target, count, pause_ms: MANUAL_PUNCH_PAUSE_MS }
    }

    /// The pacer is set.
    fn on_set_pacing(&mut self, cfg: PacingConfig, now: u64) -> (plan: CmdPlan)
        requires
            old(self).wf(),
        ensures
            final(self).wf(),
            cmd_done(*old(self), EngineCmd::SetPacing(cfg), now, *final(self), plan),
    {
        proof {
            reveal(cmd_done);
        }
        let tick_us: u64 = clamp_tick_us(cfg.tick_us);
        CmdPlan::Pace { cfg: Some(PacingConfig { tick_us, ..cfg }), tick_us, clock: None }
    }

    /// The clock of the pacer is set.
    fn on_set_pace_clock(&mut self, apply: PaceClockApply, tick_us: u64, now: u64) -> (plan: CmdPlan)
        requires
            old(self).wf(),
        ensures
            final(self).wf(),
            cmd_done(*old(self), EngineCmd::SetPaceClock { apply, tick_us }, now, *final(self), plan),
    {
        proof {
            reveal(cmd_done);
        }
        CmdPlan::Pace { cfg: None, tick_us: clamp_tick_us(tick_us), clock: Some(apply) }
    }

    /// The pacer and its clock are set.
    fn on_set_pacing_and_pace_clock(&mut self, cfg: PacingConfig, apply: PaceClockApply, now: u64) -> (plan: CmdPlan)
        requires
            old(self).wf(),
        ensures
            final(self).wf(),
            cmd_done(*old(self), EngineCmd::SetPacingAndPaceClock { cfg, apply }, now, *final(self), plan),
    {
        proof {
            reveal(cmd_done);
        }
        let tick_us: u64 = clamp_tick_us(cfg.tick_us);
        CmdPlan::Pace { cfg: Some(PacingConfig { tick_us, ..cfg }), tick_us, clock: Some(apply) }
    }

    /// Peers take turns, or not.
    fn on_set_drr_enabled(&mut self, on: bool, now: u64) -> (plan: CmdPlan)
        requires
            old(self).wf(),
        ensures
            final(self).wf(),
            cmd_done(*old(self), EngineCmd::SetDrrEnabled(on), now, *final(self), plan),
    {
        proof {
            reveal(cmd_done);
        }
        CmdPlan::Drr(on)
    }

    /// The tuning changes.
    fn on_apply_advanced_tuning(&mut self, max_total_shards: usize, before: FecKnobs, after: FecKnobs, now: u64) -> (plan: CmdPlan)
        requires
            old(self).wf(),
        ensures
            final(self).wf(),
            cmd_done(*old(self), EngineCmd::ApplyAdvancedTuning { max_total_shards, before, after }, now, *final(self), plan),
    {
        proof {
            reveal(cmd_done);
        }
        self.fec.max_total = max_total_shards;
        CmdPlan::Tuned { retune: fec_retune_needed(before, after) }
    }

    /// Other ways to this node are known.
    fn on_set_candidates(&mut self, list: Vec<IceCandidate>, now: u64) -> (plan: CmdPlan)
        requires
            old(self).wf(),
        ensures
            final(self).wf(),
            cmd_done(*old(self), EngineCmd::SetCandidates(list), now, *final(self), plan),
    {
        proof {
            reveal(cmd_done);
        }
        self.candidates = list;
        CmdPlan::Done
    }

    /// A message for another node goes to one that passes it on.
    fn on_send_peer_relay(&mut self, relay_ep: Endpoint, dst_node: String, kind: String, now: u64) -> (plan: CmdPlan)
        requires
            old(self).wf(),
        ensures
            final(self).wf(),
            cmd_done(*old(self), EngineCmd::SendPeerRelay { relay_ep, dst_node, kind }, now, *final(self), plan),
    {
        proof {
            reveal(cmd_done);
        }
        let src_node: String = self.state.id.my_node_id.clone();
        CmdPlan::Relay {
            to: relay_ep,
            msg: RelayMsg { ttl: RELAY_TTL, dst_node, src_node, kind },
        }
    }

    /// A node is asked for a network in common.
    fn on_para_send_hello(&mut self, target: Endpoint, payload: Vec<u8>, now: u64) -> (plan: CmdPlan)
        requires
            old(self).wf(),
        ensures
            final(self).wf(),
            cmd_done(*old(self), EngineCmd::ParaSendHello { target, payload }, now, *final(self), plan),
    {
        proof {
            reveal(cmd_done);
        }
        CmdPlan::Send { to: target, tag: ControlTag::ParaHello, body: payload }
    }

    /// A node that asked is answered.
    fn on_para_send_reply(&mut self, target: Endpoint, payload: Vec<u8>, now: u64) -> (plan: CmdPlan)
        requires
            old(self).wf(),
        ensures
            final(self).wf(),
            cmd_done(*old(self), EngineCmd::ParaSendReply { target, payload }, now, *final(self), plan),
    {
        proof {
            reveal(cmd_done);
        }
        CmdPlan::Send { to: target, tag: ControlTag::ParaReply, body: payload }
    }

    /// A node is told that this one agrees.
    fn on_para_send_ok(&mut self, target: Endpoint, payload: Vec<u8>, now: u64) -> (plan: CmdPlan)
        requires
            old(self).wf(),
        ensures
            final(self).wf(),
            cmd_done(*old(self), EngineCmd::ParaSendOk { target, payload }, now, *final(self), plan),
    {
        proof {
            reveal(cmd_done);
        }
        CmdPlan::Send { to: target, tag: ControlTag::ParaOk, body: payload }
    }

    /// A node is told that its punch came through.
    fn on_para_send_punch_ack(&mut self, target: Endpoint, payload: Vec<u8>, now: u64) -> (plan: CmdPlan)
        requires
            old(self).wf(),
        ensures
            final(self).wf(),
            cmd_done(*old(self), EngineCmd::ParaSendPunchAck { target, payload }, now, *final(self), plan),
    {
        proof {
            reveal(cmd_done);
        }
        CmdPlan::Send { to: target, tag: ControlTag::ParaPunchAck, body: payload }
    }

    /// The engine ends.
    fn on_shutdown(&mut self, now: u64) -> (plan: CmdPlan)
        requires
            old(self).wf(),
        ensures
            final(self).wf(),
            cmd_done(*old(self), EngineCmd::Shutdown, now, *final(self), plan),
    {
        proof {
            reveal(cmd_done);
        }
        self.punches.stop_running();
        self.keepalives.clear();
        CmdPlan::Stop
    }

    /// All peers whose routes are not stale are pinged.
    fn on_ping_all(&mut self, now: u64) -> (plan: CmdPlan)
        requires
            old(self).wf(),
        ensures
            final(self).wf(),
            cmd_done(*old(self), EngineCmd::PingAll, now, *final(self), plan),
    {
        proof {
            reveal(cmd_done);
        }
        CmdPlan::Ping(self.state.endpoints_excluding_stale())
    }

    /// A peer is put out.
    fn on_kick(&mut self, ep: Endpoint, now: u64) -> (plan: CmdPlan)
        requires
            old(self).wf(),
        ensures
            final(self).wf(),
            cmd_done(*old(self), EngineCmd::Kick(ep), now, *final(self), plan),
    {
        proof {
            reveal(cmd_done);
        }
        if self.state.id.is_owner {
            let gone: Option<PeerGone> = self.state.kick(ep);
            CmdPlan::Kick { ep, torn_down: true, gone }
        } else {
            CmdPlan::Kick { ep, torn_down: false, gone: None }
        }
    }

    /// A route was taken out elsewhere.
    fn on_peer_route_removed(&mut self, vip: String, now: u64) -> (plan: CmdPlan)
        requires
            old(self).wf(),
        ensures
            final(self).wf(),
            cmd_done(*old(self), EngineCmd::PeerRouteRemoved { vip }, now, *final(self), plan),
    {
        proof {
            reveal(cmd_done);
        }
        let gone: PeerGone = self.state.on_peer_route_removed(&vip, None);
        proof {
            assert(self.state.peers() =~= engine_routes::forgotten(
                old(self).state.peers(),
                vip@,
            ));
        }
        CmdPlan::Forget(gone)
    }

    /// The owner is at another endpoint.
    fn on_set_owner_endpoint(&mut self, ep: Endpoint, now: u64) -> (plan: CmdPlan)
        requires
            old(self).wf(),
        ensures
            final(self).wf(),
            cmd_done(*old(self), EngineCmd::SetOwnerEndpoint(ep), now, *final(self), plan),
    {
        proof {
            reveal(cmd_done);
        }
        self.state.id.set_owner_endpoint(ep);
        if self.state.id.owner_vip_cached.as_str().is_empty() {
            CmdPlan::RememberOwner(None)
        } else {
            CmdPlan::RememberOwner(Some(self.state.id.owner_vip_cached.clone()))
        }
    }

    /// The network has a new key.
    fn on_set_crypto_key(&mut self, key: Key, now: u64) -> (plan: CmdPlan)
        requires
            old(self).wf(),
            old(self).state.crypto_keys.next_id < u64::MAX,
        ensures
            final(self).wf(),
            cmd_done(*old(self), EngineCmd::SetCryptoKey(key), now, *final(self), plan),
    {
        proof {
            reveal(cmd_done);
        }
        let (k, adapter) = self.use_key(key, now);
        CmdPlan::KeyInUse { key: k, adapter }
    }

    /// One more key is taken.
    fn on_add_crypto_key(&mut self, key: Key, now: u64) -> (plan: CmdPlan)
        requires
            old(self).wf(),
            old(self).state.crypto_keys.next_id < u64::MAX,
        ensures
            final(self).wf(),
            cmd_done(*old(self), EngineCmd::AddCryptoKey(key), now, *final(self), plan),
    {
        proof {
            reveal(cmd_done);
        }
        if self.state.crypto_keys.primary.is_none() {
            let (k, adapter) = self.use_key(key, now);
            CmdPlan::KeyInUse { key: k, adapter }
        } else {
            let k: KeyRef = self.state.crypto_keys.add_key(key);
            proof {
                assert(CryptoPool::key_added(
                    old(self).state.crypto_keys,
                    self.state.crypto_keys,
                    key,
                    k,
                ));
                assert(takes_key(old(self).state.crypto_keys, self.state.crypto_keys, key));
            }
            CmdPlan::Done
        }
    }

    /// A peer has a key of its own.
    fn on_bind_peer_key(&mut self, peer: Endpoint, key: Key, now: u64) -> (plan: CmdPlan)
        requires
            old(self).wf(),
            old(self).state.crypto_keys.next_id < u64::MAX,
        ensures
            final(self).wf(),
            cmd_done(*old(self), EngineCmd::BindPeerKey { peer, key }, now, *final(self), plan),
    {
        proof {
            reveal(cmd_done);
        }
        let k: KeyRef = self.state.crypto_keys.add_key(key);
        self.state.crypto_keys.bind_peer_key(peer, k);
        CmdPlan::Bound(k)
    }

    /// Somebody waits for a join.
    fn on_set_join_sender(&mut self, now: u64) -> (plan: CmdPlan)
        requires
            old(self).wf(),
        ensures
            final(self).wf(),
            cmd_done(*old(self), EngineCmd::SetJoinSender, now, *final(self), plan),
    {
        proof {
            reveal(cmd_done);
        }
        self.state.join_waiting = true;
        CmdPlan::Done
    }

    /// The owner is asked again.
    fn on_send_join(&mut self, owner: Endpoint, now: u64) -> (plan: CmdPlan)
        requires
            old(self).wf(),
        ensures
            final(self).wf(),
            cmd_done(*old(self), EngineCmd::SendJoin { owner }, now, *final(self), plan),
    {
        proof {
            reveal(cmd_done);
        }
        let moved_from: Option<Endpoint> = self.state.aim_at_owner(owner, now);
        CmdPlan::Join { owner, key: None, replaced: false, adapter: None, moved_from }
    }

    /// A punch workflow starts.
    fn on_start_punch_workflow(&mut self, key: String, bases: Vec<Endpoint>, now: u64) -> (plan: CmdPlan)
        requires
            old(self).wf(),
        ensures
            final(self).wf(),
            cmd_done(*old(self), EngineCmd::StartPunchWorkflow { key, bases }, now, *final(self), plan),
    {
        proof {
            reveal(cmd_done);
        }
        if bases.len() == 0 {
            return CmdPlan::Done;
        }
        self.punches.start_punch_workflow_key(key.clone());
        CmdPlan::StartPunch { key, bases }
    }

    /// A punch workflow ends.
    fn on_stop_punch_workflow(&mut self, key: String, now: u64) -> (plan: CmdPlan)
        requires
            old(self).wf(),
        ensures
            final(self).wf(),
            cmd_done(*old(self), EngineCmd::StopPunchWorkflow { key }, now, *final(self), plan),
    {
        proof {
            reveal(cmd_done);
        }
        let was: bool = self.punches.stop_punch_workflow_key(&key);
        CmdPlan::StopPunch { key, was }
    }

    /// A keepalive task starts.
    fn on_set_peer_keepalive(&mut self, key: String, targets: Vec<Endpoint>, interval_ms: u64, now: u64) -> (plan: CmdPlan)
        requires
            old(self).wf(),
        ensures
            final(self).wf(),
            cmd_done(*old(self), EngineCmd::SetPeerKeepalive { key, targets, interval_ms }, now, *final(self), plan),
    {
        proof {
            reveal(cmd_done);
        }
        if targets.len() == 0 {
            return CmdPlan::Done;
        }
        let _ = self.keepalives.insert(key.clone());
        let interval: u64 = if interval_ms < 100 {
            100
        } else {
            interval_ms
        };
        CmdPlan::StartKeepalive { key, targets, interval_ms: interval }
    }

    /// A keepalive task ends.
    fn on_stop_peer_keepalive(&mut self, key: String, now: u64) -> (plan: CmdPlan)
        requires
            old(self).wf(),
        ensures
            final(self).wf(),
            cmd_done(*old(self), EngineCmd::StopPeerKeepalive { key }, now, *final(self), plan),
    {
        proof {
            reveal(cmd_done);
        }
        let was: bool = self.keepalives.remove(&key);
        CmdPlan::StopKeepalive { key, was }
    }

    /// The socket gets other buffers.
    fn on_set_socket_buffers(&mut self, sndbuf: i32, rcvbuf: i32, now: u64) -> (plan: CmdPlan)
        requires
            old(self).wf(),
        ensures
            final(self).wf(),
            cmd_done(*old(self), EngineCmd::SetSocketBuffers { sndbuf, rcvbuf }, now, *final(self), plan),
    {
        proof {
            reveal(cmd_done);
        }
        let snd: usize = if sndbuf < 1 {
            1
        } else {
            sndbuf as usize
        };
        let rcv: usize = if rcvbuf < 1 {
            1
        } else {
            rcvbuf as usize
        };
        CmdPlan::Buffers { snd, rcv }
    }

    /// Packets bypass the queues, or not.
    fn on_set_raw_perf(&mut self, on: bool, now: u64) -> (plan: CmdPlan)
        requires
            old(self).wf(),
        ensures
            final(self).wf(),
            cmd_done(*old(self), EngineCmd::SetRawPerf(on), now, *final(self), plan),
    {
        proof {
            reveal(cmd_done);
        }
        self.rawperf = on;
        CmdPlan::Done
    }

    /// Redundant packets are switched on or off.
    fn on_set_fec_enabled(&mut self, on: bool, now: u64) -> (plan: CmdPlan)
        requires
            old(self).wf(),
        ensures
            final(self).wf(),
            cmd_done(*old(self), EngineCmd::SetFecEnabled(on), now, *final(self), plan),
    {
        proof {
            reveal(cmd_done);
        }
        let was: bool = self.fec.enabled;
        self.fec.enabled = on;
        if was && !on {
            CmdPlan::FecOff
        } else if !was && on {
            CmdPlan::FecOn
        } else {
            CmdPlan::Done
        }
    }

    /// The ratio of redundant packets is forced, or free.
    fn on_set_fec_config(&mut self, data_shards: u8, parity_shards: u8, force_ratio: bool, now: u64) -> (plan: CmdPlan)
        requires
            old(self).wf(),
        ensures
            final(self).wf(),
            cmd_done(*old(self), EngineCmd::SetFecConfig { data_shards, parity_shards, force_ratio }, now, *final(self), plan),
    {
        proof {
            reveal(cmd_done);
        }
        let total: usize = data_shards as usize + parity_shards as usize;
        self.fec.forced_ratio = if force_ratio && data_shards > 0 && parity_shards > 0
            && total <= self.fec.max_total {
            Some((data_shards, parity_shards))
        } else {
            None
        };
        CmdPlan::FecFlush
    }

    /// The membership has another version.
    fn on_set_membership_version(&mut self, v: u64, now: u64) -> (plan: CmdPlan)
        requires
            old(self).wf(),
        ensures
            final(self).wf(),
            cmd_done(*old(self), EngineCmd::SetMembershipVersion(v), now, *final(self), plan),
    {
        proof {
            reveal(cmd_done);
        }
        self.state.membership_version = v;
        CmdPlan::Done
    }

    /// All peers whose routes are not stale are told.
    fn on_broadcast_msmd(&mut self, now: u64) -> (plan: CmdPlan)
        requires
            old(self).wf(),
        ensures
            final(self).wf(),
            cmd_done(*old(self), EngineCmd::BroadcastMsmd, now, *final(self), plan),
    {
        proof {
            reveal(cmd_done);
        }
        CmdPlan::Tell(self.state.endpoints_excluding_stale())
    }

    /// The owner syncs its peers.
    fn on_trigger_membership_broadcast(&mut self, now: u64) -> (plan: CmdPlan)
        requires
            old(self).wf(),
        ensures
            final(self).wf(),
            cmd_done(*old(self), EngineCmd::TriggerMembershipBroadcast, now, *final(self), plan),
    {
        proof {
            reveal(cmd_done);
        }
        if self.state.id.is_owner {
            CmdPlan::Sync
        } else {
            CmdPlan::Done
        }
    }

    /// The adapter has another name.
    fn on_set_adapter_name(&mut self, name: String, suggested: u16, now: u64) -> (plan: CmdPlan)
        requires
            old(self).wf(),
        ensures
            final(self).wf(),
            cmd_done(*old(self), EngineCmd::SetAdapterName { name, suggested }, now, *final(self), plan),
    {
        proof {
            reveal(cmd_done);
        }
        CmdPlan::Adapter(self.mtu.set_adapter_name(name, suggested, now))
    }

    /// The packet size is pinned, or free.
    fn on_set_mtu_pin(&mut self, pin_mtu: bool, adapter_mtu: u16, now: u64) -> (plan: CmdPlan)
        requires
            old(self).wf(),
        ensures
            final(self).wf(),
            cmd_done(*old(self), EngineCmd::SetMtuPin { pin_mtu, adapter_mtu }, now, *final(self), plan),
    {
        proof {
            reveal(cmd_done);
        }
        CmdPlan::Adapter(self.mtu.set_mtu_pin(pin_mtu, adapter_mtu, now))
    }

    /// One endpoint is pinged.
    fn on_ping_peer(&mut self, dest: Endpoint, timeout_ms: u64, now: u64) -> (plan: CmdPlan)
        requires
            old(self).wf(),
        ensures
            final(self).wf(),
            cmd_done(*old(self), EngineCmd::PingPeer { dest, timeout_ms }, now, *final(self), plan),
    {
        proof {
            reveal(cmd_done);
        }
        let t: u64 = if timeout_ms < 50 {
            50
        } else if timeout_ms > 60_000 {
            60_000
        } else {
            timeout_ms
        };
        CmdPlan::PingPeer { dest, timeout_ms: t }
    }

    /// Where packets for the owner go.
    fn on_query_owner_send_endpoint(&mut self, now: u64) -> (plan: CmdPlan)
        requires
            old(self).wf(),
        ensures
            final(self).wf(),
            cmd_done(*old(self), EngineCmd::QueryOwnerSendEndpoint, now, *final(self), plan),
    {
        proof {
            reveal(cmd_done);
        }
        CmdPlan::OwnerEndpoint(self.state.owner_send_endpoint())
    }

    /// One more listener for messages between networks.
    fn on_para_set_listener(&mut self, replace_existing: bool, closed: Vec<u64>, now: u64) -> (plan: CmdPlan)
        requires
            old(self).wf(),
        ensures
            final(self).wf(),
            cmd_done(*old(self), EngineCmd::ParaSetListener { replace_existing, closed }, now, *final(self), plan),
    {
        proof {
            reveal(cmd_done);
        }
        let id: u64 = self.add_listener(replace_existing, &closed);
        CmdPlan::Listener { id }
    }

    /// A listener goes.
    fn on_para_remove_listener(&mut self, listener_id: u64, now: u64) -> (plan: CmdPlan)
        requires
            old(self).wf(),
        ensures
            final(self).wf(),
            cmd_done(*old(self), EngineCmd::ParaRemoveListener { listener_id }, now, *final(self), plan),
    {
        proof {
            reveal(cmd_done);
        }
        let _ = self.para_listeners.remove(&listener_id);
        CmdPlan::Done
    }

    /// Discovery starts.
    fn on_start_decentralized(&mut self, node_id: String, now: u64) -> (plan: CmdPlan)
        requires
            old(self).wf(),
        ensures
            final(self).wf(),
            cmd_done(*old(self), EngineCmd::StartDecentralized { node_id }, now, *final(self), plan),
    {
        proof {
            reveal(cmd_done);
        }
        if !node_id.as_str().is_empty() {
            self.state.id.my_node_id = node_id;
        }
        self.punches.restart_search();
        CmdPlan::StartDiscovery
    }

    /// Discovery ends.
    fn on_stop_decentralized(&mut self, now: u64) -> (plan: CmdPlan)
        requires
            old(self).wf(),
        ensures
            final(self).wf(),
            cmd_done(*old(self), EngineCmd::StopDecentralized, now, *final(self), plan),
    {
        proof {
            reveal(cmd_done);
        }
        self.punches.stop_decentralized_discovery();
        CmdPlan::StopDiscovery { was_waiting: false }
    }

    /// Nobody waits for a join any more.
    fn on_cancel_join_wait(&mut self, now: u64) -> (plan: CmdPlan)
        requires
            old(self).wf(),
        ensures
            final(self).wf(),
            cmd_done(*old(self), EngineCmd::CancelJoinWait, now, *final(self), plan),
    {
        proof {
            reveal(cmd_done);
        }
        let was: bool = self.state.join_waiting;
        self.state.join_waiting = false;
        self.state.pending_join_ack = None;
        self.punches.stop_decentralized_discovery();
        CmdPlan::StopDiscovery { was_waiting: was }
    }

    /// The answer to a join is taken.
    fn on_take_pending_join_ack(&mut self, now: u64) -> (plan: CmdPlan)
        requires
            old(self).wf(),
        ensures
            final(self).wf(),
            cmd_done(*old(self), EngineCmd::TakePendingJoinAck, now, *final(self), plan),
    {
        proof {
            reveal(cmd_done);
        }
        let ack: Option<JoinAck> = self.state.pending_join_ack.take();
        CmdPlan::JoinAck(ack)
    }

    /// The node leaves its network.
    fn on_reset_session(&mut self, now: u64) -> (plan: CmdPlan)
        requires
            old(self).wf(),
        ensures
            final(self).wf(),
            cmd_done(*old(self), EngineCmd::ResetSession, now, *final(self), plan),
    {
        proof {
            reveal(cmd_done);
        }
        self.state.reset_session();
        self.punches.stop_all();
        self.keepalives.clear();
        self.candidates = Vec::new();
        CmdPlan::Reset
    }

    /// Asks the owner to let this node in, unless that was just done.
    fn prepare_join(&mut self, key: Key, owner: Endpoint, now: u64) -> (plan: CmdPlan)
        requires
            old(self).wf(),
            old(self).state.crypto_keys.next_id < u64::MAX,
        ensures
            final(self).wf(),
            cmd_done(
                *old(self),
                EngineCmd::PrepareJoin { key, owner },
                now,
                *final(self),
                plan,
            ),
    {
        proof {
            reveal(cmd_done);
        }
        if let Some(prev) = self.state.last_prepare_join_at {
            if since(now, prev) < PREPARE_JOIN_GAP_MS {
                return CmdPlan::JoinThrottled;
            }
        }
        self.state.last_prepare_join_at = Some(now);
        let replaced: bool = self.state.join_waiting;
        self.state.join_waiting = true;
        let k: KeyRef = self.state.crypto_keys.set_primary(key);
        let adapter: Option<AdapterChange> = if self.mtu.pinned {
            self.mtu.apply_mtu_pin_policy(now)
        } else {
            None
        };
        proof {
            assert(self.state.peers() =~= old(self).state.peers());
        }
        let moved_from: Option<Endpoint> = self.state.aim_at_owner(owner, now);
        CmdPlan::Join { owner, key: Some(k), replaced, adapter, moved_from }
    }

    /// Takes on another address and drops what its subnet does not hold.
    fn set_identity(
        &mut self,
        is_owner: bool,
        my_vip: String,
        my_node_id: String,
        subnet_prefix: u8,
        now: u64,
    ) -> (plan: CmdPlan)
        requires
            old(self).wf(),
        ensures
            final(self).wf(),
            cmd_done(
                *old(self),
                EngineCmd::SetIdentity { is_owner, my_vip, my_node_id, subnet_prefix },
                now,
                *final(self),
                plan,
            ),
    {
        proof {
            reveal(cmd_done);
        }
        let my: Option<u32> = parse_ipv4(my_vip.as_str());
        self.state.sync.msyn_applied_to_rev = 0;
        self.state.id.set_identity(is_owner, my_vip, my_node_id, subnet_prefix);
        proof {
            assert(self.state.peers() =~= old(self).state.peers());
        }
        let mut gone: Vec<PeerGone> = Vec::new();
        if let Some(m) = my {
            let prefix: u8 = self.state.id.subnet_prefix;
            gone = self.state.drain_outside(m, prefix);
        }
        CmdPlan::Drained(gone)
    }

    /// Answers from memory, or starts a query.
    fn query_public_endpoint(
        &mut self,
        force_refresh: bool,
        ttl_ms: u64,
        max_pending: usize,
        now: u64,
    ) -> (plan: CmdPlan)
        requires
            old(self).wf(),
        ensures
            final(self).wf(),
            cmd_done(
                *old(self),
                EngineCmd::QueryPublicEndpoint { force_refresh, ttl_ms, max_pending },
                now,
                *final(self),
                plan,
            ),
    {
        proof {
            reveal(cmd_done);
        }
        if force_refresh {
            self.public_ep = None;
        } else if let Some((at, ep)) = &self.public_ep {
            if since(now, *at) <= ttl_ms {
                return CmdPlan::PublicEndpointKnown(
                    PublicEndpoint { ip: ep.ip.clone(), port: ep.port },
                );
            }
        }
        if self.stun_queries.len() >= max_pending {
            return CmdPlan::TooManyQueries;
        }
        let id: u64 = self.next_stun_query_id;
        self.next_stun_query_id = bump_id(id);
        self.stun_queries.insert(id, ());
        CmdPlan::StartQuery { id }
    }

    /// Adds a listener for messages between networks; those that are closed, or
    /// all others, go.
    fn add_listener(&mut self, replace_existing: bool, closed: &Vec<u64>) -> (id: u64)
        requires
            old(self).wf(),
        ensures
            final(self).wf(),
            id == old(self).next_para_listener_id,
            *final(self) == (Engine {
                next_para_listener_id: next_id(old(self).next_para_listener_id),
                para_listeners: final(self).para_listeners,
                ..*old(self)
            }),
            forall|l: u64| #[trigger]
                final(self).para_listeners@.dom().contains(l) <==> (l == old(
                    self).next_para_listener_id || (!replace_existing && old(
                    self).para_listeners@.dom().contains(l) && !closed@.contains(l))),
    {
        if replace_existing {
            self.para_listeners.clear();
        } else {
            let ghost p0 = self.para_listeners@;
            let mut i: usize = 0;
            while i < closed.len()
                invariant
                    i <= closed@.len(),
                    self.para_listeners.wf(),
                    *self == (Engine { para_listeners: self.para_listeners, ..*old(self) }),
                    forall|l: u64| #[trigger]
                        self.para_listeners@.dom().contains(l) <==> (p0.dom().contains(l)
                            && !closed@.take(i as int).contains(l)),
                decreases closed@.len() - i,
            {
                let ghost before = self.para_listeners@;
                let _ = self.para_listeners.remove(&closed[i]);
                proof {
                    let t = closed@.take(i + 1);
                    assert(t =~= closed@.take(i as int).push(closed@[i as int]));
                    assert forall|l: u64| #[trigger]
                        self.para_listeners@.dom().contains(l) <==> (p0.dom().contains(l)
                            && !t.contains(l)) by {
                        if closed@.take(i as int).contains(l) {
                            let k = choose|k: int|
                                0 <= k < i && closed@.take(i as int)[k] == l;
                            assert(t[k] == l);
                        }
                        if l == closed@[i as int] {
                            assert(t[i as int] == l);
                        }
                        if t.contains(l) {
                            let k = choose|k: int| 0 <= k < t.len() && t[k] == l;
                            if k < i {
                                assert(closed@.take(i as int)[k] == l);
                            }
                        }
                        assert(before.dom().contains(l) <==> (p0.dom().contains(l)
                            && !closed@.take(i as int).contains(l)));
                    }
                }
                i += 1;
            }
            proof {
                assert(closed@.take(closed@.len() as int) =~= closed@);
            }
        }
        let id: u64 = self.next_para_listener_id;
        self.next_para_listener_id = bump_id(id);
        self.para_listeners.insert(id, ());
        id
    }
}

} // verus!
