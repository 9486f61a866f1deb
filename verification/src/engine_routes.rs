//! How routes are learned, moved and lost.

use crate::addr::Endpoint;
use crate::engine_state::{EngineState, PeerGone, SyncState};
use crate::engine_state;
use crate::keys::KeyRef;
use crate::routing;
use crate::routing::{is_valid_sync_endpoint, is_valid_sync_vip, same_subnet, PathKind, RouteState};
use crate::table;
use crate::table::{Key, NameSet};
use crate::text;
use crate::text::{parse_ipv4, trim, utf8_text};
use vstd::prelude::*;
use vstd::utf8::*;

verus! {

/// What a session knows of its peers.
#[verifier::ext_equal]
pub ghost struct Peers {
    pub routes: Map<Seq<char>, routing::RouteView>,
    pub vips: Map<Endpoint, Seq<char>>,
    pub nodes: Map<Seq<char>, Seq<char>>,
    /// The revision up to which each peer is served.
    pub served: Map<Seq<char>, u64>,
    pub bound: Map<Endpoint, KeyRef>,
    pub cooldown: Map<Seq<char>, u64>,
    pub healing: Set<Seq<char>>,
    pub kinds: Map<u32, PathKind>,
    pub sent: Map<u32, u64>,
}

/// A peer was heard at `from`, at the time `now`: a stale route revives, and an
/// owner serves its peer anew.
pub open spec fn heard(p: Peers, is_owner: bool, from: Endpoint, now: u64) -> Peers {
    let stale = routing::stale_at(p.routes, p.vips, from);
    Peers {
        routes: routing::seen_at(routing::revived(p.routes, stale), p.vips, from, now),
        served: if is_owner && stale is Some {
            p.served.remove(stale->0)
        } else {
            p.served
        },
        ..p
    }
}

/// The endpoint of the route to `vip`.
pub open spec fn endpoint_in(
    routes: Map<Seq<char>, routing::RouteView>,
    vip: Seq<char>,
) -> Option<Endpoint> {
    if routes.dom().contains(vip) {
        Some(routes[vip].endpoint)
    } else {
        None
    }
}

/// The route to `vip` leads to `ep` now. A peer that moved is served anew, and
/// its old endpoint loses its key.
pub open spec fn placed(
    p: Peers,
    vip: Seq<char>,
    ep: Endpoint,
    node_id: Option<Seq<char>>,
    now: u64,
) -> Peers {
    let prev = routing::lookup_in(p.routes, vip);
    let moved = prev is Some && prev->0.endpoint != ep;
    Peers {
        routes: p.routes.insert(vip, routing::updated_route(prev, ep, node_id, now)),
        vips: routing::moved_vip(p.vips, prev, vip).insert(ep, vip),
        nodes: if node_id is Some && node_id->0.len() > 0 {
            p.nodes.insert(node_id->0, vip)
        } else {
            p.nodes
        },
        served: if moved {
            p.served.remove(vip)
        } else {
            p.served
        },
        bound: if moved {
            p.bound.remove(prev->0.endpoint)
        } else {
            p.bound
        },
        ..p
    }
}

/// What is kept for `vip` besides its route is forgotten.
pub open spec fn forgotten(p: Peers, vip: Seq<char>) -> Peers {
    let n = text::ipv4_of(vip);
    Peers {
        cooldown: p.cooldown.remove(vip),
        healing: p.healing.remove(vip),
        kinds: if n is Some {
            p.kinds.remove(n->0)
        } else {
            p.kinds
        },
        sent: if n is Some {
            p.sent.remove(n->0)
        } else {
            p.sent
        },
        ..p
    }
}

/// The peer `vip` is gone: its route, what was kept for it, and the key of its
/// endpoint.
pub open spec fn evicted(p: Peers, vip: Seq<char>) -> Peers {
    let prev = routing::lookup_in(p.routes, vip);
    let q = forgotten(p, vip);
    Peers {
        routes: q.routes.remove(vip),
        vips: routing::moved_vip(q.vips, prev, vip),
        nodes: routing::left_node(q.nodes, prev, vip),
        bound: if prev is Some {
            q.bound.remove(prev->0.endpoint)
        } else {
            q.bound
        },
        ..q
    }
}

/// The address that a punch or a keepalive carries.
pub open spec fn body_vip(body: Seq<u8>) -> Option<Seq<char>> {
    if valid_utf8(body) && text::ipv4_of(text::trimmed(decode_utf8(body))) is Some {
        Some(text::trimmed(decode_utf8(body)))
    } else {
        None
    }
}

/// What came of a punch.
#[derive(Clone, Copy, Debug, PartialEq, Eq, Structural)]
pub enum Learned {
    /// Nothing to learn.
    Nothing,
    /// The route was taken, and `moved_from` is where it led before.
    Route { moved_from: Option<Endpoint> },
    /// The route belongs to another endpoint that is in use.
    Refused,
}

/// What came of a keepalive.
#[derive(Clone, Copy, Debug, PartialEq, Eq, Structural)]
pub struct Beat {
    pub learned: Learned,
    /// The owner spoke, and its endpoint is known.
    pub owner_confirmed: bool,
}

/// What came of a punch or its answer.
pub struct Punched {
    pub learned: Learned,
    /// The node whose connection checks end.
    pub checks_done: Option<String>,
}

/// The node whose connection checks are over: the owner's checks of a peer that
/// punches from the endpoint of its route.
pub open spec fn checks_over(
    is_owner: bool,
    routes: Map<Seq<char>, routing::RouteView>,
    from: Endpoint,
    body: Seq<u8>,
) -> Option<Seq<char>> {
    let v = body_vip(body);
    if is_owner && v is Some && routes.dom().contains(v->0) && routes[v->0].endpoint == from
        && routes[v->0].node_id.len() > 0 {
        Some(routes[v->0].node_id)
    } else {
        None
    }
}

/// The endpoint that a peer left when its route moved to `ep`: what was kept for
/// it is of no use any more.
pub fn endpoint_left(moved_from: Option<Endpoint>, ep: Endpoint) -> (out: Option<Endpoint>)
    ensures
        out == if moved_from == Some(ep) {
            None
        } else {
            moved_from
        },
{
    match moved_from {
        Some(prev) => if prev == ep {
            None
        } else {
            Some(prev)
        },
        None => None,
    }
}

/// Whether an address may be learned at all: it is in this node's subnet, and
/// only an answer may speak for the owner.
pub open spec fn learnable(id: engine_state::IdentityView, vip: Seq<char>, is_ack: bool) -> bool {
    let mine = text::ipv4_of(id.my_vip);
    &&& mine is Some && 8 <= id.subnet_prefix <= 30 ==> routing::in_same_subnet(
        mine->0,
        text::ipv4_of(vip)->0,
        id.subnet_prefix,
    )
    &&& is_ack || vip != id.owner_vip_cached
}

/// Whether the route to `vip` may be led to `from`: there is none, it leads
/// there already, it is in a bad state, or the sender has proved itself.
pub open spec fn may_take(
    routes: Map<Seq<char>, routing::RouteView>,
    vip: Seq<char>,
    from: Endpoint,
    authenticated: bool,
) -> bool {
    !routes.dom().contains(vip) || routes[vip].endpoint == from || routes[vip].state is Stale
        || routes[vip].state is Degraded || authenticated
}

/// What a punch teaches.
pub open spec fn lesson(
    id: engine_state::IdentityView,
    routes: Map<Seq<char>, routing::RouteView>,
    body: Seq<u8>,
    from: Endpoint,
    is_ack: bool,
    authenticated: bool,
) -> Learned {
    let v = body_vip(body);
    if v is None || !learnable(id, v->0, is_ack) {
        Learned::Nothing
    } else if may_take(routes, v->0, from, authenticated) {
        Learned::Route {
            moved_from: if id.my_vip.len() == 0 {
                None
            } else {
                endpoint_in(routes, v->0)
            },
        }
    } else {
        Learned::Refused
    }
}

/// The peers after a punch.
pub open spec fn after_punch(
    id: engine_state::IdentityView,
    p: Peers,
    body: Seq<u8>,
    from: Endpoint,
    is_ack: bool,
    authenticated: bool,
    now: u64,
) -> Peers {
    let q = heard(p, id.is_owner, from, now);
    if lesson(id, q.routes, body, from, is_ack, authenticated) is Route && id.my_vip.len() > 0 {
        placed(q, body_vip(body)->0, from, None, now)
    } else {
        q
    }
}

/// A route as it comes in a sync.
pub struct MsynRoute {
    pub vip: Option<String>,
    /// The endpoint, where it could be read.
    pub ep: Option<Endpoint>,
    pub node_id: Option<String>,
}

/// A route of a sync without its strings' identities.
pub ghost struct MsynRouteView {
    pub vip: Option<Seq<char>>,
    pub ep: Option<Endpoint>,
    pub node_id: Option<Seq<char>>,
}

impl View for MsynRoute {
    type V = MsynRouteView;

    open spec fn view(&self) -> MsynRouteView {
        MsynRouteView {
            vip: routing::opt_str(self.vip),
            ep: self.ep,
            node_id: routing::opt_str(self.node_id),
        }
    }
}

/// A route of a sync that is taken over: a host of this subnet other than this
/// node, at an endpoint where a peer can be.
pub open spec fn route_taken(my: Seq<char>, prefix: u8, r: MsynRouteView) -> bool {
    r.vip is Some && r.ep is Some && routing::sync_vip_ok(my, r.vip->0, prefix)
        && routing::sync_endpoint_ok(r.ep->0) && r.vip->0 != my
}

/// The peers once the first `n` of `removed` are gone.
pub open spec fn after_removals(
    p: Peers,
    my: Seq<char>,
    prefix: u8,
    removed: Seq<String>,
    n: nat,
) -> Peers
    decreases n,
{
    if n == 0 {
        p
    } else {
        let q = after_removals(p, my, prefix, removed, (n - 1) as nat);
        let v = removed[n - 1]@;
        if routing::sync_vip_ok(my, v, prefix) {
            evicted(q, v)
        } else {
            q
        }
    }
}

/// The peers once the first `n` of `routes` are taken over.
pub open spec fn after_routes(
    p: Peers,
    my: Seq<char>,
    prefix: u8,
    routes: Seq<MsynRoute>,
    n: nat,
    now: u64,
) -> Peers
    decreases n,
{
    if n == 0 {
        p
    } else {
        let q = after_routes(p, my, prefix, routes, (n - 1) as nat, now);
        let r = routes[n - 1]@;
        if route_taken(my, prefix, r) {
            placed(q, r.vip->0, r.ep->0, r.node_id, now)
        } else {
            q
        }
    }
}

/// `vip` is among the addresses of a sync that are hosts of this subnet, or
/// this node's own.
pub open spec fn announced(my: Seq<char>, prefix: u8, routes: Seq<MsynRoute>, vip: Seq<char>) -> bool {
    vip == my || (routing::sync_vip_ok(my, vip, prefix) && exists|i: int|
        0 <= i < routes.len() && (#[trigger] routes[i])@.vip == Some(vip))
}

/// A route that a complete sync does not know any more.
pub open spec fn phantom(my: Seq<char>, prefix: u8, routes: Seq<MsynRoute>, vip: Seq<char>) -> bool {
    vip != my && routing::sync_vip_ok(my, vip, prefix) && !announced(my, prefix, routes, vip)
}

/// The peers once the first `n` of the addresses `vips` are gone, as far as
/// they are phantoms.
pub open spec fn after_phantoms(
    p: Peers,
    my: Seq<char>,
    prefix: u8,
    routes: Seq<MsynRoute>,
    vips: Seq<Seq<char>>,
    n: nat,
) -> Peers
    decreases n,
{
    if n == 0 {
        p
    } else {
        let q = after_phantoms(p, my, prefix, routes, vips, (n - 1) as nat);
        if phantom(my, prefix, routes, vips[n - 1]) {
            evicted(q, vips[n - 1])
        } else {
            q
        }
    }
}

/// The keys of a list of entries.
pub open spec fn keys_of(s: Seq<(String, routing::RouteEntry)>) -> Seq<Seq<char>> {
    Seq::new(s.len(), |i: int| s[i].0@)
}

/// A route that a sync took over.
pub struct AppliedRoute {
    pub vip: String,
    pub ep: Endpoint,
    pub node_id: Option<String>,
    /// Where the peer was before; nothing where it is new.
    pub prev: Option<Endpoint>,
}

/// A peer that a sync took out.
pub struct RemovedPeer {
    pub gone: PeerGone,
    /// Where the peer was.
    pub ep: Option<Endpoint>,
}

/// The node of a route, where it is known.
pub open spec fn node_at(routes: Map<Seq<char>, routing::RouteView>, vip: Seq<char>) -> Seq<char> {
    match routing::lookup_in(routes, vip) {
        Some(r) => r.node_id,
        None => Seq::empty(),
    }
}

/// A peer that was taken out, by value.
pub ghost struct RemovedView {
    pub gone: engine_state::GoneView,
    pub ep: Option<Endpoint>,
}

impl View for RemovedPeer {
    type V = RemovedView;

    open spec fn view(&self) -> RemovedView {
        RemovedView { gone: self.gone@, ep: self.ep }
    }
}

/// What is told of the peer `vip` when it is taken out.
pub open spec fn removal_of(routes: Map<Seq<char>, routing::RouteView>, vip: Seq<char>) -> RemovedView {
    RemovedView {
        gone: engine_state::gone_of(vip, node_at(routes, vip)),
        ep: endpoint_in(routes, vip),
    }
}

/// The values of a list.
pub open spec fn removed_views(s: Seq<RemovedPeer>) -> Seq<RemovedView> {
    Seq::new(s.len(), |i: int| s[i]@)
}

/// A route that was taken over, by value.
pub ghost struct AppliedView {
    pub vip: Seq<char>,
    pub ep: Endpoint,
    pub node_id: Option<Seq<char>>,
    pub prev: Option<Endpoint>,
}

impl View for AppliedRoute {
    type V = AppliedView;

    open spec fn view(&self) -> AppliedView {
        AppliedView {
            vip: self.vip@,
            ep: self.ep,
            node_id: routing::opt_str(self.node_id),
            prev: self.prev,
        }
    }
}

/// The values of a list.
pub open spec fn applied_views(s: Seq<AppliedRoute>) -> Seq<AppliedView> {
    Seq::new(s.len(), |i: int| s[i]@)
}

/// What is told of the first `n` of `removed`.
pub open spec fn removals_told(
    p: Peers,
    my: Seq<char>,
    prefix: u8,
    removed: Seq<String>,
    n: nat,
) -> Seq<RemovedView>
    decreases n,
{
    if n == 0 {
        Seq::empty()
    } else {
        let m = (n - 1) as nat;
        let rest = removals_told(p, my, prefix, removed, m);
        let v = removed[n - 1]@;
        if routing::sync_vip_ok(my, v, prefix) {
            rest.push(removal_of(after_removals(p, my, prefix, removed, m).routes, v))
        } else {
            rest
        }
    }
}

/// What is told of the first `n` of `routes`.
pub open spec fn routes_told(
    p: Peers,
    my: Seq<char>,
    prefix: u8,
    routes: Seq<MsynRoute>,
    n: nat,
    now: u64,
) -> Seq<AppliedView>
    decreases n,
{
    if n == 0 {
        Seq::empty()
    } else {
        let m = (n - 1) as nat;
        let rest = routes_told(p, my, prefix, routes, m, now);
        let r = routes[n - 1]@;
        if route_taken(my, prefix, r) {
            rest.push(
                AppliedView {
                    vip: r.vip->0,
                    ep: r.ep->0,
                    node_id: r.node_id,
                    prev: endpoint_in(after_routes(p, my, prefix, routes, m, now).routes, r.vip->0),
                },
            )
        } else {
            rest
        }
    }
}

/// What is told of the phantoms among the first `n` of `vips`.
pub open spec fn phantoms_told(
    p: Peers,
    my: Seq<char>,
    prefix: u8,
    routes: Seq<MsynRoute>,
    vips: Seq<Seq<char>>,
    n: nat,
) -> Seq<RemovedView>
    decreases n,
{
    if n == 0 {
        Seq::empty()
    } else {
        let m = (n - 1) as nat;
        let rest = phantoms_told(p, my, prefix, routes, vips, m);
        let v = vips[n - 1];
        if phantom(my, prefix, routes, v) {
            rest.push(removal_of(after_phantoms(p, my, prefix, routes, vips, m).routes, v))
        } else {
            rest
        }
    }
}

/// What has to be done outside once a sync is applied.
pub struct MsynEffects {
    pub removed: Vec<RemovedPeer>,
    pub applied: Vec<AppliedRoute>,
    pub phantoms: Vec<RemovedPeer>,
}

/// What became of a complete sync.
pub enum MsynApply {
    /// Older than what was applied.
    Outdated,
    /// More entries than a node takes at once.
    TooLarge,
    Applied(MsynEffects),
}

/// A complete sync from `from` was taken: one that is older than what was applied,
/// or too large, changes nothing. Else first its removals are applied, then its
/// routes, and where it is complete from the start, what it does not name is taken
/// out.
pub open spec fn epoch_done(
    pre: EngineState,
    post: EngineState,
    from: Endpoint,
    from_rev: u64,
    to_rev: u64,
    removed: Seq<String>,
    routes: Seq<MsynRoute>,
    now: u64,
    out: MsynApply,
) -> bool {
    let my = pre.id.my_vip@;
    let prefix = pre.id.subnet_prefix;
    &&& out is Outdated == (to_rev <= pre.sync.msyn_applied_to_rev)
    &&& out is TooLarge == (to_rev > pre.sync.msyn_applied_to_rev && (removed.len()
        > MSYN_APPLY_MAX_REMOVED || routes.len() > MSYN_APPLY_MAX_ROUTES))
    &&& !(out is Applied) ==> post == pre
    &&& out matches MsynApply::Applied(fx) ==> {
        let p1 = after_removals(pre.peers(), my, prefix, removed, removed.len());
        let p2 = heard(p1, pre.id.is_owner, from, now);
        let p3 = after_routes(p2, my, prefix, routes, routes.len(), now);
        &&& EngineState::beyond_peers(
            EngineState {
                sync: SyncState { msyn_applied_to_rev: to_rev, ..pre.sync },
                ..pre
            },
            post,
        )
        &&& removed_views(fx.removed@) == removals_told(
            pre.peers(),
            my,
            prefix,
            removed,
            removed.len(),
        )
        &&& applied_views(fx.applied@) == routes_told(p2, my, prefix, routes, routes.len(), now)
        &&& from_rev != 0 ==> post.peers() == p3 && fx.phantoms@.len() == 0
        &&& from_rev == 0 ==> exists|vips: Seq<Seq<char>>|
            lists_keys(vips, p3.routes) && post.peers() == #[trigger] after_phantoms(
                p3,
                my,
                prefix,
                routes,
                vips,
                vips.len(),
            ) && removed_views(fx.phantoms@) == phantoms_told(
                p3,
                my,
                prefix,
                routes,
                vips,
                vips.len(),
            )
    }
}

pub const MSYN_APPLY_MAX_ROUTES: usize = 1024;

pub const MSYN_APPLY_MAX_REMOVED: usize = 1024;

impl EngineState {
    /// What the session knows of its peers.
    pub open spec fn peers(&self) -> Peers {
        Peers {
            routes: self.routing.routes(),
            vips: self.routing.vips(),
            nodes: self.routing.nodes(),
            served: self.sync.peer_sync_state@,
            bound: self.crypto_keys.per_peer@,
            cooldown: self.heal_cooldown_until@,
            healing: self.pending_heal_vips@,
            kinds: self.prev_path_kind@,
            sent: self.data_send_ctr@,
        }
    }

    /// The parts of the state that are no knowledge of peers.
    pub open spec fn beyond_peers(pre: EngineState, post: EngineState) -> bool {
        &&& EngineState::same_session(pre, post)
        &&& post.sync.peer_pending_removals == pre.sync.peer_pending_removals
        &&& post.sync.msyn_applied_to_rev == pre.sync.msyn_applied_to_rev
        &&& post.sync.next_msyn_sync_id == pre.sync.next_msyn_sync_id
        &&& post.sync.last_after_join == pre.sync.last_after_join
        &&& post.sync.pending_after_join == pre.sync.pending_after_join
        &&& post.crypto_keys.primary == pre.crypto_keys.primary
        &&& post.crypto_keys.extras == pre.crypto_keys.extras
        &&& post.crypto_keys.next_id == pre.crypto_keys.next_id
    }

    /// Notes that a peer was heard. Tells whether a stale route revived.
    pub fn touch_routing_endpoint(&mut self, from: Endpoint, now: u64) -> (revived: bool)
        requires
            old(self).wf(),
        ensures
            final(self).wf(),
            EngineState::beyond_peers(*old(self), *final(self)),
            final(self).peers() == heard(old(self).peers(), old(self).id.is_owner, from, now),
            revived == (routing::stale_at(
                old(self).routing.routes(),
                old(self).routing.vips(),
                from,
            ) is Some),
    {
        let stale: Option<String> = self.routing.promote_stale_if_needed(from);
        self.routing.note_seen(from, now);
        let revived: bool = match stale {
            Some(vip) => {
                if self.id.is_owner {
                    let _ = self.sync.peer_sync_state.remove(&vip);
                }
                true
            },
            None => false,
        };
        proof {
            assert(self.peers() =~= heard(old(self).peers(), old(self).id.is_owner, from, now));
        }
        revived
    }

    /// Leads the route to `vip` to `ep`. Returns where it led before.
    fn place(&mut self, vip: &String, ep: Endpoint, node_id: Option<&String>, now: u64) -> (prev:
        Option<Endpoint>)
        requires
            old(self).wf(),
        ensures
            final(self).wf(),
            EngineState::beyond_peers(*old(self), *final(self)),
            final(self).peers() == placed(
                old(self).peers(),
                vip@,
                ep,
                match node_id {
                    Some(n) => Some(n@),
                    None => None,
                },
                now,
            ),
            prev == endpoint_in(old(self).routing.routes(), vip@),
    {
        let prev: Option<Endpoint> = self.routing.lookup(vip);
        self.routing.update(vip, ep, node_id, now);
        if let Some(p) = prev {
            if p != ep {
                let _ = self.sync.peer_sync_state.remove(vip);
                self.crypto_keys.unbind_peer(p);
            }
        }
        proof {
            assert(self.peers() =~= placed(
                old(self).peers(),
                vip@,
                ep,
                match node_id {
                    Some(n) => Some(n@),
                    None => None,
                },
                now,
            ));
        }
        prev
    }

    /// Leads the route to `vip` to `ep`, once this node has an address. Returns
    /// where the route led before.
    pub fn update_route(
        &mut self,
        vip: &String,
        ep: Endpoint,
        node_id: Option<&String>,
        now: u64,
    ) -> (prev: Option<Endpoint>)
        requires
            old(self).wf(),
        ensures
            final(self).wf(),
            EngineState::beyond_peers(*old(self), *final(self)),
            final(self).peers() == if old(self).id.my_vip@.len() == 0 {
                old(self).peers()
            } else {
                placed(
                    old(self).peers(),
                    vip@,
                    ep,
                    match node_id {
                        Some(n) => Some(n@),
                        None => None,
                    },
                    now,
                )
            },
            prev == if old(self).id.my_vip@.len() == 0 {
                None
            } else {
                endpoint_in(old(self).routing.routes(), vip@)
            },
    {
        if self.id.my_vip.as_str().is_empty() {
            return None;
        }
        self.place(vip, ep, node_id, now)
    }

    /// Takes the peer `vip` out. Returns what has to be cleaned up outside.
    pub fn evict_peer(&mut self, vip: &String) -> (out: RemovedPeer)
        requires
            old(self).wf(),
        ensures
            final(self).wf(),
            EngineState::beyond_peers(*old(self), *final(self)),
            final(self).peers() == evicted(old(self).peers(), vip@),
            out@ == removal_of(old(self).routing.routes(), vip@),
    {
        let ep: Option<Endpoint> = self.routing.lookup(vip);
        let node: Option<String> = match self.routing.table.get(vip) {
            Some(e) => Some(e.node_id.clone()),
            None => None,
        };
        self.routing.remove(vip);
        let gone: PeerGone = self.on_peer_route_removed(vip, node);
        if let Some(e) = ep {
            self.crypto_keys.unbind_peer(e);
        }
        proof {
            assert(self.peers() =~= evicted(old(self).peers(), vip@));
        }
        RemovedPeer { gone, ep }
    }

    /// Learns a route from a punch or its answer.
    pub fn learn_route_from_hole_punch_body(
        &mut self,
        body: &[u8],
        from: Endpoint,
        is_ack: bool,
        authenticated: bool,
        now: u64,
    ) -> (out: Learned)
        requires
            old(self).wf(),
        ensures
            final(self).wf(),
            EngineState::beyond_peers(*old(self), *final(self)),
            out == lesson(
                old(self).id@,
                heard(old(self).peers(), old(self).id.is_owner, from, now).routes,
                body@,
                from,
                is_ack,
                authenticated,
            ),
            final(self).peers() == after_punch(
                old(self).id@,
                old(self).peers(),
                body@,
                from,
                is_ack,
                authenticated,
                now,
            ),
    {
        let _ = self.touch_routing_endpoint(from, now);
        let vip: String = match utf8_text(body) {
            Some(s) => trim(s).to_owned(),
            None => {
                return Learned::Nothing;
            },
        };
        let vip_ip: u32 = match parse_ipv4(vip.as_str()) {
            Some(a) => a,
            None => {
                return Learned::Nothing;
            },
        };
        if let Some(mine) = parse_ipv4(self.id.my_vip.as_str()) {
            let prefix: u8 = self.id.subnet_prefix;
            if 8 <= prefix && prefix <= 30 && !same_subnet(mine, vip_ip, prefix) {
                return Learned::Nothing;
            }
        }
        if !is_ack && vip == self.id.owner_vip_cached {
            return Learned::Nothing;
        }
        let allow: bool = match self.routing.table.get(&vip) {
            Some(e) => e.endpoint == from || e.state == RouteState::Stale || e.state
                == RouteState::Degraded || authenticated,
            None => true,
        };
        if allow {
            let moved_from: Option<Endpoint> = self.update_route(&vip, from, None, now);
            Learned::Route { moved_from }
        } else {
            Learned::Refused
        }
    }

    /// A keepalive: the sender's route is learned, and where the owner speaks,
    /// its endpoint is confirmed.
    pub fn apply_hb_body(&mut self, body: &[u8], from: Endpoint, authenticated: bool, now: u64) -> (
    out: Beat)
        requires
            old(self).wf(),
        ensures
            final(self).wf(),
            out.learned == if body@.len() > 0 && body_vip(body@) is Some {
                lesson(
                    old(self).id@,
                    heard(
                        heard(old(self).peers(), old(self).id.is_owner, from, now),
                        old(self).id.is_owner,
                        from,
                        now,
                    ).routes,
                    body@,
                    from,
                    true,
                    authenticated,
                )
            } else {
                Learned::Nothing
            },
            out.owner_confirmed == ({
                let v = body_vip(body@);
                &&& body@.len() > 0
                &&& v is Some
                &&& !old(self).id.is_owner
                &&& old(self).id.owner_vip_cached@.len() > 0
                &&& v->0 == old(self).id.owner_vip_cached@
                &&& authenticated || !old(self).crypto_keys.any()
            }),
            final(self).id@ == if out.owner_confirmed {
                engine_state::IdentityView {
                    owner_ep: Some(from),
                    owner_ep_trusted: true,
                    ..old(self).id@
                }
            } else {
                old(self).id@
            },
            EngineState::beyond_peers(
                (EngineState { id: final(self).id, ..*old(self) }),
                *final(self),
            ),
            final(self).peers() == if body@.len() > 0 && body_vip(body@) is Some {
                after_punch(
                    old(self).id@,
                    heard(old(self).peers(), old(self).id.is_owner, from, now),
                    body@,
                    from,
                    true,
                    authenticated,
                    now,
                )
            } else {
                heard(old(self).peers(), old(self).id.is_owner, from, now)
            },
    {
        let sealed: bool = self.has_crypto();
        let nothing = Beat { learned: Learned::Nothing, owner_confirmed: false };
        let _ = self.touch_routing_endpoint(from, now);
        if body.len() == 0 {
            return nothing;
        }
        let vip: String = match utf8_text(body) {
            Some(s) => trim(s).to_owned(),
            None => {
                return nothing;
            },
        };
        if parse_ipv4(vip.as_str()).is_none() {
            return nothing;
        }
        let learned: Learned = self.learn_route_from_hole_punch_body(
            body,
            from,
            true,
            authenticated,
            now,
        );
        let owner_confirmed: bool = !self.id.is_owner
            && !self.id.owner_vip_cached.as_str().is_empty() && vip == self.id.owner_vip_cached && (
        authenticated || !sealed);
        if owner_confirmed {
            self.id.confirm_owner_endpoint(from);
        }
        Beat { learned, owner_confirmed }
    }

    /// A punch or its answer: the sender's route is learned, and its connection
    /// checks may end.
    pub fn apply_hol_body(
        &mut self,
        body: &[u8],
        from: Endpoint,
        is_ack: bool,
        authenticated: bool,
        now: u64,
    ) -> (out: Punched)
        requires
            old(self).wf(),
        ensures
            final(self).wf(),
            EngineState::beyond_peers(*old(self), *final(self)),
            out.learned == lesson(
                old(self).id@,
                heard(old(self).peers(), old(self).id.is_owner, from, now).routes,
                body@,
                from,
                is_ack,
                authenticated,
            ),
            routing::opt_str(out.checks_done) == checks_over(
                old(self).id.is_owner,
                final(self).routing.routes(),
                from,
                body@,
            ),
            final(self).peers() == after_punch(
                old(self).id@,
                old(self).peers(),
                body@,
                from,
                is_ack,
                authenticated,
                now,
            ),
    {
        let learned: Learned = self.learn_route_from_hole_punch_body(
            body,
            from,
            is_ack,
            authenticated,
            now,
        );
        let checks_done: Option<String> = self.ice_checks_done(from, body);
        Punched { learned, checks_done }
    }

    /// The node whose connection checks can end, since its punch came through:
    /// the owner asks this of a peer that punches from the endpoint of its
    /// route.
    pub fn ice_checks_done(&self, from: Endpoint, body: &[u8]) -> (out: Option<String>)
        requires
            self.wf(),
        ensures
            routing::opt_str(out) == checks_over(
                self.id.is_owner,
                self.routing.routes(),
                from,
                body@,
            ),
    {
        if !self.id.is_owner {
            return None;
        }
        let vip: String = match utf8_text(body) {
            Some(s) => trim(s).to_owned(),
            None => {
                return None;
            },
        };
        if parse_ipv4(vip.as_str()).is_none() {
            return None;
        }
        match self.routing.table.get(&vip) {
            Some(e) => if e.endpoint != from || e.node_id.as_str().is_empty() {
                None
            } else {
                Some(e.node_id.clone())
            },
            None => None,
        }
    }

    /// Applies a complete sync: first its removals, then its routes, and where
    /// it is complete from the start, what it does not name is taken out.
    pub fn apply_msyn_epoch(
        &mut self,
        from: Endpoint,
        from_rev: u64,
        to_rev: u64,
        removed: &Vec<String>,
        routes: &Vec<MsynRoute>,
        now: u64,
    ) -> (out: MsynApply)
        requires
            old(self).wf(),
        ensures
            final(self).wf(),
            epoch_done(
                *old(self),
                *final(self),
                from,
                from_rev,
                to_rev,
                removed@,
                routes@,
                now,
                out,
            ),
    {
        if to_rev <= self.sync.msyn_applied_to_rev {
            return MsynApply::Outdated;
        }
        if removed.len() > MSYN_APPLY_MAX_REMOVED || routes.len() > MSYN_APPLY_MAX_ROUTES {
            return MsynApply::TooLarge;
        }
        let gone: Vec<RemovedPeer> = self.apply_removals(removed);
        let _ = self.touch_routing_endpoint(from, now);
        let applied: Vec<AppliedRoute> = self.apply_routes(routes, now);
        let mut phantoms: Vec<RemovedPeer> = Vec::new();
        if from_rev == 0 {
            phantoms = self.drop_phantoms(routes);
        }
        self.sync.msyn_applied_to_rev = to_rev;
        MsynApply::Applied(MsynEffects { removed: gone, applied, phantoms })
    }

    /// Takes the peers of `removed` out that are hosts of this subnet.
    fn apply_removals(&mut self, removed: &Vec<String>) -> (out: Vec<RemovedPeer>)
        requires
            old(self).wf(),
        ensures
            final(self).wf(),
            EngineState::beyond_peers(*old(self), *final(self)),
            final(self).peers() == after_removals(
                old(self).peers(),
                old(self).id.my_vip@,
                old(self).id.subnet_prefix,
                removed@,
                removed@.len(),
            ),
            removed_views(out@) == removals_told(
                old(self).peers(),
                old(self).id.my_vip@,
                old(self).id.subnet_prefix,
                removed@,
                removed@.len(),
            ),
    {
        let ghost my = self.id.my_vip@;
        let ghost prefix = self.id.subnet_prefix;
        let mut out: Vec<RemovedPeer> = Vec::new();
        let mut i: usize = 0;
        proof {
            assert(removed_views(out@) =~= Seq::<RemovedView>::empty());
        }
        while i < removed.len()
            invariant
                i <= removed@.len(),
                self.wf(),
                EngineState::beyond_peers(*old(self), *self),
                my == old(self).id.my_vip@,
                prefix == old(self).id.subnet_prefix,
                self.peers() == after_removals(old(self).peers(), my, prefix, removed@, i as nat),
                removed_views(out@) == removals_told(
                    old(self).peers(),
                    my,
                    prefix,
                    removed@,
                    i as nat,
                ),
            decreases removed@.len() - i,
        {
            let ok: bool = is_valid_sync_vip(
                self.id.my_vip.as_str(),
                removed[i].as_str(),
                self.id.subnet_prefix,
            );
            if ok {
                let ghost o0 = out@;
                let r: RemovedPeer = self.evict_peer(&removed[i]);
                let ghost rv = r@;
                out.push(r);
                proof {
                    assert(removed_views(out@) =~= removed_views(o0).push(rv));
                }
            }
            i += 1;
        }
        out
    }

    /// Takes the routes of a sync over.
    fn apply_routes(&mut self, routes: &Vec<MsynRoute>, now: u64) -> (out: Vec<AppliedRoute>)
        requires
            old(self).wf(),
        ensures
            final(self).wf(),
            EngineState::beyond_peers(*old(self), *final(self)),
            final(self).peers() == after_routes(
                old(self).peers(),
                old(self).id.my_vip@,
                old(self).id.subnet_prefix,
                routes@,
                routes@.len(),
                now,
            ),
            applied_views(out@) == routes_told(
                old(self).peers(),
                old(self).id.my_vip@,
                old(self).id.subnet_prefix,
                routes@,
                routes@.len(),
                now,
            ),
    {
        let ghost my = self.id.my_vip@;
        let ghost prefix = self.id.subnet_prefix;
        let mut out: Vec<AppliedRoute> = Vec::new();
        let mut i: usize = 0;
        proof {
            assert(applied_views(out@) =~= Seq::<AppliedView>::empty());
        }
        while i < routes.len()
            invariant
                i <= routes@.len(),
                self.wf(),
                EngineState::beyond_peers(*old(self), *self),
                my == old(self).id.my_vip@,
                prefix == old(self).id.subnet_prefix,
                self.peers() == after_routes(
                    old(self).peers(),
                    my,
                    prefix,
                    routes@,
                    i as nat,
                    now,
                ),
                applied_views(out@) == routes_told(
                    old(self).peers(),
                    my,
                    prefix,
                    routes@,
                    i as nat,
                    now,
                ),
            decreases routes@.len() - i,
        {
            let r: &MsynRoute = &routes[i];
            let ghost o0 = out@;
            if let Some(vip) = &r.vip {
                if let Some(ep) = r.ep {
                    let ok: bool = is_valid_sync_vip(
                        self.id.my_vip.as_str(),
                        vip.as_str(),
                        self.id.subnet_prefix,
                    ) && is_valid_sync_endpoint(ep) && !(*vip == self.id.my_vip);
                    if ok {
                        let node: Option<&String> = r.node_id.as_ref();
                        let prev: Option<Endpoint> = self.place(vip, ep, node, now);
                        let name: String = vip.clone();
                        let to: Option<String> = match &r.node_id {
                            Some(n) => Some(n.clone()),
                            None => None,
                        };
                        let a = AppliedRoute { vip: name, ep, node_id: to, prev };
                        let ghost av = a@;
                        out.push(a);
                        proof {
                            assert(applied_views(out@) =~= applied_views(o0).push(av));
                        }
                    }
                }
            }
            i += 1;
        }
        out
    }

    /// Takes out what a complete sync does not name.
    fn drop_phantoms(&mut self, routes: &Vec<MsynRoute>) -> (out: Vec<RemovedPeer>)
        requires
            old(self).wf(),
        ensures
            final(self).wf(),
            EngineState::beyond_peers(*old(self), *final(self)),
            exists|vips: Seq<Seq<char>>|
                lists_keys(vips, old(self).routing.routes()) && final(self).peers()
                    == #[trigger] after_phantoms(
                    old(self).peers(),
                    old(self).id.my_vip@,
                    old(self).id.subnet_prefix,
                    routes@,
                    vips,
                    vips.len(),
                ) && removed_views(out@) == phantoms_told(
                    old(self).peers(),
                    old(self).id.my_vip@,
                    old(self).id.subnet_prefix,
                    routes@,
                    vips,
                    vips.len(),
                ),
    {
        let ghost my = self.id.my_vip@;
        let ghost prefix = self.id.subnet_prefix;
        let ghost entries = self.routing.table.entries@;
        let ghost vips = keys_of(entries);
        let allowed: NameSet = self.announced_set(routes);
        let names: Vec<String> = self.route_names();
        let mut out: Vec<RemovedPeer> = Vec::new();
        let mut i: usize = 0;
        proof {
            keys_listed(old(self).routing.table);
            assert(removed_views(out@) =~= Seq::<RemovedView>::empty());
        }
        while i < names.len()
            invariant
                i <= names@.len(),
                allowed.wf(),
                names@.len() == vips.len(),
                forall|j: int| 0 <= j < names@.len() ==> (#[trigger] names@[j])@ == vips[j],
                forall|v: Seq<char>| #[trigger]
                    allowed@.contains(v) <==> announced(my, prefix, routes@, v),
                self.wf(),
                EngineState::beyond_peers(*old(self), *self),
                my == old(self).id.my_vip@,
                prefix == old(self).id.subnet_prefix,
                self.peers() == after_phantoms(
                    old(self).peers(),
                    my,
                    prefix,
                    routes@,
                    vips,
                    i as nat,
                ),
                removed_views(out@) == phantoms_told(
                    old(self).peers(),
                    my,
                    prefix,
                    routes@,
                    vips,
                    i as nat,
                ),
            decreases names@.len() - i,
        {
            let v: &String = &names[i];
            let drop_it: bool = !(*v == self.id.my_vip) && is_valid_sync_vip(
                self.id.my_vip.as_str(),
                v.as_str(),
                self.id.subnet_prefix,
            ) && !allowed.contains(v);
            proof {
                assert(v@ == vips[i as int]);
                assert(drop_it == phantom(my, prefix, routes@, vips[i as int]));
            }
            if drop_it {
                let ghost o0 = out@;
                let r: RemovedPeer = self.evict_peer(v);
                let ghost rv = r@;
                out.push(r);
                proof {
                    assert(removed_views(out@) =~= removed_views(o0).push(rv));
                }
            }
            i += 1;
        }
        out
    }

    /// The addresses of all routes.
    pub(crate) fn route_names(&self) -> (out: Vec<String>)
        ensures
            out@.len() == self.routing.table.entries@.len(),
            forall|j: int|
                0 <= j < out@.len() ==> (#[trigger] out@[j])@ == keys_of(
                    self.routing.table.entries@,
                )[j],
    {
        let mut out: Vec<String> = Vec::new();
        let mut i: usize = 0;
        while i < self.routing.table.entries.len()
            invariant
                i <= self.routing.table.entries@.len(),
                out@.len() == i,
                forall|j: int|
                    0 <= j < i ==> (#[trigger] out@[j])@ == keys_of(
                        self.routing.table.entries@,
                    )[j],
            decreases self.routing.table.entries@.len() - i,
        {
            out.push(self.routing.table.entries[i].0.clone());
            i += 1;
        }
        out
    }

    /// The addresses that a complete sync names.
    fn announced_set(&self, routes: &Vec<MsynRoute>) -> (out: NameSet)
        requires
            self.wf(),
        ensures
            out.wf(),
            forall|v: Seq<char>| #[trigger]
                out@.contains(v) <==> announced(
                    self.id.my_vip@,
                    self.id.subnet_prefix,
                    routes@,
                    v,
                ),
    {
        let ghost my = self.id.my_vip@;
        let ghost prefix = self.id.subnet_prefix;
        let mut out: NameSet = NameSet::new();
        let _ = out.insert(self.id.my_vip.clone());
        let mut i: usize = 0;
        while i < routes.len()
            invariant
                i <= routes@.len(),
                out.wf(),
                my == self.id.my_vip@,
                prefix == self.id.subnet_prefix,
                forall|v: Seq<char>| #[trigger]
                    out@.contains(v) <==> (v == my || (routing::sync_vip_ok(my, v, prefix)
                        && exists|j: int|
                        0 <= j < i && (#[trigger] routes@[j])@.vip == Some(v))),
            decreases routes@.len() - i,
        {
            let ghost o0 = out@;
            if let Some(vip) = &routes[i].vip {
                let ok: bool = is_valid_sync_vip(
                    self.id.my_vip.as_str(),
                    vip.as_str(),
                    self.id.subnet_prefix,
                );
                if ok {
                    let _ = out.insert(vip.clone());
                }
            }
            proof {
                assert forall|v: Seq<char>| #[trigger]
                    out@.contains(v) <==> (v == my || (routing::sync_vip_ok(my, v, prefix)
                        && exists|j: int|
                        0 <= j < i + 1 && (#[trigger] routes@[j])@.vip == Some(v))) by {
                    if o0.contains(v) && v != my {
                        let j = choose|j: int|
                            0 <= j < i && (#[trigger] routes@[j])@.vip == Some(v);
                        assert(routes@[j]@.vip == Some(v));
                    }
                    assert(routes@[i as int]@.vip == routing::opt_str(routes@[i as int].vip));
                    if out@.contains(v) && !o0.contains(v) {
                        assert(routes@[i as int]@.vip == Some(v));
                    }
                    if routing::sync_vip_ok(my, v, prefix) && exists|j: int|
                        0 <= j < i + 1 && (#[trigger] routes@[j])@.vip == Some(v) {
                        let j = choose|j: int|
                            0 <= j < i + 1 && (#[trigger] routes@[j])@.vip == Some(v);
                        if j < i {
                            assert(o0.contains(v));
                        }
                    }
                }
            }
            i += 1;
        }
        out
    }
}

/// `vips` lists the keys of `m`, each once.
pub open spec fn lists_keys<V>(vips: Seq<Seq<char>>, m: Map<Seq<char>, V>) -> bool {
    vips.no_duplicates() && forall|v: Seq<char>| #[trigger]
        vips.contains(v) <==> m.dom().contains(v)
}

/// The keys of the entries of a table are its keys.
pub proof fn keys_listed(t: table::Table<String, routing::RouteEntry>)
    requires
        t.wf(),
    ensures
        lists_keys(keys_of(t.entries@), routing::routes_view(t@)),
{
    let s = t.entries@;
    let vips = keys_of(s);
    assert forall|i: int, j: int| 0 <= i < vips.len() && 0 <= j < vips.len() && i != j implies vips[i]
        != vips[j] by {
        if i < j {
            assert(s[i].0.id() != s[j].0.id());
        } else {
            assert(s[j].0.id() != s[i].0.id());
        }
    }
    assert forall|v: Seq<char>| #[trigger] vips.contains(v) <==> routing::routes_view(
        t@,
    ).dom().contains(v) by {
        if vips.contains(v) {
            let i = choose|i: int| 0 <= i < vips.len() && vips[i] == v;
            table::map_of_at(s, i);
        }
        if t@.dom().contains(v) {
            let i = choose|i: int| table::key_at(s, v, i);
            assert(vips[i] == v);
        }
    }
}

/// The addresses of a list of removed peers.
pub open spec fn removed_names(v: Seq<RemovedPeer>) -> Seq<Seq<char>> {
    Seq::new(v.len(), |i: int| v[i].gone.vip@)
}

/// Without a proof of itself, a sender never draws a route that is in use to
/// another endpoint: at most it counts as heard.
pub proof fn no_hijack(
    id: engine_state::IdentityView,
    p: Peers,
    body: Seq<u8>,
    from: Endpoint,
    is_ack: bool,
    now: u64,
    vip: Seq<char>,
)
    requires
        p.routes.dom().contains(vip),
        p.routes[vip].endpoint != from,
        p.routes[vip].state is Active || p.routes[vip].state is Candidate,
    ensures
        ({
            let q = after_punch(id, p, body, from, is_ack, false, now).routes;
            &&& q.dom().contains(vip)
            &&& q[vip] == routing::RouteView { last_seen: q[vip].last_seen, ..p.routes[vip] }
            &&& routing::lookup_in(p.vips, from) != Some(vip) ==> q[vip] == p.routes[vip]
        }),
{
}

/// A peer that has proved itself moves its route to where it is.
pub proof fn authenticated_rebinds(
    id: engine_state::IdentityView,
    p: Peers,
    body: Seq<u8>,
    from: Endpoint,
    is_ack: bool,
    now: u64,
)
    requires
        body_vip(body) is Some,
        learnable(id, body_vip(body)->0, is_ack),
        id.my_vip.len() > 0,
    ensures
        ({
            let q = after_punch(id, p, body, from, is_ack, true, now);
            let v = body_vip(body)->0;
            endpoint_in(q.routes, v) == Some(from) && routing::lookup_in(q.vips, from) == Some(v)
        }),
{
}

/// What a peer was evicted for is gone, and no other route is touched.
pub proof fn eviction_is_local(p: Peers, vip: Seq<char>, other: Seq<char>)
    requires
        vip != other,
    ensures
        !evicted(p, vip).routes.dom().contains(vip),
        routing::lookup_in(evicted(p, vip).routes, other) == routing::lookup_in(p.routes, other),
{
}

/// After a complete sync, no route is left that is a host of this subnet and
/// that the sync does not name.
pub proof fn no_phantoms_left(
    p: Peers,
    my: Seq<char>,
    prefix: u8,
    routes: Seq<MsynRoute>,
    vips: Seq<Seq<char>>,
    v: Seq<char>,
)
    requires
        lists_keys(vips, p.routes),
        phantom(my, prefix, routes, v),
    ensures
        !after_phantoms(p, my, prefix, routes, vips, vips.len()).routes.dom().contains(v),
{
    phantoms_gone(p, my, prefix, routes, vips, vips.len(), v);
    if p.routes.dom().contains(v) {
        assert(vips.contains(v));
        let i = choose|i: int| 0 <= i < vips.len() && vips[i] == v;
        assert(vips[i] == v);
    }
}

proof fn phantoms_gone(
    p: Peers,
    my: Seq<char>,
    prefix: u8,
    routes: Seq<MsynRoute>,
    vips: Seq<Seq<char>>,
    n: nat,
    v: Seq<char>,
)
    requires
        n <= vips.len(),
        phantom(my, prefix, routes, v),
    ensures
        ({
            let q = after_phantoms(p, my, prefix, routes, vips, n);
            q.routes.dom().contains(v) ==> p.routes.dom().contains(v) && forall|i: int|
                0 <= i < n ==> vips[i] != v
        }),
    decreases n,
{
    if n > 0 {
        phantoms_gone(p, my, prefix, routes, vips, (n - 1) as nat, v);
    }
}

/// The routes that a complete sync names stay.
pub proof fn named_routes_stay(
    p: Peers,
    my: Seq<char>,
    prefix: u8,
    routes: Seq<MsynRoute>,
    vips: Seq<Seq<char>>,
    n: nat,
    v: Seq<char>,
)
    requires
        n <= vips.len(),
        !phantom(my, prefix, routes, v),
    ensures
        routing::lookup_in(after_phantoms(p, my, prefix, routes, vips, n).routes, v)
            == routing::lookup_in(p.routes, v),
    decreases n,
{
    if n > 0 {
        named_routes_stay(p, my, prefix, routes, vips, (n - 1) as nat, v);
    }
}

} // verus!
