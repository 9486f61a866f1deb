//! What holds of the routing table and of subnets.

use crate::addr::{Endpoint, IpAddr};
use crate::routing;
use crate::routing::{RouteState, RouteView};
use crate::text;
use vstd::prelude::*;

verus! {

/// Every endpoint that leads to an address is the endpoint of that address's route.
pub open spec fn lead_back(
    routes: Map<Seq<char>, RouteView>,
    vips: Map<Endpoint, Seq<char>>,
) -> bool {
    forall|e: Endpoint| #[trigger]
        vips.dom().contains(e) ==> routes.dom().contains(vips[e]) && routes[vips[e]].endpoint == e
}

/// The routes after an update.
pub open spec fn routes_updated(
    routes: Map<Seq<char>, RouteView>,
    vip: Seq<char>,
    ep: Endpoint,
    node: Option<Seq<char>>,
    now: u64,
) -> Map<Seq<char>, RouteView> {
    routes.insert(
        vip,
        routing::updated_route(routing::lookup_in(routes, vip), ep, node, now),
    )
}

/// The addresses by endpoint after an update.
pub open spec fn vips_updated(
    routes: Map<Seq<char>, RouteView>,
    vips: Map<Endpoint, Seq<char>>,
    vip: Seq<char>,
    ep: Endpoint,
) -> Map<Endpoint, Seq<char>> {
    routing::moved_vip(vips, routing::lookup_in(routes, vip), vip).insert(ep, vip)
}

/// After an update the address is found at its new endpoint, and no longer at its old one;
/// a new route is a candidate and an old one keeps its state; a node's name is kept until
/// another is known. All other addresses are where they were, but for one that was at the
/// same endpoint: that endpoint leads to the new address now.
pub proof fn updates_are_found(
    routes: Map<Seq<char>, RouteView>,
    vips: Map<Endpoint, Seq<char>>,
    vip: Seq<char>,
    ep: Endpoint,
    node: Option<Seq<char>>,
    now: u64,
)
    ensures
        ({
            let r1 = routes_updated(routes, vip, ep, node, now);
            let v1 = vips_updated(routes, vips, vip, ep);
            &&& r1.dom().contains(vip)
            &&& r1[vip].endpoint == ep
            &&& r1[vip].last_seen == now
            &&& node is Some && node->0.len() > 0 ==> r1[vip].node_id == node->0
            &&& node is None || node->0.len() == 0 ==> r1[vip].node_id == if routes.dom().contains(
                vip,
            ) {
                routes[vip].node_id
            } else {
                Seq::empty()
            }
            &&& routes.dom().contains(vip) ==> r1[vip].state == routes[vip].state
            &&& !routes.dom().contains(vip) ==> r1[vip].state is Candidate
            &&& forall|v: Seq<char>|
                v != vip ==> (#[trigger] r1.dom().contains(v) <==> routes.dom().contains(v))
                    && r1[v] == routes[v]
            &&& v1.dom().contains(ep) && v1[ep] == vip
            &&& routes.dom().contains(vip) && routes[vip].endpoint != ep && vips.dom().contains(
                routes[vip].endpoint,
            ) && vips[routes[vip].endpoint] == vip ==> !v1.dom().contains(routes[vip].endpoint)
            &&& forall|e: Endpoint|
                e != ep && vips.dom().contains(e) && vips[e] != vip ==> #[trigger] v1.dom().contains(e)
                    && v1[e] == vips[e]
            &&& forall|e: Endpoint|
                e != ep && #[trigger] v1.dom().contains(e) ==> vips.dom().contains(e) && v1[e]
                    == vips[e]
        }),
{
}

/// Updates keep the two directions in step: an endpoint never leads to an address whose
/// route goes elsewhere.
pub proof fn updates_keep_step(
    routes: Map<Seq<char>, RouteView>,
    vips: Map<Endpoint, Seq<char>>,
    vip: Seq<char>,
    ep: Endpoint,
    node: Option<Seq<char>>,
    now: u64,
)
    requires
        lead_back(routes, vips),
    ensures
        lead_back(routes_updated(routes, vip, ep, node, now), vips_updated(routes, vips, vip, ep)),
{
    let r1 = routes_updated(routes, vip, ep, node, now);
    let v1 = vips_updated(routes, vips, vip, ep);
    assert forall|e: Endpoint| #[trigger] v1.dom().contains(e) implies r1.dom().contains(v1[e])
        && r1[v1[e]].endpoint == e by {
        if e != ep {
            assert(vips.dom().contains(e));
            if v1[e] == vip {
                assert(routes[vip].endpoint == e);
            }
        }
    }
}

/// So does taking a route out, after which neither the address nor its endpoint is found.
pub proof fn removals_keep_step(
    routes: Map<Seq<char>, RouteView>,
    vips: Map<Endpoint, Seq<char>>,
    vip: Seq<char>,
)
    requires
        lead_back(routes, vips),
    ensures
        ({
            let r1 = routes.remove(vip);
            let v1 = routing::moved_vip(vips, routing::lookup_in(routes, vip), vip);
            &&& lead_back(r1, v1)
            &&& forall|e: Endpoint| #[trigger] v1.dom().contains(e) ==> v1[e] != vip
            &&& forall|e: Endpoint|
                vips.dom().contains(e) && vips[e] != vip ==> #[trigger] v1.dom().contains(e) && v1[e]
                    == vips[e]
        }),
{
    let r1 = routes.remove(vip);
    let v1 = routing::moved_vip(vips, routing::lookup_in(routes, vip), vip);
    assert forall|e: Endpoint| #[trigger] v1.dom().contains(e) implies v1[e] != vip
        && r1.dom().contains(v1[e]) && r1[v1[e]].endpoint == e by {
        assert(vips.dom().contains(e));
        if v1[e] == vip {
            assert(routes[vip].endpoint == e);
        }
    }
}

/// A node that leaves takes its name with it, unless the name stands for another address by
/// now; no other name is lost.
pub proof fn names_leave_with_their_route(
    nodes: Map<Seq<char>, Seq<char>>,
    prev: Option<RouteView>,
    vip: Seq<char>,
)
    ensures
        ({
            let n1 = routing::left_node(nodes, prev, vip);
            &&& prev is Some && nodes.dom().contains(prev->0.node_id) && nodes[prev->0.node_id] == vip
                ==> !n1.dom().contains(prev->0.node_id)
            &&& forall|n: Seq<char>|
                nodes.dom().contains(n) && (nodes[n] != vip || prev is None || n
                    != prev->0.node_id) ==> #[trigger] n1.dom().contains(n) && n1[n] == nodes[n]
            &&& forall|n: Seq<char>| #[trigger] n1.dom().contains(n) ==> nodes.dom().contains(n)
        }),
{
}

/// A peer that was heard again is a candidate again where its route was stale, and only
/// there; nothing else of the routes changes.
pub proof fn heard_routes_revive(
    routes: Map<Seq<char>, RouteView>,
    vips: Map<Endpoint, Seq<char>>,
    ep: Endpoint,
)
    ensures
        ({
            let at = routing::stale_at(routes, vips, ep);
            let r1 = routing::revived(routes, at);
            &&& at is Some <==> vips.dom().contains(ep) && routes.dom().contains(vips[ep])
                && routes[vips[ep]].state is Stale
            &&& at is Some ==> at->0 == vips[ep] && r1[vips[ep]].state is Candidate
                && r1[vips[ep]].endpoint == routes[vips[ep]].endpoint && r1[vips[ep]].node_id
                == routes[vips[ep]].node_id && r1[vips[ep]].last_seen
                == routes[vips[ep]].last_seen
            &&& r1.dom() =~= routes.dom()
            &&& forall|v: Seq<char>|
                routes.dom().contains(v) && (at is None || v != at->0) ==> #[trigger] r1[v]
                    == routes[v]
        }),
{
}

/// That a peer was heard is noted at its own route alone, and changes the time alone.
pub proof fn heard_is_noted(
    routes: Map<Seq<char>, RouteView>,
    vips: Map<Endpoint, Seq<char>>,
    ep: Endpoint,
    now: u64,
)
    ensures
        ({
            let r1 = routing::seen_at(routes, vips, ep, now);
            &&& r1.dom() =~= routes.dom()
            &&& forall|v: Seq<char>|
                routes.dom().contains(v) ==> (#[trigger] r1[v]).endpoint == routes[v].endpoint
                    && r1[v].node_id == routes[v].node_id && r1[v].state == routes[v].state
                    && r1[v].last_seen == if vips.dom().contains(ep) && vips[ep] == v {
                    now
                } else {
                    routes[v].last_seen
                }
        }),
{
}

/// A route becomes stale where its peer was silent for longer than it may be, and only
/// there; no route is lost and none changes otherwise.
pub proof fn silent_routes_become_stale(
    routes: Map<Seq<char>, RouteView>,
    now: u64,
    idle: u64,
)
    ensures
        ({
            let r1 = routing::marked_stale(routes, now, idle);
            &&& r1.dom() =~= routes.dom()
            &&& forall|v: Seq<char>|
                routes.dom().contains(v) ==> (#[trigger] r1[v]).endpoint == routes[v].endpoint
                    && r1[v].node_id == routes[v].node_id && r1[v].last_seen
                    == routes[v].last_seen && r1[v].state == if now - routes[v].last_seen > idle {
                    RouteState::Stale
                } else {
                    routes[v].state
                }
        }),
{
}

/// Two addresses are in one subnet where their first bits agree, as many as the prefix has.
pub proof fn subnets_by_first_bits(a: u32, b: u32, prefix: u8)
    requires
        1 <= prefix <= 31,
    ensures
        ({
            let k = (32 - prefix) as u32;
            routing::in_same_subnet(a, b, prefix) <==> a >> k == b >> k
        }),
{
    let k = (32 - prefix) as u32;
    assert(1 <= k <= 31);
    assert(1 <= k <= 31 ==> (1u32 << k) >= 1) by (bit_vector);
    let m = ((1u32 << k) - 1) as u32;
    assert(routing::host_mask_of(prefix) == m);
    assert(1 <= k <= 31 && m == ((1u32 << k) - 1) as u32 ==> ((a & !m) == (b & !m) <==> a >> k == b
        >> k)) by (bit_vector);
}

/// With all bits in the prefix a subnet has one address; and a prefix that is no prefix is
/// taken for the nearest that is one.
pub proof fn subnets_at_the_ends(a: u32, b: u32, prefix: u8)
    ensures
        prefix >= 32 ==> (routing::in_same_subnet(a, b, prefix) <==> a == b),
        prefix == 0 ==> routing::host_mask_of(prefix) == routing::host_mask_of(1),
{
    assert((a & !0u32) == a) by (bit_vector);
    assert((b & !0u32) == b) by (bit_vector);
}

/// The owner of a subnet has its first host: an address in the subnet of any of its
/// addresses, whose host part is one.
pub proof fn owner_is_first_host(vip: Seq<char>, prefix: u8)
    requires
        1 <= prefix <= 31,
        text::ipv4_of(vip) is Some,
    ensures
        ({
            let a = text::ipv4_of(vip)->0;
            let k = (32 - prefix) as u32;
            exists|o: u32| #[trigger]
                text::ipv4_text(o) == routing::owner_vip_of(vip, prefix) && o >> k == a >> k && o
                    & routing::host_mask_of(prefix) == 1
        }),
{
    let a = text::ipv4_of(vip)->0;
    let k = (32 - prefix) as u32;
    assert(1 <= k <= 31 ==> (1u32 << k) >= 1) by (bit_vector);
    let m = ((1u32 << k) - 1) as u32;
    let o = (a & !m) | 1;
    assert(routing::host_mask_of(prefix) == m);
    assert(1 <= k <= 31 && m == ((1u32 << k) - 1) as u32 && o == (a & !m) | 1 ==> o >> k == a >> k && o
        & m == 1) by (bit_vector);
    assert(text::ipv4_text(o) == routing::owner_vip_of(vip, prefix));
}

/// An address is learned from a sync only where it and the learner's own are hosts of one
/// subnet: neither has a host part of zeros alone, or of ones alone. It does not matter
/// which of the two asks.
pub proof fn learned_addresses_are_hosts(left: Seq<char>, right: Seq<char>, prefix: u8)
    ensures
        routing::sync_vip_ok(left, right, prefix) <==> routing::sync_vip_ok(right, left, prefix),
        routing::sync_vip_ok(left, right, prefix) <==> text::ipv4_of(left) is Some && text::ipv4_of(
            right,
        ) is Some && ({
            let a = text::ipv4_of(left)->0;
            let b = text::ipv4_of(right)->0;
            let m = routing::host_mask_of(prefix);
            &&& routing::in_same_subnet(a, b, prefix)
            &&& a & m != 0 && a & m != m
            &&& b & m != 0 && b & m != m
        }),
{
}

/// A peer can be at any address of version 4 but 0.0.0.0, those of groups, of this host and
/// of the link, which begin with 169.254; and at any of version 6 but the unspecified one,
/// those of groups and that of this host. Its port does not matter.
pub proof fn peers_can_be_at(ep: Endpoint)
    ensures
        ep.ip matches IpAddr::V4(a) ==> (routing::sync_endpoint_ok(ep) <==> a != 0 && !(0xe000_0000
            <= a <= 0xefff_ffff) && !(0x7f00_0000 <= a <= 0x7fff_ffff) && !(0xa9fe_0000 <= a
            <= 0xa9fe_ffff)),
        ep.ip matches IpAddr::V6(hi, lo) ==> (routing::sync_endpoint_ok(ep) <==> !(hi == 0 && lo
            <= 1) && hi < 0xff00_0000_0000_0000),
{
}

} // verus!
