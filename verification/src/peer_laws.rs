//! What holds of peers and their routes as packets and syncs come in.

use crate::addr::Endpoint;
use crate::engine_data;
use crate::engine_routes;
use crate::engine_routes::{Learned, MsynApply, MsynRoute, Peers};
use crate::engine_state;
use crate::engine_state::EngineState;
use crate::msyn_assemble;
use crate::msyn_assemble::{AssembleKey, Ingested, MsynPart, PartialView, PayloadView};
use crate::msyn_sync;
use crate::msyn_sync::RouteSyncRow;
use crate::routing;
use crate::text;
use vstd::prelude::*;

verus! {

/// A packet from an endpoint tells only of the peer there: the time of its route is set, a
/// stale route becomes a candidate, and an owner serves that peer anew. No route moves, and
/// no other changes.
pub proof fn hearing_concerns_one_peer(p: Peers, is_owner: bool, from: Endpoint, now: u64, v: Seq<char>)
    ensures
        ({
            let q = engine_routes::heard(p, is_owner, from, now);
            let there = p.vips.dom().contains(from) && p.vips[from] == v;
            &&& q.routes.dom().contains(v) <==> p.routes.dom().contains(v)
            &&& p.routes.dom().contains(v) ==> q.routes[v].endpoint == p.routes[v].endpoint
                && q.routes[v].node_id == p.routes[v].node_id
            &&& p.routes.dom().contains(v) && !there ==> q.routes[v] == p.routes[v]
            &&& p.routes.dom().contains(v) && there ==> q.routes[v].last_seen == now
                && q.routes[v].state == if p.routes[v].state is Stale {
                routing::RouteState::Candidate
            } else {
                p.routes[v].state
            }
            &&& q.served.dom().contains(v) <==> p.served.dom().contains(v) && !(is_owner && there
                && p.routes.dom().contains(v) && p.routes[v].state is Stale)
            &&& q.served.dom().contains(v) ==> q.served[v] == p.served[v]
            &&& q.vips == p.vips && q.nodes == p.nodes && q.bound == p.bound && q.cooldown
                == p.cooldown && q.healing == p.healing && q.kinds == p.kinds && q.sent == p.sent
        }),
{
}

/// A peer that is placed at an endpoint is found there, under its name if it told one. Where
/// it was elsewhere before, it is served anew and the key of its old endpoint is given up.
/// Nothing else is.
pub proof fn placing_moves_one_peer(
    p: Peers,
    vip: Seq<char>,
    ep: Endpoint,
    node: Option<Seq<char>>,
    now: u64,
    v: Seq<char>,
    e: Endpoint,
)
    ensures
        ({
            let q = engine_routes::placed(p, vip, ep, node, now);
            let moved = p.routes.dom().contains(vip) && p.routes[vip].endpoint != ep;
            &&& q.routes.dom().contains(vip) && q.routes[vip].endpoint == ep
                && q.routes[vip].last_seen == now
            &&& q.vips.dom().contains(ep) && q.vips[ep] == vip
            &&& node is Some && node->0.len() > 0 ==> q.routes[vip].node_id == node->0
                && q.nodes.dom().contains(node->0) && q.nodes[node->0] == vip
            &&& node is None || node->0.len() == 0 ==> q.nodes == p.nodes
            &&& v != vip ==> (q.routes.dom().contains(v) <==> p.routes.dom().contains(v))
                && q.routes[v] == p.routes[v]
            &&& q.served.dom().contains(v) <==> p.served.dom().contains(v) && !(moved && v == vip)
            &&& q.bound.dom().contains(e) <==> p.bound.dom().contains(e) && !(moved && e
                == p.routes[vip].endpoint)
            &&& q.bound.dom().contains(e) ==> q.bound[e] == p.bound[e]
            &&& q.cooldown == p.cooldown && q.healing == p.healing && q.kinds == p.kinds && q.sent
                == p.sent
        }),
{
}

/// Of a peer that is evicted nothing is left: no route, no key, no name that stands for it,
/// no recovery, no path and no counter. Of all others everything is.
pub proof fn evicting_takes_one_peer(p: Peers, vip: Seq<char>, v: Seq<char>, e: Endpoint, n: u32)
    ensures
        ({
            let q = engine_routes::evicted(p, vip);
            &&& !q.routes.dom().contains(vip)
            &&& !q.cooldown.dom().contains(vip) && !q.healing.contains(vip)
            &&& text::ipv4_of(vip) matches Some(a) ==> !q.kinds.dom().contains(a)
                && !q.sent.dom().contains(a)
            &&& p.routes.dom().contains(vip) ==> !q.bound.dom().contains(p.routes[vip].endpoint)
            &&& p.routes.dom().contains(vip) && p.vips.dom().contains(p.routes[vip].endpoint)
                && p.vips[p.routes[vip].endpoint] == vip ==> !q.vips.dom().contains(
                p.routes[vip].endpoint,
            )
            &&& p.routes.dom().contains(vip) && p.nodes.dom().contains(p.routes[vip].node_id)
                && p.nodes[p.routes[vip].node_id] == vip ==> !q.nodes.dom().contains(
                p.routes[vip].node_id,
            )
            &&& v != vip ==> (q.routes.dom().contains(v) <==> p.routes.dom().contains(v))
                && q.routes[v] == p.routes[v] && (q.cooldown.dom().contains(v)
                <==> p.cooldown.dom().contains(v)) && (q.healing.contains(v) <==> p.healing.contains(
                v,
            ))
            &&& p.vips.dom().contains(e) && p.vips[e] != vip ==> q.vips.dom().contains(e)
                && q.vips[e] == p.vips[e]
            &&& p.bound.dom().contains(e) && (!p.routes.dom().contains(vip) || e
                != p.routes[vip].endpoint) ==> q.bound.dom().contains(e) && q.bound[e] == p.bound[e]
            &&& text::ipv4_of(vip) != Some(n) ==> (q.sent.dom().contains(n)
                <==> p.sent.dom().contains(n)) && (q.kinds.dom().contains(n)
                <==> p.kinds.dom().contains(n))
            &&& q.served == p.served
        }),
{
}

/// What a punch teaches: nothing where it carries no address, one of another subnet, or the
/// owner's without being an answer; a route where none is known, the known one leads there,
/// it is in a bad state or the sender has proved itself; else it is refused.
pub proof fn lessons_of_a_punch(
    id: engine_state::IdentityView,
    routes: Map<Seq<char>, routing::RouteView>,
    body: Seq<u8>,
    from: Endpoint,
    is_ack: bool,
    proved: bool,
)
    ensures
        ({
            let out = engine_routes::lesson(id, routes, body, from, is_ack, proved);
            let v = engine_routes::body_vip(body);
            let for_owner = v == Some(id.owner_vip_cached) && !is_ack;
            let foreign = v is Some && text::ipv4_of(id.my_vip) is Some && 8 <= id.subnet_prefix
                <= 30 && !routing::in_same_subnet(
                text::ipv4_of(id.my_vip)->0,
                text::ipv4_of(v->0)->0,
                id.subnet_prefix,
            );
            let open = v is Some && (!routes.dom().contains(v->0) || routes[v->0].endpoint == from
                || routes[v->0].state is Stale || routes[v->0].state is Degraded || proved);
            &&& out is Nothing <==> v is None || for_owner || foreign
            &&& out is Route <==> v is Some && !for_owner && !foreign && open
            &&& out is Refused <==> v is Some && !for_owner && !foreign && !open
            &&& out matches Learned::Route { moved_from } ==> id.my_vip.len() > 0 ==> (
            if routes.dom().contains(v->0) {
                moved_from == Some(routes[v->0].endpoint)
            } else {
                moved_from is None
            })
        }),
{
}

/// What a removal of a sync takes: every address that it names and that is a host of this
/// subnet; no other route is touched.
pub proof fn removals_take_what_they_name(
    p: Peers,
    my: Seq<char>,
    prefix: u8,
    removed: Seq<String>,
    n: nat,
    v: Seq<char>,
)
    requires
        n <= removed.len(),
    ensures
        ({
            let q = engine_routes::after_removals(p, my, prefix, removed, n);
            let named = routing::sync_vip_ok(my, v, prefix) && exists|i: int|
                0 <= i < n && (#[trigger] removed[i])@ == v;
            &&& q.routes.dom().contains(v) <==> p.routes.dom().contains(v) && !named
            &&& q.routes.dom().contains(v) ==> q.routes[v] == p.routes[v]
        }),
    decreases n,
{
    if n > 0 {
        removals_take_what_they_name(p, my, prefix, removed, (n - 1) as nat, v);
        let q = engine_routes::after_removals(p, my, prefix, removed, n);
        if removed[n - 1]@ != v && exists|i: int| 0 <= i < n && (#[trigger] removed[i])@ == v {
            let i = choose|i: int| 0 <= i < n && (#[trigger] removed[i])@ == v;
            assert(0 <= i < n - 1 && removed[i]@ == v);
        }
        if removed[n - 1]@ == v {
            assert(0 <= n - 1 < n && removed[n - 1]@ == v);
        }
    }
}

/// What a sync says last of an address is where its route leads after it; an address of
/// which it says nothing that can be taken keeps its route.
pub proof fn syncs_place_what_they_name(
    p: Peers,
    my: Seq<char>,
    prefix: u8,
    routes: Seq<MsynRoute>,
    n: nat,
    now: u64,
    v: Seq<char>,
    i: int,
)
    requires
        n <= routes.len(),
        i < n,
        i >= 0 ==> routes[i]@.vip == Some(v) && engine_routes::route_taken(my, prefix, routes[i]@),
        i >= -1,
        forall|j: int|
            i < j < n && 0 <= j ==> (#[trigger] routes[j])@.vip != Some(v)
                || !engine_routes::route_taken(my, prefix, routes[j]@),
    ensures
        ({
            let q = engine_routes::after_routes(p, my, prefix, routes, n, now);
            if i >= 0 {
                &&& q.routes.dom().contains(v)
                &&& q.routes[v].endpoint == routes[i]@.ep->0
                &&& q.routes[v].last_seen == now
                &&& routes[i]@.node_id is Some && routes[i]@.node_id->0.len() > 0
                    ==> q.routes[v].node_id == routes[i]@.node_id->0
            } else {
                &&& q.routes.dom().contains(v) <==> p.routes.dom().contains(v)
                &&& q.routes[v] == p.routes[v]
            }
        }),
    decreases n,
{
    if n > 0 {
        if i < n - 1 {
            syncs_place_what_they_name(p, my, prefix, routes, (n - 1) as nat, now, v, i);
            assert(routes[n - 1]@.vip != Some(v) || !engine_routes::route_taken(
                my,
                prefix,
                routes[n - 1]@,
            ));
        }
    }
}

/// A member that takes a complete sync sends to each address where its owner does: for a
/// row of the owner that is not stale, the member's route leads to the endpoint that the
/// row's own endpoint is read as, and bears the name of the row's own node. The sync may have
/// been cut in parts; what they hold together is what counts.
pub proof fn members_learn_the_owners_routes(
    rows: Seq<RouteSyncRow>,
    read: spec_fn(Seq<char>) -> Option<Endpoint>,
    p: PartialView,
    pre: EngineState,
    post: EngineState,
    from: Endpoint,
    now: u64,
    out: MsynApply,
    i: int,
)
    requires
        msyn_assemble::routes_upto(p.parts, p.parts_total as nat) == msyn_assemble::read_routes(
            msyn_sync::live_items(rows, rows.len()),
            read,
        ),
        msyn_assemble::sync_done(pre, post, from, p, now, out),
        out is Applied,
        p.from_rev == 0,
        0 <= i < rows.len(),
        !(rows[i].state is Stale),
        forall|a: int, b: int|
            0 <= a < b < rows.len() ==> (#[trigger] rows[a]).vip@ != (#[trigger] rows[b]).vip@,
        routing::sync_vip_ok(pre.id.my_vip@, rows[i].vip@, pre.id.subnet_prefix),
        rows[i].vip@ != pre.id.my_vip@,
        read(rows[i].endpoint@) is Some,
        routing::sync_endpoint_ok(read(rows[i].endpoint@)->0),
    ensures
        ({
            let routes = post.routing.routes();
            &&& routes.dom().contains(rows[i].vip@)
            &&& routes[rows[i].vip@].endpoint == read(rows[i].endpoint@)->0
            &&& rows[i].node_id@.len() > 0 ==> routes[rows[i].vip@].node_id == rows[i].node_id@
        }),
{
    let my = pre.id.my_vip@;
    let prefix = pre.id.subnet_prefix;
    let v = rows[i].vip@;
    let items = msyn_sync::live_items(rows, rows.len());
    let (removed, routes): (Seq<String>, Seq<MsynRoute>) = choose|removed: Seq<String>, routes: Seq<MsynRoute>|
        {
            &&& engine_data::names(removed) == msyn_assemble::removed_upto(
                p.parts,
                p.parts_total as nat,
            )
            &&& msyn_assemble::route_views(routes) == msyn_assemble::routes_upto(
                p.parts,
                p.parts_total as nat,
            )
            &&& #[trigger] engine_routes::epoch_done(
                pre,
                post,
                from,
                p.from_rev,
                p.to_rev,
                removed,
                routes,
                now,
                out,
            )
        };
    let k = live_row_is_told(rows, rows.len(), i);
    live_rows_are_told_once(rows, rows.len(), v);
    let views = msyn_assemble::route_views(routes);
    let told = msyn_assemble::read_routes(items, read);
    assert(views == told);
    assert(views.len() == routes.len());
    assert(told.len() == items.len());
    assert(views[k] == routes[k]@);
    assert(told[k].vip == Some(v));
    assert(routes[k]@.vip == Some(v));
    assert(routes[k]@.ep == read(rows[i].endpoint@));
    assert(routes[k]@.node_id == Some(rows[i].node_id@));
    let p1 = engine_routes::after_removals(pre.peers(), my, prefix, removed, removed.len());
    let p2 = engine_routes::heard(p1, pre.id.is_owner, from, now);
    let p3 = engine_routes::after_routes(p2, my, prefix, routes, routes.len(), now);
    assert forall|j: int| k < j < routes.len() && 0 <= j implies (#[trigger] routes[j])@.vip != Some(
        v,
    ) || !engine_routes::route_taken(my, prefix, routes[j]@) by {
        assert(views[j] == routes[j]@);
        assert(told[j].vip == Some(items[j].0));
        assert(items[j].0 != v);
    }
    syncs_place_what_they_name(p2, my, prefix, routes, routes.len(), now, v, k);
    assert(engine_routes::announced(my, prefix, routes, v)) by {
        assert(routes[k]@.vip == Some(v));
    }
    let vips = choose|vips: Seq<Seq<char>>|
        engine_routes::lists_keys(vips, p3.routes) && post.peers()
            == #[trigger] engine_routes::after_phantoms(p3, my, prefix, routes, vips, vips.len());
    engine_routes::named_routes_stay(p3, my, prefix, routes, vips, vips.len(), v);
    assert(post.peers().routes == post.routing.routes());
}

/// Where a row that is not stale stands among the routes that a complete sync tells.
proof fn live_row_is_told(rows: Seq<RouteSyncRow>, n: nat, i: int) -> (k: int)
    requires
        n <= rows.len(),
        0 <= i < n,
        !(rows[i].state is Stale),
    ensures
        0 <= k < msyn_sync::live_items(rows, n).len(),
        msyn_sync::live_items(rows, n)[k] == (rows[i].vip@, rows[i].endpoint@, rows[i].node_id@),
    decreases n,
{
    if i == n - 1 {
        msyn_sync::live_items(rows, (n - 1) as nat).len() as int
    } else {
        live_row_is_told(rows, (n - 1) as nat, i)
    }
}

proof fn live_rows_are_told_once(rows: Seq<RouteSyncRow>, n: nat, v: Seq<char>)
    requires
        n <= rows.len(),
        forall|a: int, b: int|
            0 <= a < b < rows.len() ==> (#[trigger] rows[a]).vip@ != (#[trigger] rows[b]).vip@,
    ensures
        forall|a: int, b: int|
            #![trigger msyn_sync::live_items(rows, n)[a], msyn_sync::live_items(rows, n)[b]]
            0 <= a < b < msyn_sync::live_items(rows, n).len() ==> msyn_sync::live_items(rows, n)[a].0
                != msyn_sync::live_items(rows, n)[b].0,
        forall|a: int|
            0 <= a < msyn_sync::live_items(rows, n).len() ==> exists|b: int|
                0 <= b < n && (#[trigger] rows[b]).vip@ == (#[trigger] msyn_sync::live_items(
                    rows,
                    n,
                )[a]).0,
    decreases n,
{
    if n > 0 {
        let m = (n - 1) as nat;
        live_rows_are_told_once(rows, m, v);
        let s = msyn_sync::live_items(rows, m);
        let t = msyn_sync::live_items(rows, n);
        assert forall|a: int| 0 <= a < t.len() implies exists|b: int|
            0 <= b < n && (#[trigger] rows[b]).vip@ == (#[trigger] t[a]).0 by {
            if a < s.len() {
                assert(t[a] == s[a]);
                let b = choose|b: int| 0 <= b < m && (#[trigger] rows[b]).vip@ == s[a].0;
                assert(rows[b].vip@ == t[a].0);
            } else {
                assert(rows[n - 1].vip@ == t[a].0);
            }
        }
        assert forall|a: int, b: int|
            #![trigger t[a], t[b]]
            0 <= a < b < t.len() implies t[a].0 != t[b].0 by {
            assert(t[a] == s[a]);
            if b < s.len() {
                assert(t[b] == s[b]);
            } else {
                let c = choose|c: int| 0 <= c < m && (#[trigger] rows[c]).vip@ == s[a].0;
                assert(rows[c].vip@ != rows[n - 1].vip@);
            }
        }
    }
}

/// A part is taken only where its versions are known, all its numbers are there, its place
/// is below the number of parts, of which there are 64 at most, and it leads further than
/// what was applied. Another part of a sync that is under way has to agree with it; a part
/// of a sync that its sender has outrun is not taken; and the last part completes the sync.
pub proof fn parts_are_taken(
    m: Map<AssembleKey, PartialView>,
    from: Endpoint,
    v: MsynPart,
    applied: u64,
    now: u64,
)
    ensures
        ({
            let (out, m1) = msyn_assemble::ingested(m, from, v, applied, now);
            let key = AssembleKey { from, sync_id: v.sync_id->0 };
            let fine = v.proto_ver == Some(4u64) && v.schema_ver == Some(1u64) && v.sync_id is Some
                && v.from_rev is Some && v.to_rev is Some && v.part_idx is Some && v.parts_total
                is Some && 1 <= v.parts_total->0 <= 64 && v.part_idx->0 < v.parts_total->0
                && v.to_rev->0 > applied;
            &&& !fine ==> out is Ignored
            &&& out is Complete ==> fine && !m1.dom().contains(key)
            &&& out is Buffered ==> fine && m1.dom().contains(key) && m1[key].parts.dom().contains(
                v.part_idx->0 as u32,
            )
            &&& out matches Ingested::Complete(p) ==> p.sync_id == v.sync_id->0 || m.dom().contains(
                key,
            )
            &&& forall|k: AssembleKey| #[trigger]
                m1.dom().contains(k) && k != key ==> m.dom().contains(k) && m1[k] == m[k]
            &&& forall|k: AssembleKey| #[trigger]
                m1.dom().contains(k) && m.dom().contains(k) ==> k == key || now < m[k].first_seen
                    || now - m[k].first_seen < 30_000
            &&& forall|k: AssembleKey|
                m.dom().contains(k) && k.from != from && (now < m[k].first_seen || now
                    - m[k].first_seen < 30_000) ==> #[trigger] m1.dom().contains(k)
        }),
{
}

/// Syncs lead forward only: one that does not is outdated and changes nothing, and so does
/// one with more than 1024 removals or routes. After one that is applied, what it leads to is
/// what was applied; the session, the keys and what is owed to others stay.
pub proof fn syncs_lead_forward(
    pre: EngineState,
    post: EngineState,
    from: Endpoint,
    from_rev: u64,
    to_rev: u64,
    removed: Seq<String>,
    routes: Seq<MsynRoute>,
    now: u64,
    out: MsynApply,
)
    requires
        engine_routes::epoch_done(pre, post, from, from_rev, to_rev, removed, routes, now, out),
    ensures
        out is Outdated <==> to_rev <= pre.sync.msyn_applied_to_rev,
        out is TooLarge <==> to_rev > pre.sync.msyn_applied_to_rev && (removed.len() > 1024
            || routes.len() > 1024),
        out is Applied ==> post.sync.msyn_applied_to_rev == to_rev && to_rev
            > pre.sync.msyn_applied_to_rev,
        out !is Applied ==> post == pre,
        post.id == pre.id && post.kicked == pre.kicked && post.crypto_keys.primary
            == pre.crypto_keys.primary && post.sync.peer_pending_removals
            == pre.sync.peer_pending_removals,
{
}

/// A removal that a sync names and that it does not bring back is gone after it, if it is a
/// host of this subnet; whichever part of the sync named it.
pub proof fn syncs_remove_what_they_name(
    pre: EngineState,
    post: EngineState,
    from: Endpoint,
    from_rev: u64,
    to_rev: u64,
    removed: Seq<String>,
    routes: Seq<MsynRoute>,
    now: u64,
    out: MsynApply,
    i: int,
)
    requires
        engine_routes::epoch_done(pre, post, from, from_rev, to_rev, removed, routes, now, out),
        out is Applied,
        from_rev != 0,
        0 <= i < removed.len(),
        routing::sync_vip_ok(pre.id.my_vip@, removed[i]@, pre.id.subnet_prefix),
        forall|j: int| 0 <= j < routes.len() ==> (#[trigger] routes[j])@.vip != Some(removed[i]@),
    ensures
        !post.routing.routes().dom().contains(removed[i]@),
{
    let my = pre.id.my_vip@;
    let prefix = pre.id.subnet_prefix;
    let v = removed[i]@;
    removals_take_what_they_name(pre.peers(), my, prefix, removed, removed.len(), v);
    let p1 = engine_routes::after_removals(pre.peers(), my, prefix, removed, removed.len());
    let p2 = engine_routes::heard(p1, pre.id.is_owner, from, now);
    hearing_concerns_one_peer(p1, pre.id.is_owner, from, now, v);
    if routes.len() > 0 {
        syncs_place_what_they_name(p2, my, prefix, routes, routes.len(), now, v, -1);
    }
    assert(post.peers().routes == post.routing.routes());
}

} // verus!
