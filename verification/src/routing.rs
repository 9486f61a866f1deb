//! What the control plane knows of its peers' routes.

use crate::addr::Endpoint;
use crate::engine_state;
use crate::engine_state::since;
use crate::table;
use crate::table::Table;
use crate::text;
use crate::text::{ipv4_to_string, parse_ipv4};
use vstd::prelude::*;

verus! {

/// How far a route can be relied on.
#[derive(Clone, Copy, Debug, PartialEq, Eq, Hash, Structural)]
pub enum RouteState {
    Candidate,
    Active,
    Degraded,
    Stale,
}

/// How packets reach a peer.
#[derive(Clone, Copy, Debug, PartialEq, Eq, Hash, Structural)]
pub enum PathKind {
    Direct,
    IceSrflx,
    OwnerRelay,
}

/// The outcome of a search for a relay.
#[derive(Clone, Copy, Debug, PartialEq, Eq, Hash, Structural)]
pub enum RelaySelection {
    Hop(Endpoint),
    NoHop,
}

/// A route to one peer.
#[derive(Clone)]
pub struct RouteEntry {
    pub endpoint: Endpoint,
    pub node_id: String,
    pub state: RouteState,
    /// When the peer was last heard, in milliseconds.
    pub last_seen: u64,
}

/// A route without its strings' identities.
pub ghost struct RouteView {
    pub endpoint: Endpoint,
    pub node_id: Seq<char>,
    pub state: RouteState,
    pub last_seen: u64,
}

impl View for RouteEntry {
    type V = RouteView;

    open spec fn view(&self) -> RouteView {
        RouteView {
            endpoint: self.endpoint,
            node_id: self.node_id@,
            state: self.state,
            last_seen: self.last_seen,
        }
    }
}

/// The routes by virtual address, and the virtual addresses by endpoint and by
/// node.
pub struct RoutingTable {
    pub table: Table<String, RouteEntry>,
    pub ep_to_vip: Table<Endpoint, String>,
    pub node_to_vip: Table<String, String>,
}

/// The routes by virtual address.
pub open spec fn routes_view(m: Map<Seq<char>, RouteEntry>) -> Map<Seq<char>, RouteView> {
    m.map_values(|e: RouteEntry| e@)
}

/// The strings of a map.
pub open spec fn strings_view<K>(m: Map<K, String>) -> Map<K, Seq<char>> {
    m.map_values(|s: String| s@)
}

/// The entry that an update makes of `prev`: a new route is a candidate, and a
/// node id is only overwritten by one that is not empty.
pub open spec fn updated_route(
    prev: Option<RouteView>,
    ep: Endpoint,
    node_id: Option<Seq<char>>,
    now: u64,
) -> RouteView {
    RouteView {
        endpoint: ep,
        node_id: if node_id is Some && node_id->0.len() > 0 {
            node_id->0
        } else if prev is Some {
            prev->0.node_id
        } else {
            Seq::empty()
        },
        state: if prev is Some {
            prev->0.state
        } else {
            RouteState::Candidate
        },
        last_seen: now,
    }
}

/// The value under `k`, if there is one.
pub open spec fn lookup_in<K, V>(m: Map<K, V>, k: K) -> Option<V> {
    if m.dom().contains(k) {
        Some(m[k])
    } else {
        None
    }
}

/// The view of an optional string.
pub open spec fn opt_str(s: Option<String>) -> Option<Seq<char>> {
    match s {
        Some(x) => Some(x@),
        None => None,
    }
}

impl RoutingTable {
    pub open spec fn wf(&self) -> bool {
        self.table.wf() && self.ep_to_vip.wf() && self.node_to_vip.wf()
    }

    /// The routes by virtual address.
    pub open spec fn routes(&self) -> Map<Seq<char>, RouteView> {
        routes_view(self.table@)
    }

    /// The virtual addresses by endpoint.
    pub open spec fn vips(&self) -> Map<Endpoint, Seq<char>> {
        strings_view(self.ep_to_vip@)
    }

    /// The virtual addresses by node.
    pub open spec fn nodes(&self) -> Map<Seq<char>, Seq<char>> {
        strings_view(self.node_to_vip@)
    }

    pub fn new() -> (out: Self)
        ensures
            out.wf(),
            out.routes() == Map::<Seq<char>, RouteView>::empty(),
            out.vips() == Map::<Endpoint, Seq<char>>::empty(),
            out.nodes() == Map::<Seq<char>, Seq<char>>::empty(),
    {
        let out = RoutingTable {
            table: Table::new(),
            ep_to_vip: Table::new(),
            node_to_vip: Table::new(),
        };
        proof {
            assert(out.routes() =~= Map::<Seq<char>, RouteView>::empty());
            assert(out.vips() =~= Map::<Endpoint, Seq<char>>::empty());
            assert(out.nodes() =~= Map::<Seq<char>, Seq<char>>::empty());
        }
        out
    }

    /// The endpoint of the route to `vip`.
    pub fn lookup(&self, vip: &String) -> (out: Option<Endpoint>)
        requires
            self.wf(),
        ensures
            out == match lookup_in(self.routes(), vip@) {
                Some(r) => Some(r.endpoint),
                None => None,
            },
    {
        match self.table.get(vip) {
            Some(e) => Some(e.endpoint),
            None => None,
        }
    }

    /// Whether some route leads to `ep`.
    pub fn tracks_endpoint(&self, ep: Endpoint) -> (b: bool)
        requires
            self.wf(),
        ensures
            b == self.vips().dom().contains(ep),
    {
        self.ep_to_vip.contains_key(&ep)
    }

    /// The virtual address of the peer at `ep`.
    pub fn vip_of(&self, ep: Endpoint) -> (out: Option<&String>)
        requires
            self.wf(),
        ensures
            match out {
                Some(v) => lookup_in(self.vips(), ep) == Some(v@),
                None => lookup_in(self.vips(), ep) is None,
            },
    {
        self.ep_to_vip.get(&ep)
    }

    /// Notes that `vip` was seen at `ep`.
    pub fn update(&mut self, vip: &String, ep: Endpoint, node_id: Option<&String>, now: u64)
        requires
            old(self).wf(),
        ensures
            final(self).wf(),
            final(self).routes() == old(self).routes().insert(
                vip@,
                updated_route(
                    lookup_in(old(self).routes(), vip@),
                    ep,
                    match node_id {
                        Some(n) => Some(n@),
                        None => None,
                    },
                    now,
                ),
            ),
            final(self).vips() == moved_vip(
                old(self).vips(),
                lookup_in(old(self).routes(), vip@),
                vip@,
            ).insert(ep, vip@),
            final(self).nodes() == match node_id {
                Some(n) => if n@.len() > 0 {
                    old(self).nodes().insert(n@, vip@)
                } else {
                    old(self).nodes()
                },
                None => old(self).nodes(),
            },
    {
        let ghost r0 = self.routes();
        let ghost v0 = self.vips();
        let ghost n0 = self.nodes();
        let mut entry: RouteEntry = match self.table.get(vip) {
            Some(e) => RouteEntry {
                endpoint: ep,
                node_id: e.node_id.clone(),
                state: e.state,
                last_seen: now,
            },
            None => RouteEntry {
                endpoint: ep,
                node_id: String::new(),
                state: RouteState::Candidate,
                last_seen: now,
            },
        };
        let old_ep: Option<Endpoint> = self.lookup(vip);
        if let Some(n) = node_id {
            if !n.as_str().is_empty() {
                entry.node_id = n.clone();
                self.node_to_vip.insert(n.clone(), vip.clone());
            }
        }
        let ghost ev = entry@;
        self.table.insert(vip.clone(), entry);
        self.forget_endpoint(old_ep, vip);
        self.ep_to_vip.insert(ep, vip.clone());
        proof {
            assert(self.routes() =~= r0.insert(vip@, ev));
            assert(self.vips() =~= moved_vip(v0, lookup_in(r0, vip@), vip@).insert(ep, vip@));
            if node_id is Some && node_id->0@.len() > 0 {
                assert(self.nodes() =~= n0.insert(node_id->0@, vip@));
            } else {
                assert(self.nodes() =~= n0);
            }
        }
    }

    /// Forgets that `vip` was at `ep`, where that is what the table says.
    fn forget_endpoint(&mut self, ep: Option<Endpoint>, vip: &String)
        requires
            old(self).wf(),
        ensures
            final(self).wf(),
            final(self).table == old(self).table,
            final(self).node_to_vip == old(self).node_to_vip,
            final(self).vips() == match ep {
                Some(e) => if lookup_in(old(self).vips(), e) == Some(vip@) {
                    old(self).vips().remove(e)
                } else {
                    old(self).vips()
                },
                None => old(self).vips(),
            },
    {
        let ghost v0 = self.vips();
        if let Some(e) = ep {
            let mine = match self.ep_to_vip.get(&e) {
                Some(v) => *v == *vip,
                None => false,
            };
            if mine {
                let _ = self.ep_to_vip.remove(&e);
                proof {
                    assert(self.vips() =~= v0.remove(e));
                }
            }
        }
    }

    /// A stale route to the peer at `ep` becomes a candidate again; its address
    /// is returned.
    pub fn promote_stale_if_needed(&mut self, ep: Endpoint) -> (out: Option<String>)
        requires
            old(self).wf(),
        ensures
            final(self).wf(),
            match out {
                Some(v) => stale_at(old(self).routes(), old(self).vips(), ep) == Some(v@),
                None => stale_at(old(self).routes(), old(self).vips(), ep) is None,
            },
            final(self).routes() == revived(
                old(self).routes(),
                stale_at(old(self).routes(), old(self).vips(), ep),
            ),
            final(self).ep_to_vip == old(self).ep_to_vip,
            final(self).node_to_vip == old(self).node_to_vip,
    {
        let ghost r0 = self.routes();
        let vip: String = match self.ep_to_vip.get(&ep) {
            Some(v) => v.clone(),
            None => {
                return None;
            },
        };
        let entry: RouteEntry = match self.table.get(&vip) {
            Some(e) => RouteEntry {
                endpoint: e.endpoint,
                node_id: e.node_id.clone(),
                state: e.state,
                last_seen: e.last_seen,
            },
            None => {
                return None;
            },
        };
        if entry.state != RouteState::Stale {
            return None;
        }
        let fresh = RouteEntry {
            endpoint: entry.endpoint,
            node_id: entry.node_id,
            state: RouteState::Candidate,
            last_seen: entry.last_seen,
        };
        let ghost fv = fresh@;
        self.table.insert(vip.clone(), fresh);
        proof {
            assert(fv == (RouteView { state: RouteState::Candidate, ..r0[vip@] }));
            assert(self.routes() =~= r0.insert(vip@, fv));
        }
        Some(vip)
    }

    /// The peer at `ep` was heard.
    pub fn note_seen(&mut self, ep: Endpoint, now: u64)
        requires
            old(self).wf(),
        ensures
            final(self).wf(),
            final(self).routes() == seen_at(old(self).routes(), old(self).vips(), ep, now),
            final(self).ep_to_vip == old(self).ep_to_vip,
            final(self).node_to_vip == old(self).node_to_vip,
    {
        let ghost r0 = self.routes();
        let vip: String = match self.ep_to_vip.get(&ep) {
            Some(v) => v.clone(),
            None => {
                return;
            },
        };
        let entry: RouteEntry = match self.table.get(&vip) {
            Some(e) => RouteEntry {
                endpoint: e.endpoint,
                node_id: e.node_id.clone(),
                state: e.state,
                last_seen: now,
            },
            None => {
                return;
            },
        };
        let ghost ev = entry@;
        self.table.insert(vip.clone(), entry);
        proof {
            assert(ev == (RouteView { last_seen: now, ..r0[vip@] }));
            assert(self.routes() =~= r0.insert(vip@, ev));
        }
    }

    /// A route becomes stale when its peer was not heard for longer than `idle`.
    pub fn mark_stale_if_idle(&mut self, now: u64, idle: u64)
        requires
            old(self).wf(),
        ensures
            final(self).wf(),
            final(self).routes() == marked_stale(old(self).routes(), now, idle),
            final(self).ep_to_vip == old(self).ep_to_vip,
            final(self).node_to_vip == old(self).node_to_vip,
    {
        let ghost s0 = self.table.entries@;
        let mut i: usize = 0;
        while i < self.table.entries.len()
            invariant
                self.wf(),
                self.ep_to_vip == old(self).ep_to_vip,
                self.node_to_vip == old(self).node_to_vip,
                s0 == old(self).table.entries@,
                i <= s0.len(),
                self.table.entries@.len() == s0.len(),
                forall|j: int|
                    0 <= j < s0.len() ==> (#[trigger] self.table.entries@[j]).0@ == s0[j].0@,
                forall|j: int|
                    0 <= j < i ==> (#[trigger] self.table.entries@[j]).1@ == idle_marked(
                        s0[j].1@,
                        now,
                        idle,
                    ),
                forall|j: int| i <= j < s0.len() ==> #[trigger] self.table.entries@[j] == s0[j],
            decreases s0.len() - i,
        {
            let e: &(String, RouteEntry) = &self.table.entries[i];
            if since(now, e.1.last_seen) > idle {
                let key: String = e.0.clone();
                let stale = RouteEntry {
                    endpoint: e.1.endpoint,
                    node_id: e.1.node_id.clone(),
                    state: RouteState::Stale,
                    last_seen: e.1.last_seen,
                };
                let ghost before = self.table.entries@;
                self.table.entries.set(i, (key, stale));
                proof {
                    assert(before[i as int] == s0[i as int]);
                    table::map_of_update(before, i as int, (key, stale));
                }
            }
            i += 1;
        }
        proof {
            let s = self.table.entries@;
            let want = marked_stale(old(self).routes(), now, idle);
            assert forall|k: Seq<char>| #[trigger]
                self.routes().dom().contains(k) <==> want.dom().contains(k) by {
                if table::has_key(s, k) {
                    let j = choose|j: int| table::key_at(s, k, j);
                    assert(s[j].0@ == s0[j].0@);
                    assert(table::key_at(s0, k, j));
                }
                if table::has_key(s0, k) {
                    let j = choose|j: int| table::key_at(s0, k, j);
                    assert(s[j].0@ == s0[j].0@);
                    assert(table::key_at(s, k, j));
                }
            }
            assert forall|k: Seq<char>| #[trigger]
                self.routes().dom().contains(k) implies self.routes()[k] == want[k] by {
                let j = choose|j: int| table::key_at(s, k, j);
                assert(s[j].0@ == s0[j].0@);
                table::map_of_at(s, j);
                table::map_of_at(s0, j);
            }
            assert(self.routes() =~= want);
        }
    }

    /// Takes the route to `vip` out.
    pub fn remove(&mut self, vip: &String)
        requires
            old(self).wf(),
        ensures
            final(self).wf(),
            final(self).routes() == old(self).routes().remove(vip@),
            final(self).vips() == moved_vip(
                old(self).vips(),
                lookup_in(old(self).routes(), vip@),
                vip@,
            ),
            final(self).nodes() == left_node(
                old(self).nodes(),
                lookup_in(old(self).routes(), vip@),
                vip@,
            ),
    {
        let ghost r0 = self.routes();
        let ghost v0 = self.vips();
        let ghost n0 = self.nodes();
        let old_ep: Option<Endpoint> = self.lookup(vip);
        self.forget_endpoint(old_ep, vip);
        let removed = self.table.remove(vip);
        if let Some(e) = removed {
            let mine = match self.node_to_vip.get(&e.node_id) {
                Some(v) => *v == *vip,
                None => false,
            };
            if mine {
                let _ = self.node_to_vip.remove(&e.node_id);
                proof {
                    assert(self.nodes() =~= n0.remove(e.node_id@));
                }
            }
        }
        proof {
            assert(self.routes() =~= r0.remove(vip@));
        }
    }
}

/// The address of the peer at `ep`, where its route is stale.
pub open spec fn stale_at(
    routes: Map<Seq<char>, RouteView>,
    vips: Map<Endpoint, Seq<char>>,
    ep: Endpoint,
) -> Option<Seq<char>> {
    match lookup_in(vips, ep) {
        Some(v) => if routes.dom().contains(v) && routes[v].state is Stale {
            Some(v)
        } else {
            None
        },
        None => None,
    }
}

/// The routes once that to `vip` is a candidate again.
pub open spec fn revived(
    routes: Map<Seq<char>, RouteView>,
    vip: Option<Seq<char>>,
) -> Map<Seq<char>, RouteView> {
    match vip {
        Some(v) => routes.insert(v, RouteView { state: RouteState::Candidate, ..routes[v] }),
        None => routes,
    }
}

/// The routes once the peer at `ep` was heard.
pub open spec fn seen_at(
    routes: Map<Seq<char>, RouteView>,
    vips: Map<Endpoint, Seq<char>>,
    ep: Endpoint,
    now: u64,
) -> Map<Seq<char>, RouteView> {
    match lookup_in(vips, ep) {
        Some(v) => if routes.dom().contains(v) {
            routes.insert(v, RouteView { last_seen: now, ..routes[v] })
        } else {
            routes
        },
        None => routes,
    }
}

/// A route whose peer was not heard for longer than `idle` is stale.
pub open spec fn idle_marked(r: RouteView, now: u64, idle: u64) -> RouteView {
    if engine_state::elapsed(now, r.last_seen) > idle {
        RouteView { state: RouteState::Stale, ..r }
    } else {
        r
    }
}

/// The routes once those of silent peers are stale.
pub open spec fn marked_stale(routes: Map<Seq<char>, RouteView>, now: u64, idle: u64) -> Map<
    Seq<char>,
    RouteView,
> {
    routes.map_values(|r: RouteView| idle_marked(r, now, idle))
}

/// The addresses by endpoint once `vip` has left the endpoint of `prev`.
pub open spec fn moved_vip(
    m: Map<Endpoint, Seq<char>>,
    prev: Option<RouteView>,
    vip: Seq<char>,
) -> Map<Endpoint, Seq<char>> {
    match prev {
        Some(r) => if lookup_in(m, r.endpoint) == Some(vip) {
            m.remove(r.endpoint)
        } else {
            m
        },
        None => m,
    }
}

/// The addresses by node once the route `prev` of `vip` is gone.
pub open spec fn left_node(
    m: Map<Seq<char>, Seq<char>>,
    prev: Option<RouteView>,
    vip: Seq<char>,
) -> Map<Seq<char>, Seq<char>> {
    match prev {
        Some(r) => if lookup_in(m, r.node_id) == Some(vip) {
            m.remove(r.node_id)
        } else {
            m
        },
        None => m,
    }
}

/// The prefix length that is worked with: one to thirty-two bits.
pub open spec fn prefix_bits(prefix: u8) -> u32 {
    if prefix < 1 {
        1
    } else if prefix > 32 {
        32
    } else {
        prefix as u32
    }
}

/// The bits of an address that tell the hosts of a subnet apart.
pub open spec fn host_mask_of(prefix: u8) -> u32 {
    let p = prefix_bits(prefix);
    if p >= 32 {
        0
    } else {
        ((1u32 << ((32 - p) as u32)) - 1) as u32
    }
}

/// Two addresses agree outside the host bits.
pub open spec fn in_same_subnet(a: u32, b: u32, prefix: u8) -> bool {
    (a & !host_mask_of(prefix)) == (b & !host_mask_of(prefix))
}

/// The host bits of a prefix length.
pub fn host_mask(prefix: u8) -> (m: u32)
    ensures
        m == host_mask_of(prefix),
{
    let p: u32 = if prefix < 1 {
        1
    } else if prefix > 32 {
        32
    } else {
        prefix as u32
    };
    if p >= 32 {
        0
    } else {
        let s: u32 = 32 - p;
        proof {
            assert(s < 32 ==> (1u32 << s) >= 1) by (bit_vector);
        }
        (1u32 << s) - 1
    }
}

/// Whether two addresses are in one subnet.
pub fn same_subnet(a: u32, b: u32, prefix: u8) -> (r: bool)
    ensures
        r == in_same_subnet(a, b, prefix),
{
    let m: u32 = host_mask(prefix);
    (a & !m) == (b & !m)
}

/// The address of the owner in the subnet of `vip`: its first host.
pub open spec fn owner_vip_of(vip: Seq<char>, prefix: u8) -> Seq<char> {
    match text::ipv4_of(vip) {
        Some(a) => text::ipv4_text((a & !host_mask_of(prefix)) | 1),
        None => Seq::empty(),
    }
}

/// The owner's address in the subnet of `vip`; nothing where `vip` is no
/// address.
pub fn owner_vip_with_prefix(vip: &str, prefix: u8) -> (out: String)
    ensures
        out@ == owner_vip_of(vip@, prefix),
{
    match parse_ipv4(vip) {
        Some(a) => ipv4_to_string((a & !host_mask(prefix)) | 1),
        None => String::new(),
    }
}

/// `right` may be learned from a sync by the holder of `left`: both are hosts
/// of one subnet, and neither is its network or its broadcast address.
pub open spec fn sync_vip_ok(left: Seq<char>, right: Seq<char>, prefix: u8) -> bool {
    match (text::ipv4_of(left), text::ipv4_of(right)) {
        (Some(a), Some(b)) => {
            let m = host_mask_of(prefix);
            in_same_subnet(a, b, prefix) && is_host(a & m, m) && is_host(b & m, m)
        },
        _ => false,
    }
}

/// A host part that is neither all zeros nor all ones.
pub open spec fn is_host(h: u32, mask: u32) -> bool {
    h != 0 && h != mask
}

pub fn is_valid_sync_vip(left: &str, right: &str, prefix: u8) -> (ok: bool)
    ensures
        ok == sync_vip_ok(left@, right@, prefix),
{
    let a: u32 = match parse_ipv4(left) {
        Some(a) => a,
        None => {
            return false;
        },
    };
    let b: u32 = match parse_ipv4(right) {
        Some(b) => b,
        None => {
            return false;
        },
    };
    if !same_subnet(a, b, prefix) {
        return false;
    }
    let m: u32 = host_mask(prefix);
    let ha: u32 = a & m;
    let hb: u32 = b & m;
    ha != 0 && ha != m && hb != 0 && hb != m
}

/// A peer can be at `ep`: not an unspecified, multicast or loopback address,
/// and no link-local one of version 4.
pub open spec fn sync_endpoint_ok(ep: Endpoint) -> bool {
    &&& !ep.ip.unspecified()
    &&& !ep.ip.multicast()
    &&& !ep.ip.loopback()
    &&& match ep.ip {
        crate::addr::IpAddr::V4(a) => a / 0x10000 != 169 * 256 + 254,
        _ => true,
    }
}

pub fn is_valid_sync_endpoint(ep: Endpoint) -> (ok: bool)
    ensures
        ok == sync_endpoint_ok(ep),
{
    if ep.ip.is_unspecified() || ep.ip.is_multicast() || ep.ip.is_loopback() {
        return false;
    }
    match ep.ip {
        crate::addr::IpAddr::V4(a) => a / 0x10000 != 169 * 256 + 254,
        _ => true,
    }
}

} // verus!
