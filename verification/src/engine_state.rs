//! The state of a node's session: who it is, whom it knows, and what it still
//! owes its peers.

use crate::addr::Endpoint;
use crate::keys::CryptoPool;
use crate::routing;
use crate::routing::{owner_vip_with_prefix, PathKind, RouteState, RoutingTable};
use crate::table;
use crate::table::{NameSet, Table};
use crate::text;
use crate::text::{ipv4_to_string, parse_ipv4};
use vstd::prelude::*;

verus! {

/// What the owner answered to a request to join.
#[derive(Clone, Debug)]
pub struct JoinAck {
    pub vip: String,
    pub subnet_prefix: u8,
    pub owner_endpoint: Endpoint,
}

/// The parts of the engine that can be switched on and off.
#[derive(Clone, Copy, Debug, PartialEq, Eq, Structural)]
pub struct RuntimeFeatureFlags {
    pub multipath_core: bool,
    pub dual_write_transition: bool,
    pub predictive_heal: bool,
    pub multipath_bandwidth_prober: bool,
    pub control_path_race: bool,
}

impl Default for RuntimeFeatureFlags {
    fn default() -> (out: Self)
        ensures
            out == (RuntimeFeatureFlags {
                multipath_core: true,
                dual_write_transition: true,
                predictive_heal: true,
                multipath_bandwidth_prober: false,
                control_path_race: true,
            }),
    {
        RuntimeFeatureFlags {
            multipath_core: true,
            dual_write_transition: true,
            predictive_heal: true,
            multipath_bandwidth_prober: false,
            control_path_race: true,
        }
    }
}

/// A subnet prefix brought into 8 to 30 bits.
pub open spec fn clamped_prefix(p: u8) -> u8 {
    if p < 8 {
        8
    } else if p > 30 {
        30
    } else {
        p
    }
}

pub fn clamp_prefix(p: u8) -> (out: u8)
    ensures
        out == clamped_prefix(p),
{
    if p < 8 {
        8
    } else if p > 30 {
        30
    } else {
        p
    }
}

/// Who this node is, and where it believes the owner of the network to be.
pub struct Identity {
    pub is_owner: bool,
    pub my_vip: String,
    pub my_vip_u32: u32,
    pub my_node_id: String,
    pub subnet_prefix: u8,
    pub owner_vip_cached: String,
    pub owner_node_id: String,
    pub owner_ep: Option<Endpoint>,
    /// The owner's endpoint was confirmed by the owner itself.
    pub owner_ep_trusted: bool,
}

/// An [`Identity`] without its strings' identities.
pub ghost struct IdentityView {
    pub is_owner: bool,
    pub my_vip: Seq<char>,
    pub my_vip_u32: u32,
    pub my_node_id: Seq<char>,
    pub subnet_prefix: u8,
    pub owner_vip_cached: Seq<char>,
    pub owner_node_id: Seq<char>,
    pub owner_ep: Option<Endpoint>,
    pub owner_ep_trusted: bool,
}

impl View for Identity {
    type V = IdentityView;

    open spec fn view(&self) -> IdentityView {
        IdentityView {
            is_owner: self.is_owner,
            my_vip: self.my_vip@,
            my_vip_u32: self.my_vip_u32,
            my_node_id: self.my_node_id@,
            subnet_prefix: self.subnet_prefix,
            owner_vip_cached: self.owner_vip_cached@,
            owner_node_id: self.owner_node_id@,
            owner_ep: self.owner_ep,
            owner_ep_trusted: self.owner_ep_trusted,
        }
    }
}

/// The number of an address, or zero where `vip` is none.
pub open spec fn vip_number(vip: Seq<char>) -> u32 {
    match text::ipv4_of(vip) {
        Some(a) => a,
        None => 0,
    }
}

/// Where packets for the owner go: to the endpoint that the owner confirmed,
/// else along the route, else to the endpoint that was given.
pub open spec fn owner_endpoint_of(
    id: IdentityView,
    routes: Map<Seq<char>, routing::RouteView>,
) -> Option<Endpoint> {
    let route_ep = if id.owner_vip_cached.len() > 0 && routes.dom().contains(id.owner_vip_cached) {
        Some(routes[id.owner_vip_cached].endpoint)
    } else {
        None
    };
    if id.is_owner {
        None
    } else if id.owner_ep_trusted {
        if id.owner_ep is Some {
            id.owner_ep
        } else {
            route_ep
        }
    } else if route_ep is Some {
        route_ep
    } else {
        id.owner_ep
    }
}

impl Identity {
    /// A node that has not heard of the owner yet.
    pub fn new(is_owner: bool, my_vip: u32, my_node_id: String, subnet_prefix: u8) -> (out: Self)
        ensures
            out@ == (IdentityView {
                is_owner,
                my_vip: text::ipv4_text(my_vip),
                my_vip_u32: my_vip,
                my_node_id: my_node_id@,
                subnet_prefix: clamped_prefix(subnet_prefix),
                owner_vip_cached: routing::owner_vip_of(
                    text::ipv4_text(my_vip),
                    clamped_prefix(subnet_prefix),
                ),
                owner_node_id: Seq::empty(),
                owner_ep: None,
                owner_ep_trusted: false,
            }),
    {
        let prefix: u8 = clamp_prefix(subnet_prefix);
        let vip: String = ipv4_to_string(my_vip);
        let owner: String = owner_vip_with_prefix(vip.as_str(), prefix);
        Identity {
            is_owner,
            my_vip: vip,
            my_vip_u32: my_vip,
            my_node_id,
            subnet_prefix: prefix,
            owner_vip_cached: owner,
            owner_node_id: String::new(),
            owner_ep: None,
            owner_ep_trusted: false,
        }
    }

    /// Takes on another address, node id and subnet.
    pub fn set_identity(
        &mut self,
        is_owner: bool,
        my_vip: String,
        my_node_id: String,
        subnet_prefix: u8,
    )
        ensures
            final(self)@ == (IdentityView {
                is_owner,
                my_vip: my_vip@,
                my_vip_u32: vip_number(my_vip@),
                my_node_id: my_node_id@,
                subnet_prefix: clamped_prefix(subnet_prefix),
                owner_vip_cached: routing::owner_vip_of(my_vip@, clamped_prefix(subnet_prefix)),
                owner_ep_trusted: false,
                ..old(self)@
            }),
    {
        self.owner_ep_trusted = false;
        self.is_owner = is_owner;
        self.my_vip_u32 = match parse_ipv4(my_vip.as_str()) {
            Some(a) => a,
            None => 0,
        };
        self.my_vip = my_vip;
        self.my_node_id = my_node_id;
        self.subnet_prefix = clamp_prefix(subnet_prefix);
        self.owner_vip_cached = owner_vip_with_prefix(self.my_vip.as_str(), self.subnet_prefix);
    }

    /// Takes the owner's endpoint from outside the network; it is not trusted.
    pub fn set_owner_endpoint(&mut self, ep: Endpoint)
        ensures
            final(self)@ == (IdentityView {
                owner_ep: Some(ep),
                owner_ep_trusted: false,
                ..old(self)@
            }),
    {
        self.owner_ep = Some(ep);
        self.owner_ep_trusted = false;
    }

    /// Takes the owner's endpoint from a packet of the owner.
    pub fn confirm_owner_endpoint(&mut self, ep: Endpoint)
        ensures
            final(self)@ == (IdentityView {
                owner_ep: Some(ep),
                owner_ep_trusted: true,
                ..old(self)@
            }),
    {
        self.owner_ep = Some(ep);
        self.owner_ep_trusted = true;
    }

    /// Takes on what the owner assigned. An address that is none leaves the
    /// number of the old one.
    pub fn accept_join(
        &mut self,
        vip: String,
        prefix: u8,
        owner_node_id: String,
        owner_ep: Endpoint,
    )
        ensures
            final(self)@ == (IdentityView {
                my_vip: vip@,
                my_vip_u32: match text::ipv4_of(vip@) {
                    Some(a) => a,
                    None => old(self).my_vip_u32,
                },
                subnet_prefix: prefix,
                owner_vip_cached: routing::owner_vip_of(vip@, prefix),
                owner_node_id: owner_node_id@,
                owner_ep: Some(owner_ep),
                owner_ep_trusted: true,
                ..old(self)@
            }),
    {
        self.subnet_prefix = prefix;
        self.owner_ep = Some(owner_ep);
        self.owner_ep_trusted = true;
        match parse_ipv4(vip.as_str()) {
            Some(a) => {
                self.my_vip_u32 = a;
            },
            None => {},
        }
        self.my_vip = vip;
        self.owner_vip_cached = owner_vip_with_prefix(self.my_vip.as_str(), prefix);
        self.owner_node_id = owner_node_id;
    }

    /// Leaves the network. The last owner's node id stays on record.
    pub fn reset(&mut self)
        ensures
            final(self)@ == (IdentityView {
                is_owner: false,
                my_vip: Seq::empty(),
                my_vip_u32: 0,
                my_node_id: Seq::empty(),
                subnet_prefix: 24,
                owner_vip_cached: Seq::empty(),
                owner_ep: None,
                owner_ep_trusted: false,
                ..old(self)@
            }),
    {
        self.owner_ep = None;
        self.owner_ep_trusted = false;
        self.my_vip = String::new();
        self.my_vip_u32 = 0;
        self.subnet_prefix = 24;
        self.owner_vip_cached = String::new();
        self.is_owner = false;
        self.my_node_id = String::new();
    }

    /// Where packets for the owner go.
    pub fn owner_send_endpoint_for_rt(&self, rt: &RoutingTable) -> (out: Option<Endpoint>)
        requires
            rt.wf(),
        ensures
            out == owner_endpoint_of(self@, rt.routes()),
    {
        if self.is_owner {
            return None;
        }
        let route_ep: Option<Endpoint> = if self.owner_vip_cached.as_str().is_empty() {
            None
        } else {
            rt.lookup(&self.owner_vip_cached)
        };
        if self.owner_ep_trusted {
            match self.owner_ep {
                Some(e) => Some(e),
                None => route_ep,
            }
        } else {
            match route_ep {
                Some(e) => Some(e),
                None => self.owner_ep,
            }
        }
    }
}

/// The first counter that no packet may carry.
pub const COUNTER_LIMIT: u64 = 0x1_0000_0000_0000;

/// Takes the next number for a sealed control packet. The counter moves on
/// even where it has run out.
pub fn next_ctrl_send_counter(ctr: &mut u64) -> (out: Option<u64>)
    ensures
        *final(ctr) == if *old(ctr) == u64::MAX {
            0
        } else {
            (*old(ctr) + 1) as u64
        },
        out == if *old(ctr) < COUNTER_LIMIT {
            Some(*old(ctr))
        } else {
            None
        },
{
    let out: u64 = *ctr;
    *ctr = if out == u64::MAX {
        0
    } else {
        out + 1
    };
    if out >= COUNTER_LIMIT {
        return None;
    }
    Some(out)
}

/// The number of packets that were sealed for a destination.
pub open spec fn sent_to(m: Map<u32, u64>, dest: u32) -> u64 {
    if m.dom().contains(dest) {
        m[dest]
    } else {
        0
    }
}

/// Takes the next number for a sealed data packet to `dest`.
pub fn next_data_send_counter(ctrs: &mut Table<u32, u64>, dest: u32) -> (out: Option<u64>)
    requires
        old(ctrs).wf(),
    ensures
        final(ctrs).wf(),
        ({
            let n = sent_to(old(ctrs)@, dest);
            if n < COUNTER_LIMIT {
                out == Some(n) && final(ctrs)@ == old(ctrs)@.insert(dest, (n + 1) as u64)
            } else {
                out is None && final(ctrs)@ == old(ctrs)@.insert(dest, n)
            }
        }),
{
    let n: u64 = match ctrs.get(&dest) {
        Some(n) => *n,
        None => 0,
    };
    if n >= COUNTER_LIMIT {
        ctrs.insert(dest, n);
        return None;
    }
    ctrs.insert(dest, n + 1);
    Some(n)
}

/// What the owner has told each of its peers.
pub struct SyncState {
    /// The revision up to which a peer is served.
    pub peer_sync_state: Table<String, u64>,
    /// The removals that a peer has not been told yet.
    pub peer_pending_removals: Table<String, NameSet>,
    /// The revision up to which this node has applied what it was told.
    pub msyn_applied_to_rev: u64,
    pub next_msyn_sync_id: u64,
    /// When a sync last followed a join, in milliseconds.
    pub last_after_join: Option<u64>,
    /// A sync after a join is still to be sent.
    pub pending_after_join: bool,
}

/// What `peer` has still to be told of removals.
pub open spec fn owed_to(m: Map<Seq<char>, NameSet>, peer: Seq<char>) -> Set<Seq<char>> {
    if m.dom().contains(peer) {
        m[peer]@
    } else {
        Set::empty()
    }
}

/// Every set of removals is well formed.
pub open spec fn sets_wf(t: Table<String, NameSet>) -> bool {
    forall|i: int| 0 <= i < t.entries@.len() ==> (#[trigger] t.entries@[i]).1.wf()
}

/// A set that is stored under some key is well formed.
pub proof fn sets_wf_at(t: Table<String, NameSet>, k: Seq<char>)
    requires
        t.wf(),
        sets_wf(t),
        t@.dom().contains(k),
    ensures
        t@[k].wf(),
{
    let i = choose|i: int| table::key_at(t.entries@, k, i);
    table::map_of_at(t.entries@, i);
}

impl SyncState {
    pub open spec fn wf(&self) -> bool {
        &&& self.peer_sync_state.wf()
        &&& self.peer_pending_removals.wf()
        &&& sets_wf(self.peer_pending_removals)
    }

    pub fn new() -> (out: Self)
        ensures
            out.wf(),
            out.peer_sync_state@ == Map::<Seq<char>, u64>::empty(),
            out.peer_pending_removals@ == Map::<Seq<char>, NameSet>::empty(),
            out.msyn_applied_to_rev == 0,
            out.next_msyn_sync_id == 1,
            out.last_after_join is None,
            !out.pending_after_join,
    {
        SyncState {
            peer_sync_state: Table::new(),
            peer_pending_removals: Table::new(),
            msyn_applied_to_rev: 0,
            next_msyn_sync_id: 1,
            last_after_join: None,
            pending_after_join: false,
        }
    }

    /// The revision up to which `peer` is served; zero where it never was.
    pub open spec fn served(&self, peer: Seq<char>) -> u64 {
        if self.peer_sync_state@.dom().contains(peer) {
            self.peer_sync_state@[peer]
        } else {
            0
        }
    }

    pub fn served_rev(&self, peer: &String) -> (rev: u64)
        requires
            self.wf(),
        ensures
            rev == self.served(peer@),
    {
        match self.peer_sync_state.get(peer) {
            Some(r) => *r,
            None => 0,
        }
    }

    /// Notes that `peer` has to be told of the removal of `vip`.
    fn owe(&mut self, peer: &String, vip: &String)
        requires
            old(self).wf(),
        ensures
            final(self).wf(),
            final(self).peer_sync_state == old(self).peer_sync_state,
            final(self).msyn_applied_to_rev == old(self).msyn_applied_to_rev,
            final(self).next_msyn_sync_id == old(self).next_msyn_sync_id,
            final(self).last_after_join == old(self).last_after_join,
            final(self).pending_after_join == old(self).pending_after_join,
            forall|p: Seq<char>| #[trigger]
                owed_to(final(self).peer_pending_removals@, p) == if p == peer@ {
                    owed_to(old(self).peer_pending_removals@, p).insert(vip@)
                } else {
                    owed_to(old(self).peer_pending_removals@, p)
                },
    {
        let ghost m0 = self.peer_pending_removals@;
        let ghost t0 = self.peer_pending_removals;
        proof {
            if m0.dom().contains(peer@) {
                sets_wf_at(t0, peer@);
            }
        }
        let mut set: NameSet = match self.peer_pending_removals.remove(peer) {
            Some(s) => s,
            None => NameSet::new(),
        };
        proof {
            assert(set@ =~= owed_to(m0, peer@));
            assert(sets_wf(self.peer_pending_removals)) by {
                let t = self.peer_pending_removals;
                assert forall|i: int| 0 <= i < t.entries@.len() implies (
                #[trigger] t.entries@[i]).1.wf() by {
                    table::map_of_at(t.entries@, i);
                    sets_wf_at(t0, t.entries@[i].0@);
                }
            }
        }
        let _ = set.insert(vip.clone());
        let ghost t1 = self.peer_pending_removals;
        self.peer_pending_removals.insert(peer.clone(), set);
        proof {
            let t = self.peer_pending_removals;
            assert(!t1@.dom().contains(peer@));
            assert forall|i: int| 0 <= i < t.entries@.len() implies (
            #[trigger] t.entries@[i]).1.wf() by {
                if i < t1.entries@.len() {
                    assert(t.entries@[i] == t1.entries@[i]);
                }
            }
            assert forall|p: Seq<char>| #[trigger] owed_to(t@, p) == if p == peer@ {
                owed_to(m0, p).insert(vip@)
            } else {
                owed_to(m0, p)
            } by {}
        }
    }

    /// Notes, for the owner, that every peer whose route is not stale has to be
    /// told of the removal of `removed`.
    pub fn note_route_removed_for_sync(
        &mut self,
        is_owner: bool,
        rt: &RoutingTable,
        removed: &String,
    )
        requires
            old(self).wf(),
            rt.wf(),
        ensures
            final(self).wf(),
            final(self).peer_sync_state == old(self).peer_sync_state,
            final(self).msyn_applied_to_rev == old(self).msyn_applied_to_rev,
            final(self).next_msyn_sync_id == old(self).next_msyn_sync_id,
            final(self).last_after_join == old(self).last_after_join,
            final(self).pending_after_join == old(self).pending_after_join,
            forall|p: Seq<char>| #[trigger]
                owed_to(final(self).peer_pending_removals@, p) == if is_owner && p != removed@
                    && rt.routes().dom().contains(p) && !(rt.routes()[p].state is Stale) {
                    owed_to(old(self).peer_pending_removals@, p).insert(removed@)
                } else {
                    owed_to(old(self).peer_pending_removals@, p)
                },
            !is_owner ==> final(self).peer_pending_removals == old(self).peer_pending_removals,
    {
        if !is_owner {
            return;
        }
        let ghost m0 = self.peer_pending_removals@;
        let ghost all = rt.table.entries@;
        let mut i: usize = 0;
        while i < rt.table.entries.len()
            invariant
                is_owner,
                rt.wf(),
                all == rt.table.entries@,
                i <= all.len(),
                self.wf(),
                self.peer_sync_state == old(self).peer_sync_state,
                self.msyn_applied_to_rev == old(self).msyn_applied_to_rev,
                self.next_msyn_sync_id == old(self).next_msyn_sync_id,
                self.last_after_join == old(self).last_after_join,
                self.pending_after_join == old(self).pending_after_join,
                forall|p: Seq<char>| #[trigger]
                    owed_to(self.peer_pending_removals@, p) == if exists|j: int|
                        0 <= j < i && live_other(#[trigger] all[j], p, removed@) {
                        owed_to(m0, p).insert(removed@)
                    } else {
                        owed_to(m0, p)
                    },
            decreases all.len() - i,
        {
            let ghost before = self.peer_pending_removals@;
            let stale = match rt.table.entries[i].1.state {
                RouteState::Stale => true,
                _ => false,
            };
            let own = rt.table.entries[i].0 == *removed;
            if !stale && !own {
                self.owe(&rt.table.entries[i].0, removed);
            }
            proof {
                assert forall|p: Seq<char>| #[trigger]
                    owed_to(self.peer_pending_removals@, p) == if exists|j: int|
                        0 <= j < i + 1 && live_other(#[trigger] all[j], p, removed@) {
                        owed_to(m0, p).insert(removed@)
                    } else {
                        owed_to(m0, p)
                    } by {
                    assert(owed_to(before, p) == if exists|j: int|
                        0 <= j < i && live_other(#[trigger] all[j], p, removed@) {
                        owed_to(m0, p).insert(removed@)
                    } else {
                        owed_to(m0, p)
                    });
                    if live_other(all[i as int], p, removed@) {
                        assert(owed_to(m0, p).insert(removed@).insert(removed@) =~= owed_to(
                            m0,
                            p,
                        ).insert(removed@));
                    }
                }
            }
            i += 1;
        }
        proof {
            assert forall|p: Seq<char>| #[trigger]
                owed_to(self.peer_pending_removals@, p) == if p != removed@
                    && rt.routes().dom().contains(p) && !(rt.routes()[p].state is Stale) {
                    owed_to(m0, p).insert(removed@)
                } else {
                    owed_to(m0, p)
                } by {
                if p != removed@ && rt.routes().dom().contains(p) && !(
                rt.routes()[p].state is Stale) {
                    let j = choose|j: int| table::key_at(all, p, j);
                    table::map_of_at(all, j);
                    assert(live_other(all[j], p, removed@));
                }
                if exists|j: int| 0 <= j < all.len() && live_other(#[trigger] all[j], p, removed@) {
                    let j = choose|j: int|
                        0 <= j < all.len() && live_other(#[trigger] all[j], p, removed@);
                    table::map_of_at(all, j);
                }
            }
        }
    }

    /// After a join the peers are synced at once, but not twice within 200
    /// milliseconds: then the sync is put off. Tells whether to sync now.
    pub fn after_join(&mut self, now: u64) -> (sync_now: bool)
        ensures
            ({
                let soon = old(self).last_after_join is Some && elapsed(
                    now,
                    old(self).last_after_join->0,
                ) < 200;
                &&& sync_now == !soon
                &&& *final(self) == (SyncState {
                    pending_after_join: soon,
                    last_after_join: if soon {
                        old(self).last_after_join
                    } else {
                        Some(now)
                    },
                    ..*old(self)
                })
            }),
    {
        if let Some(prev) = self.last_after_join {
            if since(now, prev) < 200 {
                self.pending_after_join = true;
                return false;
            }
        }
        self.pending_after_join = false;
        self.last_after_join = Some(now);
        true
    }

    /// Whether a sync that was put off is due now; then it is taken on.
    pub fn coalesced_sync_due(&mut self, is_owner: bool, now: u64) -> (due: bool)
        ensures
            due == (is_owner && old(self).pending_after_join && (old(self).last_after_join is None
                || elapsed(now, old(self).last_after_join->0) >= 200)),
            *final(self) == if due {
                SyncState {
                    pending_after_join: false,
                    last_after_join: Some(now),
                    ..*old(self)
                }
            } else {
                *old(self)
            },
    {
        if !is_owner || !self.pending_after_join {
            return false;
        }
        let due: bool = match self.last_after_join {
            Some(prev) => since(now, prev) >= 200,
            None => true,
        };
        if due {
            self.pending_after_join = false;
            self.last_after_join = Some(now);
        }
        due
    }

    /// Takes the number of the next sync.
    pub fn take_sync_id(&mut self) -> (id: u64)
        ensures
            id == old(self).next_msyn_sync_id,
            *final(self) == (SyncState {
                next_msyn_sync_id: if old(self).next_msyn_sync_id == u64::MAX {
                    u64::MAX
                } else {
                    (old(self).next_msyn_sync_id + 1) as u64
                },
                ..*old(self)
            }),
    {
        let id: u64 = self.next_msyn_sync_id;
        self.next_msyn_sync_id = if id == u64::MAX {
            u64::MAX
        } else {
            id + 1
        };
        id
    }
}

/// The entry is the route to `p`, is not stale, and is not that of `removed`.
pub open spec fn live_other(
    e: (String, routing::RouteEntry),
    p: Seq<char>,
    removed: Seq<char>,
) -> bool {
    e.0@ == p && p != removed && !(e.1.state is Stale)
}

/// The time from `then` to `now`; zero where `then` lies ahead.
pub open spec fn elapsed(now: u64, then: u64) -> int {
    if now >= then {
        now - then
    } else {
        0
    }
}

pub fn since(now: u64, past: u64) -> (d: u64)
    ensures
        d == elapsed(now, past),
{
    if now >= past {
        now - past
    } else {
        0
    }
}

/// What has to be cleaned up outside once a peer's route is gone.
pub struct PeerGone {
    pub vip: String,
    /// The number of the address, under which sealing state is kept.
    pub vip_u32: Option<u32>,
    /// The node whose connection checks end.
    pub node_id: Option<String>,
}

/// What has to be cleaned up, by value.
pub ghost struct GoneView {
    pub vip: Seq<char>,
    pub vip_u32: Option<u32>,
    pub node_id: Option<Seq<char>>,
}

impl View for PeerGone {
    type V = GoneView;

    open spec fn view(&self) -> GoneView {
        GoneView {
            vip: self.vip@,
            vip_u32: self.vip_u32,
            node_id: routing::opt_str(self.node_id),
        }
    }
}

/// What has to be cleaned up once the route to `vip` at the node `node` is gone.
pub open spec fn gone_of(vip: Seq<char>, node: Seq<char>) -> GoneView {
    GoneView {
        vip,
        vip_u32: text::ipv4_of(vip),
        node_id: if node.len() > 0 {
            Some(node)
        } else {
            None
        },
    }
}

/// The state of a session.
pub struct EngineState {
    pub id: Identity,
    pub kicked: bool,
    pub membership_version: u64,
    pub feature_flags: RuntimeFeatureFlags,
    pub crypto_keys: CryptoPool,
    pub routing: RoutingTable,
    pub data_send_ctr: Table<u32, u64>,
    pub prev_path_kind: Table<u32, PathKind>,
    pub pending_heal_vips: NameSet,
    /// Until when a peer is not probed again, in milliseconds.
    pub heal_cooldown_until: Table<String, u64>,
    pub sync: SyncState,
    /// Somebody waits for the answer to a join.
    pub join_waiting: bool,
    pub pending_join_ack: Option<JoinAck>,
    pub last_prepare_join_at: Option<u64>,
}

impl EngineState {
    pub open spec fn wf(&self) -> bool {
        &&& self.crypto_keys.wf()
        &&& self.routing.wf()
        &&& self.data_send_ctr.wf()
        &&& self.prev_path_kind.wf()
        &&& self.pending_heal_vips.wf()
        &&& self.heal_cooldown_until.wf()
        &&& self.sync.wf()
    }

    /// The state at start.
    pub fn new(is_owner: bool, my_vip: u32, my_node_id: String, subnet_prefix: u8) -> (out: Self)
        ensures
            out.wf(),
            out.id@ == (IdentityView {
                is_owner,
                my_vip: text::ipv4_text(my_vip),
                my_vip_u32: my_vip,
                my_node_id: my_node_id@,
                subnet_prefix: clamped_prefix(subnet_prefix),
                owner_vip_cached: routing::owner_vip_of(
                    text::ipv4_text(my_vip),
                    clamped_prefix(subnet_prefix),
                ),
                owner_node_id: Seq::empty(),
                owner_ep: None,
                owner_ep_trusted: false,
            }),
            !out.kicked,
            out.membership_version == 0,
            out.feature_flags.multipath_core && out.feature_flags.dual_write_transition
                && out.feature_flags.predictive_heal
                && !out.feature_flags.multipath_bandwidth_prober
                && out.feature_flags.control_path_race,
            !out.crypto_keys.any(),
            out.routing.routes() == Map::<Seq<char>, routing::RouteView>::empty(),
            out.routing.vips() == Map::<Endpoint, Seq<char>>::empty(),
            out.routing.nodes() == Map::<Seq<char>, Seq<char>>::empty(),
            out.data_send_ctr@ == Map::<u32, u64>::empty(),
            out.prev_path_kind@ == Map::<u32, PathKind>::empty(),
            out.pending_heal_vips@ == Set::<Seq<char>>::empty(),
            out.heal_cooldown_until@ == Map::<Seq<char>, u64>::empty(),
            out.sync.peer_sync_state@ == Map::<Seq<char>, u64>::empty(),
            out.sync.peer_pending_removals@ == Map::<Seq<char>, NameSet>::empty(),
            out.sync.msyn_applied_to_rev == 0,
            out.sync.next_msyn_sync_id == 1,
            out.sync.last_after_join is None,
            !out.sync.pending_after_join,
            !out.join_waiting,
            out.pending_join_ack is None,
            out.last_prepare_join_at is None,
    {
        EngineState {
            id: Identity::new(is_owner, my_vip, my_node_id, subnet_prefix),
            kicked: false,
            membership_version: 0,
            feature_flags: RuntimeFeatureFlags::default(),
            crypto_keys: CryptoPool::new(),
            routing: RoutingTable::new(),
            data_send_ctr: Table::new(),
            prev_path_kind: Table::new(),
            pending_heal_vips: NameSet::new(),
            heal_cooldown_until: Table::new(),
            sync: SyncState::new(),
            join_waiting: false,
            pending_join_ack: None,
            last_prepare_join_at: None,
        }
    }

    /// Whether packets are sealed.
    pub fn has_crypto(&self) -> (b: bool)
        requires
            self.wf(),
        ensures
            b == self.crypto_keys.any(),
    {
        self.crypto_keys.has_any()
    }

    /// Where packets for the owner go.
    pub fn owner_send_endpoint(&self) -> (out: Option<Endpoint>)
        requires
            self.wf(),
        ensures
            out == owner_endpoint_of(self.id@, self.routing.routes()),
    {
        self.id.owner_send_endpoint_for_rt(&self.routing)
    }

    /// The number of the address of the peer at `ep`.
    pub open spec fn vip_number_at(&self, ep: Endpoint) -> Option<u32> {
        match routing::lookup_in(self.routing.vips(), ep) {
            Some(v) => text::ipv4_of(v),
            None => None,
        }
    }

    pub fn endpoint_to_vip_u32(&self, ep: Endpoint) -> (out: Option<u32>)
        requires
            self.wf(),
        ensures
            out == self.vip_number_at(ep),
    {
        match self.routing.vip_of(ep) {
            Some(v) => parse_ipv4(v.as_str()),
            None => None,
        }
    }

    /// What is forgotten of a peer whose route is gone, and nothing else.
    pub open spec fn peer_forgotten(pre: EngineState, post: EngineState, vip: Seq<char>) -> bool {
        let n = text::ipv4_of(vip);
        &&& post.heal_cooldown_until@ == pre.heal_cooldown_until@.remove(vip)
        &&& post.pending_heal_vips@ == pre.pending_heal_vips@.remove(vip)
        &&& post.prev_path_kind@ == if n is Some {
            pre.prev_path_kind@.remove(n->0)
        } else {
            pre.prev_path_kind@
        }
        &&& post.data_send_ctr@ == if n is Some {
            pre.data_send_ctr@.remove(n->0)
        } else {
            pre.data_send_ctr@
        }
    }

    /// The parts of the state that forgetting a peer leaves alone.
    pub open spec fn same_session(pre: EngineState, post: EngineState) -> bool {
        &&& post.id == pre.id
        &&& post.kicked == pre.kicked
        &&& post.membership_version == pre.membership_version
        &&& post.feature_flags == pre.feature_flags
        &&& post.join_waiting == pre.join_waiting
        &&& post.pending_join_ack == pre.pending_join_ack
        &&& post.last_prepare_join_at == pre.last_prepare_join_at
    }

    /// Forgets what was kept for the peer `vip`.
    pub fn on_peer_route_removed(&mut self, vip: &String, node_id: Option<String>) -> (out:
        PeerGone)
        requires
            old(self).wf(),
        ensures
            final(self).wf(),
            Self::peer_forgotten(*old(self), *final(self), vip@),
            Self::same_session(*old(self), *final(self)),
            final(self).crypto_keys == old(self).crypto_keys,
            final(self).routing == old(self).routing,
            final(self).sync == old(self).sync,
            out.vip@ == vip@,
            out.vip_u32 == text::ipv4_of(vip@),
            out.node_id == if node_id is Some && node_id->0@.len() > 0 {
                node_id
            } else {
                None
            },
    {
        let _ = self.heal_cooldown_until.remove(vip);
        let _ = self.pending_heal_vips.remove(vip);
        let n: Option<u32> = parse_ipv4(vip.as_str());
        if let Some(u) = n {
            let _ = self.prev_path_kind.remove(&u);
            let _ = self.data_send_ctr.remove(&u);
        }
        let node: Option<String> = match node_id {
            Some(s) => if s.as_str().is_empty() {
                None
            } else {
                Some(s)
            },
            None => None,
        };
        PeerGone { vip: vip.clone(), vip_u32: n, node_id: node }
    }

    /// The session is left: nothing of it stays but the last owner's node id, the
    /// membership version, the feature switches and the time of the last attempt
    /// to join.
    pub open spec fn session_left(pre: EngineState, post: EngineState) -> bool {
        &&& post.id@ == (IdentityView {
            is_owner: false,
            my_vip: Seq::empty(),
            my_vip_u32: 0,
            my_node_id: Seq::empty(),
            subnet_prefix: 24,
            owner_vip_cached: Seq::empty(),
            owner_ep: None,
            owner_ep_trusted: false,
            ..pre.id@
        })
        &&& !post.kicked
        &&& post.membership_version == pre.membership_version
        &&& post.feature_flags == pre.feature_flags
        &&& !post.crypto_keys.any()
        &&& post.crypto_keys.next_id == pre.crypto_keys.next_id
        &&& post.routing.routes() == Map::<Seq<char>, routing::RouteView>::empty()
        &&& post.routing.vips() == Map::<Endpoint, Seq<char>>::empty()
        &&& post.routing.nodes() == Map::<Seq<char>, Seq<char>>::empty()
        &&& post.data_send_ctr@ == Map::<u32, u64>::empty()
        &&& post.prev_path_kind@ == Map::<u32, PathKind>::empty()
        &&& post.pending_heal_vips@ == Set::<Seq<char>>::empty()
        &&& post.heal_cooldown_until@ == Map::<Seq<char>, u64>::empty()
        &&& post.sync.peer_sync_state@ == Map::<Seq<char>, u64>::empty()
        &&& post.sync.peer_pending_removals@ == Map::<Seq<char>, NameSet>::empty()
        &&& post.sync.msyn_applied_to_rev == 0
        &&& post.sync.next_msyn_sync_id == 1
        &&& !post.sync.pending_after_join
        &&& post.sync.last_after_join == pre.sync.last_after_join
        &&& !post.join_waiting
        &&& post.pending_join_ack is None
        &&& post.last_prepare_join_at == pre.last_prepare_join_at
    }

    /// Leaves the network: nothing of it stays but the last owner's node id,
    /// the membership version, the feature switches and the time of the last
    /// attempt to join.
    pub fn reset_session(&mut self)
        requires
            old(self).wf(),
        ensures
            final(self).wf(),
            EngineState::session_left(*old(self), *final(self)),
    {
        self.join_waiting = false;
        self.pending_join_ack = None;
        self.kicked = false;
        self.crypto_keys.clear();
        self.data_send_ctr.clear();
        self.id.reset();
        let last: Option<u64> = self.sync.last_after_join;
        self.sync = SyncState::new();
        self.sync.last_after_join = last;
        self.routing = RoutingTable::new();
        self.heal_cooldown_until.clear();
        self.prev_path_kind.clear();
        self.pending_heal_vips.clear();
    }
}

} // verus!
