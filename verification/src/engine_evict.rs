//! What happens to peers that were not heard for long.

use crate::addr::Endpoint;
use crate::engine_data;
use crate::engine_routes;
use crate::engine_routes::{Peers, RemovedPeer};
use crate::engine_state;
use crate::engine_state::EngineState;
use crate::routing;
use crate::routing::RoutingTable;
use crate::table;
use vstd::prelude::*;
use vstd::string::*;

verus! {

/// The route to `v` is stale, and its peer was not heard for longer than `age`.
pub open spec fn victim(
    routes: Map<Seq<char>, routing::RouteView>,
    v: Seq<char>,
    now: u64,
    age: u64,
) -> bool {
    routes.dom().contains(v) && routes[v].state is Stale && engine_state::elapsed(
        now,
        routes[v].last_seen,
    ) > age
}

/// The peers once the routes of silent ones are stale.
pub open spec fn silent_marked(p: Peers, now: u64, idle: u64) -> Peers {
    Peers { routes: routing::marked_stale(p.routes, now, idle), ..p }
}

/// The peers once the first `n` of `vips` are gone.
pub open spec fn all_evicted(p: Peers, vips: Seq<Seq<char>>, n: nat) -> Peers
    decreases n,
{
    if n == 0 {
        p
    } else {
        engine_routes::evicted(all_evicted(p, vips, (n - 1) as nat), vips[n - 1])
    }
}

/// Nothing is kept for peers without a route, save the key of the owner.
pub open spec fn without_orphans(p: Peers, owner_ep: Option<Endpoint>) -> Peers {
    Peers {
        served: p.served.restrict(p.routes.dom()),
        bound: p.bound.restrict(
            Set::new(|ep: Endpoint| p.vips.dom().contains(ep) || owner_ep == Some(ep)),
        ),
        ..p
    }
}

/// Taking peers out takes their routes out and leaves the others.
pub proof fn other_routes_stay(p: Peers, vips: Seq<Seq<char>>, n: nat)
    requires
        n <= vips.len(),
    ensures
        forall|v: Seq<char>| #[trigger]
            all_evicted(p, vips, n).routes.dom().contains(v) <==> p.routes.dom().contains(v)
                && !vips.take(n as int).contains(v),
        forall|v: Seq<char>| #[trigger]
            all_evicted(p, vips, n).routes.dom().contains(v) ==> all_evicted(p, vips, n).routes[v]
                == p.routes[v],
    decreases n,
{
    if n > 0 {
        let m = (n - 1) as nat;
        other_routes_stay(p, vips, m);
        assert(vips.take(n as int) =~= vips.take(m as int).push(vips[m as int]));
        let a = all_evicted(p, vips, m);
        let b = all_evicted(p, vips, n);
        assert(b.routes == a.routes.remove(vips[m as int]));
        assert forall|v: Seq<char>| #[trigger] vips.take(n as int).contains(v) <==> vips.take(
            m as int,
        ).contains(v) || v == vips[m as int] by {
            if vips.take(m as int).contains(v) {
                let i = choose|i: int| 0 <= i < m && vips.take(m as int)[i] == v;
                assert(vips.take(n as int)[i] == v);
            }
            if v == vips[m as int] {
                assert(vips.take(n as int)[m as int] == v);
            }
        }
        assert forall|v: Seq<char>| #[trigger] b.routes.dom().contains(v) <==> p.routes.dom().contains(
            v,
        ) && !vips.take(n as int).contains(v) by {
            assert(a.routes.dom().contains(v) <==> p.routes.dom().contains(v) && !vips.take(
                m as int,
            ).contains(v));
        }
        assert forall|v: Seq<char>| #[trigger] b.routes.dom().contains(v) implies b.routes[v]
            == p.routes[v] by {
            assert(a.routes.dom().contains(v));
        }
    } else {
        assert(vips.take(0) =~= Seq::<Seq<char>>::empty());
    }
}

impl EngineState {
    /// Notes for every peer with a live route that it has to be told of the peers
    /// `vips`, which go.
    fn owe_removals(&mut self, vips: &Vec<String>)
        requires
            old(self).wf(),
            forall|i: int|
                0 <= i < vips@.len() ==> old(self).routing.routes().dom().contains(
                    (#[trigger] vips@[i])@,
                ) && old(self).routing.routes()[vips@[i]@].state is Stale,
        ensures
            final(self).wf(),
            EngineState::same_session(*old(self), *final(self)),
            final(self).peers() == old(self).peers(),
            final(self).routing == old(self).routing,
            final(self).crypto_keys == old(self).crypto_keys,
            final(self).sync.msyn_applied_to_rev == old(self).sync.msyn_applied_to_rev,
            final(self).sync.next_msyn_sync_id == old(self).sync.next_msyn_sync_id,
            final(self).sync.last_after_join == old(self).sync.last_after_join,
            final(self).sync.pending_after_join == old(self).sync.pending_after_join,
            forall|p: Seq<char>| #[trigger]
                engine_state::owed_to(final(self).sync.peer_pending_removals@, p) == if old(
                    self).id.is_owner && live(old(self).routing.routes(), p) {
                    engine_state::owed_to(old(self).sync.peer_pending_removals@, p).union(
                        engine_data::names(vips@).to_set(),
                    )
                } else {
                    engine_state::owed_to(old(self).sync.peer_pending_removals@, p)
                },
    {
        let ghost m0 = self.sync.peer_pending_removals@;
        let is_owner: bool = self.id.is_owner;
        let ghost ns = engine_data::names(vips@);
        let mut i: usize = 0;
        proof {
            assert forall|p: Seq<char>| #[trigger]
                engine_state::owed_to(m0, p) =~= engine_state::owed_to(m0, p).union(
                    ns.take(0).to_set(),
                ) by {}
        }
        while i < vips.len()
            invariant
                i <= vips@.len(),
                ns == engine_data::names(vips@),
                is_owner == old(self).id.is_owner,
                m0 == old(self).sync.peer_pending_removals@,
                self.wf(),
                *self == (EngineState { sync: self.sync, ..*old(self) }),
                self.sync.peer_sync_state == old(self).sync.peer_sync_state,
                self.sync.msyn_applied_to_rev == old(self).sync.msyn_applied_to_rev,
                self.sync.next_msyn_sync_id == old(self).sync.next_msyn_sync_id,
                self.sync.last_after_join == old(self).sync.last_after_join,
                self.sync.pending_after_join == old(self).sync.pending_after_join,
                forall|k: int|
                    0 <= k < vips@.len() ==> old(self).routing.routes().dom().contains(
                        (#[trigger] vips@[k])@,
                    ) && old(self).routing.routes()[vips@[k]@].state is Stale,
                forall|p: Seq<char>| #[trigger]
                    engine_state::owed_to(self.sync.peer_pending_removals@, p) == if is_owner
                        && live(old(self).routing.routes(), p) {
                        engine_state::owed_to(m0, p).union(ns.take(i as int).to_set())
                    } else {
                        engine_state::owed_to(m0, p)
                    },
            decreases vips@.len() - i,
        {
            let ghost m1 = self.sync.peer_pending_removals@;
            self.sync.note_route_removed_for_sync(is_owner, &self.routing, &vips[i]);
            proof {
                let v = vips@[i as int]@;
                assert(ns[i as int] == v);
                assert(ns.take(i + 1) =~= ns.take(i as int).push(v));
                assert(ns.take(i + 1).to_set() =~= ns.take(i as int).to_set().insert(v)) by {
                    assert forall|x: Seq<char>| ns.take(i + 1).to_set().contains(x) <==> ns.take(
                        i as int,
                    ).to_set().insert(v).contains(x) by {
                        if ns.take(i as int).contains(x) {
                            let k = choose|k: int| 0 <= k < i && ns.take(i as int)[k] == x;
                            assert(ns.take(i + 1)[k] == x);
                        }
                        if x == v {
                            assert(ns.take(i + 1)[i as int] == x);
                        }
                    }
                }
                assert forall|p: Seq<char>| #[trigger]
                    engine_state::owed_to(self.sync.peer_pending_removals@, p) == if is_owner
                        && live(old(self).routing.routes(), p) {
                        engine_state::owed_to(m0, p).union(ns.take(i + 1).to_set())
                    } else {
                        engine_state::owed_to(m0, p)
                    } by {
                    assert(engine_state::owed_to(m1, p) == if is_owner && live(
                        old(self).routing.routes(),
                        p,
                    ) {
                        engine_state::owed_to(m0, p).union(ns.take(i as int).to_set())
                    } else {
                        engine_state::owed_to(m0, p)
                    });
                    if is_owner && live(old(self).routing.routes(), p) {
                        assert(p != v);
                        assert(engine_state::owed_to(m0, p).union(
                            ns.take(i as int).to_set(),
                        ).insert(v) =~= engine_state::owed_to(m0, p).union(
                            ns.take(i + 1).to_set(),
                        ));
                    }
                }
            }
            i += 1;
        }
        proof {
            assert(ns.take(ns.len() as int) =~= ns);
        }
    }

    /// Forgets how far peers were served that have no route.
    fn keep_served_routes(&mut self)
        requires
            old(self).wf(),
        ensures
            final(self).wf(),
            EngineState::same_session(*old(self), *final(self)),
            final(self).peers() == (Peers {
                served: old(self).peers().served.restrict(old(self).peers().routes.dom()),
                ..old(self).peers()
            }),
            final(self).routing == old(self).routing,
            final(self).crypto_keys == old(self).crypto_keys,
            final(self).sync.peer_pending_removals == old(self).sync.peer_pending_removals,
            final(self).sync.msyn_applied_to_rev == old(self).sync.msyn_applied_to_rev,
            final(self).sync.next_msyn_sync_id == old(self).sync.next_msyn_sync_id,
            final(self).sync.last_after_join == old(self).sync.last_after_join,
            final(self).sync.pending_after_join == old(self).sync.pending_after_join,
    {
        let rt: &RoutingTable = &self.routing;
        let ghost routes = rt.routes();
        let ghost s = self.sync.peer_sync_state.entries@;
        let ghost p = |e: (String, u64)| routes.dom().contains(e.0@);
        let f = |k: &String, t: &u64| -> (b: bool)
            requires
                rt.wf(),
            ensures
                b == rt.routes().dom().contains(k@),
            { rt.table.contains_key(k) };
        self.sync.peer_sync_state.retain_where(f, Ghost(p));
        proof {
            table::map_of_filter(s, p);
            let want = table::map_of(s).restrict(routes.dom());
            assert forall|k: Seq<char>|
                self.sync.peer_sync_state@.dom().contains(k) <==> want.dom().contains(k) by {
                if table::has_key(s.filter(p), k) {
                    let i = choose|i: int| #[trigger] table::key_at(s, k, i) && p(s[i]);
                    assert(table::has_key(s, k));
                }
                if want.dom().contains(k) {
                    let i = choose|i: int| table::key_at(s, k, i);
                    assert(table::key_at(s, k, i) && p(s[i]));
                }
            }
            assert(self.sync.peer_sync_state@ =~= want);
        }
    }

    /// Takes the peers out whose routes are stale and that were not heard for longer
    /// than `stale_age`. An owner notes for its other peers that they have to be
    /// told. Returns what has to be cleaned up outside.
    fn evict_victims(&mut self, now: u64, stale_age: u64) -> (out: Vec<RemovedPeer>)
        requires
            old(self).wf(),
        ensures
            final(self).wf(),
            EngineState::same_session(*old(self), *final(self)),
            engine_routes::removed_names(out@).no_duplicates(),
            forall|i: int|
                0 <= i < out@.len() ==> (#[trigger] out@[i])@ == engine_routes::removal_of(
                    old(self).routing.routes(),
                    out@[i].gone.vip@,
                ),
            forall|v: Seq<char>| #[trigger]
                engine_routes::removed_names(out@).contains(v) <==> victim(
                    old(self).routing.routes(),
                    v,
                    now,
                    stale_age,
                ),
            final(self).peers() == without_orphans(
                all_evicted(
                    old(self).peers(),
                    engine_routes::removed_names(out@),
                    out@.len(),
                ),
                old(self).id.owner_ep,
            ),
            forall|v: Seq<char>| #[trigger]
                final(self).routing.routes().dom().contains(v) <==> old(
                    self).routing.routes().dom().contains(v) && !victim(
                    old(self).routing.routes(),
                    v,
                    now,
                    stale_age,
                ),
            forall|v: Seq<char>| #[trigger]
                final(self).routing.routes().dom().contains(v) ==> final(self).routing.routes()[v]
                    == old(self).routing.routes()[v],
            forall|p: Seq<char>| #[trigger]
                engine_state::owed_to(final(self).sync.peer_pending_removals@, p) == if old(
                    self).id.is_owner && live(old(self).routing.routes(), p) {
                    engine_state::owed_to(old(self).sync.peer_pending_removals@, p).union(
                        engine_routes::removed_names(out@).to_set(),
                    )
                } else {
                    engine_state::owed_to(old(self).sync.peer_pending_removals@, p)
                },
            final(self).sync.msyn_applied_to_rev == old(self).sync.msyn_applied_to_rev,
            final(self).sync.next_msyn_sync_id == old(self).sync.next_msyn_sync_id,
            final(self).sync.last_after_join == old(self).sync.last_after_join,
            final(self).sync.pending_after_join == old(self).sync.pending_after_join,
            final(self).crypto_keys.primary == old(self).crypto_keys.primary,
            final(self).crypto_keys.extras == old(self).crypto_keys.extras,
            final(self).crypto_keys.next_id == old(self).crypto_keys.next_id,
    {
        let vips: Vec<String> = self.stale_victims(now, stale_age);
        let ghost ns = engine_data::names(vips@);
        proof {
            assert forall|i: int| 0 <= i < vips@.len() implies self.routing.routes().dom().contains(
                (#[trigger] vips@[i])@,
            ) && self.routing.routes()[vips@[i]@].state is Stale by {
                assert(ns[i] == vips@[i]@);
                assert(ns.contains(vips@[i]@));
            }
        }
        self.owe_removals(&vips);
        let ghost p0 = self.peers();
        let ghost mid = *self;
        let mut out: Vec<RemovedPeer> = Vec::new();
        let mut i: usize = 0;
        while i < vips.len()
            invariant
                i <= vips@.len(),
                ns == engine_data::names(vips@),
                self.wf(),
                EngineState::beyond_peers(mid, *self),
                self.peers() == all_evicted(p0, ns, i as nat),
                out@.len() == i,
                ns.no_duplicates(),
                engine_routes::removed_names(out@) =~= ns.take(i as int),
                forall|j: int|
                    0 <= j < i ==> (#[trigger] out@[j])@ == engine_routes::removal_of(
                        p0.routes,
                        out@[j].gone.vip@,
                    ),
            decreases vips@.len() - i,
        {
            let ghost o0 = out@;
            proof {
                other_routes_stay(p0, ns, i as nat);
                assert(!ns.take(i as int).contains(ns[i as int]));
                assert(ns[i as int] == vips@[i as int]@);
            }
            let r: RemovedPeer = self.evict_peer(&vips[i]);
            out.push(r);
            proof {
                assert(ns[i as int] == vips@[i as int]@);
                assert(engine_routes::removed_names(out@) =~= engine_routes::removed_names(
                    o0,
                ).push(ns[i as int]));
                assert(ns.take(i + 1) =~= ns.take(i as int).push(ns[i as int]));
            }
            i += 1;
        }
        proof {
            assert(ns.take(ns.len() as int) =~= ns);
            assert(engine_routes::removed_names(out@) == ns);
            other_routes_stay(p0, ns, ns.len());
        }
        self.keep_served_routes();
        let owner_ep: Option<Endpoint> = self.id.owner_ep;
        let ghost p1 = self.peers();
        self.crypto_keys.prune_per_peer_orphans(&self.routing, owner_ep);
        proof {
            let want = without_orphans(all_evicted(p0, ns, ns.len()), owner_ep);
            let b = self.peers().bound;
            assert forall|ep: Endpoint| #[trigger] b.dom().contains(ep) <==> want.bound.dom().contains(
                ep,
            ) by {
                let k = self.crypto_keys.bound(ep);
            }
            assert forall|ep: Endpoint| #[trigger] b.dom().contains(ep) implies b[ep]
                == want.bound[ep] by {
                let k = self.crypto_keys.bound(ep);
            }
            assert(b =~= want.bound);
            assert(self.peers() == want);
        }
        out
    }

    /// The routes of peers that were not heard for longer than `stale_mark` become
    /// stale; then those peers go whose routes are stale and that were not heard for
    /// longer than `stale_age`. An owner notes for its other peers that they have to be
    /// told. Returns what has to be cleaned up outside.
    pub fn evict_stale_routes(&mut self, now: u64, stale_mark: u64, stale_age: u64) -> (out: Vec<
        RemovedPeer,
    >)
        requires
            old(self).wf(),
        ensures
            final(self).wf(),
            EngineState::same_session(*old(self), *final(self)),
            engine_routes::removed_names(out@).no_duplicates(),
            forall|i: int|
                0 <= i < out@.len() ==> (#[trigger] out@[i])@ == engine_routes::removal_of(
                    routing::marked_stale(old(self).routing.routes(), now, stale_mark),
                    out@[i].gone.vip@,
                ),
            forall|v: Seq<char>| #[trigger]
                engine_routes::removed_names(out@).contains(v) <==> victim(
                    routing::marked_stale(old(self).routing.routes(), now, stale_mark),
                    v,
                    now,
                    stale_age,
                ),
            final(self).peers() == without_orphans(
                all_evicted(
                    silent_marked(old(self).peers(), now, stale_mark),
                    engine_routes::removed_names(out@),
                    out@.len(),
                ),
                old(self).id.owner_ep,
            ),
            forall|v: Seq<char>| #[trigger]
                final(self).routing.routes().dom().contains(v) <==> routing::marked_stale(old(self).routing.routes(), now, stale_mark).dom().contains(v) && !victim(
                    routing::marked_stale(old(self).routing.routes(), now, stale_mark),
                    v,
                    now,
                    stale_age,
                ),
            forall|v: Seq<char>| #[trigger]
                final(self).routing.routes().dom().contains(v) ==> final(self).routing.routes()[v]
                    == routing::marked_stale(old(self).routing.routes(), now, stale_mark)[v],
            forall|p: Seq<char>| #[trigger]
                engine_state::owed_to(final(self).sync.peer_pending_removals@, p) == if old(
                    self).id.is_owner && live(routing::marked_stale(old(self).routing.routes(), now, stale_mark), p) {
                    engine_state::owed_to(old(self).sync.peer_pending_removals@, p).union(
                        engine_routes::removed_names(out@).to_set(),
                    )
                } else {
                    engine_state::owed_to(old(self).sync.peer_pending_removals@, p)
                },
            final(self).sync.msyn_applied_to_rev == old(self).sync.msyn_applied_to_rev,
            final(self).sync.next_msyn_sync_id == old(self).sync.next_msyn_sync_id,
            final(self).sync.last_after_join == old(self).sync.last_after_join,
            final(self).sync.pending_after_join == old(self).sync.pending_after_join,
            final(self).crypto_keys.primary == old(self).crypto_keys.primary,
            final(self).crypto_keys.extras == old(self).crypto_keys.extras,
            final(self).crypto_keys.next_id == old(self).crypto_keys.next_id,
    {
        self.routing.mark_stale_if_idle(now, stale_mark);
        proof {
            assert(self.peers() =~= silent_marked(old(self).peers(), now, stale_mark));
        }
        self.evict_victims(now, stale_age)
    }
}

/// The route to `p` is there and not stale.
pub open spec fn live(routes: Map<Seq<char>, routing::RouteView>, p: Seq<char>) -> bool {
    routes.dom().contains(p) && !(routes[p].state is Stale)
}

/// A peer that was heard at `at` keeps its route as long as no more than `age` has
/// passed since, and that says when it was heard. Its route is stale only once more
/// than `mark` has passed.
pub proof fn heard_peers_stay(
    p: Peers,
    is_owner: bool,
    from: Endpoint,
    at: u64,
    now: u64,
    mark: u64,
    age: u64,
)
    requires
        p.vips.dom().contains(from),
        p.routes.dom().contains(p.vips[from]),
    ensures
        ({
            let v = p.vips[from];
            let q = engine_routes::heard(p, is_owner, from, at);
            let r = silent_marked(q, now, mark).routes;
            &&& q.routes.dom().contains(v) && q.routes[v].last_seen == at
            &&& !(q.routes[v].state is Stale)
            &&& r[v].state is Stale <==> engine_state::elapsed(now, at) > mark
            &&& victim(r, v, now, age) <==> engine_state::elapsed(now, at) > mark
                && engine_state::elapsed(now, at) > age
        }),
{
}

} // verus!
