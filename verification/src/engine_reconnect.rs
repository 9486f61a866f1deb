//! How the owner and other peers are reached anew when trackers announce
//! endpoints.

use crate::addr;
use crate::addr::Endpoint;
use crate::engine_state;
use crate::engine_state::EngineState;
use crate::engine_ticks;
use crate::engine_ticks::{
    bases_for, filter_decentralized_punch_targets, plan_peer_reconnect,
    reconnect_fastpath_owner_candidate,
};
use crate::punch_state;
use crate::punch_state::{
    FastpathState, PunchState, PunchView, DECENTRALIZED_RECONNECT_FASTPATH_KEY,
    PEER_RECONNECT_MAX_DISTINCT_KEYS, RECONNECT_FASTPATH_COOLDOWN_MS,
};
use crate::table;
use crate::table::NameSet;
use vstd::prelude::*;
use vstd::string::*;

verus! {

/// By what the attempt at endpoints that belong to no peer is known.
pub const UNBOUND: &'static str = "unbound";

/// What is known of this node when an announcement comes in.
#[derive(Clone, Copy)]
pub struct Searching {
    /// A join waits for its answer.
    pub join_waiting: bool,
    /// The search through trackers is on.
    pub active: bool,
    /// The owner can be reached where it is known to be.
    pub owner_healthy: bool,
}

/// An attempt to reach a peer, or endpoints that belong to none.
pub struct Reconnect {
    pub peer: Option<String>,
    pub bases: Vec<Endpoint>,
}

/// What an announcement leads to.
pub enum ReconnectPlan {
    Nothing,
    /// The owner can be reached: all attempts end.
    StopAll,
    Start(Vec<Reconnect>),
}

/// By what an attempt is known.
pub open spec fn name_of(r: Reconnect) -> Seq<char> {
    match r.peer {
        Some(p) => p@,
        None => UNBOUND@,
    }
}

/// An attempt by that name begins.
pub open spec fn begins(s: Seq<Reconnect>, n: Seq<char>) -> bool {
    exists|i: int| 0 <= i < s.len() && name_of(#[trigger] s[i]) == n
}

/// An attempt with that key begins.
pub open spec fn begins_key(s: Seq<Reconnect>, k: Seq<char>) -> bool {
    exists|i: int| 0 <= i < s.len() && punch_state::peer_key(name_of(#[trigger] s[i])) == k
}

/// Some peer has a route besides this node and the owner.
pub open spec fn has_other_peer(st: EngineState) -> bool {
    exists|v: Seq<char>| #[trigger]
        st.routing.routes().dom().contains(v) && v != st.id.my_vip@ && v != st.id.owner_vip_cached@
}

impl EngineState {
    fn has_non_owner_peer_vip_in_rt(&self) -> (b: bool)
        requires
            self.wf(),
        ensures
            b == has_other_peer(*self),
    {
        let ghost s = self.routing.table.entries@;
        let mut i: usize = 0;
        while i < self.routing.table.entries.len()
            invariant
                self.wf(),
                s == self.routing.table.entries@,
                i <= s.len(),
                forall|j: int|
                    0 <= j < i ==> (#[trigger] s[j]).0@ == self.id.my_vip@ || s[j].0@
                        == self.id.owner_vip_cached@,
            decreases s.len() - i,
        {
            let v: &String = &self.routing.table.entries[i].0;
            if *v != self.id.my_vip && *v != self.id.owner_vip_cached {
                proof {
                    table::map_of_at(s, i as int);
                    assert(self.routing.routes().dom().contains(s[i as int].0@));
                }
                return true;
            }
            i += 1;
        }
        proof {
            if has_other_peer(*self) {
                let v = choose|v: Seq<char>| #[trigger]
                    self.routing.routes().dom().contains(v) && v != self.id.my_vip@ && v
                        != self.id.owner_vip_cached@;
                let j = choose|j: int| table::key_at(s, v, j);
                assert(s[j].0@ == v);
            }
        }
        false
    }

    /// Where the owner is tried anew: at the first announced endpoint that may be
    /// its new one, unless that one was tried a moment ago or is in use.
    pub fn try_reconnect_fastpath_from_announce(
        &self,
        p: &mut PunchState,
        s: Searching,
        hint: Option<Endpoint>,
        peers: &Vec<Endpoint>,
        now: u64,
    ) -> (out: Option<Endpoint>)
        requires
            self.wf(),
            old(p).wf(),
        ensures
            final(p).wf(),
            match fastpath_candidate(*self, s, hint, peers@) {
                Some(c) => {
                    let last = old(p)@.fastpath;
                    let go = !(last.last_ep == Some(c) && last.last_at is Some
                        && engine_state::elapsed(now, last.last_at->0)
                        < RECONNECT_FASTPATH_COOLDOWN_MS);
                    &&& out == if go && engine_ticks::punchable(self.routing, c) {
                        Some(c)
                    } else {
                        None
                    }
                    &&& final(p)@ == PunchView {
                        fastpath: if go {
                            FastpathState { last_ep: Some(c), last_at: Some(now) }
                        } else {
                            last
                        },
                        running: if out is Some {
                            old(p)@.running.insert(DECENTRALIZED_RECONNECT_FASTPATH_KEY@)
                        } else {
                            old(p)@.running
                        },
                        ..old(p)@
                    }
                },
                None => out is None && final(p)@ == old(p)@,
            },
    {
        if s.join_waiting || !s.active || self.id.is_owner || s.owner_healthy {
            return None;
        }
        let owner: Endpoint = match self.owner_send_endpoint() {
            Some(e) => e,
            None => {
                return None;
            },
        };
        let c: Endpoint = match reconnect_fastpath_owner_candidate(owner, hint, peers) {
            Some(c) => c,
            None => {
                return None;
            },
        };
        if !p.fastpath.try_candidate(c, now) {
            return None;
        }
        let mut one: Vec<Endpoint> = Vec::new();
        one.push(c);
        let left: Vec<Endpoint> = filter_decentralized_punch_targets(&self.routing, &one);
        proof {
            let keep = |e: Endpoint| engine_ticks::punchable(self.routing, e);
            reveal_with_fuel(Seq::filter, 2);
            assert(one@.drop_last().filter(keep) =~= Seq::<Endpoint>::empty());
            assert(left@ == one@.filter(keep));
        }
        if left.len() == 0 {
            return None;
        }
        p.start_punch_workflow_key(DECENTRALIZED_RECONNECT_FASTPATH_KEY.to_owned());
        Some(c)
    }
}

/// The attempt is at endpoints that were looked at and have to be tried for its
/// peer, or for none, and at all of them.
pub open spec fn aims_right(st: EngineState, seen: Seq<Endpoint>, r: Reconnect) -> bool {
    let my = st.id.my_vip@;
    let owner = st.id.owner_vip_cached@;
    &&& r.bases@.len() > 0
    &&& addr::ascending(r.bases@)
    &&& forall|e: Endpoint| #[trigger]
        r.bases@.contains(e) <==> seen.contains(e) && match r.peer {
            Some(p) => engine_ticks::tried_for(st.routing, my, owner, e, p@),
            None => engine_ticks::tried_unbound(st.routing, my, owner, e),
        }
}

/// Some endpoint that was looked at has to be tried for the peer `v`.
pub open spec fn wanted(st: EngineState, seen: Seq<Endpoint>, v: Seq<char>) -> bool {
    exists|e: Endpoint|
        seen.contains(e) && #[trigger] engine_ticks::tried_for(
            st.routing,
            st.id.my_vip@,
            st.id.owner_vip_cached@,
            e,
            v,
        )
}

/// Some endpoint that was looked at has to be tried, and belongs to no peer.
pub open spec fn wanted_unbound(st: EngineState, seen: Seq<Endpoint>) -> bool {
    exists|e: Endpoint|
        seen.contains(e) && #[trigger] engine_ticks::tried_unbound(
            st.routing,
            st.id.my_vip@,
            st.id.owner_vip_cached@,
            e,
        )
}

/// An attempt that was wanted begins, unless the last one is not long past or too
/// many run.
pub open spec fn begins_or_waits(
    pre: PunchView,
    post: PunchView,
    started: Seq<Reconnect>,
    n: Seq<char>,
    now: u64,
) -> bool {
    ||| begins(started, n)
    ||| punch_state::resting(pre.began, n, now)
    ||| !pre.running.contains(punch_state::peer_key(n)) && punch_state::peer_keys(
        post.running,
    ).len() >= PEER_RECONNECT_MAX_DISTINCT_KEYS
}

/// No attempt begins that rests, and no more run than may run, or ran before.
pub open spec fn held_back(
    pre: PunchView,
    post: PunchView,
    started: Seq<Reconnect>,
    now: u64,
) -> bool {
    let before = punch_state::peer_keys(pre.running).len();
    let after = punch_state::peer_keys(post.running).len();
    &&& forall|n: Seq<char>| #[trigger]
        begins(started, n) ==> !punch_state::resting(pre.began, n, now)
    &&& after <= PEER_RECONNECT_MAX_DISTINCT_KEYS || after <= before
}

/// The attempts `started` were noted, and nothing else changed.
pub open spec fn noted(pre: PunchView, post: PunchView, started: Seq<Reconnect>, now: u64) -> bool {
    &&& forall|k: Seq<char>| #[trigger]
        post.running.contains(k) <==> pre.running.contains(k) || begins_key(started, k)
    &&& forall|n: Seq<char>| #[trigger]
        post.began.dom().contains(n) <==> pre.began.dom().contains(n) || begins(started, n)
    &&& forall|n: Seq<char>| #[trigger]
        post.began.dom().contains(n) ==> post.began[n] == if begins(started, n) {
            now
        } else {
            pre.began[n]
        }
    &&& post.fastpath == pre.fastpath
    &&& post.announced == pre.announced
}

/// One more attempt was noted.
proof fn noted_one_more(
    pre: PunchView,
    mid: PunchView,
    post: PunchView,
    started: Seq<Reconnect>,
    r: Reconnect,
    now: u64,
)
    requires
        noted(pre, mid, started, now),
        held_back(pre, mid, started, now),
        !begins(started, name_of(r)),
        mid.running.finite(),
        punch_state::has_room(mid.running, name_of(r)),
        !punch_state::resting(mid.began, name_of(r), now),
        post == (PunchView {
            running: mid.running.insert(punch_state::peer_key(name_of(r))),
            began: mid.began.insert(name_of(r), now),
            ..mid
        }),
    ensures
        noted(pre, post, started.push(r), now),
        held_back(pre, post, started.push(r), now),
        forall|n: Seq<char>| #[trigger]
            begins(started.push(r), n) <==> begins(started, n) || n == name_of(r),
{
    let t = started.push(r);
    let key = punch_state::peer_key(name_of(r));
    assert forall|n: Seq<char>| #[trigger] begins(t, n) <==> begins(started, n) || n == name_of(
        r,
    ) by {
        if begins(started, n) {
            let i = choose|i: int| 0 <= i < started.len() && name_of(#[trigger] started[i]) == n;
            assert(name_of(t[i]) == n);
        }
        if n == name_of(r) {
            assert(name_of(t[started.len() as int]) == n);
        }
        if begins(t, n) {
            let i = choose|i: int| 0 <= i < t.len() && name_of(#[trigger] t[i]) == n;
            if i < started.len() {
                assert(name_of(started[i]) == n);
            }
        }
    }
    assert forall|k: Seq<char>| #[trigger] begins_key(t, k) <==> begins_key(started, k) || k
        == key by {
        if begins_key(started, k) {
            let i = choose|i: int|
                0 <= i < started.len() && punch_state::peer_key(name_of(#[trigger] started[i]))
                    == k;
            assert(punch_state::peer_key(name_of(t[i])) == k);
        }
        if k == key {
            assert(punch_state::peer_key(name_of(t[started.len() as int])) == k);
        }
        if begins_key(t, k) {
            let i = choose|i: int|
                0 <= i < t.len() && punch_state::peer_key(name_of(#[trigger] t[i])) == k;
            if i < started.len() {
                assert(punch_state::peer_key(name_of(started[i])) == k);
            }
        }
    }
    assert forall|n: Seq<char>| #[trigger] begins(t, n) implies !punch_state::resting(
        pre.began,
        n,
        now,
    ) by {
        if n == name_of(r) {
            assert(mid.began.dom().contains(n) == pre.began.dom().contains(n));
        } else {
            assert(begins(started, n));
        }
    }
    punch_state::reconnects_bounded(mid.running, name_of(r));
}

/// The announced endpoint at which the owner may be reached anew, where it cannot
/// be reached otherwise.
pub open spec fn fastpath_candidate(
    st: EngineState,
    s: Searching,
    hint: Option<Endpoint>,
    peers: Seq<Endpoint>,
) -> Option<Endpoint> {
    let owner = engine_state::owner_endpoint_of(st.id@, st.routing.routes());
    if s.join_waiting || !s.active || st.id.is_owner || s.owner_healthy || owner is None {
        None
    } else {
        engine_ticks::lookalike_from(owner->0, hint, peers, 0)
    }
}

/// An attempt that was noted or had to wait stays so when one more is noted.
proof fn still_begins_or_waits(
    pre: PunchView,
    mid: PunchView,
    post: PunchView,
    started: Seq<Reconnect>,
    r: Reconnect,
    n: Seq<char>,
    now: u64,
)
    requires
        begins_or_waits(pre, mid, started, n, now),
        mid.running.finite(),
        post.running == mid.running.insert(punch_state::peer_key(name_of(r))),
    ensures
        begins_or_waits(pre, post, started.push(r), n, now),
{
    if begins(started, n) {
        let i = choose|i: int| 0 <= i < started.len() && name_of(#[trigger] started[i]) == n;
        assert(name_of(started.push(r)[i]) == n);
    }
    punch_state::peer_keys_grow(mid.running, punch_state::peer_key(name_of(r)));
}

/// The names of the attempts are all different.
pub open spec fn names_differ(s: Seq<Reconnect>) -> bool {
    forall|i: int, j: int|
        0 <= i < j < s.len() ==> name_of(#[trigger] s[i]) != name_of(#[trigger] s[j])
}

/// When other peers are not reached anew.
pub open spec fn keeps_quiet(st: EngineState, s: Searching) -> bool {
    s.join_waiting || !s.active || st.id.is_owner || !has_other_peer(st) || !st.crypto_keys.any()
}

/// The owner is known, and can be reached.
pub open spec fn owner_reached(st: EngineState, s: Searching) -> bool {
    engine_state::owner_endpoint_of(st.id@, st.routing.routes()) is Some && s.owner_healthy
}

impl EngineState {
    /// Which peers are reached anew after an announcement, and where: those whose
    /// route leads elsewhere, while the owner cannot be reached.
    #[verifier::rlimit(40)]
    pub fn try_peer_reconnect_from_announce(
        &self,
        p: &mut PunchState,
        s: Searching,
        peers: &Vec<Endpoint>,
        now: u64,
    ) -> (out: ReconnectPlan)
        requires
            self.wf(),
            old(p).wf(),
        ensures
            final(p).wf(),
            out is Nothing == keeps_quiet(*self, s),
            out is StopAll == (!keeps_quiet(*self, s) && owner_reached(*self, s)),
            out is Nothing ==> final(p)@ == old(p)@,
            out is StopAll ==> final(p)@ == punch_state::peers_stopped(old(p)@),
            out matches ReconnectPlan::Start(started) ==> {
                let seen = engine_ticks::looked_at(
                    peers@,
                    engine_state::owner_endpoint_of(self.id@, self.routing.routes()),
                );
                &&& forall|i: int|
                    0 <= i < started@.len() ==> aims_right(*self, seen, #[trigger] started@[i])
                &&& names_differ(started@)
                &&& noted(old(p)@, final(p)@, started@, now)
                &&& held_back(old(p)@, final(p)@, started@, now)
                &&& forall|v: Seq<char>| #[trigger]
                    wanted(*self, seen, v) ==> begins_or_waits(
                        old(p)@,
                        final(p)@,
                        started@,
                        v,
                        now,
                    )
                &&& wanted_unbound(*self, seen) ==> begins_or_waits(
                    old(p)@,
                    final(p)@,
                    started@,
                    UNBOUND@,
                    now,
                )
            },
    {
        if s.join_waiting || !s.active || self.id.is_owner {
            return ReconnectPlan::Nothing;
        }
        if !self.has_non_owner_peer_vip_in_rt() || !self.has_crypto() {
            return ReconnectPlan::Nothing;
        }
        let owner: Option<Endpoint> = self.owner_send_endpoint();
        if owner.is_some() && s.owner_healthy {
            p.stop_all_peer_reconnect_workflows();
            return ReconnectPlan::StopAll;
        }
        let (pairs, unbound): (Vec<(String, Endpoint)>, Vec<Endpoint>) = plan_peer_reconnect(
            &self.routing,
            &self.id.my_vip,
            &self.id.owner_vip_cached,
            owner,
            peers,
        );
        let ghost seen = engine_ticks::looked_at(peers@, owner);
        let ghost my = self.id.my_vip@;
        let ghost ov = self.id.owner_vip_cached@;
        let mut started: Vec<Reconnect> = Vec::new();
        let mut done: NameSet = NameSet::new();
        let mut i: usize = 0;
        proof {
            assert forall|n: Seq<char>| !begins(started@, n) by {}
        }
        while i < pairs.len()
            invariant
                i <= pairs@.len(),
                p.wf(),
                done.wf(),
                my == self.id.my_vip@,
                ov == self.id.owner_vip_cached@,
                forall|k: int|
                    0 <= k < pairs@.len() ==> seen.contains((#[trigger] pairs@[k]).1)
                        && engine_ticks::tried_for(
                        self.routing,
                        my,
                        ov,
                        pairs@[k].1,
                        pairs@[k].0@,
                    ),
                forall|e: Endpoint, v: Seq<char>|
                    seen.contains(e) && #[trigger] engine_ticks::tried_for(
                        self.routing,
                        my,
                        ov,
                        e,
                        v,
                    ) ==> engine_ticks::pair_in(pairs@, v, e),
                forall|k: int| 0 <= k < i ==> done@.contains((#[trigger] pairs@[k]).0@),
                noted(old(p)@, p@, started@, now),
                held_back(old(p)@, p@, started@, now),
                names_differ(started@),
                forall|j: int|
                    0 <= j < started@.len() ==> aims_right(*self, seen, #[trigger] started@[j])
                        && done@.contains(name_of(started@[j])),
                forall|n: Seq<char>| #[trigger]
                    done@.contains(n) ==> begins_or_waits(old(p)@, p@, started@, n, now),
            decreases pairs@.len() - i,
        {
            let vip: &String = &pairs[i].0;
            if !done.contains(vip) {
                let ghost d0 = done@;
                let _ = done.insert(vip.clone());
                let bases: Vec<Endpoint> = bases_for(&pairs, vip);
                proof {
                    assert(engine_ticks::pair_in(pairs@, vip@, pairs@[i as int].1));
                    assert(bases@.contains(pairs@[i as int].1));
                    assert(bases@.len() > 0);
                    if begins(started@, vip@) {
                        let j = choose|j: int|
                            0 <= j < started@.len() && name_of(#[trigger] started@[j]) == vip@;
                        assert(d0.contains(name_of(started@[j])));
                    }
                    assert(!begins(started@, vip@));
                    table::map_of_len(p.running.names.entries@);
                }
                let ghost mid = p@;
                if p.begin_peer_reconnect(vip, bases.len(), now) {
                    let r = Reconnect { peer: Some(vip.clone()), bases };
                    proof {
                        assert(name_of(r) == vip@);
                        assert forall|e: Endpoint| #[trigger] bases@.contains(e) <==> seen.contains(
                            e,
                        ) && engine_ticks::tried_for(self.routing, my, ov, e, vip@) by {
                            if bases@.contains(e) {
                                let k = choose|k: int|
                                    0 <= k < pairs@.len() && (#[trigger] pairs@[k]).0@ == vip@
                                        && pairs@[k].1 == e;
                                assert(seen.contains(pairs@[k].1));
                            }
                        }
                        assert(aims_right(*self, seen, r));
                        noted_one_more(old(p)@, mid, p@, started@, r, now);
                        assert forall|n: Seq<char>| #[trigger] done@.contains(
                            n,
                        ) implies begins_or_waits(old(p)@, p@, started@.push(r), n, now) by {
                            if n != vip@ {
                                assert(d0.contains(n));
                                still_begins_or_waits(
                                    old(p)@,
                                    mid,
                                    p@,
                                    started@,
                                    r,
                                    n,
                                    now,
                                );
                            }
                        }
                        let t = started@.push(r);
                        assert forall|a: int, b: int| 0 <= a < b < t.len() implies name_of(
                            #[trigger] t[a],
                        ) != name_of(#[trigger] t[b]) by {
                            if b == started@.len() {
                                assert(name_of(started@[a]) != vip@) by {
                                    if name_of(started@[a]) == vip@ {
                                        assert(begins(started@, vip@));
                                    }
                                }
                            }
                        }
                    }
                    started.push(r);
                }
            }
            i += 1;
        }
        proof {
            assert forall|v: Seq<char>| #[trigger] wanted(*self, seen, v) implies begins_or_waits(
                old(p)@,
                p@,
                started@,
                v,
                now,
            ) by {
                let e = choose|e: Endpoint|
                    seen.contains(e) && #[trigger] engine_ticks::tried_for(
                        self.routing,
                        my,
                        ov,
                        e,
                        v,
                    );
                let k = choose|k: int|
                    0 <= k < pairs@.len() && (#[trigger] pairs@[k]).0@ == v && pairs@[k].1 == e;
                assert(done@.contains(pairs@[k].0@));
            }
        }
        if unbound.len() > 0 {
            let name: String = UNBOUND.to_owned();
            let ghost mid = p@;
            proof {
                table::map_of_len(p.running.names.entries@);
            }
            if p.begin_peer_reconnect(&name, unbound.len(), now) {
                let r = Reconnect { peer: None, bases: unbound };
                proof {
                    assert(aims_right(*self, seen, r));
                    noted_one_more(old(p)@, mid, p@, started@, r, now);
                    assert forall|v: Seq<char>| #[trigger] wanted(
                        *self,
                        seen,
                        v,
                    ) implies begins_or_waits(old(p)@, p@, started@.push(r), v, now) by {
                        still_begins_or_waits(old(p)@, mid, p@, started@, r, v, now);
                    }
                    let t = started@.push(r);
                    assert forall|a: int, b: int| 0 <= a < b < t.len() implies name_of(
                        #[trigger] t[a],
                    ) != name_of(#[trigger] t[b]) by {
                        if b == started@.len() {
                            if name_of(started@[a]) == name@ {
                                assert(begins(started@, name@));
                                assert(mid.began.dom().contains(name@));
                                assert(mid.began[name@] == now);
                            }
                        }
                    }
                }
                started.push(r);
            } else {
                proof {
                    if begins(started@, name@) {
                    } else {
                        assert(mid.began.dom().contains(name@) == old(p)@.began.dom().contains(
                            name@,
                        ));
                        assert(old(p)@.running.contains(punch_state::peer_key(name@))
                            ==> mid.running.contains(punch_state::peer_key(name@)));
                    }
                }
            }
        } else {
            proof {
                if wanted_unbound(*self, seen) {
                    let e = choose|e: Endpoint|
                        seen.contains(e) && #[trigger] engine_ticks::tried_unbound(
                            self.routing,
                            my,
                            ov,
                            e,
                        );
                    assert(unbound@.contains(e));
                }
            }
        }
        ReconnectPlan::Start(started)
    }
}

} // verus!
