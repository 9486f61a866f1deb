//! The punch workflows that run, by key, and what is remembered of the attempts
//! to reach peers anew.

use crate::addr::Endpoint;
use crate::engine_state;
use crate::engine_state::since;
use crate::table;
use crate::table::{Key, NameSet, Table};
use crate::text::chars_of;
use vstd::prelude::*;
use vstd::string::*;

verus! {

/// The key of the punches at endpoints that trackers announced.
pub const DECENTRALIZED_PUNCH_KEY: &'static str = "decentralized";

/// The key of the punches while a join waits for its answer.
pub const DECENTRALIZED_JOIN_OVERLAY_KEY: &'static str = "decentralized-join-overlay";

/// The key of the punches at a new endpoint of the owner.
pub const DECENTRALIZED_RECONNECT_FASTPATH_KEY: &'static str = "decentralized-reconnect-fastpath";

/// What the key of an attempt to reach a peer begins with.
pub const PEER_RECONNECT_KEY_PREFIX: &'static str = "peer-reconnect:";

/// How many peers are reached anew at once.
pub const PEER_RECONNECT_MAX_DISTINCT_KEYS: usize = 4;

/// How long the same peer is left alone then, in milliseconds.
pub const PEER_RECONNECT_COOLDOWN_MS: u64 = 30_000;

/// How long the same endpoint of the owner is left alone, in milliseconds.
pub const RECONNECT_FASTPATH_COOLDOWN_MS: u64 = 30_000;

/// `k` is the key of an attempt to reach a peer.
pub open spec fn is_peer_key(k: Seq<char>) -> bool {
    PEER_RECONNECT_KEY_PREFIX@.is_prefix_of(k)
}

/// The key of the attempt to reach `peer`.
pub open spec fn peer_key(peer: Seq<char>) -> Seq<char> {
    PEER_RECONNECT_KEY_PREFIX@ + peer
}

/// `k` is the key of a workflow that the search through trackers starts.
pub open spec fn is_search_key(k: Seq<char>) -> bool {
    ||| k == DECENTRALIZED_PUNCH_KEY@
    ||| k == DECENTRALIZED_JOIN_OVERLAY_KEY@
    ||| k == DECENTRALIZED_RECONNECT_FASTPATH_KEY@
    ||| is_peer_key(k)
}

/// The attempts to reach peers among the workflows.
pub open spec fn peer_keys(s: Set<Seq<char>>) -> Set<Seq<char>> {
    s.filter(|k: Seq<char>| is_peer_key(k))
}

/// The workflows that are no attempts to reach peers.
pub open spec fn without_peers(s: Set<Seq<char>>) -> Set<Seq<char>> {
    s.filter(|k: Seq<char>| !is_peer_key(k))
}

/// The workflows that the search did not start.
pub open spec fn without_search(s: Set<Seq<char>>) -> Set<Seq<char>> {
    s.filter(|k: Seq<char>| !is_search_key(k))
}

/// Different peers have different keys, all of them keys of attempts.
pub proof fn peer_keys_differ(a: Seq<char>, b: Seq<char>)
    ensures
        is_peer_key(peer_key(a)),
        peer_key(a) == peer_key(b) ==> a == b,
{
    let n = PEER_RECONNECT_KEY_PREFIX@.len() as int;
    assert(peer_key(a).subrange(0, n) =~= PEER_RECONNECT_KEY_PREFIX@);
    assert(peer_key(a).skip(n) =~= a);
    assert(peer_key(b).skip(n) =~= b);
}

/// An attempt that already ran, or that has room, leaves no more attempts than
/// there may be, unless there were more before.
pub proof fn reconnects_bounded(running: Set<Seq<char>>, peer: Seq<char>)
    requires
        running.finite(),
        running.contains(peer_key(peer)) || peer_keys(running).len()
            < PEER_RECONNECT_MAX_DISTINCT_KEYS,
    ensures
        peer_keys(running.insert(peer_key(peer))).len() <= if peer_keys(running).len()
            > PEER_RECONNECT_MAX_DISTINCT_KEYS {
            peer_keys(running).len()
        } else {
            PEER_RECONNECT_MAX_DISTINCT_KEYS as nat
        },
{
    let k = peer_key(peer);
    peer_keys_differ(peer, peer);
    running.lemma_len_filter(|k: Seq<char>| is_peer_key(k));
    if running.contains(k) {
        assert(running.insert(k) =~= running);
    } else {
        assert(peer_keys(running.insert(k)) =~= peer_keys(running).insert(k));
    }
}

/// More workflows hold no fewer attempts to reach peers.
pub proof fn peer_keys_grow(s: Set<Seq<char>>, k: Seq<char>)
    requires
        s.finite(),
    ensures
        peer_keys(s).len() <= peer_keys(s.insert(k)).len(),
{
    s.insert(k).lemma_len_filter(|k: Seq<char>| is_peer_key(k));
    assert(peer_keys(s).subset_of(peer_keys(s.insert(k))));
    vstd::set_lib::lemma_len_subset(peer_keys(s), peer_keys(s.insert(k)));
}

/// The last attempt to reach the owner at a new endpoint.
pub struct FastpathState {
    pub last_ep: Option<Endpoint>,
    pub last_at: Option<u64>,
}

/// No attempt to reach the owner at a new endpoint was made.
pub open spec fn fastpath_unused() -> FastpathState {
    FastpathState { last_ep: None, last_at: None }
}

impl FastpathState {
    /// Whether the owner is tried at `candidate` now; then that is noted.
    pub fn try_candidate(&mut self, candidate: Endpoint, now: u64) -> (go: bool)
        ensures
            go == !(old(self).last_ep == Some(candidate) && old(self).last_at is Some
                && engine_state::elapsed(now, old(self).last_at->0)
                < RECONNECT_FASTPATH_COOLDOWN_MS),
            *final(self) == if go {
                FastpathState { last_ep: Some(candidate), last_at: Some(now) }
            } else {
                *old(self)
            },
    {
        let same: bool = match self.last_ep {
            Some(e) => e == candidate,
            None => false,
        };
        if same {
            if let Some(at) = self.last_at {
                if since(now, at) < RECONNECT_FASTPATH_COOLDOWN_MS {
                    return false;
                }
            }
        }
        self.last_ep = Some(candidate);
        self.last_at = Some(now);
        true
    }
}

/// The punch workflows, and what is remembered of the attempts to reach peers.
pub struct PunchState {
    /// The workflows that run, by key.
    pub running: NameSet,
    /// When an attempt last began, by peer.
    pub began: Table<String, u64>,
    pub fastpath: FastpathState,
    /// The peers that were announced while a join waited for its answer.
    pub join_overlay_last_peers: Table<Endpoint, ()>,
}

/// The value of a [`PunchState`].
#[verifier::ext_equal]
pub struct PunchView {
    pub running: Set<Seq<char>>,
    pub began: Map<Seq<char>, u64>,
    pub fastpath: FastpathState,
    pub announced: Set<Endpoint>,
}

impl View for PunchState {
    type V = PunchView;

    open spec fn view(&self) -> PunchView {
        PunchView {
            running: self.running@,
            began: self.began@,
            fastpath: self.fastpath,
            announced: self.join_overlay_last_peers@.dom(),
        }
    }
}

/// Nothing runs, and nothing is remembered.
pub open spec fn no_punches() -> PunchView {
    PunchView {
        running: Set::empty(),
        began: Map::empty(),
        fastpath: fastpath_unused(),
        announced: Set::empty(),
    }
}

/// All attempts to reach peers end, and none rests.
pub open spec fn peers_stopped(p: PunchView) -> PunchView {
    PunchView { running: without_peers(p.running), began: Map::empty(), ..p }
}

/// The search begins anew: the punches of the last one end.
pub open spec fn search_restarted(p: PunchView) -> PunchView {
    PunchView {
        running: p.running.remove(DECENTRALIZED_PUNCH_KEY@).remove(
            DECENTRALIZED_RECONNECT_FASTPATH_KEY@,
        ),
        fastpath: fastpath_unused(),
        ..p
    }
}

/// The search ends, with all that it started.
pub open spec fn search_stopped(p: PunchView) -> PunchView {
    PunchView { running: without_search(p.running), ..no_punches() }
}

/// The join was answered: the punches for it end.
pub open spec fn join_done(p: PunchView) -> PunchView {
    PunchView {
        running: p.running.remove(DECENTRALIZED_JOIN_OVERLAY_KEY@).remove(
            DECENTRALIZED_RECONNECT_FASTPATH_KEY@,
        ),
        announced: Set::empty(),
        ..p
    }
}

/// Whatever the search did, a workflow that it did not start goes on, and none of
/// its own is left once it ended.
pub proof fn search_leaves_others_alone(p: PunchView, k: Seq<char>)
    ensures
        !is_search_key(k) ==> {
            &&& search_restarted(p).running.contains(k) == p.running.contains(k)
            &&& join_done(p).running.contains(k) == p.running.contains(k)
            &&& peers_stopped(p).running.contains(k) == p.running.contains(k)
            &&& search_stopped(p).running.contains(k) == p.running.contains(k)
        },
        is_search_key(k) ==> !search_stopped(p).running.contains(k),
        search_stopped(search_stopped(p)) == search_stopped(p),
{
    let q = search_stopped(p);
    assert(search_stopped(q) =~= q);
}

/// The last attempt for that peer is not long past.
pub open spec fn resting(began: Map<Seq<char>, u64>, n: Seq<char>, now: u64) -> bool {
    began.dom().contains(n) && engine_state::elapsed(now, began[n]) < PEER_RECONNECT_COOLDOWN_MS
}

/// There is room for an attempt at that peer.
pub open spec fn has_room(running: Set<Seq<char>>, n: Seq<char>) -> bool {
    running.contains(peer_key(n)) || peer_keys(running).len() < PEER_RECONNECT_MAX_DISTINCT_KEYS
}

/// Whether `k` is the key of an attempt to reach a peer.
fn begins_as_peer_key(k: &String) -> (b: bool)
    ensures
        b == is_peer_key(k@),
{
    let p: Vec<char> = chars_of(PEER_RECONNECT_KEY_PREFIX);
    let c: Vec<char> = chars_of(k.as_str());
    if c.len() < p.len() {
        return false;
    }
    let mut i: usize = 0;
    while i < p.len()
        invariant
            i <= p@.len() <= c@.len(),
            p@ == PEER_RECONNECT_KEY_PREFIX@,
            c@ == k@,
            forall|j: int| 0 <= j < i ==> p@[j] == c@[j],
        decreases p@.len() - i,
    {
        if p[i] != c[i] {
            proof {
                assert(k@.subrange(0, p@.len() as int)[i as int] == c@[i as int]);
            }
            return false;
        }
        i += 1;
    }
    proof {
        assert(p@ =~= k@.subrange(0, p@.len() as int));
    }
    true
}

/// Writes the key of the attempt to reach `peer`.
fn peer_key_text(peer: &String) -> (out: String)
    ensures
        out@ == peer_key(peer@),
{
    let mut out: String = PEER_RECONNECT_KEY_PREFIX.to_owned();
    out.append(peer.as_str());
    out
}

impl PunchState {
    pub open spec fn wf(&self) -> bool {
        &&& self.running.wf()
        &&& self.began.wf()
        &&& self.join_overlay_last_peers.wf()
    }

    pub fn new() -> (out: Self)
        ensures
            out.wf(),
            out@ == no_punches(),
    {
        let out = PunchState {
            running: NameSet::new(),
            began: Table::new(),
            fastpath: FastpathState { last_ep: None, last_at: None },
            join_overlay_last_peers: Table::new(),
        };
        proof {
            assert(out@ =~= no_punches());
        }
        out
    }

    /// A workflow starts. One with the same key ends.
    pub fn start_punch_workflow_key(&mut self, key: String)
        requires
            old(self).wf(),
        ensures
            final(self).wf(),
            final(self)@ == (PunchView {
                running: old(self)@.running.insert(key@),
                ..old(self)@
            }),
    {
        let _ = self.running.insert(key);
    }

    /// A workflow ends. Tells whether it ran.
    pub fn stop_punch_workflow_key(&mut self, key: &String) -> (was: bool)
        requires
            old(self).wf(),
        ensures
            final(self).wf(),
            was == old(self)@.running.contains(key@),
            final(self)@ == (PunchView {
                running: old(self)@.running.remove(key@),
                ..old(self)@
            }),
    {
        self.running.remove(key)
    }

    /// How many attempts to reach peers run.
    pub fn distinct_peer_reconnect_key_count(&self) -> (n: usize)
        requires
            self.wf(),
        ensures
            n == peer_keys(self@.running).len(),
    {
        let ghost s = self.running.names.entries@;
        let ghost mut seen: Set<Seq<char>> = Set::empty();
        let mut n: usize = 0;
        let mut i: usize = 0;
        while i < self.running.names.entries.len()
            invariant
                s == self.running.names.entries@,
                table::distinct_keys(s),
                n <= i <= s.len(),
                seen.finite(),
                n == seen.len(),
                forall|v: Seq<char>| #[trigger]
                    seen.contains(v) <==> is_peer_key(v) && exists|j: int|
                        0 <= j < i && (#[trigger] s[j]).0@ == v,
            decreases s.len() - i,
        {
            let k: &String = &self.running.names.entries[i].0;
            let ghost before = seen;
            if begins_as_peer_key(k) {
                proof {
                    if before.contains(k@) {
                        let j = choose|j: int| 0 <= j < i && (#[trigger] s[j]).0@ == k@;
                        assert(s[j].0.id() != s[i as int].0.id());
                    }
                    seen = before.insert(k@);
                }
                n += 1;
            }
            proof {
                assert forall|v: Seq<char>| #[trigger] seen.contains(v) <==> is_peer_key(v)
                    && exists|j: int| 0 <= j < i + 1 && (#[trigger] s[j]).0@ == v by {
                    assert(s[i as int].0@ == k@);
                    if before.contains(v) {
                        let j = choose|j: int| 0 <= j < i && (#[trigger] s[j]).0@ == v;
                        assert(s[j].0@ == v);
                    }
                }
            }
            i += 1;
        }
        proof {
            assert forall|v: Seq<char>| #[trigger] seen.contains(v) <==> peer_keys(
                self@.running,
            ).contains(v) by {
                if seen.contains(v) {
                    let j = choose|j: int| 0 <= j < s.len() && (#[trigger] s[j]).0@ == v;
                    table::map_of_at(s, j);
                }
                if peer_keys(self@.running).contains(v) {
                    let j = choose|j: int| table::key_at(s, v, j);
                    assert(s[j].0@ == v);
                }
            }
            assert(seen =~= peer_keys(self@.running));
        }
        n
    }

    /// Whether `peer` is tried now: there is an endpoint to try, there is room
    /// among the attempts, and the last one is long past. Then it is noted.
    pub fn begin_peer_reconnect(&mut self, peer: &String, bases: usize, now: u64) -> (go: bool)
        requires
            old(self).wf(),
        ensures
            final(self).wf(),
            go == (bases > 0 && has_room(old(self)@.running, peer@) && !resting(
                old(self)@.began,
                peer@,
                now,
            )),
            final(self)@ == if go {
                PunchView {
                    running: old(self)@.running.insert(peer_key(peer@)),
                    began: old(self)@.began.insert(peer@, now),
                    ..old(self)@
                }
            } else {
                old(self)@
            },
    {
        if bases == 0 {
            return false;
        }
        let key: String = peer_key_text(peer);
        if !self.running.contains(&key) && self.distinct_peer_reconnect_key_count()
            >= PEER_RECONNECT_MAX_DISTINCT_KEYS {
            return false;
        }
        if let Some(at) = self.began.get(peer) {
            if since(now, *at) < PEER_RECONNECT_COOLDOWN_MS {
                return false;
            }
        }
        let _ = self.running.insert(key);
        self.began.insert(peer.clone(), now);
        true
    }

    /// The attempt for one peer ends; when it began stays on record.
    pub fn stop_peer_reconnect_for_vip(&mut self, vip: &String)
        requires
            old(self).wf(),
        ensures
            final(self).wf(),
            final(self)@ == (PunchView {
                running: old(self)@.running.remove(peer_key(vip@)),
                ..old(self)@
            }),
    {
        let key: String = peer_key_text(vip);
        let _ = self.running.remove(&key);
    }

    /// All attempts to reach peers end, and none rests.
    pub fn stop_all_peer_reconnect_workflows(&mut self)
        requires
            old(self).wf(),
        ensures
            final(self).wf(),
            final(self)@ == peers_stopped(old(self)@),
    {
        let ghost s = self.running.names.entries@;
        let mut kept: NameSet = NameSet::new();
        let mut i: usize = 0;
        while i < self.running.names.entries.len()
            invariant
                s == self.running.names.entries@,
                i <= s.len(),
                kept.wf(),
                forall|v: Seq<char>| #[trigger]
                    kept@.contains(v) <==> !is_peer_key(v) && exists|j: int|
                        0 <= j < i && (#[trigger] s[j]).0@ == v,
            decreases s.len() - i,
        {
            let k: &String = &self.running.names.entries[i].0;
            let ghost before = kept@;
            if !begins_as_peer_key(k) {
                let _ = kept.insert(k.clone());
            }
            proof {
                assert forall|v: Seq<char>| #[trigger] kept@.contains(v) <==> !is_peer_key(v)
                    && exists|j: int| 0 <= j < i + 1 && (#[trigger] s[j]).0@ == v by {
                    assert(s[i as int].0@ == k@);
                    if before.contains(v) {
                        let j = choose|j: int| 0 <= j < i && (#[trigger] s[j]).0@ == v;
                        assert(s[j].0@ == v);
                    }
                }
            }
            i += 1;
        }
        proof {
            assert forall|v: Seq<char>| #[trigger] kept@.contains(v) <==> without_peers(
                self@.running,
            ).contains(v) by {
                if kept@.contains(v) {
                    let j = choose|j: int| 0 <= j < s.len() && (#[trigger] s[j]).0@ == v;
                    table::map_of_at(s, j);
                }
                if without_peers(self@.running).contains(v) {
                    let j = choose|j: int| table::key_at(s, v, j);
                    assert(s[j].0@ == v);
                }
            }
            assert(kept@ =~= without_peers(self@.running));
        }
        self.running = kept;
        self.began.clear();
    }

    /// The search begins anew: the punches of the last one end.
    pub fn restart_search(&mut self)
        requires
            old(self).wf(),
        ensures
            final(self).wf(),
            final(self)@ == search_restarted(old(self)@),
    {
        let _ = self.running.remove(&DECENTRALIZED_PUNCH_KEY.to_owned());
        let _ = self.running.remove(&DECENTRALIZED_RECONNECT_FASTPATH_KEY.to_owned());
        self.fastpath = FastpathState { last_ep: None, last_at: None };
    }

    /// The search ends, with all that it started.
    pub fn stop_decentralized_discovery(&mut self)
        requires
            old(self).wf(),
        ensures
            final(self).wf(),
            final(self)@ == search_stopped(old(self)@),
    {
        self.stop_all_peer_reconnect_workflows();
        let _ = self.running.remove(&DECENTRALIZED_PUNCH_KEY.to_owned());
        let _ = self.running.remove(&DECENTRALIZED_JOIN_OVERLAY_KEY.to_owned());
        let _ = self.running.remove(&DECENTRALIZED_RECONNECT_FASTPATH_KEY.to_owned());
        self.fastpath = FastpathState { last_ep: None, last_at: None };
        self.join_overlay_last_peers.clear();
        proof {
            assert(self@ =~= search_stopped(old(self)@));
        }
    }

    /// The join was answered: the punches for it end.
    pub fn on_join_wait_finished(&mut self)
        requires
            old(self).wf(),
        ensures
            final(self).wf(),
            final(self)@ == join_done(old(self)@),
    {
        let _ = self.running.remove(&DECENTRALIZED_JOIN_OVERLAY_KEY.to_owned());
        let _ = self.running.remove(&DECENTRALIZED_RECONNECT_FASTPATH_KEY.to_owned());
        self.join_overlay_last_peers.clear();
        proof {
            assert(self@ =~= join_done(old(self)@));
        }
    }

    /// All workflows end; what is remembered stays.
    pub fn stop_running(&mut self)
        requires
            old(self).wf(),
        ensures
            final(self).wf(),
            final(self)@ == (PunchView { running: Set::empty(), ..old(self)@ }),
    {
        self.running.clear();
    }

    /// Everything ends, and nothing is remembered.
    pub fn stop_all(&mut self)
        requires
            old(self).wf(),
        ensures
            final(self).wf(),
            final(self)@ == no_punches(),
    {
        self.stop_decentralized_discovery();
        self.stop_running();
        proof {
            assert(self@ =~= no_punches());
        }
    }
}

} // verus!
