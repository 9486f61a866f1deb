//! What the engine does from time to time: which peers it probes, what it
//! forgets, and whom it tries to reach again.

use crate::addr::{sorted_unique, Endpoint, IpAddr};
use crate::addr;
use crate::engine_cmd::bump_id;
use crate::engine_cmd;
use crate::engine_routes;
use crate::engine_state;
use crate::engine_state::{since, EngineState};
use crate::routing;
use crate::routing::{RouteState, RoutingTable};
use crate::table;
use crate::table::{Key, Table};
use crate::chance::random_u64;
use vstd::prelude::*;

verus! {

/// The endpoints that follow the cursor, going round, as many as `take`.
pub open spec fn batch_after(eps: Seq<Endpoint>, cursor: int, take: int) -> Seq<Endpoint> {
    let n = eps.len();
    let k = if take < n {
        take
    } else {
        n as int
    };
    Seq::new(k as nat, |i: int| eps[(cursor % (n as int) + i) % (n as int)])
}

/// The cursor behind that batch.
pub open spec fn cursor_after(n: int, cursor: int, take: int) -> int {
    let k = if take < n {
        take
    } else {
        n
    };
    (cursor % n + k) % n
}

/// Takes the next batch of endpoints, so that each gets its turn.
pub fn rotate_batch(eps: &Vec<Endpoint>, cursor: usize, take: usize) -> (out: (
    Vec<Endpoint>,
    usize,
))
    ensures
        eps@.len() == 0 ==> out.0@.len() == 0 && out.1 == cursor,
        eps@.len() > 0 ==> out.0@ == batch_after(eps@, cursor as int, take as int) && out.1
            == cursor_after(eps@.len() as int, cursor as int, take as int),
{
    let n: usize = eps.len();
    let mut out: Vec<Endpoint> = Vec::new();
    if n == 0 {
        return (out, cursor);
    }
    let k: usize = if take < n {
        take
    } else {
        n
    };
    let start: usize = cursor % n;
    let mut at: usize = start;
    let mut i: usize = 0;
    proof {
        vstd::arithmetic::div_mod::lemma_small_mod(start as nat, n as nat);
    }
    while i < k
        invariant
            n == eps@.len(),
            n > 0,
            k <= n,
            k == if take < n {
                take
            } else {
                n
            },
            start == cursor as int % (n as int),
            start < n,
            i <= k,
            at < n,
            at == (start + i) % (n as int),
            out@ == batch_after(eps@, cursor as int, take as int).take(i as int),
        decreases k - i,
    {
        let ghost b = batch_after(eps@, cursor as int, take as int);
        out.push(eps[at]);
        proof {
            assert(b[i as int] == eps@[(start + i) % (n as int)]);
            assert(b.take(i + 1) =~= b.take(i as int).push(b[i as int]));
            step_round(start as int, i as int, n as int);
        }
        at = if at + 1 == n {
            0
        } else {
            at + 1
        };
        i += 1;
    }
    proof {
        let b = batch_after(eps@, cursor as int, take as int);
        assert(b.take(k as int) =~= b);
    }
    (out, at)
}

/// One step further round a circle of `n` places.
proof fn step_round(start: int, i: int, n: int)
    requires
        0 <= start < n,
        0 <= i < n,
    ensures
        (start + i + 1) % n == if (start + i) % n + 1 == n {
            0
        } else {
            (start + i) % n + 1
        },
{
    if start + i < n {
        vstd::arithmetic::div_mod::lemma_small_mod((start + i) as nat, n as nat);
        if start + i + 1 < n {
            vstd::arithmetic::div_mod::lemma_small_mod((start + i + 1) as nat, n as nat);
        } else {
            vstd::arithmetic::div_mod::lemma_mod_self_0(n);
        }
    } else {
        vstd::arithmetic::div_mod::lemma_mod_sub_multiples_vanish(start + i, n);
        vstd::arithmetic::div_mod::lemma_mod_sub_multiples_vanish(start + i + 1, n);
        vstd::arithmetic::div_mod::lemma_small_mod((start + i - n) as nat, n as nat);
        if start + i + 1 - n < n {
            vstd::arithmetic::div_mod::lemma_small_mod((start + i + 1 - n) as nat, n as nat);
        } else {
            vstd::arithmetic::div_mod::lemma_mod_self_0(n);
        }
    }
}

/// Two batches in a row go on where the first ended: no endpoint gets a second
/// turn before the others had theirs.
pub proof fn batches_go_round(eps: Seq<Endpoint>, cursor: int, take: int, i: int)
    requires
        0 < take,
        2 * take <= eps.len(),
        0 <= cursor,
        0 <= i < take,
    ensures
        ({
            let n = eps.len() as int;
            let next = cursor_after(n, cursor, take);
            batch_after(eps, next, take)[i] == eps[(cursor % n + take + i) % n]
        }),
{
    let n = eps.len() as int;
    let c = cursor % n;
    let next = (c + take) % n;
    vstd::arithmetic::div_mod::lemma_mod_twice(c + take, n);
    vstd::arithmetic::div_mod::lemma_add_mod_noop(c + take, i, n);
    vstd::arithmetic::div_mod::lemma_add_mod_noop(next, i, n);
    vstd::arithmetic::div_mod::lemma_mod_twice(next, n);
}

/// The endpoints of the routes that need a punch: all but the active ones.
pub open spec fn retry_endpoints(s: Seq<(String, routing::RouteEntry)>) -> Seq<Endpoint>
    decreases s.len(),
{
    if s.len() == 0 {
        Seq::empty()
    } else {
        let rest = retry_endpoints(s.drop_last());
        if s.last().1.state is Active {
            rest
        } else {
            rest.push(s.last().1.endpoint)
        }
    }
}

/// How long a membership event is remembered, in milliseconds.
pub const MSMD_TTL_MS: u64 = 120_000;

/// How many membership events are remembered.
pub const MSMD_CACHE_MAX: usize = 4096;

/// The membership events that were seen, oldest first.
pub struct MsmdSeen {
    pub timeline: Vec<(u64, String)>,
}

/// The ids of a list of events.
pub open spec fn event_ids(s: Seq<(u64, String)>) -> Seq<Seq<char>> {
    Seq::new(s.len(), |i: int| s[i].1@)
}

/// `s` without the events at its front that are too old.
pub open spec fn unexpired(s: Seq<(u64, String)>, now: u64, ttl: u64) -> Seq<(u64, String)>
    decreases s.len(),
{
    if s.len() > 0 && engine_state::elapsed(now, s[0].0) >= ttl {
        unexpired(s.drop_first(), now, ttl)
    } else {
        s
    }
}

/// The last `n` of `s`.
pub open spec fn last_n<T>(s: Seq<T>, n: int) -> Seq<T> {
    if s.len() > n {
        s.subrange(s.len() - n, s.len() as int)
    } else {
        s
    }
}

impl MsmdSeen {
    pub open spec fn seen(&self, id: Seq<char>) -> bool {
        event_ids(self.timeline@).contains(id)
    }

    pub fn new() -> (out: Self)
        ensures
            out.timeline@.len() == 0,
    {
        MsmdSeen { timeline: Vec::new() }
    }

    /// Notes an event; tells whether it is new. Old events, and the oldest ones
    /// where there are too many, are forgotten then.
    pub fn mark(&mut self, event_id: &String, now: u64) -> (fresh: bool)
        ensures
            fresh == !old(self).seen(event_id@),
            !fresh ==> *final(self) == *old(self),
            fresh ==> {
                let kept = last_n(
                    unexpired(old(self).timeline@, now, MSMD_TTL_MS),
                    MSMD_CACHE_MAX - 1,
                );
                &&& final(self).timeline@.drop_last() == kept
                &&& final(self).timeline@.len() == kept.len() + 1
                &&& final(self).timeline@.last().0 == now
                &&& final(self).timeline@.last().1@ == event_id@
            },
            final(self).seen(event_id@),
    {
        let mut i: usize = 0;
        while i < self.timeline.len()
            invariant
                i <= self.timeline@.len(),
                *self == *old(self),
                forall|j: int| 0 <= j < i ==> (#[trigger] self.timeline@[j]).1@ != event_id@,
            decreases self.timeline@.len() - i,
        {
            if self.timeline[i].1 == *event_id {
                proof {
                    assert(event_ids(self.timeline@)[i as int] == event_id@);
                }
                return false;
            }
            i += 1;
        }
        proof {
            assert(!self.seen(event_id@)) by {
                if self.seen(event_id@) {
                    let j = choose|j: int|
                        0 <= j < event_ids(self.timeline@).len() && event_ids(self.timeline@)[j]
                            == event_id@;
                    assert(self.timeline@[j].1@ == event_id@);
                }
            }
        }
        let ghost all = self.timeline@;
        while self.timeline.len() > 0 && since(now, self.timeline[0].0) >= MSMD_TTL_MS
            invariant
                unexpired(all, now, MSMD_TTL_MS) == unexpired(self.timeline@, now, MSMD_TTL_MS),
            decreases self.timeline@.len(),
        {
            let ghost before = self.timeline@;
            let _ = self.timeline.remove(0);
            proof {
                assert(self.timeline@ =~= before.drop_first());
            }
        }
        let ghost live = self.timeline@;
        while self.timeline.len() >= MSMD_CACHE_MAX
            invariant
                self.timeline@.len() <= live.len(),
                last_n(live, MSMD_CACHE_MAX - 1) == last_n(self.timeline@, MSMD_CACHE_MAX - 1),
            decreases self.timeline@.len(),
        {
            let ghost before = self.timeline@;
            let _ = self.timeline.remove(0);
            proof {
                assert(self.timeline@ =~= before.drop_first());
                assert(last_n(before, MSMD_CACHE_MAX - 1) =~= last_n(
                    self.timeline@,
                    MSMD_CACHE_MAX - 1,
                ));
            }
        }
        let ghost kept = self.timeline@;
        self.timeline.push((now, event_id.clone()));
        proof {
            assert(self.timeline@.drop_last() =~= kept);
            assert(event_ids(self.timeline@)[kept.len() as int] == event_id@);
        }
        true
    }
}

/// By what a sender of numbered packets is told apart: by its virtual address,
/// or, before it has one, by its endpoint.
#[derive(Clone, Copy, Debug, PartialEq, Eq, Hash, Structural)]
pub enum ReliableDedupKey {
    VipU32(u32),
    Addr(Endpoint),
}

/// A numbered packet.
#[derive(Clone, Copy, Debug, PartialEq, Eq, Hash, Structural)]
pub struct ReliableId {
    pub key: ReliableDedupKey,
    pub seq: u32,
}

impl Key for ReliableId {
    type Id = ReliableId;

    open spec fn id(&self) -> ReliableId {
        *self
    }

    fn same(&self, other: &Self) -> (r: bool) {
        *self == *other
    }
}

/// When a numbered packet came.
#[derive(Clone, Copy, Debug, PartialEq, Eq, Structural)]
pub struct ReliableAt {
    pub at: u64,
    pub id: ReliableId,
}

/// How long numbered packets are remembered, in milliseconds.
pub const RELIABLE_TTL_MS: u64 = 60_000;

/// How many numbered packets are remembered.
pub const RELIABLE_CACHE_MAX: usize = 16_384;

/// How many packets at the front are forgotten: the old ones, and then as many
/// as are too many.
pub open spec fn forgotten_count(s: Seq<ReliableAt>, now: u64) -> int {
    let old_ones = expired_count(s, now);
    if s.len() - old_ones > RELIABLE_CACHE_MAX {
        s.len() - RELIABLE_CACHE_MAX
    } else {
        old_ones
    }
}

/// How many packets at the front are too old.
pub open spec fn expired_count(s: Seq<ReliableAt>, now: u64) -> int
    decreases s.len(),
{
    if s.len() > 0 && engine_state::elapsed(now, s[0].at) >= RELIABLE_TTL_MS {
        1 + expired_count(s.drop_first(), now)
    } else {
        0
    }
}

proof fn expired_count_bounds(s: Seq<ReliableAt>, now: u64)
    ensures
        0 <= expired_count(s, now) <= s.len(),
    decreases s.len(),
{
    if s.len() > 0 {
        expired_count_bounds(s.drop_first(), now);
    }
}

/// No more packets are forgotten than there are.
pub proof fn forgotten_bounds(s: Seq<ReliableAt>, now: u64)
    ensures
        0 <= forgotten_count(s, now) <= s.len(),
{
    expired_count_bounds(s, now);
}

/// A packet that is not old, and last, is not forgotten.
pub proof fn fresh_packet_stays(s: Seq<ReliableAt>, i: int, now: u64)
    requires
        i == s.len() - 1,
        i >= 0,
        engine_state::elapsed(now, s[i].at) < RELIABLE_TTL_MS,
    ensures
        forgotten_count(s, now) <= i,
{
    expired_before(s, i, now);
    expired_count_bounds(s, now);
}

/// The old packets at the front end before the first that is not old.
proof fn expired_before(s: Seq<ReliableAt>, i: int, now: u64)
    requires
        0 <= i < s.len(),
        engine_state::elapsed(now, s[i].at) < RELIABLE_TTL_MS,
    ensures
        expired_count(s, now) <= i,
    decreases s.len(),
{
    if engine_state::elapsed(now, s[0].at) >= RELIABLE_TTL_MS {
        assert(s.drop_first()[i - 1] == s[i]);
        expired_before(s.drop_first(), i - 1, now);
    }
}

/// Some of the first `n` packets is `id`.
pub open spec fn among_first(s: Seq<ReliableAt>, n: int, id: ReliableId) -> bool {
    exists|i: int| 0 <= i < n && (#[trigger] s[i]).id == id
}

/// Forgets numbered packets that are old, or too many.
pub fn prune_reliable_seen_cache(
    timeline: &mut Vec<ReliableAt>,
    seen: &mut Table<ReliableId, ()>,
    now: u64,
)
    requires
        old(seen).wf(),
    ensures
        final(seen).wf(),
        final(timeline)@ == old(timeline)@.skip(forgotten_count(old(timeline)@, now)),
        forall|id: ReliableId| #[trigger]
            final(seen)@.dom().contains(id) <==> (old(seen)@.dom().contains(id) && !among_first(
                old(timeline)@,
                forgotten_count(old(timeline)@, now),
                id,
            )),
{
    let ghost all = timeline@;
    let ghost seen0 = seen@;
    let ghost mut n: int = 0;
    proof {
        assert(all.skip(0) =~= all);
        expired_count_bounds(all, now);
    }
    while timeline.len() > 0 && since(now, timeline[0].at) >= RELIABLE_TTL_MS
        invariant
            0 <= n <= all.len(),
            timeline@ == all.skip(n),
            expired_count(all, now) == n + expired_count(all.skip(n), now),
            seen.wf(),
            forall|id: ReliableId| #[trigger]
                seen@.dom().contains(id) <==> (seen0.dom().contains(id) && !among_first(
                    all,
                    n,
                    id,
                )),
        decreases timeline@.len(),
    {
        let ghost before = seen@;
        let e: ReliableAt = timeline.remove(0);
        let _ = seen.remove(&e.id);
        proof {
            assert(e == all[n]);
            assert(all.skip(n).drop_first() =~= all.skip(n + 1));
            assert(timeline@ =~= all.skip(n + 1));
            forget_one(all, n, e.id, seen0, before, seen@);
            n = n + 1;
        }
    }
    proof {
        if timeline@.len() == 0 {
            assert(expired_count(all.skip(n), now) == 0);
        }
    }
    while timeline.len() > RELIABLE_CACHE_MAX
        invariant
            0 <= n <= all.len(),
            timeline@ == all.skip(n),
            expired_count(all, now) <= n,
            n > expired_count(all, now) ==> all.len() - n >= RELIABLE_CACHE_MAX,
            seen.wf(),
            forall|id: ReliableId| #[trigger]
                seen@.dom().contains(id) <==> (seen0.dom().contains(id) && !among_first(
                    all,
                    n,
                    id,
                )),
        decreases timeline@.len(),
    {
        let ghost before = seen@;
        let e: ReliableAt = timeline.remove(0);
        let _ = seen.remove(&e.id);
        proof {
            assert(e == all[n]);
            assert(timeline@ =~= all.skip(n + 1));
            forget_one(all, n, e.id, seen0, before, seen@);
            n = n + 1;
        }
    }
    proof {
        assert(n == forgotten_count(all, now));
    }
}

proof fn forget_one(
    all: Seq<ReliableAt>,
    n: int,
    gone: ReliableId,
    seen0: Map<ReliableId, ()>,
    before: Map<ReliableId, ()>,
    after: Map<ReliableId, ()>,
)
    requires
        0 <= n < all.len(),
        all[n].id == gone,
        after == before.remove(gone),
        forall|id: ReliableId| #[trigger]
            before.dom().contains(id) <==> (seen0.dom().contains(id) && !among_first(all, n, id)),
    ensures
        forall|id: ReliableId| #[trigger]
            after.dom().contains(id) <==> (seen0.dom().contains(id) && !among_first(
                all,
                n + 1,
                id,
            )),
{
    assert forall|id: ReliableId| #[trigger] after.dom().contains(id) <==> (seen0.dom().contains(id)
        && !among_first(all, n + 1, id)) by {
        if among_first(all, n, id) {
            let i = choose|i: int| 0 <= i < n && (#[trigger] all[i]).id == id;
            assert(all[i].id == id);
        }
        if id == gone {
            assert(all[n].id == id);
        }
        if among_first(all, n + 1, id) {
            let i = choose|i: int| 0 <= i < n + 1 && (#[trigger] all[i]).id == id;
            if i < n {
                assert(among_first(all, n, id));
            }
        }
        assert(before.dom().contains(id) <==> (seen0.dom().contains(id) && !among_first(
            all,
            n,
            id,
        )));
    }
}

/// The part of a connection check that is under way.
#[derive(Clone)]
pub enum PendingPingKind {
    User,
    Heal { vip: String, endpoint: Endpoint },
    Probe,
}

/// A ping whose answer is awaited.
pub struct PendingPing {
    pub dest: Endpoint,
    /// The answer may come from another port.
    pub allow_ip_match: bool,
    pub deadline: u64,
    pub sent_at_ms: u64,
    pub kind: PendingPingKind,
}

/// The pings whose answers are awaited.
pub struct PendingPings {
    pub pings: Table<u64, PendingPing>,
    pub next_ping_id: u64,
}

/// The ping waits for the recovery of the peer `vip`.
pub open spec fn heals(p: PendingPing, vip: Seq<char>) -> bool {
    p.kind matches PendingPingKind::Heal { vip: v, .. } && v@ == vip
}

/// Some ping waits for the recovery of the peer `vip`.
pub open spec fn some_heals(m: Map<u64, PendingPing>, vip: Seq<char>) -> bool {
    exists|id: u64| #[trigger] m.dom().contains(id) && heals(m[id], vip)
}

/// The sender of an answer is the one that was pinged.
pub open spec fn answers(p: PendingPing, from: Endpoint) -> bool {
    if p.allow_ip_match {
        p.dest.ip == from.ip
    } else {
        p.dest == from
    }
}

/// The number that follows `n` in the search for a free one.
pub open spec fn nth_id(start: u64, k: int) -> u64 {
    ((start - 1 + k) % 0xffff_ffff_ffff_ffff + 1) as u64
}

impl PendingPings {
    pub open spec fn wf(&self) -> bool {
        self.pings.wf() && self.next_ping_id >= 1
    }

    pub fn new() -> (out: Self)
        ensures
            out.wf(),
            out.pings@ == Map::<u64, PendingPing>::empty(),
            out.next_ping_id == 1,
    {
        PendingPings { pings: Table::new(), next_ping_id: 1 }
    }

    /// A number for a ping that is not zero and that no other ping has.
    pub fn allocate_ping_id(&mut self) -> (id: u64)
        requires
            old(self).wf(),
            old(self).pings@.dom().len() < 0xffff_ffff_ffff_ffff,
        ensures
            final(self).wf(),
            final(self).pings == old(self).pings,
            id != 0,
            !old(self).pings@.dom().contains(id),
    {
        let mut tries: u8 = 0;
        while tries < 16
            invariant
                self.wf(),
                *self == *old(self),
            decreases 16 - tries,
        {
            let id: u64 = random_u64();
            if id != 0 && !self.pings.contains_key(&id) {
                return id;
            }
            tries += 1;
        }
        self.next_free_id()
    }

    /// The next number in turn that no ping has.
    pub fn next_free_id(&mut self) -> (id: u64)
        requires
            old(self).wf(),
            old(self).pings@.dom().len() < 0xffff_ffff_ffff_ffff,
        ensures
            final(self).wf(),
            final(self).pings == old(self).pings,
            exists|k: int|
                0 <= k && id == #[trigger] nth_id(old(self).next_ping_id, k) && !old(
                    self).pings@.dom().contains(id) && forall|j: int|
                    0 <= j < k ==> old(self).pings@.dom().contains(
                        #[trigger] nth_id(old(self).next_ping_id, j),
                    ),
            id != 0,
            final(self).next_ping_id == engine_cmd::next_id(id),
    {
        let ghost start = self.next_ping_id;
        let ghost mut k: int = 0;
        let ghost mut tried: Set<u64> = Set::empty();
        proof {
            vstd::arithmetic::div_mod::lemma_small_mod((start - 1) as nat, 0xffff_ffff_ffff_ffff);
            table::map_of_len(self.pings.entries@);
        }
        loop
            invariant
                self.wf(),
                self.pings == old(self).pings,
                start == old(self).next_ping_id,
                start >= 1,
                self.pings@.dom().finite(),
                self.pings@.dom().len() < 0xffff_ffff_ffff_ffff,
                0 <= k,
                self.next_ping_id == nth_id(start, k),
                tried.finite(),
                tried.len() == k,
                tried.subset_of(self.pings@.dom()),
                forall|j: int| 0 <= j < k ==> tried.contains(#[trigger] nth_id(start, j)),
                forall|x: u64| #[trigger]
                    tried.contains(x) ==> exists|j: int|
                        0 <= j < k && x == #[trigger] nth_id(start, j),
            decreases self.pings@.dom().len() - k,
        {
            let id: u64 = self.next_ping_id;
            proof {
                vstd::set_lib::lemma_len_subset(tried, self.pings@.dom());
                nth_id_next(start, k);
            }
            self.next_ping_id = bump_id(id);
            if !self.pings.contains_key(&id) {
                return id;
            }
            proof {
                assert(!tried.contains(id)) by {
                    if tried.contains(id) {
                        let j = choose|j: int| 0 <= j < k && id == #[trigger] nth_id(start, j);
                        nth_id_distinct(start, j, k);
                    }
                }
                let t = tried.insert(id);
                assert forall|x: u64| #[trigger] t.contains(x) implies exists|j: int|
                    0 <= j < k + 1 && x == #[trigger] nth_id(start, j) by {
                    if x == id {
                        assert(x == nth_id(start, k));
                    } else {
                        let j = choose|j: int| 0 <= j < k && x == #[trigger] nth_id(start, j);
                        assert(x == nth_id(start, j));
                    }
                }
                tried = t;
                vstd::set_lib::lemma_len_subset(tried, self.pings@.dom());
                k = k + 1;
            }
        }
    }

    /// Notes a ping that was sent.
    pub fn insert(&mut self, id: u64, p: PendingPing)
        requires
            old(self).wf(),
        ensures
            final(self).wf(),
            final(self).pings@ == old(self).pings@.insert(id, p),
            final(self).next_ping_id == old(self).next_ping_id,
    {
        self.pings.insert(id, p);
    }

    /// Takes the ping that an answer is for. One from a wrong sender stays.
    pub fn take_answered(&mut self, id: u64, from: Endpoint) -> (out: Option<PendingPing>)
        requires
            old(self).wf(),
        ensures
            final(self).wf(),
            final(self).next_ping_id == old(self).next_ping_id,
            ({
                let m = old(self).pings@;
                let hit = m.dom().contains(id) && answers(m[id], from);
                &&& out == if hit {
                    Some(m[id])
                } else {
                    None
                }
                &&& final(self).pings@ == if hit {
                    m.remove(id)
                } else {
                    m
                }
            }),
    {
        let ok: bool = match self.pings.get(&id) {
            Some(p) => if p.allow_ip_match {
                p.dest.ip == from.ip
            } else {
                p.dest == from
            },
            None => false,
        };
        if !ok {
            return None;
        }
        self.pings.remove(&id)
    }

    /// How many pings wait for a recovery.
    pub fn heal_count(&self) -> (n: usize)
        ensures
            n == heal_pings(self.pings.entries@),
    {
        let ghost s = self.pings.entries@;
        let mut n: usize = 0;
        let mut i: usize = 0;
        proof {
            assert(s.take(0) =~= Seq::<(u64, PendingPing)>::empty());
        }
        while i < self.pings.entries.len()
            invariant
                s == self.pings.entries@,
                i <= s.len(),
                n <= i,
                n == heal_pings(s.take(i as int)),
            decreases s.len() - i,
        {
            proof {
                assert(s.take(i + 1).drop_last() =~= s.take(i as int));
                assert(s.take(i + 1).last() == s[i as int]);
            }
            let heal: bool = match self.pings.entries[i].1.kind {
                PendingPingKind::Heal { .. } => true,
                _ => false,
            };
            if heal {
                n += 1;
            }
            i += 1;
        }
        proof {
            assert(s.take(s.len() as int) =~= s);
        }
        n
    }

    /// Whether some ping waits for the recovery of `vip`.
    pub fn has_heal(&self, vip: &String) -> (b: bool)
        requires
            self.wf(),
        ensures
            b == some_heals(self.pings@, vip@),
    {
        let ghost s = self.pings.entries@;
        let mut i: usize = 0;
        while i < self.pings.entries.len()
            invariant
                self.wf(),
                s == self.pings.entries@,
                i <= s.len(),
                forall|j: int| 0 <= j < i ==> !heals((#[trigger] s[j]).1, vip@),
            decreases s.len() - i,
        {
            let hit: bool = match &self.pings.entries[i].1.kind {
                PendingPingKind::Heal { vip: v, .. } => *v == *vip,
                _ => false,
            };
            if hit {
                proof {
                    table::map_of_at(s, i as int);
                    assert(self.pings@.dom().contains(s[i as int].0));
                }
                return true;
            }
            i += 1;
        }
        proof {
            if some_heals(self.pings@, vip@) {
                let id = choose|id: u64| #[trigger]
                    self.pings@.dom().contains(id) && heals(self.pings@[id], vip@);
                let j = choose|j: int| table::key_at(s, id, j);
                table::map_of_at(s, j);
                assert(!heals(s[j].1, vip@));
            }
        }
        false
    }

    /// Takes a ping whose time is up, if there is one.
    pub fn take_expired(&mut self, now: u64) -> (out: Option<(u64, PendingPing)>)
        requires
            old(self).wf(),
        ensures
            final(self).wf(),
            final(self).next_ping_id == old(self).next_ping_id,
            match out {
                Some((id, p)) => {
                    &&& old(self).pings@.dom().contains(id)
                    &&& p == old(self).pings@[id]
                    &&& p.deadline <= now
                    &&& final(self).pings@ == old(self).pings@.remove(id)
                },
                None => {
                    &&& *final(self) == *old(self)
                    &&& forall|id: u64| #[trigger]
                        old(self).pings@.dom().contains(id) ==> old(self).pings@[id].deadline > now
                },
            },
    {
        let ghost s = self.pings.entries@;
        let mut i: usize = 0;
        while i < self.pings.entries.len()
            invariant
                self.wf(),
                *self == *old(self),
                s == self.pings.entries@,
                i <= s.len(),
                forall|j: int| 0 <= j < i ==> (#[trigger] s[j]).1.deadline > now,
            decreases s.len() - i,
        {
            if self.pings.entries[i].1.deadline <= now {
                let id: u64 = self.pings.entries[i].0;
                proof {
                    table::map_of_at(s, i as int);
                }
                return match self.pings.remove(&id) {
                    Some(p) => Some((id, p)),
                    None => None,
                };
            }
            i += 1;
        }
        proof {
            assert forall|id: u64| #[trigger] self.pings@.dom().contains(id) implies self.pings@[id].deadline
                > now by {
                let j = choose|j: int| table::key_at(s, id, j);
                table::map_of_at(s, j);
            }
        }
        None
    }
}

/// How many pings of `s` wait for a recovery.
pub open spec fn heal_pings(s: Seq<(u64, PendingPing)>) -> int
    decreases s.len(),
{
    if s.len() == 0 {
        0
    } else {
        heal_pings(s.drop_last()) + if s.last().1.kind is Heal {
            1int
        } else {
            0
        }
    }
}

/// Going one number further in the search.
proof fn nth_id_next(start: u64, k: int)
    requires
        start >= 1,
        0 <= k,
    ensures
        1 <= nth_id(start, k),
        engine_cmd::next_id(nth_id(start, k)) == nth_id(start, k + 1),
{
    let m: int = 0xffff_ffff_ffff_ffff;
    let a = start - 1 + k;
    vstd::arithmetic::div_mod::lemma_mod_bound(a, m);
    vstd::arithmetic::div_mod::lemma_add_mod_noop(a, 1, m);
    vstd::arithmetic::div_mod::lemma_small_mod(1, m as nat);
    let r = a % m;
    if r + 1 < m {
        vstd::arithmetic::div_mod::lemma_small_mod((r + 1) as nat, m as nat);
    } else {
        vstd::arithmetic::div_mod::lemma_mod_self_0(m);
    }
}

/// The search comes to no number twice in one round.
proof fn nth_id_distinct(start: u64, i: int, j: int)
    requires
        start >= 1,
        0 <= i < j < 0xffff_ffff_ffff_ffff,
    ensures
        nth_id(start, i) != nth_id(start, j),
{
    let m: int = 0xffff_ffff_ffff_ffff;
    let a = start - 1 + i;
    let b = start - 1 + j;
    vstd::arithmetic::div_mod::lemma_mod_bound(a, m);
    vstd::arithmetic::div_mod::lemma_mod_bound(b, m);
    if a % m == b % m {
        vstd::arithmetic::div_mod::lemma_fundamental_div_mod(a, m);
        vstd::arithmetic::div_mod::lemma_fundamental_div_mod(b, m);
        let d = b / m - a / m;
        assert(b - a == m * d) by (nonlinear_arith)
            requires
                a == m * (a / m) + a % m,
                b == m * (b / m) + b % m,
                a % m == b % m,
                d == b / m - a / m,
        ;
        assert(false) by (nonlinear_arith)
            requires
                0 < b - a < m,
                b - a == m * d,
                m > 0,
        ;
    }
}

impl EngineState {
    /// The endpoints of the routes that need a punch.
    pub fn retry_targets(&self) -> (out: Vec<Endpoint>)
        ensures
            out@ == retry_endpoints(self.routing.table.entries@),
    {
        let ghost s = self.routing.table.entries@;
        let mut out: Vec<Endpoint> = Vec::new();
        let mut i: usize = 0;
        proof {
            assert(s.take(0) =~= Seq::<(String, routing::RouteEntry)>::empty());
        }
        while i < self.routing.table.entries.len()
            invariant
                s == self.routing.table.entries@,
                i <= s.len(),
                out@ == retry_endpoints(s.take(i as int)),
            decreases s.len() - i,
        {
            proof {
                assert(s.take(i + 1).drop_last() =~= s.take(i as int));
                assert(s.take(i + 1).last() == s[i as int]);
            }
            let e = &self.routing.table.entries[i].1;
            if e.state != RouteState::Active {
                out.push(e.endpoint);
            }
            i += 1;
        }
        proof {
            assert(s.take(s.len() as int) =~= s);
        }
        out
    }

    /// The owner is at an endpoint that no route leads to, so it needs a punch
    /// of its own.
    pub fn owner_outside_routes(&self) -> (out: Option<Endpoint>)
        requires
            self.wf(),
        ensures
            ({
                let o = engine_state::owner_endpoint_of(self.id@, self.routing.routes());
                out == if o is Some && !self.routing.vips().dom().contains(o->0) {
                    o
                } else {
                    None
                }
            }),
    {
        match self.owner_send_endpoint() {
            Some(ep) => if self.routing.tracks_endpoint(ep) {
                None
            } else {
                Some(ep)
            },
            None => None,
        }
    }

    /// The peers whose routes are stale and older than `stale_age`.
    pub fn stale_victims(&self, now: u64, stale_age: u64) -> (out: Vec<String>)
        requires
            self.wf(),
        ensures
            crate::engine_data::names(out@).no_duplicates(),
            forall|v: Seq<char>| #[trigger]
                crate::engine_data::names(out@).contains(v) <==> (
                self.routing.routes().dom().contains(v) && self.routing.routes()[v].state is Stale
                    && engine_state::elapsed(now, self.routing.routes()[v].last_seen) > stale_age),
    {
        let ghost s = self.routing.table.entries@;
        let mut out: Vec<String> = Vec::new();
        let mut i: usize = 0;
        while i < self.routing.table.entries.len()
            invariant
                self.wf(),
                s == self.routing.table.entries@,
                i <= s.len(),
                crate::engine_data::names(out@).no_duplicates(),
                forall|v: Seq<char>| #[trigger]
                    crate::engine_data::names(out@).contains(v) <==> exists|j: int|
                        0 <= j < i && victim_at(#[trigger] s[j], v, now, stale_age),
            decreases s.len() - i,
        {
            let ghost o0 = out@;
            let e = &self.routing.table.entries[i];
            if e.1.state == RouteState::Stale && since(now, e.1.last_seen) > stale_age {
                out.push(e.0.clone());
            }
            proof {
                assert forall|v: Seq<char>| #[trigger]
                    crate::engine_data::names(out@).contains(v) <==> exists|j: int|
                        0 <= j < i + 1 && victim_at(#[trigger] s[j], v, now, stale_age) by {
                    let n0 = crate::engine_data::names(o0);
                    let n1 = crate::engine_data::names(out@);
                    if n0.contains(v) {
                        let a = choose|a: int| 0 <= a < n0.len() && n0[a] == v;
                        assert(n1[a] == v);
                        let j = choose|j: int|
                            0 <= j < i && victim_at(#[trigger] s[j], v, now, stale_age);
                        assert(victim_at(s[j], v, now, stale_age));
                    }
                    if victim_at(s[i as int], v, now, stale_age) {
                        assert(n1[n0.len() as int] == v);
                    }
                    if n1.contains(v) && !n0.contains(v) {
                        let a = choose|a: int| 0 <= a < n1.len() && n1[a] == v;
                        if a < n0.len() {
                            assert(n0[a] == v);
                        }
                        assert(victim_at(s[i as int], v, now, stale_age));
                    }
                    if exists|j: int|
                        0 <= j < i + 1 && victim_at(#[trigger] s[j], v, now, stale_age) {
                        let j = choose|j: int|
                            0 <= j < i + 1 && victim_at(#[trigger] s[j], v, now, stale_age);
                        if j < i {
                            assert(n0.contains(v));
                        }
                    }
                }
                let n0 = crate::engine_data::names(o0);
                let n1 = crate::engine_data::names(out@);
                if out@.len() > o0.len() {
                    assert(!n0.contains(s[i as int].0@)) by {
                        if n0.contains(s[i as int].0@) {
                            let j = choose|j: int|
                                0 <= j < i && victim_at(
                                    #[trigger] s[j],
                                    s[i as int].0@,
                                    now,
                                    stale_age,
                                );
                            assert(s[j].0.id() != s[i as int].0.id());
                        }
                    }
                    assert(n1 =~= n0.push(s[i as int].0@));
                } else {
                    assert(n1 =~= n0);
                }
            }
            i += 1;
        }
        proof {
            assert forall|v: Seq<char>| #[trigger]
                crate::engine_data::names(out@).contains(v) <==> (
                self.routing.routes().dom().contains(v) && self.routing.routes()[v].state is Stale
                    && engine_state::elapsed(now, self.routing.routes()[v].last_seen)
                    > stale_age) by {
                if self.routing.routes().dom().contains(v) {
                    let j = choose|j: int| table::key_at(s, v, j);
                    table::map_of_at(s, j);
                    if self.routing.routes()[v].state is Stale && engine_state::elapsed(
                        now,
                        self.routing.routes()[v].last_seen,
                    ) > stale_age {
                        assert(victim_at(s[j], v, now, stale_age));
                    }
                }
                if exists|j: int|
                    0 <= j < s.len() && victim_at(#[trigger] s[j], v, now, stale_age) {
                    let j = choose|j: int|
                        0 <= j < s.len() && victim_at(#[trigger] s[j], v, now, stale_age);
                    table::map_of_at(s, j);
                }
            }
        }
        out
    }

    /// By what a sender of numbered packets is told apart.
    pub fn reliable_key(&self, from: Endpoint) -> (out: ReliableDedupKey)
        requires
            self.wf(),
        ensures
            out == match self.vip_number_at(from) {
                Some(u) => ReliableDedupKey::VipU32(u),
                None => ReliableDedupKey::Addr(from),
            },
    {
        match self.endpoint_to_vip_u32(from) {
            Some(u) => ReliableDedupKey::VipU32(u),
            None => ReliableDedupKey::Addr(from),
        }
    }

    /// Whether a recovery of `vip` may start: recoveries are on, the peer does
    /// not rest, not too many are under way, none for this peer, and it has a
    /// route. Then it counts as under way. Returns where its route leads.
    pub fn begin_heal(
        &mut self,
        vip: &String,
        pending: usize,
        max_pending: usize,
        now: u64,
    ) -> (out: Option<Endpoint>)
        requires
            old(self).wf(),
        ensures
            final(self).wf(),
            *final(self) == (EngineState {
                pending_heal_vips: final(self).pending_heal_vips,
                ..*old(self)
            }),
            ({
                let resting = old(self).heal_cooldown_until@.dom().contains(vip@) && old(
                    self).heal_cooldown_until@[vip@] > now;
                let ok = old(self).feature_flags.predictive_heal && !resting && pending
                    < max_pending && !old(self).pending_heal_vips@.contains(vip@);
                &&& out == if ok {
                    engine_routes::endpoint_in(old(self).routing.routes(), vip@)
                } else {
                    None
                }
                &&& final(self).pending_heal_vips@ == if out is Some {
                    old(self).pending_heal_vips@.insert(vip@)
                } else {
                    old(self).pending_heal_vips@
                }
            }),
    {
        if !self.feature_flags.predictive_heal {
            return None;
        }
        if let Some(until) = self.heal_cooldown_until.get(vip) {
            if *until > now {
                return None;
            }
        }
        if pending >= max_pending {
            return None;
        }
        if self.pending_heal_vips.contains(vip) {
            return None;
        }
        match self.routing.lookup(vip) {
            Some(ep) => {
                let _ = self.pending_heal_vips.insert(vip.clone());
                Some(ep)
            },
            None => None,
        }
    }

    /// A recovery failed: no probe went out, or the last one got no answer. The
    /// peer rests for a while.
    pub fn heal_failed(&mut self, vip: &String, now: u64, cooldown_ms: u64)
        requires
            old(self).wf(),
            now + cooldown_ms <= u64::MAX,
        ensures
            final(self).wf(),
            *final(self) == (EngineState {
                pending_heal_vips: final(self).pending_heal_vips,
                heal_cooldown_until: final(self).heal_cooldown_until,
                ..*old(self)
            }),
            final(self).pending_heal_vips@ == old(self).pending_heal_vips@.remove(vip@),
            final(self).heal_cooldown_until@ == old(self).heal_cooldown_until@.insert(
                vip@,
                (now + cooldown_ms) as u64,
            ),
    {
        let _ = self.pending_heal_vips.remove(vip);
        self.heal_cooldown_until.insert(vip.clone(), now + cooldown_ms);
    }

    /// A recovery probe was answered. `more` tells that others are under way.
    /// Tells whether the answer counts.
    pub fn heal_answered(&mut self, vip: &String, more: bool) -> (counts: bool)
        requires
            old(self).wf(),
        ensures
            final(self).wf(),
            counts == old(self).pending_heal_vips@.contains(vip@),
            !counts ==> *final(self) == *old(self),
            *final(self) == (EngineState {
                pending_heal_vips: final(self).pending_heal_vips,
                heal_cooldown_until: final(self).heal_cooldown_until,
                ..*old(self)
            }),
            counts ==> final(self).pending_heal_vips@ == if more {
                old(self).pending_heal_vips@
            } else {
                old(self).pending_heal_vips@.remove(vip@)
            },
            counts ==> final(self).heal_cooldown_until@ == old(self).heal_cooldown_until@.remove(
                vip@,
            ),
    {
        if !self.pending_heal_vips.contains(vip) {
            return false;
        }
        if !more {
            let _ = self.pending_heal_vips.remove(vip);
        }
        let _ = self.heal_cooldown_until.remove(vip);
        true
    }
}

/// The entry is the route of `v` and is to be evicted.
pub open spec fn victim_at(
    e: (String, routing::RouteEntry),
    v: Seq<char>,
    now: u64,
    stale_age: u64,
) -> bool {
    e.0@ == v && e.1.state is Stale && engine_state::elapsed(now, e.1.last_seen) > stale_age
}

/// Whether `ep` may be the owner's new endpoint.
pub open spec fn owner_lookalike(
    current: Endpoint,
    hint: Option<Endpoint>,
    ep: Endpoint,
) -> bool {
    ep != current && (ep.ip == current.ip || (hint is Some && hint->0.ip == ep.ip))
}

/// The first of the endpoints from the one at `i` on that may be the owner's new
/// one.
pub open spec fn lookalike_from(
    current: Endpoint,
    hint: Option<Endpoint>,
    peers: Seq<Endpoint>,
    i: int,
) -> Option<Endpoint>
    decreases peers.len() - i,
{
    if i >= peers.len() {
        None
    } else if owner_lookalike(current, hint, peers[i]) {
        Some(peers[i])
    } else {
        lookalike_from(current, hint, peers, i + 1)
    }
}

/// The first announced endpoint that may be the owner's new one: another port
/// of its address, or the address of the hint.
pub fn reconnect_fastpath_owner_candidate(
    current_owner: Endpoint,
    owner_hint: Option<Endpoint>,
    peers: &Vec<Endpoint>,
) -> (out: Option<Endpoint>)
    ensures
        out == lookalike_from(current_owner, owner_hint, peers@, 0),
{
    let mut i: usize = 0;
    while i < peers.len()
        invariant
            i <= peers@.len(),
            lookalike_from(current_owner, owner_hint, peers@, 0) == lookalike_from(
                current_owner,
                owner_hint,
                peers@,
                i as int,
            ),
        decreases peers@.len() - i,
    {
        let e: Endpoint = peers[i];
        let hinted: bool = match owner_hint {
            Some(h) => h.ip == e.ip,
            None => false,
        };
        if e != current_owner && (e.ip == current_owner.ip || hinted) {
            return Some(e);
        }
        i += 1;
    }
    None
}

/// The peer that an announced address belongs to.
#[derive(Clone, Debug, PartialEq, Eq)]
pub enum UniqueIpMatch {
    Bound(String),
    Unbound,
}

/// The route of the entry leads to the address `ip`, and is neither this
/// node's nor the owner's.
pub open spec fn peer_at_ip(
    e: (String, routing::RouteEntry),
    my: Seq<char>,
    owner: Seq<char>,
    ip: IpAddr,
) -> bool {
    e.0@ != my && e.0@ != owner && e.1.endpoint.ip == ip
}

/// The one peer at an address; none where there are several.
pub fn unique_ip_peer_vip(
    rt: &RoutingTable,
    my_vip: &String,
    owner_vip: &String,
    announce_ip: IpAddr,
) -> (out: UniqueIpMatch)
    requires
        rt.wf(),
    ensures
        ({
            let s = rt.table.entries@;
            match out {
                UniqueIpMatch::Bound(v) => exists|i: int|
                    0 <= i < s.len() && v@ == s[i].0@ && #[trigger] only_peer_at(
                        s,
                        my_vip@,
                        owner_vip@,
                        announce_ip,
                        i,
                    ),
                UniqueIpMatch::Unbound => forall|i: int|
                    0 <= i < s.len() ==> !#[trigger] only_peer_at(
                        s,
                        my_vip@,
                        owner_vip@,
                        announce_ip,
                        i,
                    ),
            }
        }),
{
    let ghost s = rt.table.entries@;
    let mut found: Option<usize> = None;
    let mut i: usize = 0;
    while i < rt.table.entries.len()
        invariant
            s == rt.table.entries@,
            i <= s.len(),
            match found {
                Some(k) => k < i && peer_at_ip(s[k as int], my_vip@, owner_vip@, announce_ip)
                    && forall|j: int|
                    0 <= j < i && j != k ==> !peer_at_ip(
                        #[trigger] s[j],
                        my_vip@,
                        owner_vip@,
                        announce_ip,
                    ),
                None => forall|j: int|
                    0 <= j < i ==> !peer_at_ip(
                        #[trigger] s[j],
                        my_vip@,
                        owner_vip@,
                        announce_ip,
                    ),
            },
        decreases s.len() - i,
    {
        let e = &rt.table.entries[i];
        if !(e.0 == *my_vip) && !(e.0 == *owner_vip) && e.1.endpoint.ip == announce_ip {
            if let Some(k) = found {
                proof {
                    assert forall|a: int| 0 <= a < s.len() implies !#[trigger] only_peer_at(
                        s,
                        my_vip@,
                        owner_vip@,
                        announce_ip,
                        a,
                    ) by {
                        if a == k {
                            assert(peer_at_ip(s[i as int], my_vip@, owner_vip@, announce_ip));
                        } else {
                            assert(peer_at_ip(s[k as int], my_vip@, owner_vip@, announce_ip));
                        }
                    }
                }
                return UniqueIpMatch::Unbound;
            }
            found = Some(i);
        }
        i += 1;
    }
    match found {
        Some(k) => {
            proof {
                assert(only_peer_at(s, my_vip@, owner_vip@, announce_ip, k as int));
            }
            UniqueIpMatch::Bound(rt.table.entries[k].0.clone())
        },
        None => UniqueIpMatch::Unbound,
    }
}

/// The entry at `i` is the only one at that address.
pub open spec fn only_peer_at(
    s: Seq<(String, routing::RouteEntry)>,
    my: Seq<char>,
    owner: Seq<char>,
    ip: IpAddr,
    i: int,
) -> bool {
    peer_at_ip(s[i], my, owner, ip) && forall|j: int|
        0 <= j < s.len() && j != i ==> !peer_at_ip(#[trigger] s[j], my, owner, ip)
}

/// Whether a peer that was announced at `candidate` has to be reached anew.
pub fn peer_route_needs_work(rt: &RoutingTable, vip: &String, candidate: Endpoint) -> (b: bool)
    requires
        rt.wf(),
    ensures
        b == match routing::lookup_in(rt.routes(), vip@) {
            Some(r) => !(r.state is Active) || r.endpoint != candidate,
            None => true,
        },
{
    match rt.table.get(vip) {
        Some(e) => match e.state {
            RouteState::Active => e.endpoint != candidate,
            _ => true,
        },
        None => true,
    }
}

/// Whether an endpoint that belongs to no known peer has to be reached.
pub fn peer_announce_needs_work_unbound(rt: &RoutingTable, addr: Endpoint) -> (b: bool)
    requires
        rt.wf(),
    ensures
        b == match routing::lookup_in(rt.vips(), addr) {
            Some(v) => match routing::lookup_in(rt.routes(), v) {
                Some(r) => !(r.state is Active && r.endpoint == addr),
                None => true,
            },
            None => true,
        },
{
    match rt.vip_of(addr) {
        Some(v) => match rt.table.get(v) {
            Some(e) => !(e.state == RouteState::Active && e.endpoint == addr),
            None => true,
        },
        None => true,
    }
}

/// Whether an endpoint that was found is worth a punch: those of active routes
/// are not.
pub open spec fn punchable(rt: RoutingTable, ep: Endpoint) -> bool {
    match routing::lookup_in(rt.vips(), ep) {
        Some(v) => match routing::lookup_in(rt.routes(), v) {
            Some(r) => !(r.state is Active),
            None => true,
        },
        None => true,
    }
}

/// The endpoints that are worth a punch.
pub fn filter_decentralized_punch_targets(rt: &RoutingTable, targets: &Vec<Endpoint>) -> (out: Vec<
    Endpoint,
>)
    requires
        rt.wf(),
    ensures
        out@ == targets@.filter(|e: Endpoint| punchable(*rt, e)),
{
    let ghost p = |e: Endpoint| punchable(*rt, e);
    let mut out: Vec<Endpoint> = Vec::new();
    let mut i: usize = 0;
    proof {
        reveal(Seq::filter);
        assert(targets@.take(0) =~= Seq::<Endpoint>::empty());
    }
    while i < targets.len()
        invariant
            rt.wf(),
            p == (|e: Endpoint| punchable(*rt, e)),
            i <= targets@.len(),
            out@ == targets@.take(i as int).filter(p),
        decreases targets@.len() - i,
    {
        proof {
            reveal(Seq::filter);
            assert(targets@.take(i + 1).drop_last() =~= targets@.take(i as int));
            assert(targets@.take(i + 1).last() == targets@[i as int]);
        }
        let ep: Endpoint = targets[i];
        let active: bool = match rt.vip_of(ep) {
            Some(v) => match rt.table.get(v) {
                Some(e) => e.state == RouteState::Active,
                None => false,
            },
            None => false,
        };
        if !active {
            out.push(ep);
        }
        i += 1;
    }
    proof {
        assert(targets@.take(targets@.len() as int) =~= targets@);
    }
    out
}

/// How many announced endpoints are looked at.
pub const PEER_RECONNECT_ANNOUNCE_BUDGET: usize = 8;

/// Those of the announced endpoints that are looked at: not the owner's, and
/// not more than the budget.
pub open spec fn looked_at(peers: Seq<Endpoint>, owner: Option<Endpoint>) -> Seq<Endpoint>
    decreases peers.len(),
{
    if peers.len() == 0 {
        Seq::empty()
    } else {
        let rest = looked_at(peers.drop_last(), owner);
        if rest.len() >= PEER_RECONNECT_ANNOUNCE_BUDGET || owner == Some(peers.last()) {
            rest
        } else {
            rest.push(peers.last())
        }
    }
}

/// The announced endpoints that are looked at.
pub fn announced_within_budget(peers: &Vec<Endpoint>, owner: Option<Endpoint>) -> (out: Vec<
    Endpoint,
>)
    ensures
        out@ == looked_at(peers@, owner),
        out@.len() <= PEER_RECONNECT_ANNOUNCE_BUDGET,
{
    let mut out: Vec<Endpoint> = Vec::new();
    let mut i: usize = 0;
    proof {
        assert(peers@.take(0) =~= Seq::<Endpoint>::empty());
    }
    while i < peers.len()
        invariant
            i <= peers@.len(),
            out@ == looked_at(peers@.take(i as int), owner),
            out@.len() <= PEER_RECONNECT_ANNOUNCE_BUDGET,
        decreases peers@.len() - i,
    {
        proof {
            assert(peers@.take(i + 1).drop_last() =~= peers@.take(i as int));
            assert(peers@.take(i + 1).last() == peers@[i as int]);
        }
        let is_owner: bool = match owner {
            Some(o) => o == peers[i],
            None => false,
        };
        if out.len() < PEER_RECONNECT_ANNOUNCE_BUDGET && !is_owner {
            out.push(peers[i]);
        }
        i += 1;
    }
    proof {
        assert(peers@.take(peers@.len() as int) =~= peers@);
    }
    out
}

/// The endpoint belongs to the peer `vip` and has to be tried for it.
pub open spec fn tried_for(rt: RoutingTable, my: Seq<char>, owner: Seq<char>, ep: Endpoint, vip: Seq<char>) -> bool {
    let s = rt.table.entries@;
    &&& exists|i: int|
        0 <= i < s.len() && vip == s[i].0@ && #[trigger] only_peer_at(s, my, owner, ep.ip, i)
    &&& match routing::lookup_in(rt.routes(), vip) {
        Some(r) => !(r.state is Active) || r.endpoint != ep,
        None => true,
    }
}

/// The endpoint belongs to no peer and has to be tried.
pub open spec fn tried_unbound(rt: RoutingTable, my: Seq<char>, owner: Seq<char>, ep: Endpoint) -> bool {
    let s = rt.table.entries@;
    &&& forall|i: int| 0 <= i < s.len() ==> !#[trigger] only_peer_at(s, my, owner, ep.ip, i)
    &&& match routing::lookup_in(rt.vips(), ep) {
        Some(v) => match routing::lookup_in(rt.routes(), v) {
            Some(r) => !(r.state is Active && r.endpoint == ep),
            None => true,
        },
        None => true,
    }
}

/// The pair of `v` and `e` is in the list.
pub open spec fn pair_in(s: Seq<(String, Endpoint)>, v: Seq<char>, e: Endpoint) -> bool {
    exists|k: int| 0 <= k < s.len() && (#[trigger] s[k]).0@ == v && s[k].1 == e
}

/// The endpoints to try for one peer, in ascending order, each once.
pub fn bases_for(pairs: &Vec<(String, Endpoint)>, vip: &String) -> (out: Vec<Endpoint>)
    ensures
        addr::ascending(out@),
        forall|e: Endpoint| #[trigger] out@.contains(e) <==> pair_in(pairs@, vip@, e),
{
    let mut all: Vec<Endpoint> = Vec::new();
    let mut i: usize = 0;
    while i < pairs.len()
        invariant
            i <= pairs@.len(),
            forall|e: Endpoint| #[trigger]
                all@.contains(e) <==> exists|k: int|
                    0 <= k < i && (#[trigger] pairs@[k]).0@ == vip@ && pairs@[k].1 == e,
        decreases pairs@.len() - i,
    {
        let ghost a0 = all@;
        if pairs[i].0 == *vip {
            all.push(pairs[i].1);
        }
        proof {
            assert forall|e: Endpoint| #[trigger] all@.contains(e) <==> exists|k: int|
                0 <= k < i + 1 && (#[trigger] pairs@[k]).0@ == vip@ && pairs@[k].1 == e by {
                if a0.contains(e) {
                    let j = choose|j: int| 0 <= j < a0.len() && a0[j] == e;
                    assert(all@[j] == e);
                }
                if pairs@[i as int].0@ == vip@ && pairs@[i as int].1 == e {
                    assert(all@[a0.len() as int] == e);
                }
                if all@.contains(e) && !a0.contains(e) {
                    let j = choose|j: int| 0 <= j < all@.len() && all@[j] == e;
                    if j < a0.len() {
                        assert(a0[j] == e);
                    }
                }
            }
        }
        i += 1;
    }
    sorted_unique(&all)
}

/// The peers of an announcement that have to be reached anew, and the endpoints
/// that belong to none.
pub fn plan_peer_reconnect(
    rt: &RoutingTable,
    my_vip: &String,
    owner_vip: &String,
    owner: Option<Endpoint>,
    peers: &Vec<Endpoint>,
) -> (out: (Vec<(String, Endpoint)>, Vec<Endpoint>))
    requires
        rt.wf(),
    ensures
        ({
            let seen = looked_at(peers@, owner);
            &&& forall|i: int|
                0 <= i < out.0@.len() ==> seen.contains((#[trigger] out.0@[i]).1) && tried_for(
                    *rt,
                    my_vip@,
                    owner_vip@,
                    out.0@[i].1,
                    out.0@[i].0@,
                )
            &&& forall|e: Endpoint, v: Seq<char>|
                seen.contains(e) && #[trigger] tried_for(*rt, my_vip@, owner_vip@, e, v)
                    ==> pair_in(out.0@, v, e)
            &&& addr::ascending(out.1@)
            &&& forall|e: Endpoint| #[trigger]
                out.1@.contains(e) <==> (seen.contains(e) && tried_unbound(
                    *rt,
                    my_vip@,
                    owner_vip@,
                    e,
                ))
        }),
{
    let seen: Vec<Endpoint> = announced_within_budget(peers, owner);
    let mut bound: Vec<(String, Endpoint)> = Vec::new();
    let mut unbound: Vec<Endpoint> = Vec::new();
    let mut i: usize = 0;
    while i < seen.len()
        invariant
            rt.wf(),
            i <= seen@.len(),
            forall|k: int|
                0 <= k < bound@.len() ==> seen@.contains((#[trigger] bound@[k]).1) && tried_for(
                    *rt,
                    my_vip@,
                    owner_vip@,
                    bound@[k].1,
                    bound@[k].0@,
                ),
            forall|e: Endpoint, v: Seq<char>|
                seen@.take(i as int).contains(e) && #[trigger] tried_for(
                    *rt,
                    my_vip@,
                    owner_vip@,
                    e,
                    v,
                ) ==> pair_in(bound@, v, e),
            forall|e: Endpoint| #[trigger]
                unbound@.contains(e) <==> (seen@.take(i as int).contains(e) && tried_unbound(
                    *rt,
                    my_vip@,
                    owner_vip@,
                    e,
                )),
        decreases seen@.len() - i,
    {
        let ep: Endpoint = seen[i];
        let ghost u0 = unbound@;
        let ghost b0 = bound@;
        let ghost mut pushed: bool = false;
        match unique_ip_peer_vip(rt, my_vip, owner_vip, ep.ip) {
            UniqueIpMatch::Bound(vip) => {
                if peer_route_needs_work(rt, &vip, ep) {
                    proof {
                        assert(seen@[i as int] == ep);
                    }
                    bound.push((vip, ep));
                }
            },
            UniqueIpMatch::Unbound => {
                if peer_announce_needs_work_unbound(rt, ep) {
                    unbound.push(ep);
                    proof {
                        pushed = true;
                    }
                }
            },
        }
        proof {
            let t = seen@.take(i + 1);
            assert(t =~= seen@.take(i as int).push(ep));
            assert(pushed == tried_unbound(*rt, my_vip@, owner_vip@, ep));
            assert forall|e: Endpoint, v: Seq<char>|
                t.contains(e) && #[trigger] tried_for(*rt, my_vip@, owner_vip@, e, v) implies pair_in(
                bound@,
                v,
                e,
            ) by {
                if seen@.take(i as int).contains(e) {
                    let k = choose|k: int|
                        0 <= k < b0.len() && (#[trigger] b0[k]).0@ == v && b0[k].1 == e;
                    assert(bound@[k] == b0[k]);
                } else {
                    let b = choose|b: int| 0 <= b < t.len() && t[b] == e;
                    if b < i {
                        assert(seen@.take(i as int)[b] == e);
                    }
                    assert(e == ep);
                    let s = rt.table.entries@;
                    let x = choose|x: int|
                        0 <= x < s.len() && v == s[x].0@ && #[trigger] only_peer_at(
                            s,
                            my_vip@,
                            owner_vip@,
                            ep.ip,
                            x,
                        );
                    assert(bound@.len() == b0.len() + 1);
                    assert(bound@[b0.len() as int].0@ == v);
                }
            }
            assert forall|e: Endpoint| #[trigger] unbound@.contains(e) <==> (t.contains(e)
                && tried_unbound(*rt, my_vip@, owner_vip@, e)) by {
                if u0.contains(e) {
                    let a = choose|a: int| 0 <= a < u0.len() && u0[a] == e;
                    assert(unbound@[a] == e);
                    let b = choose|b: int| 0 <= b < i && seen@.take(i as int)[b] == e;
                    assert(t[b] == e);
                }
                if pushed && e == ep {
                    assert(unbound@[u0.len() as int] == e);
                    assert(t[i as int] == e);
                }
                if unbound@.contains(e) && !u0.contains(e) {
                    let a = choose|a: int| 0 <= a < unbound@.len() && unbound@[a] == e;
                    if a < u0.len() {
                        assert(u0[a] == e);
                    }
                }
                if t.contains(e) && e != ep {
                    let b = choose|b: int| 0 <= b < t.len() && t[b] == e;
                    assert(seen@.take(i as int)[b] == e);
                }
            }
        }
        i += 1;
    }
    proof {
        assert(seen@.take(seen@.len() as int) =~= seen@);
    }
    let sorted: Vec<Endpoint> = sorted_unique(&unbound);
    (bound, sorted)
}

} // verus!
