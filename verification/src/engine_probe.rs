//! Probes: which peers are punched and pinged in a round, and how the way to a
//! peer is searched for that is no longer reached.

use crate::addr::Endpoint;
use crate::engine_cmd;
use crate::engine_ping;
use crate::engine_routes;
use crate::engine_state;
use crate::engine_state::EngineState;
use crate::engine_ticks;
use crate::engine_ticks::{rotate_batch, PendingPing, PendingPingKind, PendingPings};
use crate::routing::RelaySelection;
use crate::table;
use crate::wire;
use vstd::prelude::*;

verus! {

/// How long the answer to a recovery probe is awaited, in milliseconds.
pub const HEAL_PROBE_MS: u64 = 750;

/// How many endpoints a recovery asks.
pub const HEAL_PROBES_MAX: usize = 3;

/// How long the answer to a measuring probe is awaited, in milliseconds.
pub const CC_PROBE_MS: u64 = 2_000;

/// Whom a round of retries goes to.
pub struct RetryPlan {
    /// Peers without a working route are punched.
    pub punch: Vec<Endpoint>,
    /// The other paths to peers are kept open.
    pub keepalive: Vec<Endpoint>,
    /// The owner is punched, where no route leads to it.
    pub owner: Option<Endpoint>,
    /// Where the next round goes on.
    pub cursor: usize,
}

/// The first `n` of `s`, or all of it.
pub open spec fn first_n(s: Seq<Endpoint>, n: int) -> Seq<Endpoint> {
    if s.len() > n {
        s.take(n)
    } else {
        s
    }
}

/// The first `n` endpoints.
fn take_first(s: &Vec<Endpoint>, n: usize) -> (out: Vec<Endpoint>)
    ensures
        out@ == first_n(s@, n as int),
{
    let mut out: Vec<Endpoint> = Vec::new();
    let mut i: usize = 0;
    while i < n && i < s.len()
        invariant
            i <= n,
            i <= s@.len(),
            out@ == s@.take(i as int),
        decreases s@.len() - i,
    {
        out.push(s[i]);
        proof {
            assert(s@.take(i + 1) =~= s@.take(i as int).push(s@[i as int]));
        }
        i += 1;
    }
    proof {
        if s@.len() <= n {
            assert(s@.take(s@.len() as int) =~= s@);
        }
    }
    out
}

/// A ping that is to be sent.
pub struct Probe {
    pub id: u64,
    pub to: Endpoint,
    pub body: Vec<u8>,
}

/// The probe `p` waits for its answer as told.
pub open spec fn waits(
    m: Map<u64, PendingPing>,
    p: Probe,
    heal: Option<Seq<char>>,
    sent_at_ms: u64,
    deadline: u64,
) -> bool {
    &&& m.dom().contains(p.id)
    &&& m[p.id].dest == p.to
    &&& !m[p.id].allow_ip_match
    &&& m[p.id].deadline == deadline
    &&& m[p.id].sent_at_ms == sent_at_ms
    &&& match heal {
        Some(vip) => m[p.id].kind matches PendingPingKind::Heal { vip: v, endpoint } && v@ == vip
            && endpoint == p.to,
        None => m[p.id].kind is Probe,
    }
}

/// The probe has this number.
pub open spec fn numbered(probes: Seq<Probe>, id: u64) -> bool {
    exists|i: int| 0 <= i < probes.len() && (#[trigger] probes[i]).id == id
}

/// `probes` go to `dests`, each under a number of its own that is new, and their
/// answers are awaited besides those that were awaited before.
pub open spec fn asked(
    before: Map<u64, PendingPing>,
    after: Map<u64, PendingPing>,
    dests: Seq<Endpoint>,
    probes: Seq<Probe>,
    heal: Option<Seq<char>>,
    sent_at_ms: u64,
    deadline: u64,
) -> bool {
    &&& probes.len() == dests.len()
    &&& forall|i: int|
        0 <= i < probes.len() ==> {
            &&& (#[trigger] probes[i]).to == dests[i]
            &&& probes[i].id != 0
            &&& probes[i].body@ == wire::ping_bytes(probes[i].id, sent_at_ms)
            &&& !before.dom().contains(probes[i].id)
            &&& waits(after, probes[i], heal, sent_at_ms, deadline)
        }
    &&& forall|i: int, j: int|
        0 <= i < j < probes.len() ==> (#[trigger] probes[i]).id != (#[trigger] probes[j]).id
    &&& forall|id: u64| #[trigger]
        after.dom().contains(id) <==> before.dom().contains(id) || numbered(probes, id)
    &&& forall|id: u64| #[trigger] before.dom().contains(id) ==> after[id] == before[id]
}

impl PendingPings {
    /// New pings, one to each of `dests`; with `heal` for the recovery of that
    /// peer.
    pub fn begin_each(
        &mut self,
        dests: &Vec<Endpoint>,
        heal: Option<&String>,
        sent_at_ms: u64,
        deadline: u64,
    ) -> (out: Vec<Probe>)
        requires
            old(self).wf(),
            old(self).pings@.dom().len() + dests@.len() < 0xffff_ffff_ffff_ffff,
        ensures
            final(self).wf(),
            asked(
                old(self).pings@,
                final(self).pings@,
                dests@,
                out@,
                match heal {
                    Some(v) => Some(v@),
                    None => None,
                },
                sent_at_ms,
                deadline,
            ),
    {
        let ghost m0 = self.pings@;
        let ghost h: Option<Seq<char>> = match heal {
            Some(v) => Some(v@),
            None => None,
        };
        proof {
            table::map_of_len(self.pings.entries@);
        }
        let mut out: Vec<Probe> = Vec::new();
        let mut i: usize = 0;
        while i < dests.len()
            invariant
                self.wf(),
                m0 == old(self).pings@,
                h == (match heal {
                    Some(v) => Some(v@),
                    None => None,
                }),
                i <= dests@.len(),
                self.pings@.dom().finite(),
                m0.dom().len() + dests@.len() < 0xffff_ffff_ffff_ffff,
                self.pings@.dom().len() == m0.dom().len() + i,
                asked(m0, self.pings@, dests@.take(i as int), out@, h, sent_at_ms, deadline),
            decreases dests@.len() - i,
        {
            let to: Endpoint = dests[i];
            let ghost m1 = self.pings@;
            let ghost o = out@;
            let kind: PendingPingKind = match heal {
                Some(v) => PendingPingKind::Heal { vip: v.clone(), endpoint: to },
                None => PendingPingKind::Probe,
            };
            let (id, body): (u64, Vec<u8>) = self.begin(to, false, kind, sent_at_ms, deadline);
            out.push(Probe { id, to, body });
            proof {
                let m2 = self.pings@;
                let p = out@[i as int];
                assert(waits(m2, p, h, sent_at_ms, deadline));
                assert forall|j: int| 0 <= j < out@.len() implies {
                    &&& (#[trigger] out@[j]).to == dests@.take(i + 1)[j]
                    &&& out@[j].id != 0
                    &&& out@[j].body@ == wire::ping_bytes(out@[j].id, sent_at_ms)
                    &&& !m0.dom().contains(out@[j].id)
                    &&& waits(m2, out@[j], h, sent_at_ms, deadline)
                } by {
                    if j < i {
                        assert(out@[j] == o[j]);
                        assert(waits(m1, o[j], h, sent_at_ms, deadline));
                    }
                }
                assert forall|a: u64| #[trigger] m2.dom().contains(a) <==> m0.dom().contains(a)
                    || numbered(out@, a) by {
                    if numbered(o, a) {
                        let j = choose|j: int| 0 <= j < o.len() && (#[trigger] o[j]).id == a;
                        assert(out@[j].id == a);
                    }
                    if a == id {
                        assert(out@[i as int].id == a);
                    }
                    if numbered(out@, a) && a != id {
                        let j = choose|j: int| 0 <= j < out@.len() && (#[trigger] out@[j]).id == a;
                        assert(o[j].id == a);
                    }
                    assert(m2.dom().contains(a) <==> m1.dom().contains(a) || a == id);
                }
                assert forall|j: int, k: int| 0 <= j < k < out@.len() implies (
                #[trigger] out@[j]).id != (#[trigger] out@[k]).id by {
                    if k == i {
                        assert(waits(m1, o[j], h, sent_at_ms, deadline));
                    } else {
                        assert(out@[j] == o[j] && out@[k] == o[k]);
                    }
                }
            }
            i += 1;
        }
        proof {
            assert(dests@.take(dests@.len() as int) =~= dests@);
        }
        out
    }

    /// Forgets the pings that could not be sent.
    fn forget_unsent(&mut self, probes: &Vec<Probe>, sent: &Vec<bool>) -> (any: bool)
        requires
            old(self).wf(),
            sent@.len() == probes@.len(),
        ensures
            final(self).wf(),
            final(self).next_ping_id == old(self).next_ping_id,
            any == sent@.contains(true),
            final(self).pings@ == sent_only(old(self).pings@, probes@, sent@),
    {
        let ghost m0 = self.pings@;
        let mut any: bool = false;
        let mut i: usize = 0;
        proof {
            assert(sent_only(m0, probes@.take(0), sent@.take(0)) =~= m0);
        }
        while i < probes.len()
            invariant
                self.wf(),
                self.next_ping_id == old(self).next_ping_id,
                sent@.len() == probes@.len(),
                i <= probes@.len(),
                any == sent@.take(i as int).contains(true),
                self.pings@ == sent_only(m0, probes@.take(i as int), sent@.take(i as int)),
            decreases probes@.len() - i,
        {
            let ghost m1 = self.pings@;
            proof {
                assert(sent@.take(i + 1) =~= sent@.take(i as int).push(sent@[i as int]));
                assert(probes@.take(i + 1) =~= probes@.take(i as int).push(probes@[i as int]));
                assert(sent@.take(i + 1)[i as int] == sent@[i as int]);
                if sent@.take(i as int).contains(true) {
                    let before = sent@.take(i as int);
                    let j = choose|j: int| 0 <= j < before.len() && before[j] == true;
                    assert(sent@.take(i + 1)[j] == true);
                }
                if sent@.take(i + 1).contains(true) && !sent@[i as int] {
                    let now_too = sent@.take(i + 1);
                    let j = choose|j: int| 0 <= j < now_too.len() && now_too[j] == true;
                    assert(sent@.take(i as int)[j] == true);
                }
            }
            if sent[i] {
                any = true;
            } else {
                let _ = self.pings.remove(&probes[i].id);
            }
            proof {
                let a = probes@.take(i as int);
                let b = probes@.take(i + 1);
                let sa = sent@.take(i as int);
                let sb = sent@.take(i + 1);
                assert forall|id: u64| unsent(b, sb, id) <==> unsent(a, sa, id) || (!sent@[i as int]
                    && probes@[i as int].id == id) by {
                    if unsent(a, sa, id) {
                        let j = choose|j: int|
                            0 <= j < a.len() && (#[trigger] a[j]).id == id && !sa[j];
                        assert(b[j].id == id && !sb[j]);
                    }
                    if !sent@[i as int] && probes@[i as int].id == id {
                        assert(b[i as int].id == id && !sb[i as int]);
                    }
                    if unsent(b, sb, id) {
                        let j = choose|j: int|
                            0 <= j < b.len() && (#[trigger] b[j]).id == id && !sb[j];
                        if j < i {
                            assert(a[j].id == id && !sa[j]);
                        }
                    }
                }
                assert(self.pings@ =~= sent_only(m0, b, sb));
            }
            i += 1;
        }
        proof {
            assert(probes@.take(probes@.len() as int) =~= probes@);
            assert(sent@.take(sent@.len() as int) =~= sent@);
        }
        any
    }
}

/// The probe with this number could not be sent.
pub open spec fn unsent(probes: Seq<Probe>, sent: Seq<bool>, id: u64) -> bool {
    exists|i: int| 0 <= i < probes.len() && (#[trigger] probes[i]).id == id && !sent[i]
}

/// The pings without those that could not be sent.
pub open spec fn sent_only(
    m: Map<u64, PendingPing>,
    probes: Seq<Probe>,
    sent: Seq<bool>,
) -> Map<u64, PendingPing> {
    Map::new(|id: u64| m.dom().contains(id) && !unsent(probes, sent, id), |id: u64| m[id])
}

/// A recovery of `vip` may start.
pub open spec fn may_heal(s: EngineState, vip: Seq<char>, pending: int, max: int, now: u64) -> bool {
    &&& s.feature_flags.predictive_heal
    &&& !(s.heal_cooldown_until@.dom().contains(vip) && s.heal_cooldown_until@[vip] > now)
    &&& pending < max
    &&& !s.pending_heal_vips@.contains(vip)
    &&& engine_routes::endpoint_in(s.routing.routes(), vip) is Some
}

/// Where control packets to the peer `vip` go, as far as a recovery asks there.
pub open spec fn heal_dests(s: EngineState, vip: Seq<char>, found: Seq<Endpoint>) -> Seq<Endpoint> {
    let all = if s.feature_flags.multipath_core && s.feature_flags.control_path_race && found.len()
        > 0 {
        found
    } else {
        seq![engine_routes::endpoint_in(s.routing.routes(), vip)->0]
    };
    first_n(all, HEAL_PROBES_MAX as int)
}

/// Each recovery under way has a ping that waits.
pub open spec fn recoveries_wait(vips: Set<Seq<char>>, m: Map<u64, PendingPing>) -> bool {
    forall|v: Seq<char>| #[trigger] vips.contains(v) ==> engine_ticks::some_heals(m, v)
}

impl EngineState {
    /// Whom a round of retries goes to. `secondary` are the other paths to peers.
    pub fn direct_retry_tick(
        &self,
        cursor: usize,
        take: usize,
        secondary: &Vec<Endpoint>,
        secondary_max: usize,
    ) -> (plan: RetryPlan)
        requires
            self.wf(),
        ensures
            ({
                let all = engine_ticks::retry_endpoints(self.routing.table.entries@);
                if all.len() == 0 {
                    plan.punch@.len() == 0 && plan.cursor == cursor
                } else {
                    &&& plan.punch@ == engine_ticks::batch_after(all, cursor as int, take as int)
                    &&& plan.cursor == engine_ticks::cursor_after(
                        all.len() as int,
                        cursor as int,
                        take as int,
                    )
                }
            }),
            plan.keepalive@ == if self.feature_flags.multipath_bandwidth_prober {
                first_n(secondary@, secondary_max as int)
            } else {
                Seq::empty()
            },
            ({
                let o = engine_state::owner_endpoint_of(self.id@, self.routing.routes());
                plan.owner == if !self.id.is_owner && o is Some
                    && !self.routing.vips().dom().contains(o->0) {
                    o
                } else {
                    None
                }
            }),
    {
        let all: Vec<Endpoint> = self.retry_targets();
        let (punch, next): (Vec<Endpoint>, usize) = rotate_batch(&all, cursor, take);
        let keepalive: Vec<Endpoint> = if self.feature_flags.multipath_bandwidth_prober {
            take_first(secondary, secondary_max)
        } else {
            Vec::new()
        };
        let owner: Option<Endpoint> = if self.id.is_owner {
            None
        } else {
            self.owner_outside_routes()
        };
        RetryPlan { punch, keepalive, owner, cursor: next }
    }

    /// The peers that are pinged in a round of measuring, unless it is off: the
    /// probes, and where the next round goes on.
    pub fn send_cc_probes(
        &self,
        pings: &mut PendingPings,
        on: bool,
        cursor: usize,
        take: usize,
        sent_at_ms: u64,
        now: u64,
    ) -> (out: (Vec<Probe>, usize))
        requires
            self.wf(),
            old(pings).wf(),
            old(pings).pings@.dom().len() + self.routing.table.entries@.len()
                < 0xffff_ffff_ffff_ffff,
            now + CC_PROBE_MS <= u64::MAX,
        ensures
            final(pings).wf(),
            ({
                let all = engine_cmd::live_endpoints(self.routing.table.entries@);
                let none = !on || all.len() == 0;
                &&& asked(
                    old(pings).pings@,
                    final(pings).pings@,
                    if none {
                        Seq::empty()
                    } else {
                        engine_ticks::batch_after(all, cursor as int, take as int)
                    },
                    out.0@,
                    None,
                    sent_at_ms,
                    (now + CC_PROBE_MS) as u64,
                )
                &&& out.1 == if none {
                    cursor as int
                } else {
                    engine_ticks::cursor_after(all.len() as int, cursor as int, take as int)
                }
            }),
    {
        if !on {
            return (Vec::new(), cursor);
        }
        let all: Vec<Endpoint> = self.endpoints_excluding_stale();
        proof {
            fewer_live(self.routing.table.entries@);
        }
        let (batch, next): (Vec<Endpoint>, usize) = rotate_batch(&all, cursor, take);
        proof {
            if all@.len() == 0 {
                assert(batch@ =~= Seq::<Endpoint>::empty());
            }
        }
        (pings.begin_each(&batch, None, sent_at_ms, now + CC_PROBE_MS), next)
    }

    /// Starts the recovery of `vip`, where one may start: the endpoints that are
    /// asked. `found` are the paths that control packets to the peer may take.
    pub fn spawn_predictive_heal(
        &mut self,
        pings: &mut PendingPings,
        vip: &String,
        found: Vec<Endpoint>,
        max_pending: usize,
        sent_at_ms: u64,
        now: u64,
    ) -> (out: Option<Vec<Probe>>)
        requires
            old(self).wf(),
            old(pings).wf(),
            old(pings).pings@.dom().len() + HEAL_PROBES_MAX < 0xffff_ffff_ffff_ffff,
            now + HEAL_PROBE_MS <= u64::MAX,
        ensures
            final(self).wf(),
            final(pings).wf(),
            *final(self) == (EngineState {
                pending_heal_vips: final(self).pending_heal_vips,
                ..*old(self)
            }),
            ({
                let ok = may_heal(
                    *old(self),
                    vip@,
                    engine_ticks::heal_pings(old(pings).pings.entries@),
                    max_pending as int,
                    now,
                );
                &&& (out is Some <==> ok)
                &&& !ok ==> *final(pings) == *old(pings) && final(self).pending_heal_vips@ == old(
                    self,
                ).pending_heal_vips@
                &&& ok ==> final(self).pending_heal_vips@ == old(
                    self,
                ).pending_heal_vips@.insert(vip@) && asked(
                    old(pings).pings@,
                    final(pings).pings@,
                    heal_dests(*old(self), vip@, found@),
                    out->0@,
                    Some(vip@),
                    sent_at_ms,
                    (now + HEAL_PROBE_MS) as u64,
                )
            }),
    {
        let pending: usize = pings.heal_count();
        match self.begin_heal(vip, pending, max_pending, now) {
            Some(primary) => {
                let all: Vec<Endpoint> = self.control_race_dests(primary, found);
                let dests: Vec<Endpoint> = take_first(&all, HEAL_PROBES_MAX);
                Some(pings.begin_each(&dests, Some(vip), sent_at_ms, now + HEAL_PROBE_MS))
            },
            None => None,
        }
    }

    /// What became of the probes of a recovery: those that could not be sent are
    /// forgotten, and where none was sent, the recovery failed.
    pub fn heal_probes_sent(
        &mut self,
        pings: &mut PendingPings,
        vip: &String,
        probes: &Vec<Probe>,
        sent: &Vec<bool>,
        now: u64,
        cooldown_ms: u64,
    )
        requires
            old(self).wf(),
            old(pings).wf(),
            sent@.len() == probes@.len(),
            now + cooldown_ms <= u64::MAX,
        ensures
            final(self).wf(),
            final(pings).wf(),
            final(pings).next_ping_id == old(pings).next_ping_id,
            final(pings).pings@ == sent_only(old(pings).pings@, probes@, sent@),
            sent@.contains(true) ==> *final(self) == *old(self),
            !sent@.contains(true) ==> {
                &&& *final(self) == (EngineState {
                    pending_heal_vips: final(self).pending_heal_vips,
                    heal_cooldown_until: final(self).heal_cooldown_until,
                    ..*old(self)
                })
                &&& final(self).pending_heal_vips@ == old(self).pending_heal_vips@.remove(vip@)
                &&& final(self).heal_cooldown_until@ == old(self).heal_cooldown_until@.insert(
                    vip@,
                    (now + cooldown_ms) as u64,
                )
            },
    {
        if !pings.forget_unsent(probes, sent) {
            self.heal_failed(vip, now, cooldown_ms);
        }
    }

    /// The endpoint that a packet to a peer behind a relay is handed to: first to
    /// the relay `hop`, and where that `failed`, to the one that was chosen in its
    /// place. The owner uses no relay.
    pub fn relay_hop(&self, hop: Endpoint, failed: bool, other: RelaySelection) -> (out: Option<
        Endpoint,
    >)
        ensures
            out == if self.id.is_owner {
                None
            } else if !failed {
                Some(hop)
            } else {
                match other {
                    RelaySelection::Hop(alt) => Some(alt),
                    RelaySelection::NoHop => None,
                }
            },
    {
        if self.id.is_owner {
            None
        } else if !failed {
            Some(hop)
        } else {
            match other {
                RelaySelection::Hop(alt) => Some(alt),
                RelaySelection::NoHop => None,
            }
        }
    }
}

/// There are no more live endpoints than routes.
proof fn fewer_live(s: Seq<(String, crate::routing::RouteEntry)>)
    ensures
        engine_cmd::live_endpoints(s).len() <= s.len(),
    decreases s.len(),
{
    if s.len() > 0 {
        fewer_live(s.drop_last());
    }
}

/// A recovery that starts has a ping that waits as soon as one of its probes was
/// sent, and is over where none was: no recovery is under way for nothing.
pub proof fn started_recoveries_wait(
    vips: Set<Seq<char>>,
    before: Map<u64, PendingPing>,
    after: Map<u64, PendingPing>,
    vip: Seq<char>,
    dests: Seq<Endpoint>,
    probes: Seq<Probe>,
    sent: Seq<bool>,
    sent_at_ms: u64,
    deadline: u64,
)
    requires
        recoveries_wait(vips, before),
        asked(before, after, dests, probes, Some(vip), sent_at_ms, deadline),
        sent.len() == probes.len(),
    ensures
        sent.contains(true) ==> recoveries_wait(
            vips.insert(vip),
            sent_only(after, probes, sent),
        ),
        !sent.contains(true) ==> recoveries_wait(
            vips.insert(vip).remove(vip),
            sent_only(after, probes, sent),
        ),
{
    let kept = sent_only(after, probes, sent);
    assert forall|v: Seq<char>| #[trigger] vips.contains(v) implies engine_ticks::some_heals(
        kept,
        v,
    ) by {
        let id = choose|id: u64| #[trigger]
            before.dom().contains(id) && engine_ticks::heals(before[id], v);
        assert(after.dom().contains(id));
        if unsent(probes, sent, id) {
            let i = choose|i: int|
                0 <= i < probes.len() && (#[trigger] probes[i]).id == id && !sent[i];
            assert(!before.dom().contains(probes[i].id));
        }
        assert(kept.dom().contains(id) && engine_ticks::heals(kept[id], v));
    }
    if sent.contains(true) {
        let i = choose|i: int| 0 <= i < sent.len() && sent[i] == true;
        let id = probes[i].id;
        assert(waits(after, probes[i], Some(vip), sent_at_ms, deadline));
        if unsent(probes, sent, id) {
            let j = choose|j: int|
                0 <= j < probes.len() && (#[trigger] probes[j]).id == id && !sent[j];
            assert(probes[i].id == probes[j].id);
            if i < j {
                assert(probes[i].id != probes[j].id);
            } else {
                assert(probes[j].id != probes[i].id);
            }
        }
        assert(kept.dom().contains(id) && engine_ticks::heals(kept[id], vip));
    }
}

/// An answer ends a recovery only when it was the last that was awaited.
pub proof fn answered_recoveries_wait(
    vips: Set<Seq<char>>,
    m: Map<u64, PendingPing>,
    id: u64,
    vip: Seq<char>,
)
    requires
        recoveries_wait(vips, m),
        m.dom().contains(id),
        engine_ticks::heals(m[id], vip),
    ensures
        recoveries_wait(
            if engine_ticks::some_heals(m.remove(id), vip) {
                vips
            } else {
                vips.remove(vip)
            },
            m.remove(id),
        ),
{
    let m1 = m.remove(id);
    assert forall|v: Seq<char>| vips.contains(v) && v != vip implies engine_ticks::some_heals(
        m1,
        v,
    ) by {
        let x = choose|x: u64| #[trigger] m.dom().contains(x) && engine_ticks::heals(m[x], v);
        assert(x != id);
        assert(m1.dom().contains(x) && engine_ticks::heals(m1[x], v));
    }
}

/// Once the pings are dropped whose time is up, the recoveries that are left
/// still have a ping that waits.
pub proof fn expired_recoveries_wait(
    vips: Set<Seq<char>>,
    m: Map<u64, PendingPing>,
    now: u64,
    left: Set<Seq<char>>,
)
    requires
        recoveries_wait(vips, m),
        forall|v: Seq<char>| #[trigger]
            left.contains(v) <==> vips.contains(v) && !engine_ping::given_up(
                m,
                engine_ping::awaited(m, now),
                v,
            ),
    ensures
        recoveries_wait(left, engine_ping::awaited(m, now)),
{
    let kept = engine_ping::awaited(m, now);
    assert forall|v: Seq<char>| #[trigger] left.contains(v) implies engine_ticks::some_heals(
        kept,
        v,
    ) by {
        assert(vips.contains(v));
        let id = choose|id: u64| #[trigger] m.dom().contains(id) && engine_ticks::heals(m[id], v);
        if kept.dom().contains(id) {
            assert(engine_ticks::heals(kept[id], v));
        } else {
            assert(m.dom().contains(id) && !kept.dom().contains(id) && engine_ticks::heals(
                m[id],
                v,
            ));
        }
    }
}

} // verus!
