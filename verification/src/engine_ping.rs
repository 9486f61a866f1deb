//! Pings: what is answered, which answer belongs to which ping, and what becomes
//! of pings without an answer.

use crate::addr::Endpoint;
use crate::engine_routes;
use crate::engine_state;
use crate::engine_state::{since, EngineState};
use crate::engine_ticks;
use crate::engine_ticks::{PendingPing, PendingPingKind, PendingPings};
use crate::table;
use crate::wire;
use crate::wire::{
    decode_ping_payload, decode_pong_payload, encode_ping_payload, encode_pong_payload,
    one_way_delay_ms,
};
use vstd::prelude::*;

verus! {

/// The time between a ping and its answer, at least one millisecond. A time that
/// is too long to be true counts as one millisecond too.
pub open spec fn round_trip_of(now_ms: u64, sent_at_ms: u64) -> i64 {
    let d = engine_state::elapsed(now_ms, sent_at_ms);
    if 1 <= d <= i64::MAX {
        d as i64
    } else {
        1
    }
}

/// An answer that belongs to a ping.
pub struct Pong {
    /// The number of the ping.
    pub id: u64,
    pub rtt_ms: i64,
    pub fwd_owd_ms: i32,
    pub kind: PendingPingKind,
}

/// The pings whose time is not up.
pub open spec fn awaited(m: Map<u64, PendingPing>, now: u64) -> Map<u64, PendingPing> {
    Map::new(|id: u64| m.dom().contains(id) && m[id].deadline > now, |id: u64| m[id])
}

/// A ping of `before` for the recovery of `vip` is gone in `after`, and no other
/// is left.
pub open spec fn given_up(
    before: Map<u64, PendingPing>,
    after: Map<u64, PendingPing>,
    vip: Seq<char>,
) -> bool {
    &&& exists|id: u64| #[trigger]
        before.dom().contains(id) && !after.dom().contains(id) && engine_ticks::heals(
            before[id],
            vip,
        )
    &&& !engine_ticks::some_heals(after, vip)
}

/// One more ping is gone: which recoveries are given up by that.
proof fn one_more_gone(
    before: Map<u64, PendingPing>,
    m: Map<u64, PendingPing>,
    id: u64,
    vip: Seq<char>,
)
    requires
        m.dom().contains(id),
        forall|x: u64| #[trigger]
            m.dom().contains(x) ==> before.dom().contains(x) && before[x] == m[x],
    ensures
        given_up(before, m.remove(id), vip) == if engine_ticks::heals(m[id], vip) {
            !engine_ticks::some_heals(m.remove(id), vip)
        } else {
            given_up(before, m, vip)
        },
        engine_ticks::heals(m[id], vip) ==> !given_up(before, m, vip),
{
    let m1 = m.remove(id);
    if engine_ticks::heals(m[id], vip) {
        assert(before.dom().contains(id) && !m1.dom().contains(id));
        assert(engine_ticks::some_heals(m, vip));
    } else {
        if engine_ticks::some_heals(m, vip) {
            let x = choose|x: u64| #[trigger]
                m.dom().contains(x) && engine_ticks::heals(m[x], vip);
            assert(m1.dom().contains(x) && engine_ticks::heals(m1[x], vip));
        }
        if engine_ticks::some_heals(m1, vip) {
            let x = choose|x: u64| #[trigger]
                m1.dom().contains(x) && engine_ticks::heals(m1[x], vip);
            assert(m.dom().contains(x) && engine_ticks::heals(m[x], vip));
        }
        if given_up(before, m, vip) {
            let x = choose|x: u64| #[trigger]
                before.dom().contains(x) && !m.dom().contains(x) && engine_ticks::heals(
                    before[x],
                    vip,
                );
            assert(before.dom().contains(x) && !m1.dom().contains(x));
        }
        if given_up(before, m1, vip) {
            let x = choose|x: u64| #[trigger]
                before.dom().contains(x) && !m1.dom().contains(x) && engine_ticks::heals(
                    before[x],
                    vip,
                );
            assert(x != id);
            assert(before.dom().contains(x) && !m.dom().contains(x));
        }
    }
}

impl PendingPings {
    /// A new ping to `dest`: its number, and what is sent. Its answer is awaited.
    pub fn begin(
        &mut self,
        dest: Endpoint,
        allow_ip_match: bool,
        kind: PendingPingKind,
        sent_at_ms: u64,
        deadline: u64,
    ) -> (out: (u64, Vec<u8>))
        requires
            old(self).wf(),
            old(self).pings@.dom().len() < 0xffff_ffff_ffff_ffff,
        ensures
            final(self).wf(),
            out.0 != 0,
            !old(self).pings@.dom().contains(out.0),
            out.1@ == wire::ping_bytes(out.0, sent_at_ms),
            final(self).pings@ == old(self).pings@.insert(
                out.0,
                PendingPing { dest, allow_ip_match, deadline, sent_at_ms, kind },
            ),
    {
        let id: u64 = self.allocate_ping_id();
        self.insert(id, PendingPing { dest, allow_ip_match, deadline, sent_at_ms, kind });
        (id, encode_ping_payload(id, sent_at_ms))
    }
}

impl EngineState {
    /// A ping came in: the peer was heard, and it gets an answer, where the ping
    /// can be read. `wall_ms` is the time of day.
    pub fn handle_ping_body(&mut self, body: &[u8], from: Endpoint, wall_ms: u64, now: u64) -> (out:
        Option<Vec<u8>>)
        requires
            old(self).wf(),
        ensures
            final(self).wf(),
            EngineState::beyond_peers(*old(self), *final(self)),
            final(self).peers() == engine_routes::heard(
                old(self).peers(),
                old(self).id.is_owner,
                from,
                now,
            ),
            match wire::ping_of(body@) {
                Some((id, ts)) => out matches Some(pong) && pong@ == wire::pong_bytes(
                    id,
                    ts,
                    wire::clamp_i32(wire::signed(wall_ms) - wire::signed(ts)) as i32,
                ),
                None => out is None,
            },
    {
        let _ = self.touch_routing_endpoint(from, now);
        match decode_ping_payload(body) {
            Some((id, ts)) => {
                let pong: [u8; 20] = encode_pong_payload(
                    id,
                    ts,
                    one_way_delay_ms(wall_ms, ts),
                );
                let mut out: Vec<u8> = Vec::new();
                let mut i: usize = 0;
                while i < 20
                    invariant
                        i <= 20,
                        out@ == pong@.take(i as int),
                    decreases 20 - i,
                {
                    out.push(pong[i]);
                    proof {
                        assert(pong@.take(i + 1) =~= pong@.take(i as int).push(pong@[i as int]));
                    }
                    i += 1;
                }
                proof {
                    assert(pong@.take(20) =~= pong@);
                }
                Some(out)
            },
            None => None,
        }
    }

    /// An answer came in: the peer was heard, and the ping is done that the answer
    /// is for. One that nobody waits for, or from a wrong sender, changes no more.
    /// `wall_ms` is the time of day.
    pub fn handle_pong_body(
        &mut self,
        pings: &mut PendingPings,
        body: &[u8],
        from: Endpoint,
        wall_ms: u64,
        now: u64,
    ) -> (out: Option<Pong>)
        requires
            old(self).wf(),
            old(pings).wf(),
        ensures
            final(self).wf(),
            final(pings).wf(),
            final(pings).next_ping_id == old(pings).next_ping_id,
            match wire::pong_of(body@) {
                Some((id, _, owd)) => {
                    let m = old(pings).pings@;
                    let hit = m.dom().contains(id) && engine_ticks::answers(m[id], from);
                    &&& EngineState::beyond_peers(*old(self), *final(self))
                    &&& final(self).peers() == engine_routes::heard(
                        old(self).peers(),
                        old(self).id.is_owner,
                        from,
                        now,
                    )
                    &&& out == if hit {
                        Some(
                            Pong {
                                id,
                                rtt_ms: round_trip_of(wall_ms, m[id].sent_at_ms),
                                fwd_owd_ms: owd,
                                kind: m[id].kind,
                            },
                        )
                    } else {
                        None
                    }
                    &&& final(pings).pings@ == if hit {
                        m.remove(id)
                    } else {
                        m
                    }
                },
                None => out is None && *final(self) == *old(self) && *final(pings) == *old(pings),
            },
    {
        let (id, owd): (u64, i32) = match decode_pong_payload(body) {
            Some((id, _, owd)) => (id, owd),
            None => {
                return None;
            },
        };
        let _ = self.touch_routing_endpoint(from, now);
        match pings.take_answered(id, from) {
            Some(p) => {
                let d: u64 = since(wall_ms, p.sent_at_ms);
                let rtt_ms: i64 = if d == 0 || d > 0x7fff_ffff_ffff_ffff {
                    1
                } else {
                    d as i64
                };
                Some(Pong { id, rtt_ms, fwd_owd_ms: owd, kind: p.kind })
            },
            None => None,
        }
    }

    /// A ping for the recovery of `vip` was answered. Tells whether that counts:
    /// whether the recovery was under way.
    pub fn handle_heal_success(&mut self, pings: &PendingPings, vip: &String) -> (counts: bool)
        requires
            old(self).wf(),
            pings.wf(),
        ensures
            final(self).wf(),
            counts == old(self).pending_heal_vips@.contains(vip@),
            !counts ==> *final(self) == *old(self),
            *final(self) == (EngineState {
                pending_heal_vips: final(self).pending_heal_vips,
                heal_cooldown_until: final(self).heal_cooldown_until,
                ..*old(self)
            }),
            counts ==> final(self).pending_heal_vips@ == if engine_ticks::some_heals(
                pings.pings@,
                vip@,
            ) {
                old(self).pending_heal_vips@
            } else {
                old(self).pending_heal_vips@.remove(vip@)
            },
            counts ==> final(self).heal_cooldown_until@ == old(self).heal_cooldown_until@.remove(
                vip@,
            ),
    {
        let more: bool = pings.has_heal(vip);
        self.heal_answered(vip, more)
    }

    /// Drops the pings whose time is up. A recovery all of whose pings are gone is
    /// given up, and its peer rests for a while. Returns the pings of users that
    /// were dropped.
    pub fn expire_pending_pings(&mut self, pings: &mut PendingPings, now: u64, cooldown_ms: u64)
        -> (out: Vec<u64>)
        requires
            old(self).wf(),
            old(pings).wf(),
            now + cooldown_ms <= u64::MAX,
        ensures
            final(self).wf(),
            final(pings).wf(),
            final(pings).next_ping_id == old(pings).next_ping_id,
            final(pings).pings@ == awaited(old(pings).pings@, now),
            *final(self) == (EngineState {
                pending_heal_vips: final(self).pending_heal_vips,
                heal_cooldown_until: final(self).heal_cooldown_until,
                ..*old(self)
            }),
            forall|v: Seq<char>| #[trigger]
                final(self).pending_heal_vips@.contains(v) <==> old(self).pending_heal_vips@.contains(v) && !given_up(
                    old(pings).pings@,
                    awaited(old(pings).pings@, now),
                    v,
                ),
            forall|v: Seq<char>| #[trigger]
                final(self).heal_cooldown_until@.dom().contains(v) <==> old(self).heal_cooldown_until@.dom().contains(v) || given_up(
                    old(pings).pings@,
                    awaited(old(pings).pings@, now),
                    v,
                ),
            forall|v: Seq<char>| #[trigger]
                final(self).heal_cooldown_until@.dom().contains(v) ==> final(self).heal_cooldown_until@[v] == if given_up(
                    old(pings).pings@,
                    awaited(old(pings).pings@, now),
                    v,
                ) {
                    (now + cooldown_ms) as u64
                } else {
                    old(self).heal_cooldown_until@[v]
                },
            out@.no_duplicates(),
            forall|id: u64| #[trigger]
                out@.contains(id) <==> old(pings).pings@.dom().contains(id) && old(pings).pings@[id].deadline <= now && old(pings).pings@[id].kind is User,
    {
        let ghost m0 = pings.pings@;
        let ghost h0 = self.pending_heal_vips@;
        let ghost c0 = self.heal_cooldown_until@;
        let mut out: Vec<u64> = Vec::new();
        proof {
            table::map_of_len(pings.pings.entries@);
            assert forall|v: Seq<char>| !given_up(m0, m0, v) by {}
        }
        loop
            invariant
                self.wf(),
                pings.wf(),
                pings.next_ping_id == old(pings).next_ping_id,
                now + cooldown_ms <= u64::MAX,
                m0 == old(pings).pings@,
                h0 == old(self).pending_heal_vips@,
                c0 == old(self).heal_cooldown_until@,
                *self == (EngineState {
                    pending_heal_vips: self.pending_heal_vips,
                    heal_cooldown_until: self.heal_cooldown_until,
                    ..*old(self)
                }),
                pings.pings@.dom().finite(),
                forall|x: u64| #[trigger]
                    pings.pings@.dom().contains(x) ==> m0.dom().contains(x) && m0[x]
                        == pings.pings@[x],
                forall|x: u64| #[trigger]
                    m0.dom().contains(x) && m0[x].deadline > now ==> pings.pings@.dom().contains(x),
                forall|v: Seq<char>| #[trigger]
                    self.pending_heal_vips@.contains(v) <==> h0.contains(v) && !given_up(
                        m0,
                        pings.pings@,
                        v,
                    ),
                forall|v: Seq<char>| #[trigger]
                    self.heal_cooldown_until@.dom().contains(v) <==> c0.dom().contains(v)
                        || given_up(m0, pings.pings@, v),
                forall|v: Seq<char>| #[trigger]
                    self.heal_cooldown_until@.dom().contains(v) ==> self.heal_cooldown_until@[v]
                        == if given_up(m0, pings.pings@, v) {
                        (now + cooldown_ms) as u64
                    } else {
                        c0[v]
                    },
                out@.no_duplicates(),
                forall|id: u64| #[trigger]
                    out@.contains(id) <==> m0.dom().contains(id) && !pings.pings@.dom().contains(id)
                        && m0[id].kind is User,
            decreases pings.pings@.dom().len(),
        {
            let ghost m = pings.pings@;
            let ghost h = self.pending_heal_vips@;
            let ghost c = self.heal_cooldown_until@;
            match pings.take_expired(now) {
                Some((id, p)) => {
                    proof {
                        assert forall|v: Seq<char>| true implies #[trigger] given_up(
                            m0,
                            m.remove(id),
                            v,
                        ) == (if engine_ticks::heals(p, v) {
                            !engine_ticks::some_heals(m.remove(id), v)
                        } else {
                            given_up(m0, m, v)
                        }) && (engine_ticks::heals(p, v) ==> !given_up(m0, m, v)) by {
                            one_more_gone(m0, m, id, v);
                        }
                    }
                    match p.kind {
                        PendingPingKind::User => {
                            let ghost o = out@;
                            out.push(id);
                            proof {
                                assert(!o.contains(id));
                                assert forall|x: u64| #[trigger] out@.contains(x) <==> o.contains(x)
                                    || x == id by {
                                    if o.contains(x) {
                                        let j = choose|j: int| 0 <= j < o.len() && o[j] == x;
                                        assert(out@[j] == x);
                                    }
                                    if x == id {
                                        assert(out@[o.len() as int] == x);
                                    }
                                }
                            }
                        },
                        PendingPingKind::Heal { vip, endpoint: _ } => {
                            if !pings.has_heal(&vip) {
                                self.heal_failed(&vip, now, cooldown_ms);
                            }
                        },
                        PendingPingKind::Probe => {},
                    }
                },
                None => {
                    proof {
                        assert(pings.pings@ =~= awaited(m0, now));
                    }
                    return out;
                },
            }
        }
    }
}

/// A ping that is answered in time comes back to the one who sent it, with the
/// time that it took.
pub proof fn ping_comes_back(
    before: Map<u64, PendingPing>,
    id: u64,
    p: PendingPing,
    owd: i32,
    now: u64,
)
    requires
        !before.dom().contains(id),
        p.deadline > now,
    ensures
        wire::ping_of(wire::ping_bytes(id, p.sent_at_ms)) == Some((id, p.sent_at_ms)),
        wire::pong_of(wire::pong_bytes(id, p.sent_at_ms, owd)) == Some((id, p.sent_at_ms, owd)),
        awaited(before.insert(id, p), now).dom().contains(id),
        awaited(before.insert(id, p), now)[id] == p,
        engine_ticks::answers(p, p.dest),
        before.insert(id, p).remove(id) == before,
{
    wire::ping_round_trip(id, p.sent_at_ms);
    wire::pong_round_trip(id, p.sent_at_ms, owd);
    assert(before.insert(id, p).remove(id) =~= before);
}

} // verus!
