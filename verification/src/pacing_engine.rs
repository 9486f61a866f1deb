//! How the pacer fills and empties its queues.

use crate::addr::Endpoint;
use crate::apd;
use crate::apd::{ApdConfig, ApdPhase, ApdState};
use crate::engine_state::since;
use crate::lane;
use crate::lane::{LaneConfig, PeerPopKind, QueuedData};
use crate::lane_map;
use crate::lane_map::LaneMap;
use crate::pacing;
use crate::pacing::{
    NextPacket, PacingConfig, PacingCounters, PacingEngine, PacingQueueSnapshot, PeerTerms,
    QueuedPacket, CONTROL_AGING_US,
};
use std::collections::VecDeque;
use vstd::prelude::*;

verus! {

fn first_packet(q: &mut VecDeque<QueuedPacket>) -> (out: Option<QueuedPacket>)
    ensures
        match out {
            Some(e) => old(q)@.len() > 0 && e == old(q)@[0] && final(q)@ == old(q)@.skip(1),
            None => old(q)@.len() == 0 && final(q)@ == old(q)@,
        },
{
    let ghost before = q@;
    let out = q.pop_front();
    proof {
        if before.len() > 0 {
            assert(q@ =~= before.skip(1));
        }
    }
    out
}

fn cap_or_one(n: usize) -> (out: usize)
    ensures
        out == pacing::cap_of(n),
{
    if n < 1 {
        1
    } else {
        n
    }
}

/// Drops the oldest packets until there is room for one more; tells how many
/// there were.
fn trim_queue(q: &mut VecDeque<QueuedPacket>, cap: usize) -> (dropped: usize)
    requires
        cap >= 1,
    ensures
        final(q)@ == pacing::trimmed_for(old(q)@, cap as nat),
        dropped == old(q)@.len() - final(q)@.len(),
{
    let ghost all = q@;
    let total: usize = q.len();
    let mut dropped: usize = 0;
    proof {
        assert(all.skip(0) =~= all);
    }
    while q.len() >= cap
        invariant
            cap >= 1,
            total == all.len(),
            dropped <= total,
            q@ == all.skip(dropped as int),
            dropped > 0 ==> total - dropped + 1 >= cap,
        decreases q@.len(),
    {
        let _ = first_packet(q);
        dropped += 1;
        proof {
            assert(q@ =~= all.skip(dropped as int));
        }
    }
    dropped
}

impl PacingEngine {
    /// The lanes are kept in order, and the destinations that wait are counted.
    pub open spec fn wf(&self) -> bool {
        &&& self.peer_queues.wf()
        &&& self.non_empty_peers == pacing::waiting(self.peer_queues@, self.peer_queues@.len())
    }

    pub fn new() -> (out: Self)
        ensures
            out.wf(),
            call_ensures(PacingConfig::default, (), out@.cfg),
            exists|a: ApdConfig| #[trigger]
                call_ensures(ApdConfig::default, (), a) && out@ == (pacing::PacerView {
                    cfg: out@.cfg,
                    control: Seq::empty(),
                    rtx: Seq::empty(),
                    lanes: Seq::empty(),
                    non_empty: 0,
                    errors: 0,
                    interleave: 0,
                    cursor: 0,
                    apd: apd::fresh_apd(a),
                    n: pacing::no_counts(),
                }),
    {
        let config = PacingConfig::default();
        let a = ApdConfig::default();
        PacingEngine {
            config,
            control_q: VecDeque::new(),
            retransmit_q: VecDeque::new(),
            peer_queues: LaneMap::new(),
            non_empty_peers: 0,
            consecutive_errors: 0,
            interleave_counter: 0,
            drr_cursor: 0,
            apd: ApdState::new(a),
            counters: PacingCounters {
                dropped_packets: 0,
                dropped_data: 0,
                dropped_control_normal: 0,
                dropped_control_retransmit: 0,
                reserved_ctrl_sends: 0,
                reserved_rtx_sends: 0,
                drr_small_priority_pops: 0,
                drr_bulk_force_pops: 0,
                shed_sojourn: 0,
                drr_rtt_scale_applied: 0,
                cc_rate_limited_events: 0,
            },
        }
    }

    fn peer_lane_config(&self) -> (out: LaneConfig)
        ensures
            out == pacing::lane_cfg(self@.cfg),
    {
        LaneConfig {
            priority_on: self.config.drr_small_packet_priority,
            threshold: self.config.drr_small_packet_threshold_bytes,
        }
    }

    /// Where a destination's lanes are; a new destination gets some.
    fn ensure_lane(&mut self, dest: Endpoint) -> (i: usize)
        requires
            old(self).wf(),
        ensures
            final(self).wf(),
            final(self)@ == (pacing::PacerView {
                lanes: pacing::with_lane(old(self)@.lanes, dest),
                ..old(self)@
            }),
            lane_map::lane_at(final(self)@.lanes, dest, i as int),
            i == pacing::lane_ix(final(self)@.lanes, dest),
    {
        let ghost s = self.peer_queues@;
        match self.peer_queues.index_of(dest) {
            Some(i) => {
                proof {
                    self.peer_queues.destinations_distinct();
                    index_is_unique(s, dest, i as int);
                }
                i
            },
            None => {
                let i: usize = self.peer_queues.len();
                self.peer_queues.add(dest);
                proof {
                    let t = self.peer_queues@;
                    self.peer_queues.destinations_distinct();
                    assert(lane_map::lane_at(t, dest, i as int));
                    index_is_unique(t, dest, i as int);
                    assert(t.drop_last() =~= s);
                    counts_of_prefix(s, t);
                }
                i
            },
        }
    }

    pub fn enqueue(&mut self, pkt: Vec<u8>, dest: Endpoint, is_control: bool, now: u64) -> (kept:
        bool)
        requires
            old(self).wf(),
        ensures
            final(self).wf(),
            is_control ==> kept && final(self)@ == pacing::control_enqueued(
                old(self)@,
                QueuedPacket { pkt, dest, enqueued_at: now },
                false,
            ).1,
            !is_control ==> enqueue_done(old(self)@, pkt, dest, None, None, now, kept, final(self)@),
    {
        if is_control {
            let _ = self.enqueue_control(pkt, dest, now);
            true
        } else {
            self.enqueue_peer(pkt, dest, now)
        }
    }

    pub fn enqueue_data(&mut self, pkt: Vec<u8>, dest: Endpoint, now: u64) -> (kept: bool)
        requires
            old(self).wf(),
        ensures
            final(self).wf(),
            enqueue_done(old(self)@, pkt, dest, None, None, now, kept, final(self)@),
    {
        self.enqueue_peer(pkt, dest, now)
    }

    pub fn enqueue_peer(&mut self, pkt: Vec<u8>, dest: Endpoint, now: u64) -> (kept: bool)
        requires
            old(self).wf(),
        ensures
            final(self).wf(),
            enqueue_done(old(self)@, pkt, dest, None, None, now, kept, final(self)@),
    {
        self.enqueue_peer_with_hints(pkt, dest, None, None, now)
    }

    pub fn enqueue_peer_with_rtt(
        &mut self,
        pkt: Vec<u8>,
        dest: Endpoint,
        rtt_bits: Option<u32>,
        now: u64,
    ) -> (kept: bool)
        requires
            old(self).wf(),
        ensures
            final(self).wf(),
            enqueue_done(old(self)@, pkt, dest, rtt_bits, None, now, kept, final(self)@),
    {
        self.enqueue_peer_with_hints(pkt, dest, rtt_bits, None, now)
    }

    /// Takes a packet for a destination; tells whether no other packet had to
    /// make room for it.
    pub fn enqueue_peer_with_hints(
        &mut self,
        pkt: Vec<u8>,
        dest: Endpoint,
        rtt_bits: Option<u32>,
        queuing_delay_bits: Option<u32>,
        now: u64,
    ) -> (kept: bool)
        requires
            old(self).wf(),
        ensures
            final(self).wf(),
            enqueue_done(
                old(self)@,
                pkt,
                dest,
                rtt_bits,
                queuing_delay_bits,
                now,
                kept,
                final(self)@,
            ),
    {
        let ghost v0 = self@;
        let cap: usize = cap_or_one(self.config.max_data_queue_packets);
        let cfg = self.peer_lane_config();
        let i: usize = self.ensure_lane(dest);
        let ghost s = self.peer_queues@;
        let ghost l0 = s[i as int].1;
        let ghost e = QueuedData { pkt, enqueued_at: now };
        let total: usize = self.peer_queues.len();
        let q = self.peer_queues.at_mut(i);
        if rtt_bits.is_some() {
            q.rtt_bits = rtt_bits;
        }
        if queuing_delay_bits.is_some() {
            q.queuing_delay_bits = queuing_delay_bits;
        }
        let was_empty: bool = q.is_empty();
        let kept: bool = q.push(QueuedData { pkt, enqueued_at: now }, cap, cfg);
        proof {
            let l = self.peer_queues@[i as int].1;
            counts_at(s, i as int, l);
            waiting_in_range(self.peer_queues@);
        }
        if was_empty {
            self.non_empty_peers = self.non_empty_peers + 1;
        }
        if !kept {
            self.counters.dropped_packets = self.counters.dropped_packets.saturating_add(1);
            self.counters.dropped_data = self.counters.dropped_data.saturating_add(1);
        }
        proof {
            assert(self@ =~= pacing::enqueued(v0, e, dest, rtt_bits, queuing_delay_bits));
        }
        kept
    }

    /// Takes all packets of a batch for a destination, or none of them.
    pub fn try_enqueue_peer_batch(
        &mut self,
        dest: Endpoint,
        pkts: Vec<Vec<u8>>,
        rtt_bits: Option<u32>,
        queuing_delay_bits: Option<u32>,
        now: u64,
    ) -> (taken: bool)
        requires
            old(self).wf(),
        ensures
            final(self).wf(),
            (taken, final(self)@) == pacing::batch_enqueued(
                old(self)@,
                pkts@,
                dest,
                rtt_bits,
                queuing_delay_bits,
                now,
            ),
    {
        let ghost v0 = self@;
        let ghost all = pkts@;
        let n: usize = pkts.len();
        if n == 0 {
            return true;
        }
        let cap: usize = cap_or_one(self.config.max_data_queue_packets);
        let cfg = self.peer_lane_config();
        let i: usize = self.ensure_lane(dest);
        let ghost s = self.peer_queues@;
        let total: usize = self.peer_queues.len();
        let q = self.peer_queues.at_mut(i);
        if rtt_bits.is_some() {
            q.rtt_bits = rtt_bits;
        }
        if queuing_delay_bits.is_some() {
            q.queuing_delay_bits = queuing_delay_bits;
        }
        let fits: bool = q.has_room(n, cap);
        let was_empty: bool = q.is_empty();
        let ghost l0 = pacing::hinted(s[i as int].1, rtt_bits, queuing_delay_bits);
        if !fits {
            proof {
                let l = self.peer_queues@[i as int].1;
                counts_at(s, i as int, l);
                assert(self@ =~= pacing::batch_enqueued(
                    v0,
                    all,
                    dest,
                    rtt_bits,
                    queuing_delay_bits,
                    now,
                ).1);
            }
            return false;
        }
        push_batch(q, pkts, now, cfg);
        proof {
            let l = self.peer_queues@[i as int].1;
            counts_at(s, i as int, l);
            batch_len(l0, all, now, cfg, all.len());
            waiting_in_range(self.peer_queues@);
        }
        if was_empty {
            self.non_empty_peers = self.non_empty_peers + 1;
        }
        proof {
            assert(self@ =~= pacing::batch_enqueued(
                v0,
                all,
                dest,
                rtt_bits,
                queuing_delay_bits,
                now,
            ).1);
        }
        true
    }

    /// How many packets wait for a destination.
    pub fn peer_data_queue_len(&self, dest: Endpoint) -> (n: usize)
        requires
            self.wf(),
        ensures
            n == if pacing::has_lane(self@.lanes, dest) {
                lane::len_shown(
                    lane::lane_len(self@.lanes[pacing::lane_ix(self@.lanes, dest)].1),
                )
            } else {
                0
            },
    {
        match self.peer_queues.index_of(dest) {
            Some(i) => {
                proof {
                    self.peer_queues.destinations_distinct();
                    index_is_unique(self.peer_queues@, dest, i as int);
                }
                self.peer_queues.at(i).1.len()
            },
            None => 0,
        }
    }

    /// How many packets wait for each destination.
    pub fn peer_data_lens_snapshot(&self) -> (out: Vec<(Endpoint, usize)>)
        requires
            self.wf(),
        ensures
            out@.len() == self@.lanes.len(),
            forall|i: int|
                0 <= i < out@.len() ==> (#[trigger] out@[i]).0 == self@.lanes[i].0 && out@[i].1
                    == lane::len_shown(lane::lane_len(self@.lanes[i].1)),
    {
        let mut out: Vec<(Endpoint, usize)> = Vec::new();
        let n: usize = self.peer_queues.len();
        let mut i: usize = 0;
        while i < n
            invariant
                i <= n,
                n == self.peer_queues@.len(),
                self.wf(),
                out@.len() == i,
                forall|j: int|
                    0 <= j < i ==> (#[trigger] out@[j]).0 == self@.lanes[j].0 && out@[j].1
                        == lane::len_shown(lane::lane_len(self@.lanes[j].1)),
            decreases n - i,
        {
            let (dest, q) = self.peer_queues.at(i);
            out.push((dest, q.len()));
            i += 1;
        }
        out
    }

    /// Forgets a destination, with the packets that wait for it.
    pub fn remove_peer(&mut self, dest: Endpoint)
        requires
            old(self).wf(),
        ensures
            final(self).wf(),
            final(self)@ == pacing::peer_removed(old(self)@, dest),
    {
        let ghost v0 = self@;
        if let Some(i) = self.peer_queues.index_of(dest) {
            proof {
                self.peer_queues.destinations_distinct();
                index_is_unique(v0.lanes, dest, i as int);
                removed_count(v0.lanes, i as int);
            }
            if !self.peer_queues.at(i).1.is_empty() {
                self.non_empty_peers = self.non_empty_peers - 1;
            }
            self.peer_queues.remove_at(i);
            if self.drr_cursor > 0 && i < self.drr_cursor {
                self.drr_cursor = self.drr_cursor - 1;
            }
            let left: usize = self.peer_queues.len();
            if left == 0 {
                self.drr_cursor = 0;
            } else {
                self.drr_cursor = self.drr_cursor % left;
            }
            proof {
                assert(self@ =~= pacing::peer_removed(v0, dest));
            }
        }
    }

    /// Takes a control packet; tells whether another one was dropped for it.
    pub fn enqueue_control(&mut self, pkt: Vec<u8>, dest: Endpoint, now: u64) -> (evicted: bool)
        requires
            old(self).wf(),
        ensures
            final(self).wf(),
            (evicted, final(self)@) == pacing::control_enqueued(
                old(self)@,
                QueuedPacket { pkt, dest, enqueued_at: now },
                false,
            ),
    {
        self.enqueue_control_with_source(pkt, dest, false, now)
    }

    /// Takes a packet to send again; tells whether another one was dropped for
    /// it.
    pub fn enqueue_retransmit(&mut self, pkt: Vec<u8>, dest: Endpoint, now: u64) -> (evicted: bool)
        requires
            old(self).wf(),
        ensures
            final(self).wf(),
            (evicted, final(self)@) == pacing::control_enqueued(
                old(self)@,
                QueuedPacket { pkt, dest, enqueued_at: now },
                true,
            ),
    {
        self.enqueue_control_with_source(pkt, dest, true, now)
    }

    fn enqueue_control_with_source(
        &mut self,
        pkt: Vec<u8>,
        dest: Endpoint,
        retransmit: bool,
        now: u64,
    ) -> (evicted: bool)
        requires
            old(self).wf(),
        ensures
            final(self).wf(),
            (evicted, final(self)@) == pacing::control_enqueued(
                old(self)@,
                QueuedPacket { pkt, dest, enqueued_at: now },
                retransmit,
            ),
    {
        let p = QueuedPacket { pkt, dest, enqueued_at: now };
        if retransmit {
            let cap: usize = cap_or_one(self.config.max_retransmit_queue_packets);
            let k: usize = trim_queue(&mut self.retransmit_q, cap);
            self.counters.dropped_packets = self.counters.dropped_packets.saturating_add(k as u64);
            self.counters.dropped_control_retransmit =
            self.counters.dropped_control_retransmit.saturating_add(k as u64);
            self.retransmit_q.push_back(p);
            return k > 0;
        }
        let cap: usize = cap_or_one(self.config.max_control_queue_packets);
        if self.control_q.len() == 0 {
            self.interleave_counter = 3;
        }
        let k: usize = trim_queue(&mut self.control_q, cap);
        self.counters.dropped_packets = self.counters.dropped_packets.saturating_add(k as u64);
        self.counters.dropped_control_normal =
        self.counters.dropped_control_normal.saturating_add(k as u64);
        self.control_q.push_back(p);
        k > 0
    }

    /// The destination at `i` sends its next packet.
    fn serve(&mut self, i: usize, now: u64) -> (out: NextPacket)
        requires
            old(self).wf(),
            i < old(self)@.lanes.len(),
            lane::lane_len(old(self)@.lanes[i as int].1) > 0,
        ensures
            final(self).wf(),
            (out, final(self)@) == pacing::served(old(self)@, i as int, now),
            final(self)@.lanes.len() == old(self)@.lanes.len(),
    {
        let ghost v0 = self@;
        let cfg = self.peer_lane_config();
        let dest: Endpoint = self.peer_queues.at(i).0;
        let q = self.peer_queues.at_mut(i);
        let taken = q.pop_data(cfg, now);
        let now_empty: bool = q.is_empty();
        proof {
            let l = self.peer_queues@[i as int].1;
            counts_at(v0.lanes, i as int, l);
        }
        match taken {
            Some((e, kind)) => {
                match kind {
                    PeerPopKind::SmallPriority => {
                        self.counters.drr_small_priority_pops =
                        self.counters.drr_small_priority_pops.saturating_add(1);
                    },
                    PeerPopKind::BulkForced => {
                        self.counters.drr_bulk_force_pops =
                        self.counters.drr_bulk_force_pops.saturating_add(1);
                    },
                    PeerPopKind::Bulk => {},
                }
                if now_empty {
                    self.non_empty_peers = self.non_empty_peers - 1;
                }
                proof {
                    assert(self@ =~= pacing::served(v0, i as int, now).1);
                }
                NextPacket::Data { pkt: e.pkt, dest, enqueued_at: e.enqueued_at }
            },
            None => {
                proof {
                    assert(false);
                }
                vstd::pervasive::unreached()
            },
        }
    }

    /// A destination's turn, where bytes are not counted.
    fn take_plain_turn(&mut self, i: usize, open: bool, now: u64) -> (out: Option<NextPacket>)
        requires
            old(self).wf(),
            i < old(self)@.lanes.len(),
        ensures
            final(self).wf(),
            (out, final(self)@) == pacing::plain_turn(old(self)@, i as int, open, now),
            final(self)@.lanes.len() == old(self)@.lanes.len(),
    {
        let cfg = self.peer_lane_config();
        let (empty, front): (bool, usize) = {
            let q = self.peer_queues.at(i).1;
            (q.is_empty(), q.front_len(cfg, now))
        };
        if empty {
            return None;
        }
        if front > 0 && !open {
            self.counters.cc_rate_limited_events =
            self.counters.cc_rate_limited_events.saturating_add(1);
            return None;
        }
        Some(self.serve(i, now))
    }

    /// A destination's turn, where bytes are counted.
    fn take_counted_turn(&mut self, i: usize, t: PeerTerms, now: u64) -> (out: Option<NextPacket>)
        requires
            old(self).wf(),
            i < old(self)@.lanes.len(),
        ensures
            final(self).wf(),
            (out, final(self)@) == pacing::counted_turn(old(self)@, i as int, t, now),
            final(self)@.lanes.len() == old(self)@.lanes.len(),
    {
        let ghost v0 = self@;
        let ghost l0 = v0.lanes[i as int].1;
        let cfg = self.peer_lane_config();
        let q = self.peer_queues.at_mut(i);
        if q.is_empty() {
            q.deficit = 0;
            proof {
                counts_at(v0.lanes, i as int, self.peer_queues@[i as int].1);
                assert(self@ =~= pacing::counted_turn(v0, i as int, t, now).1);
            }
            return None;
        }
        let front: usize = q.front_len(cfg, now);
        let sum: usize = q.deficit.saturating_add(t.quantum);
        let four: usize = times_four(t.quantum);
        let cap: usize = if four >= front {
            four
        } else {
            front
        };
        let c: usize = if sum > cap {
            cap
        } else {
            sum
        };
        q.deficit = c;
        if front == 0 || front > c {
            proof {
                counts_at(v0.lanes, i as int, self.peer_queues@[i as int].1);
                assert(self@ =~= pacing::counted_turn(v0, i as int, t, now).1);
            }
            return None;
        }
        if !t.open {
            proof {
                counts_at(v0.lanes, i as int, self.peer_queues@[i as int].1);
            }
            self.counters.cc_rate_limited_events =
            self.counters.cc_rate_limited_events.saturating_add(1);
            proof {
                assert(self@ =~= pacing::counted_turn(v0, i as int, t, now).1);
            }
            return None;
        }
        q.deficit = c - front;
        proof {
            counts_at(v0.lanes, i as int, self.peer_queues@[i as int].1);
            assert(self@ =~= (pacing::PacerView {
                lanes: pacing::lanes_set(
                    v0.lanes,
                    i as int,
                    lane::LaneView { deficit: (c - front) as usize, ..l0 },
                ),
                ..v0
            }));
        }
        Some(self.serve(i, now))
    }

    /// Whose turn it is; the turn goes on.
    fn turn(&mut self, n: usize) -> (i: usize)
        requires
            old(self).wf(),
            n == old(self)@.lanes.len(),
            n > 0,
        ensures
            final(self).wf(),
            i == old(self)@.cursor as int % n as int,
            i < n,
            final(self)@ == (pacing::PacerView {
                cursor: pacing::next_turn(old(self)@.cursor),
                ..old(self)@
            }),
    {
        let i: usize = self.drr_cursor % n;
        self.drr_cursor = if self.drr_cursor == usize::MAX {
            0
        } else {
            self.drr_cursor + 1
        };
        i
    }

    /// The next packet for a destination. `terms` tells for each destination, in
    /// the order of [`PacingEngine::peer_data_lens_snapshot`], on which terms it
    /// is served.
    fn next_data(&mut self, terms: &Vec<PeerTerms>, freeze_drr: bool, now: u64) -> (out: Option<
        NextPacket,
    >)
        requires
            old(self).wf(),
            terms@.len() == old(self)@.lanes.len(),
        ensures
            final(self).wf(),
            (out, final(self)@) == pacing::data_next(old(self)@, terms@, freeze_drr, now),
    {
        let ghost v0 = self@;
        let n: usize = self.peer_queues.len();
        if freeze_drr {
            let mut k: usize = 0;
            while k < n
                invariant
                    k <= n,
                    self.wf(),
                    n == self@.lanes.len(),
                    terms@.len() == n,
                    freeze_drr,
                    v0 == old(self)@,
                    n == v0.lanes.len(),
                    pacing::plain_turns(v0, terms@, now, n as nat) == pacing::plain_turns(
                        self@,
                        terms@,
                        now,
                        (n - k) as nat,
                    ),
                decreases n - k,
            {
                let i: usize = self.turn(n);
                let p = self.take_plain_turn(i, terms[i].open, now);
                if p.is_some() {
                    return p;
                }
                k += 1;
            }
            return None;
        }
        if !self.config.drr_enabled {
            let mut i: usize = 0;
            while i < n
                invariant
                    i <= n,
                    self.wf(),
                    n == self@.lanes.len(),
                    terms@.len() == n,
                    !freeze_drr,
                    !v0.cfg.drr_enabled,
                    v0 == old(self)@,
                    pacing::in_order(v0, terms@, now, 0) == pacing::in_order(
                        self@,
                        terms@,
                        now,
                        i as int,
                    ),
                decreases n - i,
            {
                let p = self.take_plain_turn(i, terms[i].open, now);
                if p.is_some() {
                    return p;
                }
                i += 1;
            }
            return None;
        }
        if n == 0 || self.non_empty_peers == 0 {
            return None;
        }
        let rounds: u128 = 2 * (n as u128);
        let mut k: u128 = 0;
        let mut hits: u64 = 0;
        while k < rounds
            invariant
                k <= rounds,
                rounds == 2 * n,
                n > 0,
                self.wf(),
                n == self@.lanes.len(),
                terms@.len() == n,
                !freeze_drr,
                v0.cfg.drr_enabled,
                v0.non_empty != 0,
                v0 == old(self)@,
                n == v0.lanes.len(),
                pacing::counted_turns(v0, 0, terms@, now, rounds as nat)
                    == pacing::counted_turns(self@, hits, terms@, now, (rounds - k) as nat),
            decreases rounds - k,
        {
            let i: usize = self.turn(n);
            let t: PeerTerms = terms[i];
            if t.scaled && !self.peer_queues.at(i).1.is_empty() {
                hits = hits.saturating_add(1);
            }
            let p = self.take_counted_turn(i, t, now);
            if p.is_some() {
                return p;
            }
            k += 1;
        }
        self.counters.drr_rtt_scale_applied =
        self.counters.drr_rtt_scale_applied.saturating_add(hits);
        None
    }

    fn next_control(&mut self) -> (out: Option<NextPacket>)
        requires
            old(self).wf(),
        ensures
            final(self).wf(),
            (out, final(self)@) == pacing::control_next(old(self)@),
    {
        match first_packet(&mut self.control_q) {
            Some(q) => Some(NextPacket::Control(q)),
            None => None,
        }
    }

    /// A control packet's turn, between others.
    fn try_pop_control_interleaved(&mut self, now: u64) -> (out: Option<NextPacket>)
        requires
            old(self).wf(),
        ensures
            final(self).wf(),
            (out, final(self)@) == pacing::interleaved(old(self)@, now),
    {
        let len: usize = self.control_q.len();
        let cap: usize = cap_or_one(self.config.max_control_queue_packets);
        let pressed: bool = len >= cap || len >= cap - len;
        let aging: bool = len > 0 && since(now, self.control_q[0].enqueued_at) >= CONTROL_AGING_US;
        let share: u8 = if pressed || aging {
            2
        } else {
            4
        };
        self.interleave_counter = if self.interleave_counter == u8::MAX {
            0
        } else {
            self.interleave_counter + 1
        };
        if self.interleave_counter % share == 0 {
            return self.next_control();
        }
        None
    }

    /// Takes the next packet out. Where `freeze_drr` holds, the destinations are
    /// served in turn without counting bytes.
    pub fn pop_next_apd(&mut self, terms: &Vec<PeerTerms>, freeze_drr: bool, now: u64) -> (out:
        Option<NextPacket>)
        requires
            old(self).wf(),
            terms@.len() == old(self)@.lanes.len(),
        ensures
            final(self).wf(),
            (out, final(self)@) == pacing::popped(old(self)@, terms@, freeze_drr, now),
    {
        if let Some(q) = first_packet(&mut self.retransmit_q) {
            return Some(NextPacket::Control(q));
        }
        let p = self.try_pop_control_interleaved(now);
        if p.is_some() {
            return p;
        }
        let p = self.next_data(terms, freeze_drr, now);
        if p.is_some() {
            return p;
        }
        self.next_control()
    }

    /// Takes the next packet out.
    pub fn pop_next(&mut self, terms: &Vec<PeerTerms>, now: u64) -> (out: Option<NextPacket>)
        requires
            old(self).wf(),
            terms@.len() == old(self)@.lanes.len(),
        ensures
            final(self).wf(),
            (out, final(self)@) == pacing::popped(old(self)@, terms@, false, now),
    {
        self.pop_next_apd(terms, false, now)
    }

    /// Puts a packet back, to be the next one.
    pub fn requeue(&mut self, p: NextPacket)
        requires
            old(self).wf(),
        ensures
            final(self).wf(),
            final(self)@ == pacing::requeued(old(self)@, p),
    {
        let ghost v0 = self@;
        match p {
            NextPacket::Control(q) => {
                let ghost c0 = self.control_q@;
                self.control_q.push_front(q);
                proof {
                    assert(self.control_q@ =~= seq![q] + c0);
                }
            },
            NextPacket::Data { pkt, dest, enqueued_at } => {
                self.requeue_data_at_front(dest, pkt, enqueued_at);
            },
        }
    }

    fn requeue_data_at_front(&mut self, dest: Endpoint, pkt: Vec<u8>, enqueued_at: u64)
        requires
            old(self).wf(),
        ensures
            final(self).wf(),
            final(self)@ == pacing::requeued(
                old(self)@,
                NextPacket::Data { pkt, dest, enqueued_at },
            ),
    {
        let ghost v0 = self@;
        let cfg = self.peer_lane_config();
        let i: usize = self.ensure_lane(dest);
        let ghost s = self.peer_queues@;
        let total: usize = self.peer_queues.len();
        let q = self.peer_queues.at_mut(i);
        let was_empty: bool = q.is_empty();
        q.push_front_requeue(QueuedData { pkt, enqueued_at }, cfg);
        proof {
            let l = self.peer_queues@[i as int].1;
            counts_at(s, i as int, l);
            waiting_in_range(self.peer_queues@);
        }
        if was_empty {
            self.non_empty_peers = self.non_empty_peers + 1;
        }
        proof {
            assert(self@ =~= pacing::requeued(v0, NextPacket::Data { pkt, dest, enqueued_at }));
        }
    }

    /// A turn of shedding.
    fn take_shed_turn(&mut self, n: usize, now: u64) -> (dropped: bool)
        requires
            old(self).wf(),
            n == old(self)@.lanes.len(),
            n > 0,
        ensures
            final(self).wf(),
            (dropped, final(self)@) == pacing::shed_turn(old(self)@, now),
            final(self)@.lanes.len() == n,
    {
        let ghost v0 = self@;
        let i: usize = self.turn(n);
        let stale: bool = match self.peer_queues.at(i).1.bulk_front_sojourn(now) {
            Some(age) => age > 1000 * self.config.shed.max_sojourn_ms as u64,
            None => false,
        };
        if !stale {
            return false;
        }
        let q = self.peer_queues.at_mut(i);
        let _ = q.pop_bulk_front();
        let now_empty: bool = q.is_empty();
        proof {
            counts_at(v0.lanes, i as int, self.peer_queues@[i as int].1);
        }
        if now_empty {
            self.non_empty_peers = self.non_empty_peers - 1;
        }
        self.counters.shed_sojourn = self.counters.shed_sojourn.saturating_add(1);
        self.counters.dropped_packets = self.counters.dropped_packets.saturating_add(1);
        proof {
            assert(self@ =~= pacing::shed_turn(v0, now).1);
        }
        true
    }

    /// Drops large packets that have waited too long, while the queues are full
    /// enough and time is left.
    pub fn shed_stale_bulk_rr<F: Fn() -> bool>(
        &mut self,
        full_enough: bool,
        now: u64,
        past_deadline: F,
    )
        requires
            old(self).wf(),
            call_requires(past_deadline, ()),
        ensures
            final(self).wf(),
            !shed_due(old(self)@, full_enough) ==> final(self)@ == old(self)@,
            shed_due(old(self)@, full_enough) ==> exists|k: nat|
                k <= old(self)@.lanes.len() && final(self)@ == #[trigger] pacing::shed_turns(
                    old(self)@,
                    now,
                    old(self)@.cfg.shed.max_per_tick as nat,
                    k,
                ),
            shed_due(old(self)@, full_enough) && (forall|b: bool|
                call_ensures(past_deadline, (), b) ==> !b) ==> final(self)@ == pacing::shed_turns(
                old(self)@,
                now,
                old(self)@.cfg.shed.max_per_tick as nat,
                old(self)@.lanes.len(),
            ),
    {
        let ghost v0 = self@;
        if !self.config.shed.enabled || self.non_empty_peers == 0 || !full_enough {
            return;
        }
        let n: usize = self.peer_queues.len();
        let most: u32 = self.config.shed.max_per_tick;
        let mut dropped: u32 = 0;
        let mut k: usize = 0;
        proof {
            waiting_in_range(self.peer_queues@);
        }
        while k < n && dropped < most
            invariant
                k <= n,
                dropped <= most,
                n > 0,
                most == v0.cfg.shed.max_per_tick,
                self.wf(),
                n == self@.lanes.len(),
                n == v0.lanes.len(),
                call_requires(past_deadline, ()),
                self@ == pacing::shed_turns(v0, now, most as nat, k as nat),
                pacing::shed_turns(v0, now, most as nat, n as nat) == pacing::shed_turns(
                    self@,
                    now,
                    (most - dropped) as nat,
                    (n - k) as nat,
                ),
                forall|j: nat|
                    #![trigger pacing::shed_turns(v0, now, most as nat, k as nat + j)]
                    pacing::shed_turns(v0, now, most as nat, k as nat + j) == pacing::shed_turns(
                        self@,
                        now,
                        (most - dropped) as nat,
                        j,
                    ),
                shed_due(v0, full_enough),
                v0 == old(self)@,
            decreases n - k,
        {
            if past_deadline() {
                return;
            }
            let ghost before = self@;
            let ghost left = (most - dropped) as nat;
            if self.take_shed_turn(n, now) {
                dropped += 1;
            }
            proof {
                assert forall|j: nat|
                    #![trigger pacing::shed_turns(v0, now, most as nat, (k + 1) as nat + j)]
                    pacing::shed_turns(v0, now, most as nat, (k + 1) as nat + j)
                    == pacing::shed_turns(self@, now, (most - dropped) as nat, j) by {
                    assert((k + 1) as nat + j == k as nat + (j + 1));
                    assert(pacing::shed_turns(v0, now, most as nat, k as nat + (j + 1))
                        == pacing::shed_turns(before, now, left, j + 1));
                }
                assert(pacing::shed_turns(v0, now, most as nat, (k + 1) as nat + 0)
                    == pacing::shed_turns(self@, now, (most - dropped) as nat, 0));
            }
            k += 1;
        }
    }

    /// How full the queues are.
    pub fn queue_snapshot(&self) -> (out: PacingQueueSnapshot)
        requires
            self.wf(),
        ensures
            out == snapshot_of(self@),
    {
        let n: usize = self.peer_queues.len();
        let mut data: usize = 0;
        let mut i: usize = 0;
        while i < n
            invariant
                i <= n,
                n == self@.lanes.len(),
                self.wf(),
                data == lane::len_shown(pacing::data_queued(self@.lanes, i as nat)),
            decreases n - i,
        {
            data = data.saturating_add(self.peer_queues.at(i).1.len());
            i += 1;
        }
        let peers: usize = if self.non_empty_peers == 0 {
            1
        } else {
            self.non_empty_peers
        };
        let room: usize = saturating_product(peers, self.config.max_data_queue_packets);
        PacingQueueSnapshot {
            data_queued: data,
            control_queued: self.control_q.len(),
            retransmit_queued: self.retransmit_q.len(),
            queue_capacity: room.saturating_add(
                self.config.max_control_queue_packets,
            ).saturating_add(self.config.max_retransmit_queue_packets),
        }
    }

    /// How long the packet has waited that has waited longest of those at the
    /// head of a queue.
    pub fn max_hol_sojourn(&self, now: u64) -> (out: u64)
        requires
            self.wf(),
        ensures
            out == longest_wait(self@, now, self@.lanes.len()),
    {
        let mut most: u64 = 0;
        if self.control_q.len() > 0 {
            most = larger64(most, since(now, self.control_q[0].enqueued_at));
        }
        if self.retransmit_q.len() > 0 {
            most = larger64(most, since(now, self.retransmit_q[0].enqueued_at));
        }
        let n: usize = self.peer_queues.len();
        let mut i: usize = 0;
        while i < n
            invariant
                i <= n,
                n == self@.lanes.len(),
                self.wf(),
                most == longest_wait(self@, now, i as nat),
            decreases n - i,
        {
            most = larger64(most, self.peer_queues.at(i).1.hol_sojourn(now));
            i += 1;
        }
        most
    }

    /// What congestion control is asked: for each destination, in their order,
    /// the length of its next packet and how long packets have waited. A
    /// destination for which none wait has length zero.
    pub fn cc_questions(&self, now: u64) -> (out: Vec<(Endpoint, usize, u64)>)
        requires
            self.wf(),
        ensures
            out@.len() == self@.lanes.len(),
            forall|i: int|
                0 <= i < out@.len() ==> (#[trigger] out@[i]).0 == self@.lanes[i].0 && out@[i].1
                    == lane::front_bytes(
                    self@.lanes[i].1,
                    pacing::lane_cfg(self@.cfg),
                    now,
                ) && out@[i].2 == lane::hol_age(self@.lanes[i].1, now),
    {
        let cfg = self.peer_lane_config();
        let mut out: Vec<(Endpoint, usize, u64)> = Vec::new();
        let n: usize = self.peer_queues.len();
        let mut i: usize = 0;
        while i < n
            invariant
                i <= n,
                n == self@.lanes.len(),
                self.wf(),
                cfg == pacing::lane_cfg(self@.cfg),
                out@.len() == i,
                forall|j: int|
                    0 <= j < i ==> (#[trigger] out@[j]).0 == self@.lanes[j].0 && out@[j].1
                        == lane::front_bytes(self@.lanes[j].1, cfg, now) && out@[j].2
                        == lane::hol_age(self@.lanes[j].1, now),
            decreases n - i,
        {
            let (dest, q) = self.peer_queues.at(i);
            out.push((dest, q.front_len(cfg, now), q.hol_sojourn(now)));
            i += 1;
        }
        out
    }

    /// Whether congestion control lets some destination send. `open` tells for
    /// each destination, in their order, whether it lets that one.
    pub fn any_peer_data_cc_sendable(&self, cc_enabled: bool, open: &Vec<bool>) -> (b: bool)
        requires
            self.wf(),
            open@.len() == self@.lanes.len(),
        ensures
            b == (!cc_enabled || self@.non_empty == 0 || exists|i: int|
                0 <= i < self@.lanes.len() && lane::lane_len(self@.lanes[i].1) > 0
                    && #[trigger] open@[i]),
    {
        if !cc_enabled {
            return true;
        }
        let n: usize = self.peer_queues.len();
        let mut i: usize = 0;
        while i < n
            invariant
                i <= n,
                n == self@.lanes.len(),
                open@.len() == n,
                self.wf(),
                forall|j: int|
                    0 <= j < i ==> !(lane::lane_len(self@.lanes[j].1) > 0 && #[trigger] open@[j]),
            decreases n - i,
        {
            if open[i] && !self.peer_queues.at(i).1.is_empty() {
                assert(lane::lane_len(self@.lanes[i as int].1) > 0 && open@[i as int]);
                return true;
            }
            i += 1;
        }
        self.non_empty_peers == 0
    }

    /// The round trip times of the destinations for which packets wait, as far
    /// as they are known.
    pub fn rtt_samples(&self) -> (out: Vec<u32>)
        requires
            self.wf(),
        ensures
            out@ == known_rtts(self@.lanes, self@.lanes.len()),
    {
        let mut out: Vec<u32> = Vec::new();
        let n: usize = self.peer_queues.len();
        let mut i: usize = 0;
        while i < n
            invariant
                i <= n,
                n == self@.lanes.len(),
                self.wf(),
                out@ == known_rtts(self@.lanes, i as nat),
            decreases n - i,
        {
            let q = self.peer_queues.at(i).1;
            if !q.is_empty() {
                if let Some(r) = q.rtt_bits {
                    out.push(r);
                }
            }
            i += 1;
        }
        out
    }

    /// The round trip time of each destination, in their order, if it is known.
    pub fn peer_rtts(&self) -> (out: Vec<Option<u32>>)
        requires
            self.wf(),
        ensures
            out@.len() == self@.lanes.len(),
            forall|i: int|
                0 <= i < out@.len() ==> #[trigger] out@[i] == self@.lanes[i].1.rtt_bits,
    {
        let mut out: Vec<Option<u32>> = Vec::new();
        let n: usize = self.peer_queues.len();
        let mut i: usize = 0;
        while i < n
            invariant
                i <= n,
                n == self@.lanes.len(),
                self.wf(),
                out@.len() == i,
                forall|j: int| 0 <= j < i ==> #[trigger] out@[j] == self@.lanes[j].1.rtt_bits,
            decreases n - i,
        {
            out.push(self.peer_queues.at(i).1.rtt_bits);
            i += 1;
        }
        out
    }

    /// Changes the settings.
    pub fn set_config(&mut self, cfg: PacingConfig)
        requires
            old(self).wf(),
            cfg.max_queue_packets * 2 <= usize::MAX,
        ensures
            final(self).wf(),
            final(self)@ == configured(old(self)@, cfg),
    {
        let mut c: PacingConfig = cfg;
        c.sanitize();
        let changed: bool = self.apd.cfg != c.apd;
        self.apd.cfg = c.apd;
        self.apd.last_pure_spin = false;
        self.apd.last_tick_us = 0;
        if changed {
            self.apd.reset_runtime(self.config.base_max_burst);
        }
        self.config = c;
        self.consecutive_errors = 0;
    }

    /// Forgets all packets and all that was counted, and keeps the settings.
    pub fn reset_session_runtime(&mut self)
        requires
            old(self).wf(),
        ensures
            final(self).wf(),
            final(self)@ == (pacing::PacerView {
                cfg: old(self)@.cfg,
                control: Seq::empty(),
                rtx: Seq::empty(),
                lanes: Seq::empty(),
                non_empty: 0,
                errors: 0,
                interleave: 0,
                cursor: 0,
                apd: ApdState {
                    ramp_burst: old(self)@.cfg.base_max_burst,
                    last_effective_burst: old(self)@.cfg.base_max_burst,
                    ..apd::fresh_apd(old(self)@.apd.cfg)
                },
                n: pacing::no_counts(),
            }),
    {
        self.control_q.clear();
        self.retransmit_q.clear();
        self.peer_queues.clear();
        self.non_empty_peers = 0;
        self.consecutive_errors = 0;
        self.interleave_counter = 0;
        self.drr_cursor = 0;
        self.counters = PacingCounters {
            dropped_packets: 0,
            dropped_data: 0,
            dropped_control_normal: 0,
            dropped_control_retransmit: 0,
            reserved_ctrl_sends: 0,
            reserved_rtx_sends: 0,
            drr_small_priority_pops: 0,
            drr_bulk_force_pops: 0,
            shed_sojourn: 0,
            drr_rtt_scale_applied: 0,
            cc_rate_limited_events: 0,
        };
        let mut a = ApdState::new(self.apd.cfg);
        a.ramp_burst = self.config.base_max_burst;
        a.last_effective_burst = self.config.base_max_burst;
        self.apd = a;
    }

    pub fn dropped_packets(&self) -> (n: u64)
        ensures
            n == self@.n.dropped_packets,
    {
        self.counters.dropped_packets
    }

    pub fn dropped_data(&self) -> (n: u64)
        ensures
            n == self@.n.dropped_data,
    {
        self.counters.dropped_data
    }

    pub fn dropped_control_normal(&self) -> (n: u64)
        ensures
            n == self@.n.dropped_control_normal,
    {
        self.counters.dropped_control_normal
    }

    pub fn dropped_control_retransmit(&self) -> (n: u64)
        ensures
            n == self@.n.dropped_control_retransmit,
    {
        self.counters.dropped_control_retransmit
    }

    pub fn shed_sojourn(&self) -> (n: u64)
        ensures
            n == self@.n.shed_sojourn,
    {
        self.counters.shed_sojourn
    }

    pub fn reserved_ctrl_sends(&self) -> (n: u64)
        ensures
            n == self@.n.reserved_ctrl_sends,
    {
        self.counters.reserved_ctrl_sends
    }

    pub fn reserved_rtx_sends(&self) -> (n: u64)
        ensures
            n == self@.n.reserved_rtx_sends,
    {
        self.counters.reserved_rtx_sends
    }

    pub fn drr_small_priority_pops(&self) -> (n: u64)
        ensures
            n == self@.n.drr_small_priority_pops,
    {
        self.counters.drr_small_priority_pops
    }

    pub fn drr_bulk_force_pops(&self) -> (n: u64)
        ensures
            n == self@.n.drr_bulk_force_pops,
    {
        self.counters.drr_bulk_force_pops
    }

    pub fn drr_rtt_scale_applied(&self) -> (n: u64)
        ensures
            n == self@.n.drr_rtt_scale_applied,
    {
        self.counters.drr_rtt_scale_applied
    }

    pub fn cc_rate_limited_events(&self) -> (n: u64)
        ensures
            n == self@.n.cc_rate_limited_events,
    {
        self.counters.cc_rate_limited_events
    }

    /// Whether the clock is to spin, and the time between ticks that it is to
    /// keep.
    pub fn apd_signal(&self) -> (out: (bool, u64))
        ensures
            out == (self@.apd.last_pure_spin, self@.apd.last_tick_us),
    {
        (self.apd.last_pure_spin, self.apd.last_tick_us)
    }

    /// How often and how long the queues were drained, how many packets that
    /// sent, how often time ran out, and what the drain is doing.
    pub fn apd_metrics(&self) -> (out: (u64, u64, u64, u64, ApdPhase))
        ensures
            out == (
                self@.apd.drain_episodes,
                self@.apd.drain_ms_total,
                self@.apd.packets_drained,
                self@.apd.drain_budget_hits,
                self@.apd.phase,
            ),
    {
        (
            self.apd.drain_episodes,
            self.apd.drain_ms_total,
            self.apd.packets_drained,
            self.apd.drain_budget_hits,
            self.apd.phase,
        )
    }

    pub fn apd_ramp_observability(&self) -> (out: (u64, u64, u64))
        ensures
            out == (
                self@.apd.ramp_active_ticks,
                self@.apd.ramp_pinned_ticks,
                self@.apd.last_effective_burst,
            ),
    {
        (
            self.apd.ramp_active_ticks,
            self.apd.ramp_pinned_ticks,
            self.apd.last_effective_burst,
        )
    }

    pub fn apd_sojourn_observability(&self) -> (out: (u64, u64, u64))
        ensures
            out == (
                self@.apd.drain_arm_fill,
                self@.apd.drain_arm_sojourn,
                self@.apd.last_max_sojourn_ms,
            ),
    {
        (self.apd.drain_arm_fill, self.apd.drain_arm_sojourn, self.apd.last_max_sojourn_ms)
    }

    pub fn apd_cc_headroom_suppressions(&self) -> (n: u64)
        ensures
            n == self@.apd.cc_headroom_suppressions,
    {
        self.apd.cc_headroom_suppressions
    }
}

/// A packet for a destination was taken.
pub open spec fn enqueue_done(
    v: pacing::PacerView,
    pkt: Vec<u8>,
    dest: Endpoint,
    rtt: Option<u32>,
    qd: Option<u32>,
    now: u64,
    kept: bool,
    v1: pacing::PacerView,
) -> bool {
    let s = pacing::with_lane(v.lanes, dest);
    &&& v1 == pacing::enqueued(v, QueuedData { pkt, enqueued_at: now }, dest, rtt, qd)
    &&& kept == (lane::lane_len(s[pacing::lane_ix(s, dest)].1) < pacing::lane_cap(v.cfg))
}

/// Packets can be shed.
pub open spec fn shed_due(v: pacing::PacerView, full_enough: bool) -> bool {
    v.cfg.shed.enabled && v.non_empty > 0 && full_enough
}

/// How full the queues are.
pub open spec fn snapshot_of(v: pacing::PacerView) -> PacingQueueSnapshot {
    let peers = if v.non_empty == 0 {
        1
    } else {
        v.non_empty
    };
    let room = lane::len_shown(peers * v.cfg.max_data_queue_packets as nat);
    PacingQueueSnapshot {
        data_queued: lane::len_shown(pacing::data_queued(v.lanes, v.lanes.len())) as usize,
        control_queued: v.control.len() as usize,
        retransmit_queued: v.rtx.len() as usize,
        queue_capacity: lane::len_shown(
            lane::len_shown(room + v.cfg.max_control_queue_packets as nat)
                + v.cfg.max_retransmit_queue_packets as nat,
        ) as usize,
    }
}

/// How long the packet has waited that has waited longest of those at the head
/// of a control queue or of one of the first `n` destinations.
pub open spec fn longest_wait(v: pacing::PacerView, now: u64, n: nat) -> int
    decreases n,
{
    if n == 0 {
        let a = if v.control.len() > 0 {
            crate::engine_state::elapsed(now, v.control[0].enqueued_at)
        } else {
            0
        };
        let b = if v.rtx.len() > 0 {
            crate::engine_state::elapsed(now, v.rtx[0].enqueued_at)
        } else {
            0
        };
        apd::larger(a, b)
    } else {
        apd::larger(longest_wait(v, now, (n - 1) as nat), lane::hol_age(v.lanes[n - 1].1, now))
    }
}

/// The round trip times of the first `n` destinations for which packets wait, as
/// far as they are known.
pub open spec fn known_rtts(s: Seq<(Endpoint, lane::LaneView)>, n: nat) -> Seq<u32>
    decreases n,
{
    if n == 0 {
        Seq::empty()
    } else {
        let rest = known_rtts(s, (n - 1) as nat);
        let l = s[n - 1].1;
        if lane::lane_len(l) > 0 && l.rtt_bits is Some {
            rest.push(l.rtt_bits->0)
        } else {
            rest
        }
    }
}

/// The pacer with new settings. The drain starts anew where its settings change.
pub open spec fn configured(v: pacing::PacerView, cfg: PacingConfig) -> pacing::PacerView {
    let c = pacing::config_sane(cfg);
    let a = ApdState { cfg: c.apd, last_pure_spin: false, last_tick_us: 0, ..v.apd };
    pacing::PacerView {
        cfg: c,
        errors: 0,
        apd: if v.apd.cfg != c.apd {
            ApdState {
                phase: ApdPhase::Cooldown,
                confirm_counter: 0,
                drain_entered_at: None,
                cooldown_until: None,
                ramp_burst: v.cfg.base_max_burst,
                ..a
            }
        } else {
            a
        },
        ..v
    }
}

fn larger64(a: u64, b: u64) -> (out: u64)
    ensures
        out == apd::larger(a as int, b as int),
{
    if a >= b {
        a
    } else {
        b
    }
}

fn times_four(n: usize) -> (out: usize)
    ensures
        out == if n * 4 > usize::MAX {
            usize::MAX as int
        } else {
            n * 4
        },
{
    let two: usize = n.saturating_add(n);
    two.saturating_add(two)
}

fn saturating_product(a: usize, b: usize) -> (out: usize)
    ensures
        out == lane::len_shown((a * b) as nat),
{
    proof {
        assert(0 <= a * b) by (nonlinear_arith)
            requires
                0 <= a,
                0 <= b,
        ;
    }
    match a.checked_mul(b) {
        Some(p) => p,
        None => usize::MAX,
    }
}

/// Puts the packets of a batch at the end of the lanes.
fn push_batch(q: &mut lane::PeerDataQueue, pkts: Vec<Vec<u8>>, now: u64, cfg: LaneConfig)
    ensures
        final(q)@ == pacing::batch_appended(old(q)@, pkts@, now, cfg, pkts@.len()),
{
    let ghost all = pkts@;
    let ghost l0 = q@;
    let mut rest = pkts;
    let ghost mut k: int = 0;
    proof {
        assert(rest@ =~= all.skip(0));
    }
    while rest.len() > 0
        invariant
            0 <= k <= all.len(),
            rest@ == all.skip(k),
            q@ == pacing::batch_appended(l0, all, now, cfg, k as nat),
        decreases rest@.len(),
    {
        let pkt = rest.remove(0);
        proof {
            assert(pkt == all[k]);
            assert(rest@ =~= all.skip(k + 1));
            k = k + 1;
        }
        q.push_back_classified(QueuedData { pkt, enqueued_at: now }, cfg);
    }
}

/// A batch adds as many packets as it has.
proof fn batch_len(l: lane::LaneView, pkts: Seq<Vec<u8>>, now: u64, cfg: LaneConfig, n: nat)
    ensures
        lane::lane_len(pacing::batch_appended(l, pkts, now, cfg, n)) == lane::lane_len(l) + n,
    decreases n,
{
    if n > 0 {
        batch_len(l, pkts, now, cfg, (n - 1) as nat);
    }
}

/// A destination is in one place alone.
proof fn index_is_unique(s: Seq<(Endpoint, lane::LaneView)>, ep: Endpoint, i: int)
    requires
        lane_map::distinct_lanes(s),
        lane_map::lane_at(s, ep, i),
    ensures
        pacing::has_lane(s, ep),
        pacing::lane_ix(s, ep) == i,
{
    let j = pacing::lane_ix(s, ep);
    assert(lane_map::lane_at(s, ep, j));
    if i < j {
        assert(s[i].0 != s[j].0);
    }
    if j < i {
        assert(s[j].0 != s[i].0);
    }
}

/// An empty lane at the end changes no count.
proof fn counts_of_prefix(
    s: Seq<(Endpoint, lane::LaneView)>,
    t: Seq<(Endpoint, lane::LaneView)>,
)
    requires
        t.len() == s.len() + 1,
        t.drop_last() == s,
        lane::lane_len(t.last().1) == 0,
    ensures
        pacing::waiting(t, t.len()) == pacing::waiting(s, s.len()),
{
    pacing::counts_same(s, t, s.len());
}

/// What a change of one lane does to the number of destinations that wait.
proof fn counts_at(s: Seq<(Endpoint, lane::LaneView)>, i: int, l: lane::LaneView)
    requires
        0 <= i < s.len(),
    ensures
        ({
            let t = pacing::lanes_set(s, i, l);
            let a = if lane::lane_len(s[i].1) > 0 {
                1int
            } else {
                0int
            };
            let b = if lane::lane_len(l) > 0 {
                1int
            } else {
                0int
            };
            &&& pacing::waiting(t, t.len()) == pacing::waiting(s, s.len()) + b - a
            &&& pacing::waiting(s, s.len()) >= a
        }),
{
    pacing::counts_after_update(s, i, l, s.len());
}

/// No more destinations wait than there are.
proof fn waiting_in_range(s: Seq<(Endpoint, lane::LaneView)>)
    ensures
        pacing::waiting(s, s.len()) <= s.len(),
{
    pacing::waiting_at_most(s, s.len());
}

/// What taking out one lane does to the number of destinations that wait.
proof fn removed_count(s: Seq<(Endpoint, lane::LaneView)>, i: int)
    requires
        0 <= i < s.len(),
    ensures
        pacing::waiting(s.remove(i), (s.len() - 1) as nat) == pacing::waiting(s, s.len())
            - if lane::lane_len(s[i].1) > 0 {
            1int
        } else {
            0int
        },
{
    pacing::counts_after_remove(s, i);
}

} // verus!
