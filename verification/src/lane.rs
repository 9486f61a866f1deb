//! The packets that wait for one destination, in two lanes: small ones and
//! others.
//!
//! Times are microseconds.

use crate::engine_state;
use crate::engine_state::since;
use crate::pacing_defaults::{DRR_BULK_HOL_FORCE_MS, DRR_SMALL_BULK_FORCE_AFTER};
use std::collections::VecDeque;
use vstd::prelude::*;

verus! {

/// A packet that waits, and since when.
pub struct QueuedData {
    pub pkt: Vec<u8>,
    pub enqueued_at: u64,
}

/// From which lane a packet came.
#[derive(Clone, Copy, Debug, PartialEq, Eq, Structural)]
pub enum PeerPopKind {
    SmallPriority,
    Bulk,
    BulkForced,
}

/// The packets that wait for one destination.
pub struct PeerDataQueue {
    pub small: VecDeque<QueuedData>,
    pub bulk: VecDeque<QueuedData>,
    /// How many bytes the destination may send.
    pub deficit: usize,
    /// How many small packets went out since the last other one.
    pub consecutive_small_pops: u8,
    /// The round trip time of the path, as the bits of a floating point number.
    pub rtt_bits: Option<u32>,
    /// The queuing delay of the path, as the bits of a floating point number.
    pub queuing_delay_bits: Option<u32>,
}

/// The packets that wait for one destination.
#[verifier::ext_equal]
pub ghost struct LaneView {
    pub small: Seq<QueuedData>,
    pub bulk: Seq<QueuedData>,
    pub deficit: usize,
    pub small_run: u8,
    pub rtt_bits: Option<u32>,
    pub queuing_delay_bits: Option<u32>,
}

impl View for PeerDataQueue {
    type V = LaneView;

    open spec fn view(&self) -> LaneView {
        LaneView {
            small: self.small@,
            bulk: self.bulk@,
            deficit: self.deficit,
            small_run: self.consecutive_small_pops,
            rtt_bits: self.rtt_bits,
            queuing_delay_bits: self.queuing_delay_bits,
        }
    }
}

/// How the lanes are served.
#[derive(Clone, Copy, Debug, PartialEq, Eq, Structural)]
pub struct LaneConfig {
    /// Small packets go first.
    pub priority_on: bool,
    /// From how many bytes on a packet is not small.
    pub threshold: usize,
}

/// A lane without packets.
pub open spec fn empty_lane() -> LaneView {
    LaneView {
        small: Seq::empty(),
        bulk: Seq::empty(),
        deficit: 0,
        small_run: 0,
        rtt_bits: None,
        queuing_delay_bits: None,
    }
}

/// The packet goes to the lane of small packets.
pub open spec fn is_small(len: nat, cfg: LaneConfig) -> bool {
    cfg.priority_on && len < cfg.threshold
}

/// How many packets wait.
pub open spec fn lane_len(l: LaneView) -> nat {
    l.small.len() + l.bulk.len()
}

/// A number of packets as it is shown: one that no machine word holds is shown as
/// the largest that one does.
pub open spec fn len_shown(n: nat) -> nat {
    if n > usize::MAX {
        usize::MAX as nat
    } else {
        n
    }
}

/// The lane with a packet at its end.
pub open spec fn appended(l: LaneView, e: QueuedData, cfg: LaneConfig) -> LaneView {
    if is_small(e.pkt@.len(), cfg) {
        LaneView { small: l.small.push(e), ..l }
    } else {
        LaneView { bulk: l.bulk.push(e), ..l }
    }
}

/// The lane with a packet at its front.
pub open spec fn prepended(l: LaneView, e: QueuedData, cfg: LaneConfig) -> LaneView {
    if is_small(e.pkt@.len(), cfg) {
        LaneView { small: seq![e] + l.small, ..l }
    } else {
        LaneView { bulk: seq![e] + l.bulk, ..l }
    }
}

/// The lane without its oldest packet, a large one if there is one.
pub open spec fn oldest_dropped(l: LaneView) -> LaneView {
    if l.bulk.len() > 0 {
        LaneView { bulk: l.bulk.skip(1), ..l }
    } else if l.small.len() > 0 {
        LaneView { small: l.small.skip(1), ..l }
    } else {
        l
    }
}

/// The lane after a packet came, where it holds `max_depth` packets at most.
pub open spec fn lane_pushed(l: LaneView, e: QueuedData, max_depth: nat, cfg: LaneConfig) -> LaneView {
    if lane_len(l) >= max_depth {
        appended(oldest_dropped(l), e, cfg)
    } else {
        appended(l, e, cfg)
    }
}

/// How long the first packet has waited.
pub open spec fn head_age(s: Seq<QueuedData>, now: u64) -> int {
    if s.len() == 0 {
        0
    } else {
        engine_state::elapsed(now, s[0].enqueued_at)
    }
}

/// How long the packet at the head of either lane has waited.
pub open spec fn hol_age(l: LaneView, now: u64) -> int {
    let a = head_age(l.small, now);
    let b = head_age(l.bulk, now);
    if a >= b {
        a
    } else {
        b
    }
}

/// Large packets had to wait too often, or too long.
pub open spec fn bulk_forced(l: LaneView, now: u64) -> bool {
    l.bulk.len() > 0 && (l.small_run >= DRR_SMALL_BULK_FORCE_AFTER || head_age(l.bulk, now)
        >= DRR_BULK_HOL_FORCE_MS * 1000)
}

/// The next packet comes from the lane of small packets.
pub open spec fn takes_small(l: LaneView, cfg: LaneConfig, now: u64) -> bool {
    if !cfg.priority_on {
        l.small.len() > 0 && (l.bulk.len() == 0 || l.small[0].enqueued_at
            <= l.bulk[0].enqueued_at)
    } else {
        !bulk_forced(l, now) && l.small.len() > 0
    }
}

/// How the next packet is picked.
pub open spec fn pop_kind(l: LaneView, cfg: LaneConfig, now: u64) -> PeerPopKind {
    if !cfg.priority_on {
        PeerPopKind::Bulk
    } else if bulk_forced(l, now) {
        PeerPopKind::BulkForced
    } else if l.small.len() > 0 {
        PeerPopKind::SmallPriority
    } else {
        PeerPopKind::Bulk
    }
}

/// The next packet.
pub open spec fn lane_front(l: LaneView, cfg: LaneConfig, now: u64) -> QueuedData {
    if takes_small(l, cfg, now) {
        l.small[0]
    } else {
        l.bulk[0]
    }
}

/// The length of the next packet.
pub open spec fn front_bytes(l: LaneView, cfg: LaneConfig, now: u64) -> nat {
    if lane_len(l) == 0 {
        0
    } else {
        lane_front(l, cfg, now).pkt@.len()
    }
}

/// The lane without its next packet.
pub open spec fn lane_popped(l: LaneView, cfg: LaneConfig, now: u64) -> LaneView {
    let rest = if takes_small(l, cfg, now) {
        LaneView { small: l.small.skip(1), ..l }
    } else {
        LaneView { bulk: l.bulk.skip(1), ..l }
    };
    if !cfg.priority_on {
        rest
    } else if takes_small(l, cfg, now) {
        LaneView {
            small_run: if l.small_run == u8::MAX {
                u8::MAX
            } else {
                (l.small_run + 1) as u8
            },
            ..rest
        }
    } else {
        LaneView { small_run: 0, ..rest }
    }
}

fn take_first(q: &mut VecDeque<QueuedData>) -> (out: Option<QueuedData>)
    ensures
        match out {
            Some(e) => old(q)@.len() > 0 && e == old(q)@[0] && final(q)@ == old(q)@.skip(1),
            None => old(q)@.len() == 0 && final(q)@ == old(q)@,
        },
{
    let ghost before = q@;
    let out = q.pop_front();
    proof {
        if before.len() > 0 {
            assert(q@ =~= before.skip(1));
        }
    }
    out
}

fn age_of(q: &VecDeque<QueuedData>, now: u64) -> (out: u64)
    ensures
        out == head_age(q@, now),
{
    if q.len() == 0 {
        0
    } else {
        since(now, q[0].enqueued_at)
    }
}

impl PeerDataQueue {
    pub fn new() -> (out: Self)
        ensures
            out@ == empty_lane(),
    {
        PeerDataQueue {
            small: VecDeque::new(),
            bulk: VecDeque::new(),
            deficit: 0,
            consecutive_small_pops: 0,
            rtt_bits: None,
            queuing_delay_bits: None,
        }
    }

    pub fn is_small_packet(len: usize, cfg: LaneConfig) -> (b: bool)
        ensures
            b == is_small(len as nat, cfg),
    {
        cfg.priority_on && len < cfg.threshold
    }

    pub fn is_empty(&self) -> (b: bool)
        ensures
            b == (lane_len(self@) == 0),
    {
        self.small.len() == 0 && self.bulk.len() == 0
    }

    /// How many packets wait.
    pub fn len(&self) -> (n: usize)
        ensures
            n == len_shown(lane_len(self@)),
    {
        self.small.len().saturating_add(self.bulk.len())
    }

    /// Whether `k` packets more fit, where `cap` packets can wait.
    pub fn has_room(&self, k: usize, cap: usize) -> (b: bool)
        ensures
            b == (lane_len(self@) + k <= cap),
    {
        let a: usize = self.small.len();
        let b: usize = self.bulk.len();
        a <= cap && b <= cap - a && k <= cap - a - b
    }

    fn drop_oldest_for_capacity(&mut self)
        ensures
            final(self)@ == oldest_dropped(old(self)@),
    {
        if self.bulk.len() > 0 {
            let _ = take_first(&mut self.bulk);
        } else {
            let _ = take_first(&mut self.small);
        }
    }

    /// Puts a packet at the end of its lane.
    pub fn push_back_classified(&mut self, entry: QueuedData, cfg: LaneConfig)
        ensures
            final(self)@ == appended(old(self)@, entry, cfg),
    {
        if Self::is_small_packet(entry.pkt.len(), cfg) {
            self.small.push_back(entry);
        } else {
            self.bulk.push_back(entry);
        }
    }

    /// Takes a packet. Where the lanes are full, the oldest packet makes room;
    /// the answer tells whether none had to.
    pub fn push(&mut self, entry: QueuedData, max_depth: usize, cfg: LaneConfig) -> (kept: bool)
        ensures
            final(self)@ == lane_pushed(old(self)@, entry, max_depth as nat, cfg),
            kept == (lane_len(old(self)@) < max_depth),
    {
        let a: usize = self.small.len();
        let b: usize = self.bulk.len();
        let full: bool = a >= max_depth || b >= max_depth - a;
        if full {
            self.drop_oldest_for_capacity();
        }
        self.push_back_classified(entry, cfg);
        !full
    }

    /// Puts a packet back at the front of its lane.
    pub fn push_front_requeue(&mut self, entry: QueuedData, cfg: LaneConfig)
        ensures
            final(self)@ == prepended(old(self)@, entry, cfg),
    {
        let ghost v0 = self@;
        let ghost e = entry;
        if Self::is_small_packet(entry.pkt.len(), cfg) {
            self.small.push_front(entry);
        } else {
            self.bulk.push_front(entry);
        }
        proof {
            assert(self@ =~= prepended(v0, e, cfg));
        }
    }

    /// Whether it is a large packet's turn.
    pub fn should_force_bulk(&self, now: u64) -> (b: bool)
        ensures
            b == bulk_forced(self@, now),
    {
        self.bulk.len() > 0 && (self.consecutive_small_pops >= DRR_SMALL_BULK_FORCE_AFTER
            || age_of(&self.bulk, now) >= DRR_BULK_HOL_FORCE_MS as u64 * 1000)
    }

    fn small_is_next(&self, cfg: LaneConfig, now: u64) -> (b: bool)
        ensures
            b == takes_small(self@, cfg, now),
    {
        if !cfg.priority_on {
            self.small.len() > 0 && (self.bulk.len() == 0 || self.small[0].enqueued_at
                <= self.bulk[0].enqueued_at)
        } else {
            !self.should_force_bulk(now) && self.small.len() > 0
        }
    }

    /// Takes the next packet out.
    pub fn pop_data(&mut self, cfg: LaneConfig, now: u64) -> (out: Option<
        (QueuedData, PeerPopKind),
    >)
        ensures
            match out {
                Some((e, kind)) => {
                    &&& lane_len(old(self)@) > 0
                    &&& e == lane_front(old(self)@, cfg, now)
                    &&& kind == pop_kind(old(self)@, cfg, now)
                    &&& final(self)@ == lane_popped(old(self)@, cfg, now)
                },
                None => lane_len(old(self)@) == 0 && final(self)@ == old(self)@,
            },
    {
        if self.is_empty() {
            return None;
        }
        let forced: bool = cfg.priority_on && self.should_force_bulk(now);
        if self.small_is_next(cfg, now) {
            if cfg.priority_on && self.consecutive_small_pops < u8::MAX {
                self.consecutive_small_pops = self.consecutive_small_pops + 1;
            }
            let kind: PeerPopKind = if cfg.priority_on {
                PeerPopKind::SmallPriority
            } else {
                PeerPopKind::Bulk
            };
            match take_first(&mut self.small) {
                Some(e) => Some((e, kind)),
                None => None,
            }
        } else {
            if cfg.priority_on {
                self.consecutive_small_pops = 0;
            }
            let kind: PeerPopKind = if forced {
                PeerPopKind::BulkForced
            } else {
                PeerPopKind::Bulk
            };
            match take_first(&mut self.bulk) {
                Some(e) => Some((e, kind)),
                None => None,
            }
        }
    }

    /// The length of the next packet.
    pub fn front_len(&self, cfg: LaneConfig, now: u64) -> (n: usize)
        ensures
            n == front_bytes(self@, cfg, now),
    {
        if self.is_empty() {
            0
        } else if self.small_is_next(cfg, now) {
            self.small[0].pkt.len()
        } else {
            self.bulk[0].pkt.len()
        }
    }

    /// How long the packet at the head of either lane has waited.
    pub fn hol_sojourn(&self, now: u64) -> (out: u64)
        ensures
            out == hol_age(self@, now),
    {
        let a: u64 = age_of(&self.small, now);
        let b: u64 = age_of(&self.bulk, now);
        if a >= b {
            a
        } else {
            b
        }
    }

    /// How long the first large packet has waited.
    pub fn bulk_front_sojourn(&self, now: u64) -> (out: Option<u64>)
        ensures
            match out {
                Some(age) => self@.bulk.len() > 0 && age == head_age(self@.bulk, now),
                None => self@.bulk.len() == 0,
            },
    {
        if self.bulk.len() == 0 {
            None
        } else {
            Some(age_of(&self.bulk, now))
        }
    }

    /// Takes the first large packet out.
    pub fn pop_bulk_front(&mut self) -> (out: Option<QueuedData>)
        ensures
            match out {
                Some(e) => old(self)@.bulk.len() > 0 && e == old(self)@.bulk[0] && final(self)@ == (
                LaneView { bulk: old(self)@.bulk.skip(1), ..old(self)@ }),
                None => old(self)@.bulk.len() == 0 && final(self)@ == old(self)@,
            },
    {
        take_first(&mut self.bulk)
    }
}

/// A packet that does not fit pushes one other packet out: a lane that is not
/// over its bound never gets over it.
pub proof fn lane_stays_bounded(l: LaneView, e: QueuedData, max_depth: nat, cfg: LaneConfig)
    requires
        lane_len(l) <= max_depth,
        max_depth > 0,
    ensures
        lane_len(lane_pushed(l, e, max_depth, cfg)) <= max_depth,
        lane_len(lane_pushed(l, e, max_depth, cfg)) > 0,
{
}

/// Large packets do not starve: after as many small packets in a row as are
/// allowed, the next packet is a large one, if there is one.
pub proof fn bulk_does_not_starve(l: LaneView, cfg: LaneConfig, now: u64)
    requires
        l.bulk.len() > 0,
        l.small_run >= DRR_SMALL_BULK_FORCE_AFTER,
        cfg.priority_on,
    ensures
        lane_front(l, cfg, now) == l.bulk[0],
        lane_popped(l, cfg, now).small_run == 0,
{
}

/// A packet that is put back is the next one again, if time stands still.
pub proof fn requeued_packet_is_next(l: LaneView, cfg: LaneConfig, now: u64)
    requires
        lane_len(l) > 0,
        cfg.priority_on,
        is_small(lane_front(l, cfg, now).pkt@.len(), cfg) == takes_small(l, cfg, now),
    ensures
        ({
            let back = prepended(lane_popped(l, cfg, now), lane_front(l, cfg, now), cfg);
            back.small == l.small && back.bulk == l.bulk
        }),
{
    let back = prepended(lane_popped(l, cfg, now), lane_front(l, cfg, now), cfg);
    assert(back.small =~= l.small);
    assert(back.bulk =~= l.bulk);
}

} // verus!
